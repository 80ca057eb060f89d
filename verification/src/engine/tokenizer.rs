//! The executable tokenizer, proved to produce exactly the tokens of the
//! lexical machine in [`crate::engine::lexer`].

use vstd::prelude::*;

use crate::engine::{ReadError, ReadResult};
use crate::engine::domain::Domain;
use crate::engine::lexer::{LexError, LexOut, LexState, TokenAt, lex, lex_from};
use crate::engine::position::{Position, WithPosition};
use crate::engine::tokens::{Comment, Spacing, Token, TokenView, UnquotedValue, QuotedValue};

verus! {

/// The view of a positioned token: its token view at its position.
pub open spec fn token_at<D: Domain>(t: WithPosition<Token<D>>) -> TokenAt<D::Element> {
    TokenAt {
        token: t.value@,
        line: t.position.line_number as int,
        col: t.position.column_number as int,
    }
}

/// The views of a sequence of positioned tokens.
pub open spec fn tokens_view<D: Domain>(ts: Seq<WithPosition<Token<D>>>) -> Seq<
    TokenAt<D::Element>,
> {
    ts.map_values(|t: WithPosition<Token<D>>| token_at::<D>(t))
}

/// The view of a read error, if it is a lexical one.
pub open spec fn read_error_view(e: ReadError) -> Option<LexError> {
    match e {
        ReadError::UnpairedQuote(p) => Some(
            LexError::UnpairedQuote {
                line: p.line_number as int,
                col: p.column_number as int,
            },
        ),
        ReadError::UnclosedQuotedValue(p) => Some(
            LexError::UnclosedQuotedValue {
                line: p.line_number as int,
                col: p.column_number as int,
            },
        ),
        ReadError::IoError => None,
    }
}

/// Whether an optional read error is exactly the optional lexical error.
pub open spec fn error_matches(e: Option<ReadError>, le: Option<LexError>) -> bool {
    match e {
        None => le is None,
        Some(er) => le is Some && read_error_view(er) == le,
    }
}

/// The executable mirror of [`LexState`].
enum State<D: Domain> {
    Begin,
    Unquoted { start: Position, buf: Vec<D::Element> },
    QuoteInUnquoted { start: Position, buf: Vec<D::Element>, qpos: Position },
    QuotesPrefix { start: Position, count: usize },
    Quoted { start: Position, buf: Vec<D::Element> },
    QuoteInQuoted { start: Position, buf: Vec<D::Element>, qpos: Position },
    InSpacing { start: Position, buf: Vec<D::Element> },
    InComment { start: Position, buf: Vec<D::Element> },
}

spec fn state_view<D: Domain>(st: &State<D>) -> LexState<D::Element> {
    match st {
        State::Begin => LexState::Begin,
        State::Unquoted { start, buf } => LexState::Unquoted {
            line: start.line_number as int,
            col: start.column_number as int,
            buf: buf@,
        },
        State::QuoteInUnquoted { start, buf, qpos } => LexState::QuoteInUnquoted {
            line: start.line_number as int,
            col: start.column_number as int,
            buf: buf@,
            qline: qpos.line_number as int,
            qcol: qpos.column_number as int,
        },
        State::QuotesPrefix { start, count } => LexState::QuotesPrefix {
            line: start.line_number as int,
            col: start.column_number as int,
            count: *count as int,
        },
        State::Quoted { start, buf } => LexState::Quoted {
            line: start.line_number as int,
            col: start.column_number as int,
            buf: buf@,
        },
        State::QuoteInQuoted { start, buf, qpos } => LexState::QuoteInQuoted {
            line: start.line_number as int,
            col: start.column_number as int,
            buf: buf@,
            qline: qpos.line_number as int,
            qcol: qpos.column_number as int,
        },
        State::InSpacing { start, buf } => LexState::InSpacing {
            line: start.line_number as int,
            col: start.column_number as int,
            buf: buf@,
        },
        State::InComment { start, buf } => LexState::InComment {
            line: start.line_number as int,
            col: start.column_number as int,
            buf: buf@,
        },
    }
}

/// Bounds on the counters of a state, needed to rule out overflow.
spec fn state_bounded<D: Domain>(st: &State<D>, i: int) -> bool {
    match st {
        State::QuotesPrefix { count, .. } => 1 <= *count <= i,
        _ => true,
    }
}

/// A vector holding the single element `e`.
fn singleton<D: Domain>(e: D::Element) -> (v: Vec<D::Element>)
    ensures
        v@ == seq![e],
{
    let mut v: Vec<D::Element> = Vec::new();
    v.push(e);
    proof {
        assert(v@ =~= seq![e]);
    }
    v
}

/// A vector of `n` repeated quote elements.
fn quote_run<D: Domain>(n: usize) -> (v: Vec<D::Element>)
    ensures
        v@ == crate::engine::domain::quotes::<D>(n as nat),
{
    let mut v: Vec<D::Element> = Vec::new();
    let mut j: usize = 0;
    while j < n
        invariant
            j <= n,
            v@ =~= crate::engine::domain::quotes::<D>(j as nat),
        decreases n - j,
    {
        v.push(D::quote());
        j = j + 1;
    }
    proof {
        assert(v@ =~= crate::engine::domain::quotes::<D>(n as nat));
    }
    v
}

proof fn lemma_view_push1<D: Domain>(ts: Seq<WithPosition<Token<D>>>, a: WithPosition<Token<D>>)
    ensures
        tokens_view::<D>(ts.push(a)) == tokens_view::<D>(ts) + seq![token_at::<D>(a)],
{
    assert(tokens_view::<D>(ts.push(a)) =~= tokens_view::<D>(ts) + seq![token_at::<D>(a)]);
}

proof fn lemma_view_push2<D: Domain>(
    ts: Seq<WithPosition<Token<D>>>,
    a: WithPosition<Token<D>>,
    b: WithPosition<Token<D>>,
)
    ensures
        tokens_view::<D>(ts.push(a).push(b)) == tokens_view::<D>(ts) + seq![
            token_at::<D>(a),
            token_at::<D>(b),
        ],
{
    assert(tokens_view::<D>(ts.push(a).push(b)) =~= tokens_view::<D>(ts) + seq![
        token_at::<D>(a),
        token_at::<D>(b),
    ]);
}

/// Runs the lexical machine over the whole input, returning every token
/// and at most one terminal error.
#[verifier::rlimit(100)]
pub(crate) fn tokenize<D: Domain>(input: &Vec<D::Element>) -> (r: (
    Vec<WithPosition<Token<D>>>,
    Option<ReadError>,
))
    requires
        input@.len() < usize::MAX,
    ensures
        tokens_view::<D>(r.0@) == lex::<D>(input@).tokens,
        error_matches(r.1, lex::<D>(input@).err),
{
    let ghost full: LexOut<D::Element> = lex::<D>(input@);
    let mut tokens: Vec<WithPosition<Token<D>>> = Vec::new();
    let mut st: State<D> = State::Begin;
    let mut line: usize = 1;
    let mut col: usize = 0;
    let mut i: usize = 0;
    while i < input.len()
        invariant
            full == lex::<D>(input@),
            input@.len() < usize::MAX,
            i <= input@.len(),
            1 <= line,
            line <= i + 1,
            col <= i,
            state_bounded::<D>(&st, i as int),
            tokens_view::<D>(tokens@) + lex_from::<D>(
                input@,
                i as int,
                state_view::<D>(&st),
                line as int,
                col as int,
            ).tokens == full.tokens,
            lex_from::<D>(input@, i as int, state_view::<D>(&st), line as int, col as int).err
                == full.err,
        decreases input@.len() - i,
    {
        let ghost pre_st = state_view::<D>(&st);
        let ghost rest = lex_from::<D>(input@, i as int, pre_st, line as int, col as int);
        let e = input[i];
        let c = D::code(e);
        let crlf = c == 13 && i + 1 < input.len() && D::code(input[i + 1]) == 10;
        let spacing = c == 32 || c == 9;
        st = match st {
            State::Begin => {
                if spacing {
                    let ns = State::InSpacing {
                        start: Position { line_number: line, column_number: col + 1 },
                        buf: singleton::<D>(e),
                    };
                    col = col + 1;
                    i = i + 1;
                    ns
                } else if c == 34 {
                    let ns = State::QuotesPrefix {
                        start: Position { line_number: line, column_number: col + 1 },
                        count: 1,
                    };
                    col = col + 1;
                    i = i + 1;
                    ns
                } else if c == 10 {
                    let t = WithPosition {
                        value: Token::<D>::LineBreak(crate::engine::LineBreak::Lf),
                        position: Position { line_number: line, column_number: col + 1 },
                    };
                    proof {
                        lemma_view_push1::<D>(tokens@, t);
                        assert(tokens_view::<D>(tokens@.push(t)) + lex_from::<D>(
                            input@,
                            i + 1,
                            LexState::Begin,
                            line + 1,
                            0,
                        ).tokens =~= full.tokens);
                    }
                    tokens.push(t);
                    line = line + 1;
                    col = 0;
                    i = i + 1;
                    State::Begin
                } else if crlf {
                    let t = WithPosition {
                        value: Token::<D>::LineBreak(crate::engine::LineBreak::CrLf),
                        position: Position { line_number: line, column_number: col + 1 },
                    };
                    proof {
                        lemma_view_push1::<D>(tokens@, t);
                        assert(tokens_view::<D>(tokens@.push(t)) + lex_from::<D>(
                            input@,
                            i + 2,
                            LexState::Begin,
                            line + 1,
                            0,
                        ).tokens =~= full.tokens);
                    }
                    tokens.push(t);
                    line = line + 1;
                    col = 0;
                    i = i + 2;
                    State::Begin
                } else if c == 35 {
                    let ns = State::InComment {
                        start: Position { line_number: line, column_number: col + 1 },
                        buf: Vec::new(),
                    };
                    col = col + 1;
                    i = i + 1;
                    ns
                } else {
                    let ns = State::Unquoted {
                        start: Position { line_number: line, column_number: col + 1 },
                        buf: singleton::<D>(e),
                    };
                    col = col + 1;
                    i = i + 1;
                    ns
                }
            },
            State::Unquoted { start, buf } => {
                if c == 34 {
                    let ns = State::QuoteInUnquoted {
                        start,
                        buf,
                        qpos: Position { line_number: line, column_number: col + 1 },
                    };
                    col = col + 1;
                    i = i + 1;
                    ns
                } else if spacing {
                    let t = WithPosition {
                        value: Token::<D>::UnquotedValue(UnquotedValue(buf)),
                        position: start,
                    };
                    proof {
                        lemma_view_push1::<D>(tokens@, t);
                        assert(tokens_view::<D>(tokens@.push(t)) + lex_from::<D>(
                            input@,
                            i + 1,
                            LexState::InSpacing {
                                line: line as int,
                                col: col + 1,
                                buf: seq![e],
                            },
                            line as int,
                            col + 1,
                        ).tokens =~= full.tokens);
                    }
                    tokens.push(t);
                    let ns = State::InSpacing {
                        start: Position { line_number: line, column_number: col + 1 },
                        buf: singleton::<D>(e),
                    };
                    col = col + 1;
                    i = i + 1;
                    ns
                } else if c == 10 {
                    let t = WithPosition {
                        value: Token::<D>::UnquotedValue(UnquotedValue(buf)),
                        position: start,
                    };
                    let tb = WithPosition {
                        value: Token::<D>::LineBreak(crate::engine::LineBreak::Lf),
                        position: Position { line_number: line, column_number: col + 1 },
                    };
                    proof {
                        lemma_view_push2::<D>(tokens@, t, tb);
                        assert(tokens_view::<D>(tokens@.push(t).push(tb)) + lex_from::<D>(
                            input@,
                            i + 1,
                            LexState::Begin,
                            line + 1,
                            0,
                        ).tokens =~= full.tokens);
                    }
                    tokens.push(t);
                    tokens.push(tb);
                    line = line + 1;
                    col = 0;
                    i = i + 1;
                    State::Begin
                } else if crlf {
                    let t = WithPosition {
                        value: Token::<D>::UnquotedValue(UnquotedValue(buf)),
                        position: start,
                    };
                    let tb = WithPosition {
                        value: Token::<D>::LineBreak(crate::engine::LineBreak::CrLf),
                        position: Position { line_number: line, column_number: col + 1 },
                    };
                    proof {
                        lemma_view_push2::<D>(tokens@, t, tb);
                        assert(tokens_view::<D>(tokens@.push(t).push(tb)) + lex_from::<D>(
                            input@,
                            i + 2,
                            LexState::Begin,
                            line + 1,
                            0,
                        ).tokens =~= full.tokens);
                    }
                    tokens.push(t);
                    tokens.push(tb);
                    line = line + 1;
                    col = 0;
                    i = i + 2;
                    State::Begin
                } else {
                    let mut buf = buf;
                    buf.push(e);
                    let ns = State::Unquoted { start, buf };
                    col = col + 1;
                    i = i + 1;
                    ns
                }
            },
            State::QuoteInUnquoted { start, buf, qpos } => {
                if c == 34 {
                    let mut buf = buf;
                    buf.push(e);
                    let ns = State::Unquoted { start, buf };
                    col = col + 1;
                    i = i + 1;
                    ns
                } else {
                    proof {
                        assert(rest.tokens =~= seq![]);
                        assert(tokens_view::<D>(tokens@) + rest.tokens =~= tokens_view::<D>(
                            tokens@,
                        ));
                    }
                    return (tokens, Some(ReadError::UnpairedQuote(qpos)));
                }
            },
            State::QuotesPrefix { start, count } => {
                if c == 34 {
                    let ns = State::QuotesPrefix { start, count: count + 1 };
                    col = col + 1;
                    i = i + 1;
                    ns
                } else if count % 2 == 0 {
                    let t = WithPosition {
                        value: Token::<D>::QuotedValue(QuotedValue(quote_run::<D>((count - 2) / 2))),
                        position: start,
                    };
                    if spacing {
                        proof {
                            lemma_view_push1::<D>(tokens@, t);
                            assert(tokens_view::<D>(tokens@.push(t)) + lex_from::<D>(
                                input@,
                                i + 1,
                                LexState::InSpacing {
                                    line: line as int,
                                    col: col + 1,
                                    buf: seq![e],
                                },
                                line as int,
                                col + 1,
                            ).tokens =~= full.tokens);
                        }
                        tokens.push(t);
                        let ns = State::InSpacing {
                            start: Position { line_number: line, column_number: col + 1 },
                            buf: singleton::<D>(e),
                        };
                        col = col + 1;
                        i = i + 1;
                        ns
                    } else if c == 10 {
                        let tb = WithPosition {
                            value: Token::<D>::LineBreak(crate::engine::LineBreak::Lf),
                            position: Position { line_number: line, column_number: col + 1 },
                        };
                        proof {
                            lemma_view_push2::<D>(tokens@, t, tb);
                            assert(tokens_view::<D>(tokens@.push(t).push(tb)) + lex_from::<D>(
                                input@,
                                i + 1,
                                LexState::Begin,
                                line + 1,
                                0,
                            ).tokens =~= full.tokens);
                        }
                        tokens.push(t);
                        tokens.push(tb);
                        line = line + 1;
                        col = 0;
                        i = i + 1;
                        State::Begin
                    } else if crlf {
                        let tb = WithPosition {
                            value: Token::<D>::LineBreak(crate::engine::LineBreak::CrLf),
                            position: Position { line_number: line, column_number: col + 1 },
                        };
                        proof {
                            lemma_view_push2::<D>(tokens@, t, tb);
                            assert(tokens_view::<D>(tokens@.push(t).push(tb)) + lex_from::<D>(
                                input@,
                                i + 2,
                                LexState::Begin,
                                line + 1,
                                0,
                            ).tokens =~= full.tokens);
                        }
                        tokens.push(t);
                        tokens.push(tb);
                        line = line + 1;
                        col = 0;
                        i = i + 2;
                        State::Begin
                    } else {
                        let mut buf = quote_run::<D>(count / 2);
                        buf.push(e);
                        let ns = State::Unquoted { start, buf };
                        col = col + 1;
                        i = i + 1;
                        ns
                    }
                } else {
                    let mut buf = quote_run::<D>((count - 1) / 2);
                    buf.push(e);
                    let ns = State::Quoted { start, buf };
                    if c == 10 {
                        line = line + 1;
                        col = 0;
                    } else {
                        col = col + 1;
                    }
                    i = i + 1;
                    ns
                }
            },
            State::Quoted { start, buf } => {
                if c == 34 {
                    let ns = State::QuoteInQuoted {
                        start,
                        buf,
                        qpos: Position { line_number: line, column_number: col + 1 },
                    };
                    col = col + 1;
                    i = i + 1;
                    ns
                } else {
                    let mut buf = buf;
                    buf.push(e);
                    let ns = State::Quoted { start, buf };
                    if c == 10 {
                        line = line + 1;
                        col = 0;
                    } else {
                        col = col + 1;
                    }
                    i = i + 1;
                    ns
                }
            },
            State::QuoteInQuoted { start, buf, qpos } => {
                if c == 34 {
                    let mut buf = buf;
                    buf.push(e);
                    let ns = State::Quoted { start, buf };
                    col = col + 1;
                    i = i + 1;
                    ns
                } else if spacing {
                    let t = WithPosition {
                        value: Token::<D>::QuotedValue(QuotedValue(buf)),
                        position: start,
                    };
                    proof {
                        lemma_view_push1::<D>(tokens@, t);
                        assert(tokens_view::<D>(tokens@.push(t)) + lex_from::<D>(
                            input@,
                            i + 1,
                            LexState::InSpacing {
                                line: line as int,
                                col: col + 1,
                                buf: seq![e],
                            },
                            line as int,
                            col + 1,
                        ).tokens =~= full.tokens);
                    }
                    tokens.push(t);
                    let ns = State::InSpacing {
                        start: Position { line_number: line, column_number: col + 1 },
                        buf: singleton::<D>(e),
                    };
                    col = col + 1;
                    i = i + 1;
                    ns
                } else if c == 10 {
                    let t = WithPosition {
                        value: Token::<D>::QuotedValue(QuotedValue(buf)),
                        position: start,
                    };
                    let tb = WithPosition {
                        value: Token::<D>::LineBreak(crate::engine::LineBreak::Lf),
                        position: Position { line_number: line, column_number: col + 1 },
                    };
                    proof {
                        lemma_view_push2::<D>(tokens@, t, tb);
                        assert(tokens_view::<D>(tokens@.push(t).push(tb)) + lex_from::<D>(
                            input@,
                            i + 1,
                            LexState::Begin,
                            line + 1,
                            0,
                        ).tokens =~= full.tokens);
                    }
                    tokens.push(t);
                    tokens.push(tb);
                    line = line + 1;
                    col = 0;
                    i = i + 1;
                    State::Begin
                } else if crlf {
                    let t = WithPosition {
                        value: Token::<D>::QuotedValue(QuotedValue(buf)),
                        position: start,
                    };
                    let tb = WithPosition {
                        value: Token::<D>::LineBreak(crate::engine::LineBreak::CrLf),
                        position: Position { line_number: line, column_number: col + 1 },
                    };
                    proof {
                        lemma_view_push2::<D>(tokens@, t, tb);
                        assert(tokens_view::<D>(tokens@.push(t).push(tb)) + lex_from::<D>(
                            input@,
                            i + 2,
                            LexState::Begin,
                            line + 1,
                            0,
                        ).tokens =~= full.tokens);
                    }
                    tokens.push(t);
                    tokens.push(tb);
                    line = line + 1;
                    col = 0;
                    i = i + 2;
                    State::Begin
                } else {
                    proof {
                        assert(rest.tokens =~= seq![]);
                        assert(tokens_view::<D>(tokens@) + rest.tokens =~= tokens_view::<D>(
                            tokens@,
                        ));
                    }
                    return (tokens, Some(ReadError::UnpairedQuote(qpos)));
                }
            },
            State::InSpacing { start, buf } => {
                if spacing {
                    let mut buf = buf;
                    buf.push(e);
                    let ns = State::InSpacing { start, buf };
                    col = col + 1;
                    i = i + 1;
                    ns
                } else if c == 34 {
                    let t = WithPosition {
                        value: Token::<D>::Spacing(Spacing(buf)),
                        position: start,
                    };
                    proof {
                        lemma_view_push1::<D>(tokens@, t);
                        assert(tokens_view::<D>(tokens@.push(t)) + lex_from::<D>(
                            input@,
                            i + 1,
                            LexState::QuotesPrefix { line: line as int, col: col + 1, count: 1 },
                            line as int,
                            col + 1,
                        ).tokens =~= full.tokens);
                    }
                    tokens.push(t);
                    let ns = State::QuotesPrefix {
                        start: Position { line_number: line, column_number: col + 1 },
                        count: 1,
                    };
                    col = col + 1;
                    i = i + 1;
                    ns
                } else if c == 10 {
                    let t = WithPosition {
                        value: Token::<D>::Spacing(Spacing(buf)),
                        position: start,
                    };
                    let tb = WithPosition {
                        value: Token::<D>::LineBreak(crate::engine::LineBreak::Lf),
                        position: Position { line_number: line, column_number: col + 1 },
                    };
                    proof {
                        lemma_view_push2::<D>(tokens@, t, tb);
                        assert(tokens_view::<D>(tokens@.push(t).push(tb)) + lex_from::<D>(
                            input@,
                            i + 1,
                            LexState::Begin,
                            line + 1,
                            0,
                        ).tokens =~= full.tokens);
                    }
                    tokens.push(t);
                    tokens.push(tb);
                    line = line + 1;
                    col = 0;
                    i = i + 1;
                    State::Begin
                } else if crlf {
                    let t = WithPosition {
                        value: Token::<D>::Spacing(Spacing(buf)),
                        position: start,
                    };
                    let tb = WithPosition {
                        value: Token::<D>::LineBreak(crate::engine::LineBreak::CrLf),
                        position: Position { line_number: line, column_number: col + 1 },
                    };
                    proof {
                        lemma_view_push2::<D>(tokens@, t, tb);
                        assert(tokens_view::<D>(tokens@.push(t).push(tb)) + lex_from::<D>(
                            input@,
                            i + 2,
                            LexState::Begin,
                            line + 1,
                            0,
                        ).tokens =~= full.tokens);
                    }
                    tokens.push(t);
                    tokens.push(tb);
                    line = line + 1;
                    col = 0;
                    i = i + 2;
                    State::Begin
                } else {
                    let t = WithPosition {
                        value: Token::<D>::Spacing(Spacing(buf)),
                        position: start,
                    };
                    proof {
                        lemma_view_push1::<D>(tokens@, t);
                        assert(tokens_view::<D>(tokens@.push(t)) + lex_from::<D>(
                            input@,
                            i + 1,
                            LexState::Unquoted { line: line as int, col: col + 1, buf: seq![e] },
                            line as int,
                            col + 1,
                        ).tokens =~= full.tokens);
                    }
                    tokens.push(t);
                    let ns = State::Unquoted {
                        start: Position { line_number: line, column_number: col + 1 },
                        buf: singleton::<D>(e),
                    };
                    col = col + 1;
                    i = i + 1;
                    ns
                }
            },
            State::InComment { start, buf } => {
                if c == 10 {
                    let t = WithPosition {
                        value: Token::<D>::Comment(Comment(buf)),
                        position: start,
                    };
                    let tb = WithPosition {
                        value: Token::<D>::LineBreak(crate::engine::LineBreak::Lf),
                        position: Position { line_number: line, column_number: col + 1 },
                    };
                    proof {
                        lemma_view_push2::<D>(tokens@, t, tb);
                        assert(tokens_view::<D>(tokens@.push(t).push(tb)) + lex_from::<D>(
                            input@,
                            i + 1,
                            LexState::Begin,
                            line + 1,
                            0,
                        ).tokens =~= full.tokens);
                    }
                    tokens.push(t);
                    tokens.push(tb);
                    line = line + 1;
                    col = 0;
                    i = i + 1;
                    State::Begin
                } else if crlf {
                    let t = WithPosition {
                        value: Token::<D>::Comment(Comment(buf)),
                        position: start,
                    };
                    let tb = WithPosition {
                        value: Token::<D>::LineBreak(crate::engine::LineBreak::CrLf),
                        position: Position { line_number: line, column_number: col + 1 },
                    };
                    proof {
                        lemma_view_push2::<D>(tokens@, t, tb);
                        assert(tokens_view::<D>(tokens@.push(t).push(tb)) + lex_from::<D>(
                            input@,
                            i + 2,
                            LexState::Begin,
                            line + 1,
                            0,
                        ).tokens =~= full.tokens);
                    }
                    tokens.push(t);
                    tokens.push(tb);
                    line = line + 1;
                    col = 0;
                    i = i + 2;
                    State::Begin
                } else {
                    let mut buf = buf;
                    buf.push(e);
                    let ns = State::InComment { start, buf };
                    col = col + 1;
                    i = i + 1;
                    ns
                }
            },
        };
    }
    // End of input: finalize the pending state.
    match st {
        State::Begin => {
            proof {
                assert(tokens_view::<D>(tokens@) + lex_from::<D>(
                    input@,
                    i as int,
                    state_view::<D>(&st),
                    line as int,
                    col as int,
                ).tokens =~= tokens_view::<D>(tokens@));
            }
            (tokens, None)
        },
        State::Unquoted { start, buf } => {
            let t = WithPosition {
                value: Token::<D>::UnquotedValue(UnquotedValue(buf)),
                position: start,
            };
            proof {
                lemma_view_push1::<D>(tokens@, t);
                assert(tokens_view::<D>(tokens@.push(t)) =~= full.tokens);
            }
            tokens.push(t);
            (tokens, None)
        },
        State::QuoteInUnquoted { qpos, .. } => (tokens, Some(ReadError::UnpairedQuote(qpos))),
        State::QuotesPrefix { start, count } => {
            if count % 2 == 0 {
                let t = WithPosition {
                    value: Token::<D>::QuotedValue(QuotedValue(quote_run::<D>((count - 2) / 2))),
                    position: start,
                };
                proof {
                    lemma_view_push1::<D>(tokens@, t);
                    assert(tokens_view::<D>(tokens@.push(t)) =~= full.tokens);
                }
                tokens.push(t);
                (tokens, None)
            } else {
                (
                    tokens,
                    Some(
                        ReadError::UnclosedQuotedValue(
                            Position { line_number: line, column_number: col + 1 },
                        ),
                    ),
                )
            }
        },
        State::Quoted { .. } => (
            tokens,
            Some(
                ReadError::UnclosedQuotedValue(
                    Position { line_number: line, column_number: col + 1 },
                ),
            ),
        ),
        State::QuoteInQuoted { start, buf, .. } => {
            let t = WithPosition {
                value: Token::<D>::QuotedValue(QuotedValue(buf)),
                position: start,
            };
            proof {
                lemma_view_push1::<D>(tokens@, t);
                assert(tokens_view::<D>(tokens@.push(t)) =~= full.tokens);
            }
            tokens.push(t);
            (tokens, None)
        },
        State::InSpacing { start, buf } => {
            let t = WithPosition { value: Token::<D>::Spacing(Spacing(buf)), position: start };
            proof {
                lemma_view_push1::<D>(tokens@, t);
                assert(tokens_view::<D>(tokens@.push(t)) =~= full.tokens);
            }
            tokens.push(t);
            (tokens, None)
        },
        State::InComment { start, buf } => {
            let t = WithPosition { value: Token::<D>::Comment(Comment(buf)), position: start };
            proof {
                lemma_view_push1::<D>(tokens@, t);
                assert(tokens_view::<D>(tokens@.push(t)) =~= full.tokens);
            }
            tokens.push(t);
            (tokens, None)
        },
    }
}

/// The given vector, in reverse order.
pub(crate) fn reverse_vec<T>(v: Vec<T>) -> (r: Vec<T>)
    ensures
        r@ == v@.reverse(),
{
    let mut v = v;
    let mut r: Vec<T> = Vec::new();
    let ghost orig = v@;
    while v.len() > 0
        invariant
            orig == v@ + r@.reverse(),
        decreases v@.len(),
    {
        let t = v.pop().unwrap();
        r.push(t);
        proof {
            assert(orig =~= v@ + r@.reverse());
        }
    }
    proof {
        assert(r@.reverse() =~= orig);
        assert(r@ =~= r@.reverse().reverse());
    }
    r
}

/// Reads the tokens of an element stream, one call at a time.
///
/// Produces every token of [`lex`] on the input, in order, then the
/// terminal error if there is one, then nothing: after the first error
/// or the end of the input no further items come.
pub struct Tokenizer<D: Domain> {
    remaining: Vec<WithPosition<Token<D>>>,  // the tokens not yet yielded, last first
    err: Option<ReadError>,
    err_yielded: bool,
    input: Ghost<Seq<D::Element>>,
}

impl<D: Domain> Tokenizer<D> {
    /// The input the tokenizer was created over.
    pub closed spec fn input(&self) -> Seq<D::Element> {
        self.input@
    }

    /// How many tokens have been yielded so far.
    pub closed spec fn tokens_yielded(&self) -> int {
        lex::<D>(self.input@).tokens.len() - self.remaining@.len()
    }

    /// Whether the terminal error has already been yielded.
    pub closed spec fn error_yielded(&self) -> bool {
        self.err_yielded
    }

    /// Well-formedness: the not-yet-yielded items are exactly a suffix
    /// of what the lexical machine produces on the input.
    pub closed spec fn wf(&self) -> bool {
        &&& self.remaining@.len() <= lex::<D>(self.input@).tokens.len()
        &&& tokens_view::<D>(self.remaining@.reverse()) == lex::<D>(self.input@).tokens.skip(
            lex::<D>(self.input@).tokens.len() - self.remaining@.len(),
        )
        &&& error_matches(self.err, lex::<D>(self.input@).err)
        &&& (self.err_yielded ==> self.remaining@.len() == 0 && self.err is Some)
    }

    /// Creates a tokenizer over the given input.
    pub fn new(input: Vec<D::Element>) -> (r: Self)
        requires
            input@.len() < usize::MAX,
        ensures
            r.wf(),
            r.input() == input@,
            r.tokens_yielded() == 0,
            !r.error_yielded(),
    {
        let (tokens, err) = tokenize::<D>(&input);
        let ghost tokens_v = tokens@;
        let remaining = reverse_vec(tokens);
        proof {
            assert(remaining@.reverse() =~= tokens_v);
            assert(lex::<D>(input@).tokens.skip(0) =~= lex::<D>(input@).tokens);
        }
        Tokenizer { remaining, err, err_yielded: false, input: Ghost(input@) }
    }

    /// Yields the next token, the terminal error, or nothing.
    ///
    /// The items come in the order of [`lex`] on the input: each token
    /// once, then the error once if the input is ill-formed, then `None`
    /// forever.
    pub fn next(&mut self) -> (r: Option<ReadResult<WithPosition<Token<D>>>>)
        requires
            old(self).wf(),
        ensures
            final(self).wf(),
            final(self).input() == old(self).input(),
            ({
                let toks = lex::<D>(old(self).input()).tokens;
                let err = lex::<D>(old(self).input()).err;
                match r {
                    Some(Ok(t)) => {
                        &&& old(self).tokens_yielded() < toks.len()
                        &&& !old(self).error_yielded()
                        &&& token_at::<D>(t) == toks[old(self).tokens_yielded()]
                        &&& final(self).tokens_yielded() == old(self).tokens_yielded() + 1
                        &&& !final(self).error_yielded()
                    },
                    Some(Err(e)) => {
                        &&& old(self).tokens_yielded() == toks.len()
                        &&& !old(self).error_yielded()
                        &&& err is Some
                        &&& read_error_view(e) == err
                        &&& final(self).tokens_yielded() == toks.len()
                        &&& final(self).error_yielded()
                    },
                    None => {
                        &&& old(self).tokens_yielded() == toks.len()
                        &&& (err is None || old(self).error_yielded())
                        &&& final(self).tokens_yielded() == toks.len()
                        &&& final(self).error_yielded() == old(self).error_yielded()
                    },
                }
            }),
    {
        let ghost toks = lex::<D>(self.input@).tokens;
        let ghost old_rem = self.remaining@;
        match self.remaining.pop() {
            Some(t) => {
                proof {
                    let k = toks.len() - old_rem.len();
                    assert(old_rem.reverse()[0] == t);
                    assert(tokens_view::<D>(old_rem.reverse())[0] == token_at::<D>(t));
                    assert(toks.skip(k)[0] == toks[k]);
                    assert(self.remaining@.reverse() =~= old_rem.reverse().skip(1));
                    assert(tokens_view::<D>(self.remaining@.reverse()) =~= tokens_view::<D>(
                        old_rem.reverse(),
                    ).skip(1));
                    assert(toks.skip(k).skip(1) =~= toks.skip(k + 1));
                }
                Some(Ok(t))
            },
            None => {
                if self.err_yielded {
                    None
                } else {
                    let e = self.err;
                    match e {
                        Some(err) => {
                            self.err_yielded = true;
                            Some(Err(err))
                        },
                        None => None,
                    }
                }
            },
        }
    }
}

} // verus!
