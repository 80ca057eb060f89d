//! The lexical state machine of the format, written as a mathematical
//! function from the input to the produced tokens.
//!
//! [`lex`] consumes the whole input and returns every token it holds,
//! each with the position of its first element, followed by at most one
//! error.  The executable tokenizer is proved to produce exactly this
//! sequence.

use vstd::prelude::*;

use crate::engine::LineBreak;
use crate::engine::domain::{Domain, is_cr, is_hash, is_lf, is_quote, is_spacing, quotes};
use crate::engine::tokens::TokenView;

verus! {

/// A token view together with the 1-based position of its first element.
pub struct TokenAt<E> {
    /// The token itself.
    pub token: TokenView<E>,
    /// The 1-based line number of the token's first element.
    pub line: int,
    /// The 1-based column of the token's first element on its line.
    pub col: int,
}

/// A lexical error, with the 1-based position it is reported at.
pub enum LexError {
    /// A quote appeared where only a doubled quote or a value terminator
    /// is valid; the position is that of the offending quote.
    UnpairedQuote { line: int, col: int },
    /// The input ended inside a quoted value; the position is one column
    /// past the end of the input.
    UnclosedQuotedValue { line: int, col: int },
}

/// Everything the lexical machine produces: the tokens in order, then at
/// most one terminal error.
pub struct LexOut<E> {
    /// The produced tokens, in input order.
    pub tokens: Seq<TokenAt<E>>,
    /// The terminal error, if the input is ill-formed.
    pub err: Option<LexError>,
}

/// The state of the lexical machine.  Token-producing states carry the
/// position at which the pending token started; the states entered after
/// a lone quote also carry that quote's position.
pub enum LexState<E> {
    /// At the start of the input or immediately after a line break.
    Begin,
    /// Inside an unquoted value.
    Unquoted { line: int, col: int, buf: Seq<E> },
    /// After a lone quote inside an unquoted value: either the escape is
    /// confirmed by a second quote, or the input is ill-formed.
    QuoteInUnquoted { line: int, col: int, buf: Seq<E>, qline: int, qcol: int },
    /// Inside a leading run of quotes whose parity is not yet decided.
    QuotesPrefix { line: int, col: int, count: int },
    /// Inside a quoted value.
    Quoted { line: int, col: int, buf: Seq<E> },
    /// After a quote inside a quoted value: either an escaped quote, or
    /// the end of the value.
    QuoteInQuoted { line: int, col: int, buf: Seq<E>, qline: int, qcol: int },
    /// Inside a run of spacing elements.
    InSpacing { line: int, col: int, buf: Seq<E> },
    /// Inside a comment, after the leading hash sign.
    InComment { line: int, col: int, buf: Seq<E> },
}

/// An outcome holding one token and whatever follows it.
pub open spec fn out_cons<E>(t: TokenAt<E>, o: LexOut<E>) -> LexOut<E> {
    LexOut { tokens: seq![t] + o.tokens, err: o.err }
}

/// An outcome holding only a terminal error.
pub open spec fn out_err<E>(e: LexError) -> LexOut<E> {
    LexOut { tokens: seq![], err: Some(e) }
}

/// An outcome holding nothing at all.
pub open spec fn out_done<E>() -> LexOut<E> {
    LexOut { tokens: seq![], err: None }
}

/// The line number after consuming `e` on line `line`.
pub open spec fn next_line<D: Domain>(e: D::Element, line: int) -> int {
    if is_lf::<D>(e) {
        line + 1
    } else {
        line
    }
}

/// The column after consuming `e` at column `col + 1`.
pub open spec fn next_col<D: Domain>(e: D::Element, col: int) -> int {
    if is_lf::<D>(e) {
        0
    } else {
        col + 1
    }
}

/// What the machine produces at the end of the input, from state `st`,
/// after consuming through position (`line`, `col`).
pub open spec fn lex_end<D: Domain>(st: LexState<D::Element>, line: int, col: int) -> LexOut<
    D::Element,
> {
    match st {
        LexState::Begin => out_done::<D::Element>(),
        LexState::Unquoted { line: tl, col: tc, buf } => out_cons(
            TokenAt { token: TokenView::UnquotedValue(buf), line: tl, col: tc },
            out_done::<D::Element>(),
        ),
        LexState::QuoteInUnquoted { qline, qcol, .. } => out_err(
            LexError::UnpairedQuote { line: qline, col: qcol },
        ),
        LexState::QuotesPrefix { line: tl, col: tc, count } => if count % 2 == 0 {
            out_cons(
                TokenAt {
                    token: TokenView::QuotedValue(quotes::<D>((((count - 2) / 2)) as nat)),
                    line: tl,
                    col: tc,
                },
                out_done::<D::Element>(),
            )
        } else {
            out_err(LexError::UnclosedQuotedValue { line, col: col + 1 })
        },
        LexState::Quoted { .. } => out_err(LexError::UnclosedQuotedValue { line, col: col + 1 }),
        LexState::QuoteInQuoted { line: tl, col: tc, buf, .. } => out_cons(
            TokenAt { token: TokenView::QuotedValue(buf), line: tl, col: tc },
            out_done::<D::Element>(),
        ),
        LexState::InSpacing { line: tl, col: tc, buf } => out_cons(
            TokenAt { token: TokenView::Spacing(buf), line: tl, col: tc },
            out_done::<D::Element>(),
        ),
        LexState::InComment { line: tl, col: tc, buf } => out_cons(
            TokenAt { token: TokenView::Comment(buf), line: tl, col: tc },
            out_done::<D::Element>(),
        ),
    }
}

/// What the machine produces from position `i` of `s` onward, in state
/// `st`, having consumed through position (`line`, `col`).
///
/// The element `s[i]` sits at position (`line`, `col + 1`).  A carriage
/// return immediately followed by a line feed is consumed as one line
/// break; in every other respect a carriage return is an ordinary
/// element.  A hash sign opens a comment only as the first element of a
/// line.
pub open spec fn lex_from<D: Domain>(
    s: Seq<D::Element>,
    i: int,
    st: LexState<D::Element>,
    line: int,
    col: int,
) -> LexOut<D::Element>
    decreases s.len() - i,
{
    if i < 0 || i >= s.len() {
        lex_end::<D>(st, line, col)
    } else {
        let e = s[i];
        let crlf = is_cr::<D>(e) && i + 1 < s.len() && is_lf::<D>(s[i + 1]);
        match st {
            LexState::Begin => {
                if is_spacing::<D>(e) {
                    lex_from::<D>(
                        s,
                        i + 1,
                        LexState::InSpacing { line, col: col + 1, buf: seq![e] },
                        line,
                        col + 1,
                    )
                } else if is_quote::<D>(e) {
                    lex_from::<D>(
                        s,
                        i + 1,
                        LexState::QuotesPrefix { line, col: col + 1, count: 1 },
                        line,
                        col + 1,
                    )
                } else if is_lf::<D>(e) {
                    out_cons(
                        TokenAt { token: TokenView::LineBreak(LineBreak::Lf), line, col: col + 1 },
                        lex_from::<D>(s, i + 1, LexState::Begin, line + 1, 0),
                    )
                } else if crlf {
                    out_cons(
                        TokenAt {
                            token: TokenView::LineBreak(LineBreak::CrLf),
                            line,
                            col: col + 1,
                        },
                        lex_from::<D>(s, i + 2, LexState::Begin, line + 1, 0),
                    )
                } else if is_hash::<D>(e) {
                    lex_from::<D>(
                        s,
                        i + 1,
                        LexState::InComment { line, col: col + 1, buf: seq![] },
                        line,
                        col + 1,
                    )
                } else {
                    lex_from::<D>(
                        s,
                        i + 1,
                        LexState::Unquoted { line, col: col + 1, buf: seq![e] },
                        line,
                        col + 1,
                    )
                }
            },
            LexState::Unquoted { line: tl, col: tc, buf } => {
                if is_quote::<D>(e) {
                    lex_from::<D>(
                        s,
                        i + 1,
                        LexState::QuoteInUnquoted {
                            line: tl,
                            col: tc,
                            buf,
                            qline: line,
                            qcol: col + 1,
                        },
                        line,
                        col + 1,
                    )
                } else if is_spacing::<D>(e) {
                    out_cons(
                        TokenAt { token: TokenView::UnquotedValue(buf), line: tl, col: tc },
                        lex_from::<D>(
                            s,
                            i + 1,
                            LexState::InSpacing { line, col: col + 1, buf: seq![e] },
                            line,
                            col + 1,
                        ),
                    )
                } else if is_lf::<D>(e) {
                    out_cons(
                        TokenAt { token: TokenView::UnquotedValue(buf), line: tl, col: tc },
                        out_cons(
                            TokenAt {
                                token: TokenView::LineBreak(LineBreak::Lf),
                                line,
                                col: col + 1,
                            },
                            lex_from::<D>(s, i + 1, LexState::Begin, line + 1, 0),
                        ),
                    )
                } else if crlf {
                    out_cons(
                        TokenAt { token: TokenView::UnquotedValue(buf), line: tl, col: tc },
                        out_cons(
                            TokenAt {
                                token: TokenView::LineBreak(LineBreak::CrLf),
                                line,
                                col: col + 1,
                            },
                            lex_from::<D>(s, i + 2, LexState::Begin, line + 1, 0),
                        ),
                    )
                } else {
                    lex_from::<D>(
                        s,
                        i + 1,
                        LexState::Unquoted { line: tl, col: tc, buf: buf.push(e) },
                        line,
                        col + 1,
                    )
                }
            },
            LexState::QuoteInUnquoted { line: tl, col: tc, buf, qline, qcol } => {
                if is_quote::<D>(e) {
                    lex_from::<D>(
                        s,
                        i + 1,
                        LexState::Unquoted { line: tl, col: tc, buf: buf.push(e) },
                        line,
                        col + 1,
                    )
                } else {
                    out_err(LexError::UnpairedQuote { line: qline, col: qcol })
                }
            },
            LexState::QuotesPrefix { line: tl, col: tc, count } => {
                if is_quote::<D>(e) {
                    lex_from::<D>(
                        s,
                        i + 1,
                        LexState::QuotesPrefix { line: tl, col: tc, count: count + 1 },
                        line,
                        col + 1,
                    )
                } else if count % 2 == 0 {
                    if is_spacing::<D>(e) {
                        out_cons(
                            TokenAt {
                                token: TokenView::QuotedValue(
                                    quotes::<D>((((count - 2) / 2)) as nat),
                                ),
                                line: tl,
                                col: tc,
                            },
                            lex_from::<D>(
                                s,
                                i + 1,
                                LexState::InSpacing { line, col: col + 1, buf: seq![e] },
                                line,
                                col + 1,
                            ),
                        )
                    } else if is_lf::<D>(e) {
                        out_cons(
                            TokenAt {
                                token: TokenView::QuotedValue(
                                    quotes::<D>((((count - 2) / 2)) as nat),
                                ),
                                line: tl,
                                col: tc,
                            },
                            out_cons(
                                TokenAt {
                                    token: TokenView::LineBreak(LineBreak::Lf),
                                    line,
                                    col: col + 1,
                                },
                                lex_from::<D>(s, i + 1, LexState::Begin, line + 1, 0),
                            ),
                        )
                    } else if crlf {
                        out_cons(
                            TokenAt {
                                token: TokenView::QuotedValue(
                                    quotes::<D>((((count - 2) / 2)) as nat),
                                ),
                                line: tl,
                                col: tc,
                            },
                            out_cons(
                                TokenAt {
                                    token: TokenView::LineBreak(LineBreak::CrLf),
                                    line,
                                    col: col + 1,
                                },
                                lex_from::<D>(s, i + 2, LexState::Begin, line + 1, 0),
                            ),
                        )
                    } else {
                        lex_from::<D>(
                            s,
                            i + 1,
                            LexState::Unquoted {
                                line: tl,
                                col: tc,
                                buf: quotes::<D>(((count / 2)) as nat).push(e),
                            },
                            line,
                            col + 1,
                        )
                    }
                } else {
                    lex_from::<D>(
                        s,
                        i + 1,
                        LexState::Quoted {
                            line: tl,
                            col: tc,
                            buf: quotes::<D>((((count - 1) / 2)) as nat).push(e),
                        },
                        next_line::<D>(e, line),
                        next_col::<D>(e, col),
                    )
                }
            },
            LexState::Quoted { line: tl, col: tc, buf } => {
                if is_quote::<D>(e) {
                    lex_from::<D>(
                        s,
                        i + 1,
                        LexState::QuoteInQuoted {
                            line: tl,
                            col: tc,
                            buf,
                            qline: line,
                            qcol: col + 1,
                        },
                        line,
                        col + 1,
                    )
                } else {
                    lex_from::<D>(
                        s,
                        i + 1,
                        LexState::Quoted { line: tl, col: tc, buf: buf.push(e) },
                        next_line::<D>(e, line),
                        next_col::<D>(e, col),
                    )
                }
            },
            LexState::QuoteInQuoted { line: tl, col: tc, buf, qline, qcol } => {
                if is_quote::<D>(e) {
                    lex_from::<D>(
                        s,
                        i + 1,
                        LexState::Quoted { line: tl, col: tc, buf: buf.push(e) },
                        line,
                        col + 1,
                    )
                } else if is_spacing::<D>(e) {
                    out_cons(
                        TokenAt { token: TokenView::QuotedValue(buf), line: tl, col: tc },
                        lex_from::<D>(
                            s,
                            i + 1,
                            LexState::InSpacing { line, col: col + 1, buf: seq![e] },
                            line,
                            col + 1,
                        ),
                    )
                } else if is_lf::<D>(e) {
                    out_cons(
                        TokenAt { token: TokenView::QuotedValue(buf), line: tl, col: tc },
                        out_cons(
                            TokenAt {
                                token: TokenView::LineBreak(LineBreak::Lf),
                                line,
                                col: col + 1,
                            },
                            lex_from::<D>(s, i + 1, LexState::Begin, line + 1, 0),
                        ),
                    )
                } else if crlf {
                    out_cons(
                        TokenAt { token: TokenView::QuotedValue(buf), line: tl, col: tc },
                        out_cons(
                            TokenAt {
                                token: TokenView::LineBreak(LineBreak::CrLf),
                                line,
                                col: col + 1,
                            },
                            lex_from::<D>(s, i + 2, LexState::Begin, line + 1, 0),
                        ),
                    )
                } else {
                    out_err(LexError::UnpairedQuote { line: qline, col: qcol })
                }
            },
            LexState::InSpacing { line: tl, col: tc, buf } => {
                if is_spacing::<D>(e) {
                    lex_from::<D>(
                        s,
                        i + 1,
                        LexState::InSpacing { line: tl, col: tc, buf: buf.push(e) },
                        line,
                        col + 1,
                    )
                } else if is_quote::<D>(e) {
                    out_cons(
                        TokenAt { token: TokenView::Spacing(buf), line: tl, col: tc },
                        lex_from::<D>(
                            s,
                            i + 1,
                            LexState::QuotesPrefix { line, col: col + 1, count: 1 },
                            line,
                            col + 1,
                        ),
                    )
                } else if is_lf::<D>(e) {
                    out_cons(
                        TokenAt { token: TokenView::Spacing(buf), line: tl, col: tc },
                        out_cons(
                            TokenAt {
                                token: TokenView::LineBreak(LineBreak::Lf),
                                line,
                                col: col + 1,
                            },
                            lex_from::<D>(s, i + 1, LexState::Begin, line + 1, 0),
                        ),
                    )
                } else if crlf {
                    out_cons(
                        TokenAt { token: TokenView::Spacing(buf), line: tl, col: tc },
                        out_cons(
                            TokenAt {
                                token: TokenView::LineBreak(LineBreak::CrLf),
                                line,
                                col: col + 1,
                            },
                            lex_from::<D>(s, i + 2, LexState::Begin, line + 1, 0),
                        ),
                    )
                } else {
                    out_cons(
                        TokenAt { token: TokenView::Spacing(buf), line: tl, col: tc },
                        lex_from::<D>(
                            s,
                            i + 1,
                            LexState::Unquoted { line, col: col + 1, buf: seq![e] },
                            line,
                            col + 1,
                        ),
                    )
                }
            },
            LexState::InComment { line: tl, col: tc, buf } => {
                if is_lf::<D>(e) {
                    out_cons(
                        TokenAt { token: TokenView::Comment(buf), line: tl, col: tc },
                        out_cons(
                            TokenAt {
                                token: TokenView::LineBreak(LineBreak::Lf),
                                line,
                                col: col + 1,
                            },
                            lex_from::<D>(s, i + 1, LexState::Begin, line + 1, 0),
                        ),
                    )
                } else if crlf {
                    out_cons(
                        TokenAt { token: TokenView::Comment(buf), line: tl, col: tc },
                        out_cons(
                            TokenAt {
                                token: TokenView::LineBreak(LineBreak::CrLf),
                                line,
                                col: col + 1,
                            },
                            lex_from::<D>(s, i + 2, LexState::Begin, line + 1, 0),
                        ),
                    )
                } else {
                    lex_from::<D>(
                        s,
                        i + 1,
                        LexState::InComment { line: tl, col: tc, buf: buf.push(e) },
                        line,
                        col + 1,
                    )
                }
            },
        }
    }
}

/// Everything the lexical machine produces on the whole input.
pub open spec fn lex<D: Domain>(s: Seq<D::Element>) -> LexOut<D::Element> {
    lex_from::<D>(s, 0, LexState::Begin, 1, 0)
}

} // verus!
