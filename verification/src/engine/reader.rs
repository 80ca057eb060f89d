//! The row-level reader: groups the tokens of an input into rows of
//! decoded values, skipping spacing and comment lines.

use vstd::prelude::*;

use crate::engine::{ReadError, ReadResult};
use crate::engine::domain::Domain;
use crate::engine::lexer::{LexOut, TokenAt, lex};
use crate::engine::position::WithPosition;
use crate::engine::tokens::{Token, TokenView};
use crate::engine::tokenizer::{
    error_matches, read_error_view, reverse_vec, token_at, tokenize, tokens_view,
};

verus! {

/// The state of row assembly.
pub enum RowState<E> {
    /// At the start of a line, before any value.
    RowBegin,
    /// Inside a row, holding the values seen so far.
    InRow(Seq<Seq<E>>),
    /// Inside a comment line, waiting for its line break.
    AfterComment,
}

/// The rows contained in `toks[i..]`, starting in state `st`.
///
/// Spacing tokens only separate values; a line break ends the current
/// row (an empty row for a blank line, no row for a comment line).  At
/// the end of the input a partial row still counts, unless the token
/// stream ended in an error, in which case the partial row is lost.
pub open spec fn rows_from<E>(
    toks: Seq<TokenAt<E>>,
    i: int,
    st: RowState<E>,
    errored: bool,
) -> Seq<Seq<Seq<E>>>
    decreases toks.len() - i,
{
    if i < 0 || i >= toks.len() {
        if errored {
            seq![]
        } else {
            match st {
                RowState::InRow(vals) => seq![vals],
                _ => seq![],
            }
        }
    } else {
        match toks[i].token {
            TokenView::UnquotedValue(v) => match st {
                RowState::RowBegin => rows_from(toks, i + 1, RowState::InRow(seq![v]), errored),
                RowState::InRow(vals) => rows_from(
                    toks,
                    i + 1,
                    RowState::InRow(vals.push(v)),
                    errored,
                ),
                RowState::AfterComment => rows_from(toks, i + 1, RowState::AfterComment, errored),
            },
            TokenView::QuotedValue(v) => match st {
                RowState::RowBegin => rows_from(toks, i + 1, RowState::InRow(seq![v]), errored),
                RowState::InRow(vals) => rows_from(
                    toks,
                    i + 1,
                    RowState::InRow(vals.push(v)),
                    errored,
                ),
                RowState::AfterComment => rows_from(toks, i + 1, RowState::AfterComment, errored),
            },
            TokenView::Spacing(_) => rows_from(toks, i + 1, st, errored),
            TokenView::LineBreak(_) => match st {
                RowState::RowBegin => seq![seq![]] + rows_from(
                    toks,
                    i + 1,
                    RowState::RowBegin,
                    errored,
                ),
                RowState::InRow(vals) => seq![vals] + rows_from(
                    toks,
                    i + 1,
                    RowState::RowBegin,
                    errored,
                ),
                RowState::AfterComment => rows_from(toks, i + 1, RowState::RowBegin, errored),
            },
            TokenView::Comment(_) => rows_from(toks, i + 1, RowState::AfterComment, errored),
        }
    }
}

/// The rows contained in a whole lexical outcome.
pub open spec fn rows_of<E>(out: LexOut<E>) -> Seq<Seq<Seq<E>>> {
    rows_from(out.tokens, 0, RowState::RowBegin, out.err is Some)
}

/// The rows an input parses to.
pub open spec fn parsed<D: Domain>(input: Seq<D::Element>) -> Seq<Seq<Seq<D::Element>>> {
    rows_of(lex::<D>(input))
}

/// The view of a row: its values as element sequences.
pub open spec fn row_view<D: Domain>(row: Vec<Vec<D::Element>>) -> Seq<Seq<D::Element>> {
    row@.map_values(|v: Vec<D::Element>| v@)
}

/// The views of a sequence of rows.
pub open spec fn rows_view<D: Domain>(rows: Seq<Vec<Vec<D::Element>>>) -> Seq<
    Seq<Seq<D::Element>>,
> {
    rows.map_values(|r: Vec<Vec<D::Element>>| row_view::<D>(r))
}

/// The executable mirror of [`RowState`].
enum RState<D: Domain> {
    RowBegin,
    InRow(Vec<Vec<D::Element>>),
    AfterComment,
}

spec fn rstate_view<D: Domain>(st: &RState<D>) -> RowState<D::Element> {
    match st {
        RState::RowBegin => RowState::RowBegin,
        RState::InRow(vals) => RowState::InRow(row_view::<D>(*vals)),
        RState::AfterComment => RowState::AfterComment,
    }
}

proof fn lemma_rows_view_push<D: Domain>(rs: Seq<Vec<Vec<D::Element>>>, a: Vec<Vec<D::Element>>)
    ensures
        rows_view::<D>(rs.push(a)) == rows_view::<D>(rs) + seq![row_view::<D>(a)],
{
    assert(rows_view::<D>(rs.push(a)) =~= rows_view::<D>(rs) + seq![row_view::<D>(a)]);
}

/// Groups a token stream into rows, as [`rows_from`] does.
#[verifier::rlimit(50)]
pub(crate) fn group_rows<D: Domain>(tokens: Vec<WithPosition<Token<D>>>, errored: bool) -> (r: Vec<
    Vec<Vec<D::Element>>,
>)
    ensures
        rows_view::<D>(r@) == rows_from(
            tokens_view::<D>(tokens@),
            0,
            RowState::RowBegin,
            errored,
        ),
{
    let ghost toks = tokens_view::<D>(tokens@);
    let ghost full = rows_from(toks, 0, RowState::RowBegin, errored);
    let mut rem = reverse_vec(tokens);
    let mut rows: Vec<Vec<Vec<D::Element>>> = Vec::new();
    let mut st: RState<D> = RState::RowBegin;
    while rem.len() > 0
        invariant
            full == rows_from(toks, 0, RowState::RowBegin, errored),
            rem@.len() <= toks.len(),
            tokens_view::<D>(rem@.reverse()) == toks.skip(toks.len() - rem@.len()),
            rows_view::<D>(rows@) + rows_from(
                toks,
                toks.len() - rem@.len(),
                rstate_view::<D>(&st),
                errored,
            ) == full,
        decreases rem@.len(),
    {
        let ghost k = toks.len() - rem@.len();
        let ghost old_rem = rem@;
        let ghost pre_st = rstate_view::<D>(&st);
        let t = rem.pop().unwrap();
        proof {
            assert(old_rem.reverse()[0] == t);
            assert(tokens_view::<D>(old_rem.reverse())[0] == token_at::<D>(t));
            assert(toks.skip(k)[0] == toks[k]);
            assert(token_at::<D>(t) == toks[k]);
            assert(rem@.reverse() =~= old_rem.reverse().skip(1));
            assert(tokens_view::<D>(rem@.reverse()) =~= tokens_view::<D>(
                old_rem.reverse(),
            ).skip(1));
            assert(toks.skip(k).skip(1) =~= toks.skip(k + 1));
        }
        st = match t.value {
            Token::UnquotedValue(v) => match st {
                RState::RowBegin => {
                    let mut vals: Vec<Vec<D::Element>> = Vec::new();
                    vals.push(v.0);
                    proof {
                        assert(row_view::<D>(vals) =~= seq![v.0@]);
                    }
                    RState::InRow(vals)
                },
                RState::InRow(vals) => {
                    let mut vals = vals;
                    let ghost vv = row_view::<D>(vals);
                    vals.push(v.0);
                    proof {
                        assert(row_view::<D>(vals) =~= vv.push(v.0@));
                    }
                    RState::InRow(vals)
                },
                RState::AfterComment => RState::AfterComment,
            },
            Token::QuotedValue(v) => match st {
                RState::RowBegin => {
                    let mut vals: Vec<Vec<D::Element>> = Vec::new();
                    vals.push(v.0);
                    proof {
                        assert(row_view::<D>(vals) =~= seq![v.0@]);
                    }
                    RState::InRow(vals)
                },
                RState::InRow(vals) => {
                    let mut vals = vals;
                    let ghost vv = row_view::<D>(vals);
                    vals.push(v.0);
                    proof {
                        assert(row_view::<D>(vals) =~= vv.push(v.0@));
                    }
                    RState::InRow(vals)
                },
                RState::AfterComment => RState::AfterComment,
            },
            Token::Spacing(_) => st,
            Token::LineBreak(_) => match st {
                RState::RowBegin => {
                    let empty_row: Vec<Vec<D::Element>> = Vec::new();
                    proof {
                        lemma_rows_view_push::<D>(rows@, empty_row);
                        assert(row_view::<D>(empty_row) =~= Seq::<Seq<D::Element>>::empty());
                        assert(seq![row_view::<D>(empty_row)] + rows_from(
                            toks,
                            k + 1,
                            RowState::RowBegin,
                            errored,
                        ) =~= seq![Seq::<Seq<D::Element>>::empty()] + rows_from(
                            toks,
                            k + 1,
                            RowState::RowBegin,
                            errored,
                        ));
                        assert(rows_view::<D>(rows@.push(empty_row)) + rows_from(
                            toks,
                            k + 1,
                            RowState::RowBegin,
                            errored,
                        ) =~= full);
                    }
                    rows.push(empty_row);
                    RState::RowBegin
                },
                RState::InRow(vals) => {
                    proof {
                        lemma_rows_view_push::<D>(rows@, vals);
                        assert(rows_view::<D>(rows@.push(vals)) + rows_from(
                            toks,
                            k + 1,
                            RowState::RowBegin,
                            errored,
                        ) =~= full);
                    }
                    rows.push(vals);
                    RState::RowBegin
                },
                RState::AfterComment => RState::RowBegin,
            },
            Token::Comment(_) => RState::AfterComment,
        };
    }
    // End of the token stream: a partial row still counts, unless the
    // stream ended in an error.
    proof {
        assert(tokens_view::<D>(rem@.reverse()) =~= Seq::<TokenAt<D::Element>>::empty());
        assert(rem@.len() == 0);
    }
    if !errored {
        match st {
            RState::InRow(vals) => {
                proof {
                    lemma_rows_view_push::<D>(rows@, vals);
                    assert(rows_view::<D>(rows@.push(vals)) =~= full);
                }
                rows.push(vals);
            },
            _ => {},
        }
    }
    proof {
        assert(rows_view::<D>(rows@) =~= full);
    }
    rows
}

/// Reads the rows of an element stream, one call at a time.
///
/// Produces every row of [`parsed`] on the input, in order, then the
/// terminal error if the input is ill-formed, then nothing.
pub struct Reader<D: Domain> {
    remaining: Vec<Vec<Vec<D::Element>>>,  // the rows not yet yielded, last first
    err: Option<ReadError>,
    err_yielded: bool,
    input: Ghost<Seq<D::Element>>,
}

impl<D: Domain> Reader<D> {
    /// The input the reader was created over.
    pub closed spec fn input(&self) -> Seq<D::Element> {
        self.input@
    }

    /// How many rows have been yielded so far.
    pub closed spec fn rows_yielded(&self) -> int {
        parsed::<D>(self.input@).len() - self.remaining@.len()
    }

    /// Whether the terminal error has already been yielded.
    pub closed spec fn error_yielded(&self) -> bool {
        self.err_yielded
    }

    /// Well-formedness: the not-yet-yielded rows are exactly a suffix of
    /// what the input parses to.
    pub closed spec fn wf(&self) -> bool {
        &&& self.remaining@.len() <= parsed::<D>(self.input@).len()
        &&& rows_view::<D>(self.remaining@.reverse()) == parsed::<D>(self.input@).skip(
            parsed::<D>(self.input@).len() - self.remaining@.len(),
        )
        &&& error_matches(self.err, lex::<D>(self.input@).err)
        &&& (self.err_yielded ==> self.remaining@.len() == 0 && self.err is Some)
    }

    /// Creates a reader over the given input.
    pub fn new(input: Vec<D::Element>) -> (r: Self)
        requires
            input@.len() < usize::MAX,
        ensures
            r.wf(),
            r.input() == input@,
            r.rows_yielded() == 0,
            !r.error_yielded(),
    {
        let (tokens, err) = tokenize::<D>(&input);
        let errored = err.is_some();
        let rows = group_rows::<D>(tokens, errored);
        let ghost rows_v = rows@;
        let remaining = reverse_vec(rows);
        proof {
            assert(remaining@.reverse() =~= rows_v);
            assert(parsed::<D>(input@).skip(0) =~= parsed::<D>(input@));
        }
        Reader { remaining, err, err_yielded: false, input: Ghost(input@) }
    }

    /// Yields the next row, the terminal error, or nothing.
    ///
    /// The rows come in the order of [`parsed`] on the input: each row
    /// once, then the error once if the input is ill-formed, then `None`
    /// forever.
    pub fn next(&mut self) -> (r: Option<ReadResult<Vec<Vec<D::Element>>>>)
        requires
            old(self).wf(),
        ensures
            final(self).wf(),
            final(self).input() == old(self).input(),
            ({
                let rows = parsed::<D>(old(self).input());
                let err = lex::<D>(old(self).input()).err;
                match r {
                    Some(Ok(row)) => {
                        &&& old(self).rows_yielded() < rows.len()
                        &&& !old(self).error_yielded()
                        &&& row_view::<D>(row) == rows[old(self).rows_yielded()]
                        &&& final(self).rows_yielded() == old(self).rows_yielded() + 1
                        &&& !final(self).error_yielded()
                    },
                    Some(Err(e)) => {
                        &&& old(self).rows_yielded() == rows.len()
                        &&& !old(self).error_yielded()
                        &&& err is Some
                        &&& read_error_view(e) == err
                        &&& final(self).rows_yielded() == rows.len()
                        &&& final(self).error_yielded()
                    },
                    None => {
                        &&& old(self).rows_yielded() == rows.len()
                        &&& (err is None || old(self).error_yielded())
                        &&& final(self).rows_yielded() == rows.len()
                        &&& final(self).error_yielded() == old(self).error_yielded()
                    },
                }
            }),
    {
        let ghost rows = parsed::<D>(self.input@);
        let ghost old_rem = self.remaining@;
        match self.remaining.pop() {
            Some(row) => {
                proof {
                    let k = rows.len() - old_rem.len();
                    assert(old_rem.reverse()[0] == row);
                    assert(rows_view::<D>(old_rem.reverse())[0] == row_view::<D>(row));
                    assert(rows.skip(k)[0] == rows[k]);
                    assert(self.remaining@.reverse() =~= old_rem.reverse().skip(1));
                    assert(rows_view::<D>(self.remaining@.reverse()) =~= rows_view::<D>(
                        old_rem.reverse(),
                    ).skip(1));
                    assert(rows.skip(k).skip(1) =~= rows.skip(k + 1));
                }
                Some(Ok(row))
            },
            None => {
                if self.err_yielded {
                    None
                } else {
                    let e = self.err;
                    match e {
                        Some(err) => {
                            self.err_yielded = true;
                            Some(Err(err))
                        },
                        None => None,
                    }
                }
            },
        }
    }
}

} // verus!
