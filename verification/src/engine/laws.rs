//! The round-trip law: a value written as a row with the default
//! options reads back as exactly that value.

use vstd::prelude::*;

use crate::engine::LineBreak;
use crate::engine::domain::{
    Domain, all_quotes, is_cr, is_hash, is_lf, is_quote, is_spacing, quotes,
};
use crate::engine::fluent_writer::{
    WriteState, at_line_start, break_elems, contains_spacing_or_lf, doubled, encoded_value,
    needs_quotes, value_prefix,
};
use crate::engine::lexer::{LexState, lex, lex_from, next_col, next_line};
use crate::engine::options::default_options;
use crate::engine::reader::{RowState, parsed, rows_from, rows_of};
use crate::engine::tokens::TokenView;
use crate::engine::writer::{row_out, rows_out, values_out};

verus! {

/// Doubling from the front: the first element of the value comes out
/// once, or twice when it is a quote, before the doubled rest.
proof fn lemma_doubled_front<D: Domain>(v: Seq<D::Element>)
    requires
        v.len() > 0,
    ensures
        doubled::<D>(v) == (if is_quote::<D>(v[0]) {
            seq![v[0], v[0]]
        } else {
            seq![v[0]]
        }) + doubled::<D>(v.skip(1)),
    decreases v.len(),
{
    let front: Seq<D::Element> = if is_quote::<D>(v[0]) {
        seq![v[0], v[0]]
    } else {
        seq![v[0]]
    };
    if v.len() == 1 {
        assert(v.drop_last() =~= Seq::<D::Element>::empty());
        assert(v.skip(1) =~= Seq::<D::Element>::empty());
        assert(doubled::<D>(v) =~= front + doubled::<D>(v.skip(1)));
    } else {
        let w = v.drop_last();
        lemma_doubled_front::<D>(w);
        assert(w[0] == v[0]);
        assert(v.skip(1).drop_last() =~= w.skip(1));
        assert(v.skip(1).last() == v.last());
        assert(doubled::<D>(v) =~= front + doubled::<D>(v.skip(1)));
    }
}

/// Consuming the doubled rest of an unquoted value and the closing line
/// feed emits the finished value token and the line break.
proof fn lemma_lex_unquoted<D: Domain>(
    s: Seq<D::Element>,
    i: int,
    buf: Seq<D::Element>,
    rest: Seq<D::Element>,
    tl: int,
    tc: int,
    line: int,
    col: int,
)
    requires
        0 <= i,
        s.len() == i + doubled::<D>(rest).len() + 1,
        forall|k: int|
            0 <= k < doubled::<D>(rest).len() ==> s[i + k] == doubled::<D>(rest)[k],
        s[s.len() - 1] == D::lf_elem(),
        forall|k: int|
            0 <= k < rest.len() ==> !is_spacing::<D>(#[trigger] rest[k]) && !is_lf::<D>(rest[k])
                && !is_cr::<D>(rest[k]),
    ensures
        ({
            let o = lex_from::<D>(s, i, LexState::Unquoted { line: tl, col: tc, buf }, line, col);
            &&& o.err is None
            &&& o.tokens.len() == 2
            &&& o.tokens[0].token == TokenView::UnquotedValue(buf + rest)
            &&& o.tokens[1].token == TokenView::<D::Element>::LineBreak(LineBreak::Lf)
        }),
    decreases rest.len(),
{
    D::distinguished_codes();
    if rest.len() == 0 {
        assert(s[i] == D::lf_elem());
        assert(lex_from::<D>(s, i + 1, LexState::Begin, line + 1, 0).tokens.len() == 0);
        assert(buf + rest =~= buf);
    } else {
        lemma_doubled_front::<D>(rest);
        let r0 = rest[0];
        let d = doubled::<D>(rest);
        let d1 = doubled::<D>(rest.skip(1));
        if is_quote::<D>(r0) {
            assert(d[0] == r0);
            assert(d[1] == r0);
            assert(s[i] == r0);
            assert(s[i + 1] == r0);
            assert forall|k: int| 0 <= k < d1.len() implies s[i + 2 + k] == d1[k] by {
                assert(d[2 + k] == d1[k]);
                assert(s[i + (2 + k)] == d[2 + k]);
            }
            let mid = lex_from::<D>(
                s,
                i + 1,
                LexState::QuoteInUnquoted {
                    line: tl,
                    col: tc,
                    buf,
                    qline: line,
                    qcol: col + 1,
                },
                line,
                col + 1,
            );
            assert(lex_from::<D>(s, i, LexState::Unquoted { line: tl, col: tc, buf }, line, col)
                == mid);
            assert(mid == lex_from::<D>(
                s,
                i + 2,
                LexState::Unquoted { line: tl, col: tc, buf: buf.push(r0) },
                line,
                col + 2,
            ));
            lemma_lex_unquoted::<D>(s, i + 2, buf.push(r0), rest.skip(1), tl, tc, line, col + 2);
            assert(buf.push(r0) + rest.skip(1) =~= buf + rest);
        } else {
            assert(d[0] == r0);
            assert(s[i] == r0);
            assert forall|k: int| 0 <= k < d1.len() implies s[i + 1 + k] == d1[k] by {
                assert(d[1 + k] == d1[k]);
                assert(s[i + (1 + k)] == d[1 + k]);
            }
            assert(lex_from::<D>(s, i, LexState::Unquoted { line: tl, col: tc, buf }, line, col)
                == lex_from::<D>(
                s,
                i + 1,
                LexState::Unquoted { line: tl, col: tc, buf: buf.push(r0) },
                line,
                col + 1,
            ));
            lemma_lex_unquoted::<D>(s, i + 1, buf.push(r0), rest.skip(1), tl, tc, line, col + 1);
            assert(buf.push(r0) + rest.skip(1) =~= buf + rest);
        }
    }
}

/// Consuming the doubled rest of a quoted value, the closing quote and
/// the closing line feed emits the finished value token and the line
/// break.  Inside quotes every element is taken raw, so nothing is
/// asked of the rest.
proof fn lemma_lex_quoted<D: Domain>(
    s: Seq<D::Element>,
    i: int,
    buf: Seq<D::Element>,
    rest: Seq<D::Element>,
    tl: int,
    tc: int,
    line: int,
    col: int,
)
    requires
        0 <= i,
        s.len() == i + doubled::<D>(rest).len() + 2,
        forall|k: int|
            0 <= k < doubled::<D>(rest).len() ==> s[i + k] == doubled::<D>(rest)[k],
        s[s.len() - 2] == D::quote_elem(),
        s[s.len() - 1] == D::lf_elem(),
    ensures
        ({
            let o = lex_from::<D>(s, i, LexState::Quoted { line: tl, col: tc, buf }, line, col);
            &&& o.err is None
            &&& o.tokens.len() == 2
            &&& o.tokens[0].token == TokenView::QuotedValue(buf + rest)
            &&& o.tokens[1].token == TokenView::<D::Element>::LineBreak(LineBreak::Lf)
        }),
    decreases rest.len(),
{
    D::distinguished_codes();
    if rest.len() == 0 {
        assert(s[i] == D::quote_elem());
        assert(s[i + 1] == D::lf_elem());
        let mid = lex_from::<D>(
            s,
            i + 1,
            LexState::QuoteInQuoted { line: tl, col: tc, buf, qline: line, qcol: col + 1 },
            line,
            col + 1,
        );
        assert(lex_from::<D>(s, i, LexState::Quoted { line: tl, col: tc, buf }, line, col)
            == mid);
        assert(lex_from::<D>(s, i + 2, LexState::Begin, line + 1, 0).tokens.len() == 0);
        assert(mid.tokens.len() == 2);
        assert(buf + rest =~= buf);
    } else {
        lemma_doubled_front::<D>(rest);
        let r0 = rest[0];
        let d = doubled::<D>(rest);
        let d1 = doubled::<D>(rest.skip(1));
        if is_quote::<D>(r0) {
            assert(d[0] == r0);
            assert(d[1] == r0);
            assert(s[i] == r0);
            assert(s[i + 1] == r0);
            assert forall|k: int| 0 <= k < d1.len() implies s[i + 2 + k] == d1[k] by {
                assert(d[2 + k] == d1[k]);
                assert(s[i + (2 + k)] == d[2 + k]);
            }
            let mid = lex_from::<D>(
                s,
                i + 1,
                LexState::QuoteInQuoted { line: tl, col: tc, buf, qline: line, qcol: col + 1 },
                line,
                col + 1,
            );
            assert(lex_from::<D>(s, i, LexState::Quoted { line: tl, col: tc, buf }, line, col)
                == mid);
            assert(mid == lex_from::<D>(
                s,
                i + 2,
                LexState::Quoted { line: tl, col: tc, buf: buf.push(r0) },
                line,
                col + 2,
            ));
            lemma_lex_quoted::<D>(s, i + 2, buf.push(r0), rest.skip(1), tl, tc, line, col + 2);
            assert(buf.push(r0) + rest.skip(1) =~= buf + rest);
        } else {
            assert(d[0] == r0);
            assert(s[i] == r0);
            assert forall|k: int| 0 <= k < d1.len() implies s[i + 1 + k] == d1[k] by {
                assert(d[1 + k] == d1[k]);
                assert(s[i + (1 + k)] == d[1 + k]);
            }
            assert(lex_from::<D>(s, i, LexState::Quoted { line: tl, col: tc, buf }, line, col)
                == lex_from::<D>(
                s,
                i + 1,
                LexState::Quoted { line: tl, col: tc, buf: buf.push(r0) },
                next_line::<D>(r0, line),
                next_col::<D>(r0, col),
            ));
            lemma_lex_quoted::<D>(
                s,
                i + 1,
                buf.push(r0),
                rest.skip(1),
                tl,
                tc,
                next_line::<D>(r0, line),
                next_col::<D>(r0, col),
            );
            assert(buf.push(r0) + rest.skip(1) =~= buf + rest);
        }
    }
}

/// Consuming the rest of a quoted value from inside its opening run of
/// quotes emits the whole value token and the line break.  The first
/// `j` elements of the value are quotes, already consumed as `1 + 2 j`
/// input quotes.
proof fn lemma_lex_prefix_quoted<D: Domain>(
    s: Seq<D::Element>,
    i: int,
    v: Seq<D::Element>,
    j: int,
    tl: int,
    tc: int,
    line: int,
    col: int,
)
    requires
        0 <= j <= v.len(),
        forall|k: int| 0 <= k < j ==> is_quote::<D>(#[trigger] v[k]),
        0 <= i,
        s.len() == i + doubled::<D>(v.skip(j)).len() + 2,
        forall|k: int|
            0 <= k < doubled::<D>(v.skip(j)).len() ==> s[i + k] == doubled::<D>(v.skip(j))[k],
        s[s.len() - 2] == D::quote_elem(),
        s[s.len() - 1] == D::lf_elem(),
    ensures
        ({
            let o = lex_from::<D>(
                s,
                i,
                LexState::QuotesPrefix { line: tl, col: tc, count: 1 + 2 * j },
                line,
                col,
            );
            &&& o.err is None
            &&& o.tokens.len() == 2
            &&& o.tokens[0].token == TokenView::QuotedValue(v)
            &&& o.tokens[1].token == TokenView::<D::Element>::LineBreak(LineBreak::Lf)
        }),
    decreases v.len() - j,
{
    D::distinguished_codes();
    let tail = v.skip(j);
    if j == v.len() {
        assert(tail.len() == 0);
        assert(s[i] == D::quote_elem());
        assert(s[i + 1] == D::lf_elem());
        let mid = lex_from::<D>(
            s,
            i + 1,
            LexState::QuotesPrefix { line: tl, col: tc, count: 2 + 2 * j },
            line,
            col + 1,
        );
        assert(lex_from::<D>(
            s,
            i,
            LexState::QuotesPrefix { line: tl, col: tc, count: 1 + 2 * j },
            line,
            col,
        ) == mid);
        assert(lex_from::<D>(s, i + 2, LexState::Begin, line + 1, 0).tokens.len() == 0);
        assert((2 + 2 * j) % 2 == 0);
        assert(((2 + 2 * j) - 2) / 2 == j);
        assert(mid.tokens.len() == 2);
        assert forall|k: int| 0 <= k < j implies quotes::<D>(j as nat)[k] == v[k] by {
            D::code_injective(D::quote_elem(), v[k]);
        }
        assert(quotes::<D>(j as nat) =~= v);
    } else {
        lemma_doubled_front::<D>(tail);
        let r0 = tail[0];
        assert(r0 == v[j]);
        let d = doubled::<D>(tail);
        let d1 = doubled::<D>(tail.skip(1));
        assert(tail.skip(1) =~= v.skip(j + 1));
        if is_quote::<D>(r0) {
            assert(d[0] == r0);
            assert(d[1] == r0);
            assert(s[i] == r0);
            assert(s[i + 1] == r0);
            assert forall|k: int| 0 <= k < d1.len() implies s[i + 2 + k] == d1[k] by {
                assert(d[2 + k] == d1[k]);
                assert(s[i + (2 + k)] == d[2 + k]);
            }
            let mid = lex_from::<D>(
                s,
                i + 1,
                LexState::QuotesPrefix { line: tl, col: tc, count: 1 + 2 * j + 1 },
                line,
                col + 1,
            );
            assert(lex_from::<D>(
                s,
                i,
                LexState::QuotesPrefix { line: tl, col: tc, count: 1 + 2 * j },
                line,
                col,
            ) == mid);
            assert(mid == lex_from::<D>(
                s,
                i + 2,
                LexState::QuotesPrefix { line: tl, col: tc, count: 1 + 2 * (j + 1) },
                line,
                col + 2,
            ));
            lemma_lex_prefix_quoted::<D>(s, i + 2, v, j + 1, tl, tc, line, col + 2);
        } else {
            assert(d[0] == r0);
            assert(s[i] == r0);
            assert forall|k: int| 0 <= k < d1.len() implies s[i + 1 + k] == d1[k] by {
                assert(d[1 + k] == d1[k]);
                assert(s[i + (1 + k)] == d[1 + k]);
            }
            assert((1 + 2 * j) % 2 == 1);
            assert(((1 + 2 * j) - 1) / 2 == j);
            let buf = quotes::<D>(j as nat).push(r0);
            assert(lex_from::<D>(
                s,
                i,
                LexState::QuotesPrefix { line: tl, col: tc, count: 1 + 2 * j },
                line,
                col,
            ) == lex_from::<D>(
                s,
                i + 1,
                LexState::Quoted { line: tl, col: tc, buf },
                next_line::<D>(r0, line),
                next_col::<D>(r0, col),
            ));
            lemma_lex_quoted::<D>(
                s,
                i + 1,
                buf,
                v.skip(j + 1),
                tl,
                tc,
                next_line::<D>(r0, line),
                next_col::<D>(r0, col),
            );
            assert forall|k: int| 0 <= k < j implies quotes::<D>(j as nat)[k] == v[k] by {
                D::code_injective(D::quote_elem(), v[k]);
            }
            assert(buf + v.skip(j + 1) =~= v);
        }
    }
}

/// Consuming the rest of an unquoted value from inside its leading run
/// of quotes emits the whole value token and the line break.  The first
/// `j` elements of the value are quotes, already consumed as `2 j`
/// input quotes; the value is not made of quotes alone.
proof fn lemma_lex_prefix_unquoted<D: Domain>(
    s: Seq<D::Element>,
    i: int,
    v: Seq<D::Element>,
    j: int,
    tl: int,
    tc: int,
    line: int,
    col: int,
)
    requires
        1 <= j <= v.len(),
        forall|k: int| 0 <= k < j ==> is_quote::<D>(#[trigger] v[k]),
        !all_quotes::<D>(v),
        forall|k: int|
            0 <= k < v.len() ==> !is_spacing::<D>(#[trigger] v[k]) && !is_lf::<D>(v[k])
                && !is_cr::<D>(v[k]),
        0 <= i,
        s.len() == i + doubled::<D>(v.skip(j)).len() + 1,
        forall|k: int|
            0 <= k < doubled::<D>(v.skip(j)).len() ==> s[i + k] == doubled::<D>(v.skip(j))[k],
        s[s.len() - 1] == D::lf_elem(),
    ensures
        ({
            let o = lex_from::<D>(
                s,
                i,
                LexState::QuotesPrefix { line: tl, col: tc, count: 2 * j },
                line,
                col,
            );
            &&& o.err is None
            &&& o.tokens.len() == 2
            &&& o.tokens[0].token == TokenView::UnquotedValue(v)
            &&& o.tokens[1].token == TokenView::<D::Element>::LineBreak(LineBreak::Lf)
        }),
    decreases v.len() - j,
{
    D::distinguished_codes();
    let tail = v.skip(j);
    if j == v.len() {
        assert(all_quotes::<D>(v));
        assert(false);
    } else {
        lemma_doubled_front::<D>(tail);
        let r0 = tail[0];
        assert(r0 == v[j]);
        let d = doubled::<D>(tail);
        let d1 = doubled::<D>(tail.skip(1));
        assert(tail.skip(1) =~= v.skip(j + 1));
        if is_quote::<D>(r0) {
            assert(d[0] == r0);
            assert(d[1] == r0);
            assert(s[i] == r0);
            assert(s[i + 1] == r0);
            assert forall|k: int| 0 <= k < d1.len() implies s[i + 2 + k] == d1[k] by {
                assert(d[2 + k] == d1[k]);
                assert(s[i + (2 + k)] == d[2 + k]);
            }
            let mid = lex_from::<D>(
                s,
                i + 1,
                LexState::QuotesPrefix { line: tl, col: tc, count: 2 * j + 1 },
                line,
                col + 1,
            );
            assert(lex_from::<D>(
                s,
                i,
                LexState::QuotesPrefix { line: tl, col: tc, count: 2 * j },
                line,
                col,
            ) == mid);
            assert(mid == lex_from::<D>(
                s,
                i + 2,
                LexState::QuotesPrefix { line: tl, col: tc, count: 2 * (j + 1) },
                line,
                col + 2,
            ));
            lemma_lex_prefix_unquoted::<D>(s, i + 2, v, j + 1, tl, tc, line, col + 2);
        } else {
            assert(d[0] == r0);
            assert(s[i] == r0);
            assert forall|k: int| 0 <= k < d1.len() implies s[i + 1 + k] == d1[k] by {
                assert(d[1 + k] == d1[k]);
                assert(s[i + (1 + k)] == d[1 + k]);
            }
            assert((2 * j) % 2 == 0);
            assert((2 * j) / 2 == j);
            let buf = quotes::<D>(j as nat).push(r0);
            assert(lex_from::<D>(
                s,
                i,
                LexState::QuotesPrefix { line: tl, col: tc, count: 2 * j },
                line,
                col,
            ) == lex_from::<D>(
                s,
                i + 1,
                LexState::Unquoted { line: tl, col: tc, buf },
                line,
                col + 1,
            ));
            lemma_lex_unquoted::<D>(s, i + 1, buf, v.skip(j + 1), tl, tc, line, col + 1);
            assert forall|k: int| 0 <= k < j implies quotes::<D>(j as nat)[k] == v[k] by {
                D::code_injective(D::quote_elem(), v[k]);
            }
            assert(buf + v.skip(j + 1) =~= v);
        }
    }
}

/// The round-trip law: writing any value as the sole value of a single
/// row, with the default options, produces text that parses back to
/// exactly that one row with that one value, and without error.
///
/// The one proviso: the value must hold no carriage return.  An
/// unquoted value ending in a carriage return would run into the
/// trailing line feed and be read back one element short, so carriage
/// returns are left out here altogether.
#[verifier::rlimit(100)]
pub proof fn lemma_write_read_roundtrip<D: Domain>(v: Seq<D::Element>)
    requires
        forall|k: int| 0 <= k < v.len() ==> !is_cr::<D>(#[trigger] v[k]),
    ensures
        lex::<D>(rows_out::<D>(seq![seq![v]], default_options::<D>())).err is None,
        parsed::<D>(rows_out::<D>(seq![seq![v]], default_options::<D>())) == seq![seq![v]],
{
    D::distinguished_codes();
    let opts = default_options::<D>();
    let q = needs_quotes::<D>(v, false, true);
    let out = rows_out::<D>(seq![seq![v]], opts);
    let rows1: Seq<Seq<Seq<D::Element>>> = seq![seq![v]];
    let row1: Seq<Seq<D::Element>> = seq![v];
    assert(rows1.drop_last() =~= Seq::<Seq<Seq<D::Element>>>::empty());
    assert(rows1.last() == row1);
    assert(row1.drop_last() =~= Seq::<Seq<D::Element>>::empty());
    assert(row1.last() == v);
    assert(values_out::<D>(row1.drop_last(), WriteState::LineBegin, opts) == Seq::<
        D::Element,
    >::empty());
    assert(at_line_start(WriteState::LineBegin));
    assert(value_prefix::<D>(WriteState::LineBegin, opts) == Seq::<D::Element>::empty());
    assert(values_out::<D>(row1, WriteState::LineBegin, opts) =~= encoded_value::<D>(v, q));
    assert(rows_out::<D>(rows1.drop_last(), opts) == Seq::<D::Element>::empty());
    assert(out =~= row_out::<D>(row1, opts));
    assert(break_elems::<D>(opts.line_break) =~= seq![D::lf_elem()]);
    assert(out =~= encoded_value::<D>(v, q) + seq![D::lf_elem()]);
    let d = doubled::<D>(v);
    if q {
        // The quoted form: an opening quote, the doubled value, the
        // closing quote, the line break.
        assert(out.len() == d.len() + 3);
        assert(out[0] == D::quote_elem());
        assert forall|k: int| 0 <= k < d.len() implies out[1 + k] == d[k] by {
            assert(out[1 + k] == (encoded_value::<D>(v, q))[1 + k]);
        }
        assert(out[out.len() - 2] == D::quote_elem());
        assert(out[out.len() - 1] == D::lf_elem());
        assert(lex_from::<D>(out, 0, LexState::Begin, 1, 0) == lex_from::<D>(
            out,
            1,
            LexState::QuotesPrefix { line: 1, col: 1, count: 1 },
            1,
            1,
        ));
        assert(v.skip(0) =~= v);
        lemma_lex_prefix_quoted::<D>(out, 1, v, 0, 1, 1, 1, 1);
    } else {
        // The bare form: the doubled value, then the line break.
        assert(!all_quotes::<D>(v));
        assert(v.len() > 0);
        assert(!contains_spacing_or_lf::<D>(v));
        assert forall|k: int| 0 <= k < v.len() implies !is_spacing::<D>(#[trigger] v[k])
            && !is_lf::<D>(v[k]) && !is_cr::<D>(v[k]) by {
            if is_spacing::<D>(v[k]) || is_lf::<D>(v[k]) {
                assert(contains_spacing_or_lf::<D>(v));
            }
        }
        assert(!is_hash::<D>(v[0]));
        assert(out.len() == d.len() + 1);
        assert forall|k: int| 0 <= k < d.len() implies out[k] == d[k] by {
            assert(out[k] == (encoded_value::<D>(v, q))[k]);
        }
        assert(out[out.len() - 1] == D::lf_elem());
        lemma_doubled_front::<D>(v);
        let d1 = doubled::<D>(v.skip(1));
        if is_quote::<D>(v[0]) {
            assert(d[0] == v[0]);
            assert(d[1] == v[0]);
            assert(out[0] == v[0]);
            assert(out[1] == v[0]);
            let mid = lex_from::<D>(
                out,
                1,
                LexState::QuotesPrefix { line: 1, col: 1, count: 1 },
                1,
                1,
            );
            assert(lex_from::<D>(out, 0, LexState::Begin, 1, 0) == mid);
            assert(mid == lex_from::<D>(
                out,
                2,
                LexState::QuotesPrefix { line: 1, col: 1, count: 2 },
                1,
                2,
            ));
            lemma_lex_prefix_unquoted::<D>(out, 2, v, 1, 1, 1, 1, 2);
        } else {
            assert(d[0] == v[0]);
            assert(out[0] == v[0]);
            assert(lex_from::<D>(out, 0, LexState::Begin, 1, 0) == lex_from::<D>(
                out,
                1,
                LexState::Unquoted { line: 1, col: 1, buf: seq![v[0]] },
                1,
                1,
            ));
            assert forall|k: int| 0 <= k < d1.len() implies out[1 + k] == d1[k] by {
                assert(d[1 + k] == d1[k]);
            }
            lemma_lex_unquoted::<D>(out, 1, seq![v[0]], v.skip(1), 1, 1, 1, 1);
            assert(seq![v[0]] + v.skip(1) =~= v);
        }
    }
    // The two tokens group into the single row holding the value.
    let o = lex::<D>(out);
    assert(o.err is None);
    assert(o.tokens.len() == 2);
    assert(o.tokens[0].token == TokenView::UnquotedValue(v) || o.tokens[0].token
        == TokenView::QuotedValue(v));
    assert(o.tokens[1].token == TokenView::<D::Element>::LineBreak(LineBreak::Lf));
    let after_value = rows_from(o.tokens, 1, RowState::InRow(seq![v]), false);
    assert(rows_from(o.tokens, 0, RowState::RowBegin, false) == after_value);
    assert(after_value == seq![row1] + rows_from(o.tokens, 2, RowState::RowBegin, false));
    assert(rows_from(o.tokens, 2, RowState::<D::Element>::RowBegin, false) =~= Seq::<
        Seq<Seq<D::Element>>,
    >::empty());
    assert(rows_of(o) =~= rows1);
}

} // verus!
