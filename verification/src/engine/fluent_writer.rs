//! The write-side state machine: a fluent emitter that inserts the
//! required delimiters and quoting on its own.

use vstd::prelude::*;

use crate::engine::{LineBreak, WriteError, WriteResult};
use crate::engine::domain::{Domain, all_quotes, is_lf, is_quote, is_spacing};
use crate::engine::options::{Options, OptionsView, default_options, is_valid_spacing, valid_spacing};

verus! {

/// What the writer last wrote on the current line.
#[derive(Clone, Copy, Debug, PartialEq, Eq, Structural)]
pub enum WriteState {
    /// Nothing yet: at the start of the output or just after a line
    /// break.
    LineBegin,
    /// A value.
    AfterValue,
    /// Spacing.
    AfterSpacing,
    /// A comment, still open until a line break closes it.
    InComment,
}

/// Whether the next value written in state `st` starts its line.
pub open spec fn at_line_start(st: WriteState) -> bool {
    st == WriteState::LineBegin || st == WriteState::InComment
}

/// The value with every quote element doubled.
pub open spec fn doubled<D: Domain>(v: Seq<D::Element>) -> Seq<D::Element>
    decreases v.len(),
{
    if v.len() == 0 {
        seq![]
    } else {
        doubled::<D>(v.drop_last()) + (if is_quote::<D>(v.last()) {
            seq![v.last(), v.last()]
        } else {
            seq![v.last()]
        })
    }
}

/// Whether a value holds a spacing element or a line feed.
pub open spec fn contains_spacing_or_lf<D: Domain>(v: Seq<D::Element>) -> bool {
    exists|i: int|
        0 <= i < v.len() && (is_spacing::<D>(#[trigger] v[i]) || is_lf::<D>(v[i]))
}

/// Whether a value must be quoted: the always-quote flag is set, the
/// value consists only of quotes (the empty value included), it holds a
/// spacing element or a line feed, or it starts its line with a hash
/// sign.
pub open spec fn needs_quotes<D: Domain>(
    v: Seq<D::Element>,
    always: bool,
    first_in_line: bool,
) -> bool {
    ||| always
    ||| all_quotes::<D>(v)
    ||| contains_spacing_or_lf::<D>(v)
    ||| (first_in_line && v.len() > 0 && crate::engine::domain::is_hash::<D>(v[0]))
}

/// A value as written out: doubled, and enclosed in quotes when asked.
pub open spec fn encoded_value<D: Domain>(v: Seq<D::Element>, quoted: bool) -> Seq<D::Element> {
    if quoted {
        seq![D::quote_elem()] + doubled::<D>(v) + seq![D::quote_elem()]
    } else {
        doubled::<D>(v)
    }
}

/// A line break as written out.
pub open spec fn break_elems<D: Domain>(b: LineBreak) -> Seq<D::Element> {
    match b {
        LineBreak::Lf => seq![D::lf_elem()],
        LineBreak::CrLf => seq![D::cr_elem(), D::lf_elem()],
    }
}

/// What a value write puts out before the value itself: the default
/// spacing after a value, a default line break after a comment.
pub open spec fn value_prefix<D: Domain>(st: WriteState, opts: OptionsView<D::Element>) -> Seq<
    D::Element,
> {
    match st {
        WriteState::AfterValue => opts.spacing,
        WriteState::InComment => break_elems::<D>(opts.line_break),
        _ => seq![],
    }
}

/// Appends the elements of `src` to `dst`.
fn append<D: Domain>(dst: &mut Vec<D::Element>, src: &Vec<D::Element>)
    ensures
        final(dst)@ == old(dst)@ + src@,
{
    let mut j: usize = 0;
    while j < src.len()
        invariant
            j <= src@.len(),
            dst@ == old(dst)@ + src@.take(j as int),
        decreases src@.len() - j,
    {
        dst.push(src[j]);
        proof {
            assert(old(dst)@ + src@.take(j + 1) =~= (old(dst)@ + src@.take(j as int)).push(
                src@[j as int],
            ));
        }
        j = j + 1;
    }
    proof {
        assert(src@.take(src@.len() as int) =~= src@);
    }
}

/// Appends a line break of the given kind to `dst`.
fn append_break<D: Domain>(dst: &mut Vec<D::Element>, b: LineBreak)
    ensures
        final(dst)@ == old(dst)@ + break_elems::<D>(b),
{
    match b {
        LineBreak::Lf => {
            dst.push(D::lf());
            proof {
                assert(dst@ =~= old(dst)@ + break_elems::<D>(LineBreak::Lf));
            }
        },
        LineBreak::CrLf => {
            dst.push(D::cr());
            dst.push(D::lf());
            proof {
                assert(dst@ =~= old(dst)@ + break_elems::<D>(LineBreak::CrLf));
            }
        },
    }
}

/// Appends the value with every quote doubled.
fn append_doubled<D: Domain>(dst: &mut Vec<D::Element>, v: &Vec<D::Element>)
    ensures
        final(dst)@ == old(dst)@ + doubled::<D>(v@),
{
    let mut j: usize = 0;
    while j < v.len()
        invariant
            j <= v@.len(),
            dst@ == old(dst)@ + doubled::<D>(v@.take(j as int)),
        decreases v@.len() - j,
    {
        let e = v[j];
        let c = D::code(e);
        dst.push(e);
        if c == 34 {
            dst.push(e);
        }
        proof {
            assert(v@.take(j + 1).drop_last() =~= v@.take(j as int));
            assert(v@.take(j + 1).last() == v@[j as int]);
            if c == 34 {
                assert(dst@ =~= old(dst)@ + doubled::<D>(v@.take(j + 1)));
            } else {
                assert(dst@ =~= old(dst)@ + doubled::<D>(v@.take(j + 1)));
            }
        }
        j = j + 1;
    }
    proof {
        assert(v@.take(v@.len() as int) =~= v@);
    }
}

/// Scans a value once, reporting whether it consists only of quotes and
/// whether it holds a spacing element or a line feed.
fn scan_value<D: Domain>(v: &Vec<D::Element>) -> (r: (bool, bool))
    ensures
        r.0 == all_quotes::<D>(v@),
        r.1 == contains_spacing_or_lf::<D>(v@),
{
    let mut j: usize = 0;
    let mut only_quotes: bool = true;
    let mut has_break: bool = false;
    while j < v.len()
        invariant
            j <= v@.len(),
            only_quotes == all_quotes::<D>(v@.take(j as int)),
            has_break == contains_spacing_or_lf::<D>(v@.take(j as int)),
        decreases v@.len() - j,
    {
        let c = D::code(v[j]);
        proof {
            assert(v@.take(j + 1).drop_last() =~= v@.take(j as int));
            assert(v@.take(j + 1).last() == v@[j as int]);
            assert(all_quotes::<D>(v@.take(j + 1)) == (all_quotes::<D>(v@.take(j as int))
                && is_quote::<D>(v@[j as int]))) by {
                if all_quotes::<D>(v@.take(j as int)) && is_quote::<D>(v@[j as int]) {
                    assert forall|k: int| 0 <= k < j + 1 implies is_quote::<D>(
                        #[trigger] v@.take(j + 1)[k],
                    ) by {
                        if k < j {
                            assert(v@.take(j + 1)[k] == v@.take(j as int)[k]);
                        }
                    }
                }
            }
            assert(contains_spacing_or_lf::<D>(v@.take(j + 1)) == (contains_spacing_or_lf::<D>(
                v@.take(j as int),
            ) || is_spacing::<D>(v@[j as int]) || is_lf::<D>(v@[j as int]))) by {
                if contains_spacing_or_lf::<D>(v@.take(j as int)) {
                    let w = choose|i: int|
                        0 <= i < j && (is_spacing::<D>(#[trigger] v@.take(j as int)[i])
                            || is_lf::<D>(v@.take(j as int)[i]));
                    assert(v@.take(j + 1)[w] == v@.take(j as int)[w]);
                }
                if is_spacing::<D>(v@[j as int]) || is_lf::<D>(v@[j as int]) {
                    assert(v@.take(j + 1)[j as int] == v@[j as int]);
                }
                if contains_spacing_or_lf::<D>(v@.take(j + 1)) {
                    let w = choose|i: int|
                        0 <= i < j + 1 && (is_spacing::<D>(#[trigger] v@.take(j + 1)[i])
                            || is_lf::<D>(v@.take(j + 1)[i]));
                    if w < j {
                        assert(v@.take(j as int)[w] == v@.take(j + 1)[w]);
                    }
                }
            }
        }
        only_quotes = only_quotes && c == 34;
        has_break = has_break || c == 32 || c == 9 || c == 10;
        j = j + 1;
    }
    proof {
        assert(v@.take(v@.len() as int) =~= v@);
    }
    (only_quotes, has_break)
}

/// A stateful emitter with a fluent interface.  Given discrete write
/// operations it decides, from its state, whether a default spacing or
/// line break must be inserted first, and whether a value must be
/// quoted.
///
/// Every operation consumes the writer and hands it back on success; a
/// failed operation consumes it for good, so a failed writer cannot be
/// reused.
pub struct FluentWriter<D: Domain> {
    sink: Vec<D::Element>,
    state: WriteState,
    options: Options<D>,
}

impl<D: Domain> FluentWriter<D> {
    /// Everything written so far, the initial sink contents included.
    pub closed spec fn out(&self) -> Seq<D::Element> {
        self.sink@
    }

    /// What was last written on the current line.
    pub closed spec fn state_spec(&self) -> WriteState {
        self.state
    }

    /// The writer's options, as their view.
    pub closed spec fn opts(&self) -> OptionsView<D::Element> {
        self.options@
    }

    /// Creates a fluent writer that appends to the given sink, with the
    /// default options.
    pub fn new(sink: Vec<D::Element>) -> (r: Self)
        ensures
            r.out() == sink@,
            r.state_spec() == WriteState::LineBegin,
            r.opts() == default_options::<D>(),
            valid_spacing::<D>(r.opts().spacing),
    {
        let options = Options::<D>::new();
        FluentWriter { sink, state: WriteState::LineBegin, options }
    }

    /// Writes a value, quoting it when the format or the options demand
    /// it, after an automatic delimiter where one is needed.
    pub(crate) fn push_value(&mut self, value: &Vec<D::Element>, request_quotes: bool)
        ensures
            final(self).out() == old(self).out() + value_prefix::<D>(
                old(self).state_spec(),
                old(self).opts(),
            ) + encoded_value::<D>(
                value@,
                request_quotes || needs_quotes::<D>(
                    value@,
                    old(self).opts().always_quoted,
                    at_line_start(old(self).state_spec()),
                ),
            ),
            final(self).state_spec() == WriteState::AfterValue,
            final(self).opts() == old(self).opts(),
    {
        let ghost base = self.sink@;
        let ghost prefix = value_prefix::<D>(self.state, self.options@);
        let first = match self.state {
            WriteState::LineBegin => true,
            WriteState::InComment => true,
            _ => false,
        };
        match self.state {
            WriteState::AfterValue => {
                let opts = &self.options;
                append::<D>(&mut self.sink, opts.default_spacing());
            },
            WriteState::InComment => {
                let b = self.options.default_line_break();
                append_break::<D>(&mut self.sink, b);
            },
            _ => {},
        }
        let (only_quotes, has_break) = scan_value::<D>(value);
        let starts_hash = first && value.len() > 0 && D::code(value[0]) == 35;
        let quoted = request_quotes || self.options.always_quoted() || only_quotes || has_break
            || starts_hash;
        let ghost mid = self.sink@;
        if quoted {
            self.sink.push(D::quote());
        }
        append_doubled::<D>(&mut self.sink, value);
        if quoted {
            self.sink.push(D::quote());
            proof {
                assert(self.sink@ =~= mid + encoded_value::<D>(value@, true));
            }
        }
        proof {
            assert(mid == base + prefix);
            assert(self.sink@ =~= base + prefix + encoded_value::<D>(value@, quoted));
        }
        self.state = WriteState::AfterValue;
    }

    /// Writes a run of spacing verbatim, after an automatic line break
    /// when a comment is still open.
    pub(crate) fn push_spacing(&mut self, spacing: &Vec<D::Element>)
        requires
            valid_spacing::<D>(spacing@),
        ensures
            final(self).out() == old(self).out() + (if old(self).state_spec()
                == WriteState::InComment {
                break_elems::<D>(old(self).opts().line_break)
            } else {
                Seq::<D::Element>::empty()
            }) + spacing@,
            final(self).state_spec() == WriteState::AfterSpacing,
            final(self).opts() == old(self).opts(),
    {
        let ghost base = self.sink@;
        match self.state {
            WriteState::InComment => {
                let b = self.options.default_line_break();
                append_break::<D>(&mut self.sink, b);
            },
            _ => {
                proof {
                    assert(self.sink@ =~= base + Seq::<D::Element>::empty());
                }
            },
        }
        append::<D>(&mut self.sink, spacing);
        self.state = WriteState::AfterSpacing;
    }

    /// Writes a line break of the given kind.
    pub(crate) fn push_break(&mut self, b: LineBreak)
        ensures
            final(self).out() == old(self).out() + break_elems::<D>(b),
            final(self).state_spec() == WriteState::LineBegin,
            final(self).opts() == old(self).opts(),
    {
        append_break::<D>(&mut self.sink, b);
        self.state = WriteState::LineBegin;
    }

    /// Writes a comment: a hash sign and the content verbatim, after an
    /// automatic line break unless the line is still empty.
    pub(crate) fn push_comment(&mut self, comment: &Vec<D::Element>)
        ensures
            final(self).out() == old(self).out() + (if old(self).state_spec()
                == WriteState::LineBegin {
                Seq::<D::Element>::empty()
            } else {
                break_elems::<D>(old(self).opts().line_break)
            }) + seq![D::hash_elem()] + comment@,
            final(self).state_spec() == WriteState::InComment,
            final(self).opts() == old(self).opts(),
    {
        let ghost base = self.sink@;
        match self.state {
            WriteState::LineBegin => {
                proof {
                    assert(self.sink@ =~= base + Seq::<D::Element>::empty());
                }
            },
            _ => {
                let b = self.options.default_line_break();
                append_break::<D>(&mut self.sink, b);
            },
        }
        let ghost mid = self.sink@;
        self.sink.push(D::hash());
        append::<D>(&mut self.sink, comment);
        proof {
            assert(mid.push(D::hash_elem()) =~= mid + seq![D::hash_elem()]);
        }
        self.state = WriteState::InComment;
    }

    /// Writes a value, quoted only when the format or the options demand
    /// it.
    pub fn write_value(self, value: &Vec<D::Element>) -> (r: WriteResult<Self>)
        ensures
            r is Ok,
            ({
                let w = r->Ok_0;
                &&& w.out() == self.out() + value_prefix::<D>(self.state_spec(), self.opts())
                    + encoded_value::<D>(
                    value@,
                    needs_quotes::<D>(
                        value@,
                        self.opts().always_quoted,
                        at_line_start(self.state_spec()),
                    ),
                )
                &&& w.state_spec() == WriteState::AfterValue
                &&& w.opts() == self.opts()
            }),
    {
        let mut w = self;
        w.push_value(value, false);
        Ok(w)
    }

    /// Writes a value always enclosed in quotes.
    pub fn write_quoted_value(self, value: &Vec<D::Element>) -> (r: WriteResult<Self>)
        ensures
            r is Ok,
            ({
                let w = r->Ok_0;
                &&& w.out() == self.out() + value_prefix::<D>(self.state_spec(), self.opts())
                    + encoded_value::<D>(value@, true)
                &&& w.state_spec() == WriteState::AfterValue
                &&& w.opts() == self.opts()
            }),
    {
        let mut w = self;
        w.push_value(value, true);
        Ok(w)
    }

    /// Writes a run of spacing verbatim.  A string that is empty or
    /// holds a non-spacing element is rejected, and the writer with it.
    pub fn write_spacing(self, spacing: &Vec<D::Element>) -> (r: WriteResult<Self>)
        ensures
            r is Ok <==> valid_spacing::<D>(spacing@),
            r is Err ==> r->Err_0 == WriteError::InvalidSpacing,
            r is Ok ==> ({
                let w = r->Ok_0;
                &&& w.out() == self.out() + (if self.state_spec() == WriteState::InComment {
                    break_elems::<D>(self.opts().line_break)
                } else {
                    Seq::<D::Element>::empty()
                }) + spacing@
                &&& w.state_spec() == WriteState::AfterSpacing
                &&& w.opts() == self.opts()
            }),
    {
        if !is_valid_spacing::<D>(spacing) {
            return Err(WriteError::InvalidSpacing);
        }
        let mut w = self;
        w.push_spacing(spacing);
        Ok(w)
    }

    /// Writes a line break of the default kind.
    pub fn write_line_break(self) -> (r: WriteResult<Self>)
        ensures
            r is Ok,
            ({
                let w = r->Ok_0;
                &&& w.out() == self.out() + break_elems::<D>(self.opts().line_break)
                &&& w.state_spec() == WriteState::LineBegin
                &&& w.opts() == self.opts()
            }),
    {
        let mut w = self;
        let b = w.options.default_line_break();
        w.push_break(b);
        Ok(w)
    }

    /// Writes a line break of the given kind, whatever the default is.
    pub fn write_this_line_break(self, line_break: LineBreak) -> (r: WriteResult<Self>)
        ensures
            r is Ok,
            ({
                let w = r->Ok_0;
                &&& w.out() == self.out() + break_elems::<D>(line_break)
                &&& w.state_spec() == WriteState::LineBegin
                &&& w.opts() == self.opts()
            }),
    {
        let mut w = self;
        w.push_break(line_break);
        Ok(w)
    }

    /// Writes a line break of the given kind, even when it is not the
    /// default.  The same operation as [`Self::write_this_line_break`].
    pub fn write_non_default_line_break(self, line_break: LineBreak) -> (r: WriteResult<Self>)
        ensures
            r is Ok,
            ({
                let w = r->Ok_0;
                &&& w.out() == self.out() + break_elems::<D>(line_break)
                &&& w.state_spec() == WriteState::LineBegin
                &&& w.opts() == self.opts()
            }),
    {
        self.write_this_line_break(line_break)
    }

    /// Writes a comment: a hash sign, then the content verbatim.
    pub fn write_comment(self, comment: &Vec<D::Element>) -> (r: WriteResult<Self>)
        ensures
            r is Ok,
            ({
                let w = r->Ok_0;
                &&& w.out() == self.out() + (if self.state_spec() == WriteState::LineBegin {
                    Seq::<D::Element>::empty()
                } else {
                    break_elems::<D>(self.opts().line_break)
                }) + seq![D::hash_elem()] + comment@
                &&& w.state_spec() == WriteState::InComment
                &&& w.opts() == self.opts()
            }),
    {
        let mut w = self;
        w.push_comment(comment);
        Ok(w)
    }

    /// Ends the writing and hands the sink back.
    pub fn finish(self) -> (r: WriteResult<Vec<D::Element>>)
        ensures
            r is Ok,
            r->Ok_0@ == self.out(),
    {
        Ok(self.sink)
    }

    /// The default spacing.
    pub fn default_spacing(&self) -> (r: &Vec<D::Element>)
        ensures
            r@ == self.opts().spacing,
    {
        self.options.default_spacing()
    }

    /// Sets the default spacing, rejecting a string that is empty or
    /// holds a non-spacing element; the writer is lost with it.
    pub fn set_default_spacing(self, spacing: Vec<D::Element>) -> (r: WriteResult<Self>)
        ensures
            r is Ok <==> valid_spacing::<D>(spacing@),
            r is Err ==> r->Err_0 == WriteError::InvalidSpacing,
            r is Ok ==> ({
                let w = r->Ok_0;
                &&& w.out() == self.out()
                &&& w.state_spec() == self.state_spec()
                &&& w.opts() == (OptionsView { spacing: spacing@, ..self.opts() })
            }),
    {
        let mut w = self;
        match w.options.set_default_spacing(spacing) {
            Ok(()) => Ok(w),
            Err(e) => Err(e),
        }
    }

    /// The default line break kind.
    pub fn default_line_break(&self) -> (r: LineBreak)
        ensures
            r == self.opts().line_break,
    {
        self.options.default_line_break()
    }

    /// Sets the default line break kind.
    pub fn set_default_line_break(self, line_break: LineBreak) -> (r: Self)
        ensures
            r.out() == self.out(),
            r.state_spec() == self.state_spec(),
            r.opts() == (OptionsView { line_break, ..self.opts() }),
    {
        let mut w = self;
        w.options.set_default_line_break(line_break);
        w
    }

    /// Whether every value is quoted regardless of content.
    pub fn always_quoted(&self) -> (r: bool)
        ensures
            r == self.opts().always_quoted,
    {
        self.options.always_quoted()
    }

    /// Sets whether every value is quoted regardless of content.
    pub fn set_always_quoted(self, always_quoted: bool) -> (r: Self)
        ensures
            r.out() == self.out(),
            r.state_spec() == self.state_spec(),
            r.opts() == (OptionsView { always_quoted, ..self.opts() }),
    {
        let mut w = self;
        w.options.set_always_quoted(always_quoted);
        w
    }

    /// The writer's options.
    pub fn options(&self) -> (r: &Options<D>)
        ensures
            r@ == self.opts(),
    {
        &self.options
    }

    /// The writer's options, to be changed in place.
    pub fn options_mut(&mut self) -> (r: &mut Options<D>)
        ensures
            (*r)@ == old(self).opts(),
            final(self).opts() == (*final(r))@,
            final(self).out() == old(self).out(),
            final(self).state_spec() == old(self).state_spec(),
    {
        &mut self.options
    }

    /// Replaces the writer's options.
    pub fn set_options(self, options: Options<D>) -> (r: Self)
        ensures
            r.out() == self.out(),
            r.state_spec() == self.state_spec(),
            r.opts() == options@,
    {
        let mut w = self;
        w.options = options;
        w
    }
}

} // verus!
