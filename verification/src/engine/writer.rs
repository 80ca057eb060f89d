//! The row-oriented writer: a facade that drives the fluent writer for
//! whole rows, trailing every row with the default line break.

use vstd::prelude::*;

use crate::engine::{LineBreak, WriteError, WriteResult};
use crate::engine::domain::Domain;
use crate::engine::fluent_writer::{
    FluentWriter, WriteState, at_line_start, break_elems, encoded_value, needs_quotes,
    value_prefix,
};
use crate::engine::options::{Options, OptionsView, default_options, is_valid_spacing, valid_spacing};
use crate::engine::reader::{row_view, rows_view};

verus! {

/// What writing the given values in order puts out, starting in write
/// state `st`: each value after its automatic delimiter, quoted when
/// the format or the options demand it.
pub open spec fn values_out<D: Domain>(
    vals: Seq<Seq<D::Element>>,
    st: WriteState,
    opts: OptionsView<D::Element>,
) -> Seq<D::Element>
    decreases vals.len(),
{
    if vals.len() == 0 {
        seq![]
    } else {
        let prev = if vals.len() == 1 {
            st
        } else {
            WriteState::AfterValue
        };
        values_out::<D>(vals.drop_last(), st, opts) + value_prefix::<D>(prev, opts)
            + encoded_value::<D>(
            vals.last(),
            needs_quotes::<D>(vals.last(), opts.always_quoted, at_line_start(prev)),
        )
    }
}

/// What writing one whole row puts out: its values from the start of a
/// line, then the default line break.
pub open spec fn row_out<D: Domain>(vals: Seq<Seq<D::Element>>, opts: OptionsView<D::Element>) -> Seq<
    D::Element,
> {
    values_out::<D>(vals, WriteState::LineBegin, opts) + break_elems::<D>(opts.line_break)
}

/// What writing the given rows in order puts out.
pub open spec fn rows_out<D: Domain>(
    rows: Seq<Seq<Seq<D::Element>>>,
    opts: OptionsView<D::Element>,
) -> Seq<D::Element>
    decreases rows.len(),
{
    if rows.len() == 0 {
        seq![]
    } else {
        rows_out::<D>(rows.drop_last(), opts) + row_out::<D>(rows.last(), opts)
    }
}

/// Writes SSV content row by row.  Every row it writes is closed with
/// the default line break, so the writer always stands at the start of
/// a line.
pub struct Writer<D: Domain> {
    fluent: FluentWriter<D>,
}

impl<D: Domain> Writer<D> {
    /// Everything written so far, the initial sink contents included.
    pub closed spec fn out(&self) -> Seq<D::Element> {
        self.fluent.out()
    }

    /// The writer's options, as their view.
    pub closed spec fn opts(&self) -> OptionsView<D::Element> {
        self.fluent.opts()
    }

    /// Well-formedness: the writer stands at the start of a line.
    pub closed spec fn wf(&self) -> bool {
        self.fluent.state_spec() == WriteState::LineBegin
    }

    /// Creates a writer that appends to the given sink, with the
    /// default options.
    pub fn new(sink: Vec<D::Element>) -> (r: Self)
        ensures
            r.wf(),
            r.out() == sink@,
            r.opts() == default_options::<D>(),
            valid_spacing::<D>(r.opts().spacing),
    {
        Writer { fluent: FluentWriter::new(sink) }
    }

    /// Writes whole rows, each closed with the default line break.
    pub fn write_rows(&mut self, rows: &Vec<Vec<Vec<D::Element>>>) -> (r: WriteResult<()>)
        requires
            old(self).wf(),
        ensures
            r is Ok,
            final(self).wf(),
            final(self).out() == old(self).out() + rows_out::<D>(
                rows_view::<D>(rows@),
                old(self).opts(),
            ),
            final(self).opts() == old(self).opts(),
    {
        let ghost base = self.out();
        let ghost rv = rows_view::<D>(rows@);
        let mut j: usize = 0;
        while j < rows.len()
            invariant
                rv == rows_view::<D>(rows@),
                j <= rows@.len(),
                self.wf(),
                self.opts() == old(self).opts(),
                self.out() == base + rows_out::<D>(rv.take(j as int), old(self).opts()),
            decreases rows@.len() - j,
        {
            self.put_row(&rows[j]);
            proof {
                assert(rv.take(j + 1).drop_last() =~= rv.take(j as int));
                assert(rv.take(j + 1).last() == row_view::<D>(rows@[j as int]));
                assert(self.out() =~= base + rows_out::<D>(rv.take(j + 1), old(self).opts()));
            }
            j = j + 1;
        }
        proof {
            assert(rv.take(rows@.len() as int) =~= rv);
        }
        Ok(())
    }

    /// Writes one row: its values in order, closed with the default
    /// line break.
    pub fn write_row(&mut self, row: &Vec<Vec<D::Element>>) -> (r: WriteResult<()>)
        requires
            old(self).wf(),
        ensures
            r is Ok,
            final(self).wf(),
            final(self).out() == old(self).out() + row_out::<D>(
                row_view::<D>(*row),
                old(self).opts(),
            ),
            final(self).opts() == old(self).opts(),
    {
        self.put_row(row);
        Ok(())
    }

    /// Writes one row, the fallible interface aside.
    fn put_row(&mut self, row: &Vec<Vec<D::Element>>)
        requires
            old(self).wf(),
        ensures
            final(self).wf(),
            final(self).out() == old(self).out() + row_out::<D>(
                row_view::<D>(*row),
                old(self).opts(),
            ),
            final(self).opts() == old(self).opts(),
    {
        let ghost base = self.out();
        let ghost vv = row_view::<D>(*row);
        let mut j: usize = 0;
        while j < row.len()
            invariant
                vv == row_view::<D>(*row),
                j <= row@.len(),
                self.fluent.opts() == old(self).opts(),
                self.fluent.state_spec() == (if j == 0 {
                    WriteState::LineBegin
                } else {
                    WriteState::AfterValue
                }),
                self.fluent.out() == base + values_out::<D>(
                    vv.take(j as int),
                    WriteState::LineBegin,
                    old(self).opts(),
                ),
            decreases row@.len() - j,
        {
            self.fluent.push_value(&row[j], false);
            proof {
                assert(vv.take(j + 1).drop_last() =~= vv.take(j as int));
                assert(vv.take(j + 1).last() == row@[j as int]@);
                assert(self.fluent.out() =~= base + values_out::<D>(
                    vv.take(j + 1),
                    WriteState::LineBegin,
                    old(self).opts(),
                ));
            }
            j = j + 1;
        }
        proof {
            assert(vv.take(row@.len() as int) =~= vv);
        }
        let b = self.fluent.default_line_break();
        self.fluent.push_break(b);
        proof {
            assert(self.fluent.out() =~= base + row_out::<D>(vv, old(self).opts()));
        }
    }

    /// Opens a row to be written value by value.  Finishing the row
    /// hands the writer back.
    pub fn new_row(self) -> (r: RowWriter<D>)
        requires
            self.wf(),
        ensures
            r.out() == self.out(),
            r.opts() == self.opts(),
            r.state_spec() == WriteState::LineBegin,
            !r.poisoned(),
    {
        RowWriter { fluent: self.fluent, poisoned: false }
    }

    /// Writes one comment line: a hash sign, the comment verbatim, and
    /// the default line break.
    pub fn write_comment_line(&mut self, comment: &Vec<D::Element>) -> (r: WriteResult<()>)
        requires
            old(self).wf(),
        ensures
            r is Ok,
            final(self).wf(),
            final(self).out() == old(self).out() + seq![D::hash_elem()] + comment@
                + break_elems::<D>(old(self).opts().line_break),
            final(self).opts() == old(self).opts(),
    {
        let ghost base = self.out();
        self.fluent.push_comment(comment);
        let b = self.fluent.default_line_break();
        self.fluent.push_break(b);
        proof {
            assert(base + Seq::<D::Element>::empty() + seq![D::hash_elem()] + comment@
                + break_elems::<D>(old(self).opts().line_break) =~= base + seq![
                D::hash_elem(),
            ] + comment@ + break_elems::<D>(old(self).opts().line_break));
        }
        Ok(())
    }

    /// Ends the writing and hands the sink back.
    pub fn finish(self) -> (r: WriteResult<Vec<D::Element>>)
        ensures
            r is Ok,
            r->Ok_0@ == self.out(),
    {
        self.fluent.finish()
    }

    /// The writer's options.
    pub fn options(&self) -> (r: &Options<D>)
        ensures
            r@ == self.opts(),
    {
        self.fluent.options()
    }

    /// The writer's options, to be changed in place.
    pub fn options_mut(&mut self) -> (r: &mut Options<D>)
        ensures
            (*r)@ == old(self).opts(),
            final(self).opts() == (*final(r))@,
            final(self).out() == old(self).out(),
            final(self).wf() == old(self).wf(),
    {
        self.fluent.options_mut()
    }

    /// Replaces the writer's options.
    pub fn set_options(&mut self, options: Options<D>)
        ensures
            final(self).opts() == options@,
            final(self).out() == old(self).out(),
            final(self).wf() == old(self).wf(),
    {
        let opts_ref = self.fluent.options_mut();
        *opts_ref = options;
    }
}

/// Writes the values of one row.  Created by [`Writer::new_row`];
/// finishing it writes the trailing line break and hands the writer
/// back.
pub struct RowWriter<D: Domain> {
    fluent: FluentWriter<D>,
    poisoned: bool,
}

impl<D: Domain> RowWriter<D> {
    /// Everything written so far, the initial sink contents included.
    pub closed spec fn out(&self) -> Seq<D::Element> {
        self.fluent.out()
    }

    /// The writer's options, as their view.
    pub closed spec fn opts(&self) -> OptionsView<D::Element> {
        self.fluent.opts()
    }

    /// What was last written on the current line.
    pub closed spec fn state_spec(&self) -> WriteState {
        self.fluent.state_spec()
    }

    /// Whether a failed operation has made the row writer unusable.
    pub closed spec fn poisoned(&self) -> bool {
        self.poisoned
    }

    /// Writes the given values in order, each after its automatic
    /// delimiter.
    pub fn write_values(&mut self, values: &Vec<Vec<D::Element>>) -> (r: WriteResult<()>)
        requires
            !old(self).poisoned(),
        ensures
            r is Ok,
            !final(self).poisoned(),
            final(self).out() == old(self).out() + values_out::<D>(
                row_view::<D>(*values),
                old(self).state_spec(),
                old(self).opts(),
            ),
            final(self).state_spec() == (if values@.len() == 0 {
                old(self).state_spec()
            } else {
                WriteState::AfterValue
            }),
            final(self).opts() == old(self).opts(),
    {
        let ghost base = self.out();
        let ghost vv = row_view::<D>(*values);
        let ghost st0 = self.state_spec();
        let mut j: usize = 0;
        while j < values.len()
            invariant
                vv == row_view::<D>(*values),
                j <= values@.len(),
                st0 == old(self).state_spec(),
                self.poisoned == old(self).poisoned,
                self.fluent.opts() == old(self).opts(),
                self.fluent.state_spec() == (if j == 0 {
                    st0
                } else {
                    WriteState::AfterValue
                }),
                self.fluent.out() == base + values_out::<D>(vv.take(j as int), st0, old(self).opts()),
            decreases values@.len() - j,
        {
            self.fluent.push_value(&values[j], false);
            proof {
                assert(vv.take(j + 1).drop_last() =~= vv.take(j as int));
                assert(vv.take(j + 1).last() == values@[j as int]@);
                assert(self.fluent.out() =~= base + values_out::<D>(
                    vv.take(j + 1),
                    st0,
                    old(self).opts(),
                ));
            }
            j = j + 1;
        }
        proof {
            assert(vv.take(values@.len() as int) =~= vv);
        }
        Ok(())
    }

    /// Writes one value, after its automatic delimiter.
    pub fn write_value(&mut self, value: &Vec<D::Element>) -> (r: WriteResult<()>)
        requires
            !old(self).poisoned(),
        ensures
            r is Ok,
            !final(self).poisoned(),
            final(self).out() == old(self).out() + value_prefix::<D>(
                old(self).state_spec(),
                old(self).opts(),
            ) + encoded_value::<D>(
                value@,
                needs_quotes::<D>(
                    value@,
                    old(self).opts().always_quoted,
                    at_line_start(old(self).state_spec()),
                ),
            ),
            final(self).state_spec() == WriteState::AfterValue,
            final(self).opts() == old(self).opts(),
    {
        self.fluent.push_value(value, false);
        Ok(())
    }

    /// Writes a run of spacing verbatim.  A string that is empty or
    /// holds a non-spacing element is rejected and poisons the row
    /// writer.
    pub fn write_spacing(&mut self, spacing: &Vec<D::Element>) -> (r: WriteResult<()>)
        requires
            !old(self).poisoned(),
        ensures
            r is Ok <==> valid_spacing::<D>(spacing@),
            r is Err ==> r->Err_0 == WriteError::InvalidSpacing && final(self).poisoned()
                && final(self).out() == old(self).out(),
            r is Ok ==> ({
                &&& !final(self).poisoned()
                &&& final(self).out() == old(self).out() + (if old(self).state_spec()
                    == WriteState::InComment {
                    break_elems::<D>(old(self).opts().line_break)
                } else {
                    Seq::<D::Element>::empty()
                }) + spacing@
                &&& final(self).state_spec() == WriteState::AfterSpacing
                &&& final(self).opts() == old(self).opts()
            }),
    {
        if !is_valid_spacing::<D>(spacing) {
            self.poisoned = true;
            return Err(WriteError::InvalidSpacing);
        }
        self.fluent.push_spacing(spacing);
        Ok(())
    }

    /// Closes the row with the default line break and hands the writer
    /// back.
    pub fn finish(self) -> (r: WriteResult<Writer<D>>)
        requires
            !self.poisoned(),
        ensures
            r is Ok,
            ({
                let w = r->Ok_0;
                &&& w.wf()
                &&& w.out() == self.out() + break_elems::<D>(self.opts().line_break)
                &&& w.opts() == self.opts()
            }),
    {
        let mut fluent = self.fluent;
        let b = fluent.default_line_break();
        fluent.push_break(b);
        Ok(Writer { fluent })
    }

    /// The writer's options.
    pub fn options(&self) -> (r: &Options<D>)
        ensures
            r@ == self.opts(),
    {
        self.fluent.options()
    }

    /// The writer's options, to be changed in place.
    pub fn options_mut(&mut self) -> (r: &mut Options<D>)
        ensures
            (*r)@ == old(self).opts(),
            final(self).opts() == (*final(r))@,
            final(self).out() == old(self).out(),
            final(self).state_spec() == old(self).state_spec(),
            final(self).poisoned() == old(self).poisoned(),
    {
        self.fluent.options_mut()
    }

    /// Replaces the writer's options.
    pub fn set_options(&mut self, options: Options<D>)
        ensures
            final(self).opts() == options@,
            final(self).out() == old(self).out(),
            final(self).state_spec() == old(self).state_spec(),
            final(self).poisoned() == old(self).poisoned(),
    {
        let opts_ref = self.fluent.options_mut();
        *opts_ref = options;
    }
}

} // verus!
