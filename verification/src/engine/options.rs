//! The writer-wide options: the default spacing, the default line break
//! and the always-quote flag.

use vstd::prelude::*;

use crate::engine::{LineBreak, WriteError, WriteResult};
use crate::engine::domain::{Domain, all_spacing};

verus! {

/// Whether a string is valid as spacing: non-empty and made of spacing
/// elements only.
pub open spec fn valid_spacing<D: Domain>(s: Seq<D::Element>) -> bool {
    s.len() > 0 && all_spacing::<D>(s)
}

/// Returns whether a string is valid as spacing.
pub(crate) fn is_valid_spacing<D: Domain>(s: &Vec<D::Element>) -> (r: bool)
    ensures
        r == valid_spacing::<D>(s@),
{
    let mut j: usize = 0;
    let mut all: bool = true;
    while j < s.len()
        invariant
            j <= s@.len(),
            all == all_spacing::<D>(s@.take(j as int)),
        decreases s@.len() - j,
    {
        let c = D::code(s[j]);
        proof {
            assert(s@.take(j + 1).drop_last() =~= s@.take(j as int));
            assert(s@.take(j + 1).last() == s@[j as int]);
            assert(all_spacing::<D>(s@.take(j + 1)) == (all_spacing::<D>(s@.take(j as int))
                && crate::engine::domain::is_spacing::<D>(s@[j as int]))) by {
                if all_spacing::<D>(s@.take(j as int)) && crate::engine::domain::is_spacing::<D>(
                    s@[j as int],
                ) {
                    assert forall|k: int| 0 <= k < j + 1 implies crate::engine::domain::is_spacing::<
                        D,
                    >(#[trigger] s@.take(j + 1)[k]) by {
                        if k < j {
                            assert(s@.take(j + 1)[k] == s@.take(j as int)[k]);
                        }
                    }
                }
            }
        }
        all = all && (c == 32 || c == 9);
        j = j + 1;
    }
    proof {
        assert(s@.take(s@.len() as int) =~= s@);
    }
    s.len() > 0 && all
}

/// The mathematical view of options: the three defaults as plain
/// values.
pub struct OptionsView<E> {
    /// The default spacing, as a sequence.
    pub spacing: Seq<E>,
    /// The default line break kind.
    pub line_break: LineBreak,
    /// Whether every value is quoted regardless of content.
    pub always_quoted: bool,
}

/// The options every writer starts with: a single space, a bare line
/// feed, and no forced quoting.
pub open spec fn default_options<D: Domain>() -> OptionsView<D::Element> {
    OptionsView {
        spacing: seq![D::space_elem()],
        line_break: LineBreak::Lf,
        always_quoted: false,
    }
}

/// A validated configuration record for writing.
///
/// The default spacing is always non-empty and made of spacing elements
/// only; every mutation re-checks that invariant.
#[derive(Clone)]
pub struct Options<D: Domain> {
    default_spacing: Vec<D::Element>,
    default_line_break: LineBreak,
    always_quoted: bool,
}

impl<D: Domain> View for Options<D> {
    type V = OptionsView<D::Element>;

    closed spec fn view(&self) -> OptionsView<D::Element> {
        OptionsView {
            spacing: self.default_spacing@,
            line_break: self.default_line_break,
            always_quoted: self.always_quoted,
        }
    }
}

impl<D: Domain> Options<D> {
    /// The default spacing, as a sequence.
    pub open spec fn spacing_spec(&self) -> Seq<D::Element> {
        self@.spacing
    }

    /// The default line break kind.
    pub open spec fn line_break_spec(&self) -> LineBreak {
        self@.line_break
    }

    /// Whether every value is quoted regardless of content.
    pub open spec fn always_quoted_spec(&self) -> bool {
        self@.always_quoted
    }

    /// The spacing invariant: the default spacing is valid.
    pub open spec fn wf(&self) -> bool {
        valid_spacing::<D>(self@.spacing)
    }

    /// Creates the default options: a single space, a bare line feed,
    /// and no forced quoting.
    pub fn new() -> (r: Self)
        ensures
            r.wf(),
            r@ == default_options::<D>(),
    {
        let mut spacing: Vec<D::Element> = Vec::new();
        spacing.push(D::space());
        proof {
            assert(spacing@ =~= seq![D::space_elem()]);
            D::distinguished_codes();
        }
        Options { default_spacing: spacing, default_line_break: LineBreak::Lf, always_quoted: false }
    }

    /// The default spacing.
    pub fn default_spacing(&self) -> (r: &Vec<D::Element>)
        ensures
            r@ == self.spacing_spec(),
    {
        &self.default_spacing
    }

    /// Sets the default spacing, rejecting a string that is empty or
    /// holds a non-spacing element.
    pub fn set_default_spacing(&mut self, spacing: Vec<D::Element>) -> (r: WriteResult<()>)
        ensures
            r is Ok <==> valid_spacing::<D>(spacing@),
            r is Err ==> r == WriteResult::<()>::Err(WriteError::InvalidSpacing) && *final(self)
                == *old(self),
            r is Ok ==> final(self).spacing_spec() == spacing@ && final(self).line_break_spec()
                == old(self).line_break_spec() && final(self).always_quoted_spec() == old(
                self,
            ).always_quoted_spec() && final(self).wf(),
    {
        if is_valid_spacing::<D>(&spacing) {
            self.default_spacing = spacing;
            Ok(())
        } else {
            Err(WriteError::InvalidSpacing)
        }
    }

    /// The default line break kind.
    pub fn default_line_break(&self) -> (r: LineBreak)
        ensures
            r == self.line_break_spec(),
    {
        self.default_line_break
    }

    /// Sets the default line break kind.
    pub fn set_default_line_break(&mut self, line_break: LineBreak)
        ensures
            final(self).line_break_spec() == line_break,
            final(self).spacing_spec() == old(self).spacing_spec(),
            final(self).always_quoted_spec() == old(self).always_quoted_spec(),
    {
        self.default_line_break = line_break;
    }

    /// Whether every value is quoted regardless of content.
    pub fn always_quoted(&self) -> (r: bool)
        ensures
            r == self.always_quoted_spec(),
    {
        self.always_quoted
    }

    /// Sets whether every value is quoted regardless of content.
    pub fn set_always_quoted(&mut self, always_quoted: bool)
        ensures
            final(self).always_quoted_spec() == always_quoted,
            final(self).spacing_spec() == old(self).spacing_spec(),
            final(self).line_break_spec() == old(self).line_break_spec(),
    {
        self.always_quoted = always_quoted;
    }
}

} // verus!
