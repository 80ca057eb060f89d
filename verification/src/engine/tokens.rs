//! The tokens the tokenizer produces, with their mathematical views.

use vstd::prelude::*;

use crate::engine::LineBreak;
use crate::engine::domain::Domain;

verus! {

/// A value that appeared without enclosing quotes.  Doubled quotes have
/// already been collapsed to single quotes.
pub struct UnquotedValue<D: Domain>(pub Vec<D::Element>);

/// A value that appeared enclosed in quotes.  The stored value has
/// already been unescaped: doubled quotes are collapsed, and the
/// enclosing quotes are gone.
pub struct QuotedValue<D: Domain>(pub Vec<D::Element>);

/// A run of spacing elements separating values.
pub struct Spacing<D: Domain>(pub Vec<D::Element>);

/// The content of a comment line, stored verbatim without the leading
/// hash sign.
pub struct Comment<D: Domain>(pub Vec<D::Element>);

/// A classified span of elements.
pub enum Token<D: Domain> {
    /// A value that appeared without enclosing quotes.
    UnquotedValue(UnquotedValue<D>),
    /// A value that appeared enclosed in quotes.
    QuotedValue(QuotedValue<D>),
    /// A run of spacing elements.
    Spacing(Spacing<D>),
    /// A line break of the given kind.
    LineBreak(LineBreak),
    /// A comment's content.
    Comment(Comment<D>),
}

/// The mathematical view of a token: the same classification over
/// element sequences.
pub enum TokenView<E> {
    /// A value that appeared without enclosing quotes.
    UnquotedValue(Seq<E>),
    /// A value that appeared enclosed in quotes.
    QuotedValue(Seq<E>),
    /// A run of spacing elements.
    Spacing(Seq<E>),
    /// A line break of the given kind.
    LineBreak(LineBreak),
    /// A comment's content.
    Comment(Seq<E>),
}

impl<D: Domain> View for Token<D> {
    type V = TokenView<D::Element>;

    open spec fn view(&self) -> TokenView<D::Element> {
        match self {
            Token::UnquotedValue(v) => TokenView::UnquotedValue(v.0@),
            Token::QuotedValue(v) => TokenView::QuotedValue(v.0@),
            Token::Spacing(s) => TokenView::Spacing(s.0@),
            Token::LineBreak(b) => TokenView::LineBreak(*b),
            Token::Comment(c) => TokenView::Comment(c.0@),
        }
    }
}

} // verus!
