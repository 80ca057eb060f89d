//! The element domains the engine can run over.
//!
//! The engine is generic over a [`Domain`], which supplies the element
//! type (a raw byte, or a decoded Unicode scalar value) together with the
//! handful of distinguished elements the grammar cares about.  Every
//! grammar decision depends only on an element's code point.

use vstd::prelude::*;

verus! {

/// An element domain: the atomic unit of SSV text, with the
/// distinguished elements of the grammar.
pub trait Domain: Sized {
    /// One atomic unit of the stream: a byte, or a Unicode scalar value.
    type Element: Copy;

    /// The code point of an element.  All grammar decisions depend only
    /// on this value.
    spec fn code_of(e: Self::Element) -> u32;

    /// Returns the code point of an element.
    fn code(e: Self::Element) -> (r: u32)
        ensures
            r == Self::code_of(e),
    ;

    /// The line feed element, in specifications.
    spec fn lf_elem() -> Self::Element;

    /// The carriage return element, in specifications.
    spec fn cr_elem() -> Self::Element;

    /// The quote element, in specifications.
    spec fn quote_elem() -> Self::Element;

    /// The hash element, in specifications.
    spec fn hash_elem() -> Self::Element;

    /// The space element, in specifications.
    spec fn space_elem() -> Self::Element;

    /// Returns the line feed element.
    fn lf() -> (r: Self::Element)
        ensures
            r == Self::lf_elem(),
    ;

    /// Returns the carriage return element.
    fn cr() -> (r: Self::Element)
        ensures
            r == Self::cr_elem(),
    ;

    /// Returns the quote element.
    fn quote() -> (r: Self::Element)
        ensures
            r == Self::quote_elem(),
    ;

    /// Returns the hash element.
    fn hash() -> (r: Self::Element)
        ensures
            r == Self::hash_elem(),
    ;

    /// Returns the space element.
    fn space() -> (r: Self::Element)
        ensures
            r == Self::space_elem(),
    ;

    /// The distinguished elements have their usual code points.
    proof fn distinguished_codes()
        ensures
            Self::code_of(Self::lf_elem()) == 10,
            Self::code_of(Self::cr_elem()) == 13,
            Self::code_of(Self::quote_elem()) == 34,
            Self::code_of(Self::hash_elem()) == 35,
            Self::code_of(Self::space_elem()) == 32,
    ;

    /// Elements are determined by their code points.
    proof fn code_injective(a: Self::Element, b: Self::Element)
        requires
            Self::code_of(a) == Self::code_of(b),
        ensures
            a == b,
    ;
}

/// The domain of raw bytes.
pub struct BytesDomain;

impl Domain for BytesDomain {
    type Element = u8;

    open spec fn code_of(e: u8) -> u32 {
        e as u32
    }

    fn code(e: u8) -> (r: u32) {
        e as u32
    }

    open spec fn lf_elem() -> u8 {
        10u8
    }

    open spec fn cr_elem() -> u8 {
        13u8
    }

    open spec fn quote_elem() -> u8 {
        34u8
    }

    open spec fn hash_elem() -> u8 {
        35u8
    }

    open spec fn space_elem() -> u8 {
        32u8
    }

    fn lf() -> u8 {
        10u8
    }

    fn cr() -> u8 {
        13u8
    }

    fn quote() -> u8 {
        34u8
    }

    fn hash() -> u8 {
        35u8
    }

    fn space() -> u8 {
        32u8
    }

    proof fn distinguished_codes() {
    }

    proof fn code_injective(a: u8, b: u8) {
    }
}

/// The domain of decoded Unicode scalar values.
pub struct CharsDomain;

impl Domain for CharsDomain {
    type Element = char;

    open spec fn code_of(e: char) -> u32 {
        e as u32
    }

    fn code(e: char) -> (r: u32) {
        e as u32
    }

    open spec fn lf_elem() -> char {
        '\n'
    }

    open spec fn cr_elem() -> char {
        '\r'
    }

    open spec fn quote_elem() -> char {
        '"'
    }

    open spec fn hash_elem() -> char {
        '#'
    }

    open spec fn space_elem() -> char {
        ' '
    }

    fn lf() -> char {
        '\n'
    }

    fn cr() -> char {
        '\r'
    }

    fn quote() -> char {
        '"'
    }

    fn hash() -> char {
        '#'
    }

    fn space() -> char {
        ' '
    }

    proof fn distinguished_codes() {
    }

    proof fn code_injective(a: char, b: char) {
        vstd::utf8::char_u32_cast(a, a as u32);
        vstd::utf8::char_u32_cast(b, b as u32);
    }
}

/// Whether an element is a spacing element: a space or a tab.
pub open spec fn is_spacing<D: Domain>(e: D::Element) -> bool {
    D::code_of(e) == 32 || D::code_of(e) == 9
}

/// Whether an element is a line feed.
pub open spec fn is_lf<D: Domain>(e: D::Element) -> bool {
    D::code_of(e) == 10
}

/// Whether an element is a carriage return.
pub open spec fn is_cr<D: Domain>(e: D::Element) -> bool {
    D::code_of(e) == 13
}

/// Whether an element is a quote.
pub open spec fn is_quote<D: Domain>(e: D::Element) -> bool {
    D::code_of(e) == 34
}

/// Whether an element is a hash sign.
pub open spec fn is_hash<D: Domain>(e: D::Element) -> bool {
    D::code_of(e) == 35
}

/// Whether every element of a string is a spacing element.
pub open spec fn all_spacing<D: Domain>(s: Seq<D::Element>) -> bool {
    forall|i: int| 0 <= i < s.len() ==> is_spacing::<D>(#[trigger] s[i])
}

/// Whether every element of a string is a quote.
pub open spec fn all_quotes<D: Domain>(s: Seq<D::Element>) -> bool {
    forall|i: int| 0 <= i < s.len() ==> is_quote::<D>(#[trigger] s[i])
}

/// A string of `n` repeated quote elements.
pub open spec fn quotes<D: Domain>(n: nat) -> Seq<D::Element> {
    Seq::new(n, |i: int| D::quote_elem())
}

} // verus!
