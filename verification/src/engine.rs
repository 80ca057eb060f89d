//! The generic SSV engine: tokenizer, reader, writer and their
//! specifications, parameterized by the element domain.

use vstd::prelude::*;

use crate::engine::position::Position;

pub mod domain;
pub mod fluent_writer;
pub mod laws;
pub mod lexer;
pub mod options;
pub mod position;
pub mod reader;
pub mod tokenizer;
pub mod tokens;
pub mod writer;

verus! {

/// The kind of a line break: a bare line feed, or a carriage return
/// followed by a line feed.
#[derive(Clone, Copy, Debug, PartialEq, Eq, Structural)]
pub enum LineBreak {
    Lf,
    CrLf,
}

/// An error raised while reading SSV content.
#[derive(Clone, Copy, Debug, PartialEq, Eq, Structural)]
pub enum ReadError {
    /// A quote appeared where only a doubled quote or a value terminator
    /// is valid.  The position is that of the offending quote.
    UnpairedQuote(Position),
    /// The input ended inside a quoted value.  The position is one column
    /// past the end of the input, where the closing quote was expected.
    UnclosedQuotedValue(Position),
    /// The underlying source failed, or (in the chars domain) the bytes
    /// were not valid UTF-8.  Raised by the surrounding I/O layer, never
    /// by the in-memory engine itself.
    IoError,
}

/// An error raised while writing SSV content.
#[derive(Clone, Copy, Debug, PartialEq, Eq, Structural)]
pub enum WriteError {
    /// A spacing string was empty or contained a non-spacing element.
    InvalidSpacing,
    /// The underlying sink failed.  Raised by the surrounding I/O layer,
    /// never by the in-memory engine itself.
    IoError,
}

/// The result of a read operation.
pub type ReadResult<T> = Result<T, ReadError>;

/// The result of a write operation.
pub type WriteResult<T> = Result<T, WriteError>;

} // verus!
