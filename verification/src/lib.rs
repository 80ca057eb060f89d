//! SSV (Space-Separated Values): a line-oriented tabular text format.
//!
//! Values are separated by runs of spacing (space or tab), rows by line
//! breaks (LF, optionally preceded by CR).  A value may be enclosed in
//! quotes (`"`); it must be when it is empty, contains spacing or a line
//! feed, consists only of quotes, or is the first thing on a line and
//! starts with `#`.  A literal quote inside a value is written as two
//! quotes.  A line whose first element is `#` is a comment, ignored up to
//! the next line break.
//!
//! The same engine works on two element domains: raw bytes (module
//! [`bytes`]) and Unicode scalar values (module [`chars`]).  The generic
//! implementation lives in [`engine`]; the domain modules are thin
//! instantiations of it.

pub mod bytes;
pub mod chars;
pub mod engine;
