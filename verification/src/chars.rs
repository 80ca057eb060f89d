//! The engine instantiated for decoded Unicode scalar values: elements
//! are `char`, strings are vectors of `char`.
//!
//! Decoding UTF-8 from a byte source, and the file ends of reading and
//! writing, belong to the surrounding I/O layer; this module works on
//! already-decoded text held in memory.

use vstd::prelude::*;

pub use crate::engine::LineBreak;
pub use crate::engine::ReadError;
pub use crate::engine::ReadResult;
pub use crate::engine::WriteError;
pub use crate::engine::WriteResult;
pub use crate::engine::position::Position;
pub use crate::engine::position::WithPosition;

use crate::engine::domain::CharsDomain;
use crate::engine::options::default_options;
use crate::engine::reader::rows_view;
use crate::engine::writer::rows_out;

verus! {

/// Reads SSV tokens from decoded text.
pub type Tokenizer = crate::engine::tokenizer::Tokenizer<CharsDomain>;

/// An SSV token over decoded text.
pub type Token = crate::engine::tokens::Token<CharsDomain>;

/// Reads SSV rows from decoded text.
pub type Reader = crate::engine::reader::Reader<CharsDomain>;

/// The options for writing SSV content.
pub type Options = crate::engine::options::Options<CharsDomain>;

/// Writes SSV to decoded text with a fluent interface.
pub type FluentWriter = crate::engine::fluent_writer::FluentWriter<CharsDomain>;

/// Writes SSV to decoded text row by row.
pub type Writer = crate::engine::writer::Writer<CharsDomain>;

/// Writes the values of one row.
pub type RowWriter = crate::engine::writer::RowWriter<CharsDomain>;

/// Creates a reader over the given decoded text.
pub fn read(input: Vec<char>) -> (r: Reader)
    requires
        input@.len() < usize::MAX,
    ensures
        r.wf(),
        r.input() == input@,
        r.rows_yielded() == 0,
        !r.error_yielded(),
{
    Reader::new(input)
}

/// Writes the given rows after the given sink contents, with the
/// default options, and returns the whole output.
pub fn write(sink: Vec<char>, rows: &Vec<Vec<Vec<char>>>) -> (r: WriteResult<Vec<char>>)
    ensures
        r is Ok,
        r->Ok_0@ == sink@ + rows_out::<CharsDomain>(
            rows_view::<CharsDomain>(rows@),
            default_options::<CharsDomain>(),
        ),
{
    let mut writer = Writer::new(sink);
    let _ = writer.write_rows(rows);
    writer.finish()
}

} // verus!
