//! The engine instantiated for raw bytes: elements are `u8`, strings
//! are byte vectors.

use vstd::prelude::*;

pub use crate::engine::LineBreak;
pub use crate::engine::ReadError;
pub use crate::engine::ReadResult;
pub use crate::engine::WriteError;
pub use crate::engine::WriteResult;
pub use crate::engine::position::Position;
pub use crate::engine::position::WithPosition;

use crate::engine::domain::BytesDomain;
use crate::engine::options::default_options;
use crate::engine::reader::rows_view;
use crate::engine::writer::rows_out;

verus! {

/// Reads SSV tokens from a byte vector.
pub type Tokenizer = crate::engine::tokenizer::Tokenizer<BytesDomain>;

/// An SSV token over bytes.
pub type Token = crate::engine::tokens::Token<BytesDomain>;

/// Reads SSV rows from a byte vector.
pub type Reader = crate::engine::reader::Reader<BytesDomain>;

/// The options for writing SSV content.
pub type Options = crate::engine::options::Options<BytesDomain>;

/// Writes SSV to a byte vector with a fluent interface.
pub type FluentWriter = crate::engine::fluent_writer::FluentWriter<BytesDomain>;

/// Writes SSV to a byte vector row by row.
pub type Writer = crate::engine::writer::Writer<BytesDomain>;

/// Writes the values of one row.
pub type RowWriter = crate::engine::writer::RowWriter<BytesDomain>;

/// Creates a reader over the given bytes.
pub fn read(input: Vec<u8>) -> (r: Reader)
    requires
        input@.len() < usize::MAX,
    ensures
        r.wf(),
        r.input() == input@,
        r.rows_yielded() == 0,
        !r.error_yielded(),
{
    Reader::new(input)
}

/// Writes the given rows after the given sink contents, with the
/// default options, and returns the whole output.
pub fn write(sink: Vec<u8>, rows: &Vec<Vec<Vec<u8>>>) -> (r: WriteResult<Vec<u8>>)
    ensures
        r is Ok,
        r->Ok_0@ == sink@ + rows_out::<BytesDomain>(
            rows_view::<BytesDomain>(rows@),
            default_options::<BytesDomain>(),
        ),
{
    let mut writer = Writer::new(sink);
    let _ = writer.write_rows(rows);
    writer.finish()
}

} // verus!
