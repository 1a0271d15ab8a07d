//! Chunked file storage: splitting an upload into ordered chunks and
//! reassembling a stored file from its chunks.

pub mod barrier;
pub mod bytes;
pub mod endpoints;
pub mod error;
pub mod helper;
pub mod round_trip;
pub mod structs;
