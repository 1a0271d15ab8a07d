//! The two pipelines: splitting an upload into chunks, and reassembling a
//! stored file from its chunks.

pub mod download;
pub mod upload;
