//! The records that describe a stored file and its chunks.

use uuid::Uuid;
use vstd::prelude::*;

verus! {

/// `uuid::Uuid`, an opaque 128-bit identifier: contracts use nothing of an
/// identifier but whether two of them are equal.
#[verifier::external_type_specification]
#[verifier::external_body]
pub struct ExUuid(Uuid);

/// What a [`FileMetadata`] holds, as mathematical values.
pub struct FileMetadataView {
    pub id: Uuid,
    pub name: Seq<char>,
    pub chunk_count: int,
}

/// Metadata of a stored file: its identity, its display name and the number
/// of chunks it was split into.
#[derive(Debug, PartialEq, Eq)]
pub struct FileMetadata {
    id: Uuid,
    name: String,
    chunk_count: i32,
}

impl View for FileMetadata {
    type V = FileMetadataView;

    closed spec fn view(&self) -> FileMetadataView {
        FileMetadataView { id: self.id, name: self.name@, chunk_count: self.chunk_count as int }
    }
}

impl FileMetadata {
    /// Builds the metadata of a file from its three fields.
    pub fn new(id: Uuid, name: String, chunk_count: i32) -> (meta: Self)
        ensures
            meta@ == (FileMetadataView { id, name: name@, chunk_count: chunk_count as int }),
    {
        Self { id, name, chunk_count }
    }

    /// The identity of the file.
    pub fn id(&self) -> (id: Uuid)
        ensures
            id == self@.id,
    {
        self.id
    }

    /// The display name of the file; empty where the upload declared none.
    pub fn name(&self) -> (name: &String)
        ensures
            name@ == self@.name,
    {
        &self.name
    }

    /// The number of chunks that compose the file.
    pub fn chunk_count(&self) -> (count: i32)
        ensures
            count == self@.chunk_count,
    {
        self.chunk_count
    }
}

/// What a [`ChunkRecord`] holds, as mathematical values.
pub struct ChunkRecordView {
    pub id: Uuid,
    pub file_id: Uuid,
    pub chunk_num: int,
    pub data: Seq<u8>,
}

/// One chunk of a stored file: its own identity, the file it belongs to, its
/// zero-based position within that file, and its bytes.
#[derive(Debug, PartialEq, Eq)]
pub struct ChunkRecord {
    id: Uuid,
    file_id: Uuid,
    chunk_num: i32,
    data: Vec<u8>,
}

impl View for ChunkRecord {
    type V = ChunkRecordView;

    closed spec fn view(&self) -> ChunkRecordView {
        ChunkRecordView {
            id: self.id,
            file_id: self.file_id,
            chunk_num: self.chunk_num as int,
            data: self.data@,
        }
    }
}

impl ChunkRecord {
    /// Builds a chunk record from its four fields.
    pub fn new(id: Uuid, file_id: Uuid, chunk_num: i32, data: Vec<u8>) -> (chunk: Self)
        ensures
            chunk@ == (ChunkRecordView { id, file_id, chunk_num: chunk_num as int, data: data@ }),
    {
        Self { id, file_id, chunk_num, data }
    }

    /// The identity of the chunk itself.
    pub fn id(&self) -> (id: Uuid)
        ensures
            id == self@.id,
    {
        self.id
    }

    /// The identity of the file that owns the chunk.
    pub fn file_id(&self) -> (id: Uuid)
        ensures
            id == self@.file_id,
    {
        self.file_id
    }

    /// The zero-based position of the chunk within its file.
    pub fn chunk_num(&self) -> (num: i32)
        ensures
            num == self@.chunk_num,
    {
        self.chunk_num
    }

    /// The bytes of the chunk.
    pub fn data(&self) -> (data: &Vec<u8>)
        ensures
            data@ == self@.data,
    {
        &self.data
    }

    /// The position and bytes of the chunk, as a bulk read of a file's
    /// chunks returns them.
    pub fn into_row(self) -> (row: (i32, Vec<u8>))
        ensures
            row.0 == self@.chunk_num,
            row.1@ == self@.data,
    {
        (self.chunk_num, self.data)
    }
}

} // verus!
