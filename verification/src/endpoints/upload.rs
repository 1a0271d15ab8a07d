//! Ingestion: the segments of a streamed multipart body become the chunks of
//! a new file, numbered in the order in which they were read, and one file
//! record sums them up once every chunk is stored.

use crate::barrier::{release_of, Barrier, BarrierView, Release};
use crate::bytes::copy_bytes;
use crate::error::CustomError;
use crate::structs::{ChunkRecord, ChunkRecordView, FileMetadata, FileMetadataView};
use uuid::Uuid;
use vstd::prelude::*;

verus! {

/// `Uuid::new_v4` returns a random identifier: nothing is claimed of it.
pub assume_specification[ Uuid::new_v4 ]() -> Uuid
;

/// The content disposition of a multipart field, as far as ingestion reads
/// it: the file name that it declares, if it declares one.
#[derive(Debug, PartialEq, Eq)]
pub struct ContentDisposition {
    pub filename: Option<String>,
}

/// One field of a multipart body, read to its end: its content disposition,
/// if it has one, and the segments in which its body arrived.
#[derive(Debug, PartialEq, Eq)]
pub struct Field {
    pub content_disposition: Option<ContentDisposition>,
    pub segments: Vec<Vec<u8>>,
}

/// The segments of one field, as byte sequences.
pub open spec fn field_segments(field: Field) -> Seq<Seq<u8>> {
    Seq::new(field.segments@.len(), |i: int| field.segments@[i]@)
}

/// The segments of all the fields, in the order in which they are read.
pub open spec fn segments_of(fields: Seq<Field>) -> Seq<Seq<u8>>
    decreases fields.len(),
{
    if fields.len() == 0 {
        Seq::empty()
    } else {
        segments_of(fields.drop_last()) + field_segments(fields.last())
    }
}

/// The name of the upload after a field with this content disposition: the
/// file name that the field declares, or the name so far where it declares
/// none.
pub open spec fn name_after_field(name: Seq<char>, disposition: ContentDisposition) -> Seq<char> {
    match disposition.filename {
        Some(declared) => declared@,
        None => name,
    }
}

/// The name of the upload after these fields, each of which has a content
/// disposition: the last file name declared, or `name` where none is.
pub open spec fn name_after(name: Seq<char>, fields: Seq<Field>) -> Seq<char>
    decreases fields.len(),
{
    if fields.len() == 0 {
        name
    } else {
        match fields.last().content_disposition {
            Some(disposition) => name_after_field(
                name_after(name, fields.drop_last()),
                disposition,
            ),
            None => name_after(name, fields.drop_last()),
        }
    }
}

/// The number of fields that are read before one without a content
/// disposition ends the request: all of them where each has one.
pub open spec fn accepted_fields(fields: Seq<Field>) -> nat
    decreases fields.len(),
{
    if fields.len() == 0 {
        0
    } else {
        let before = accepted_fields(fields.drop_last());
        if before == fields.len() - 1 && fields.last().content_disposition is Some {
            fields.len()
        } else {
            before
        }
    }
}

/// The chunks are those of one file, numbered from zero without a gap, and
/// hold the segments in order.
pub open spec fn chunks_hold(chunks: Seq<ChunkRecord>, file_id: Uuid, segments: Seq<Seq<u8>>) -> bool {
    &&& chunks.len() == segments.len()
    &&& forall|i: int|
        0 <= i < chunks.len() ==> {
            &&& (#[trigger] chunks[i])@.file_id == file_id
            &&& chunks[i]@.chunk_num == i
            &&& chunks[i]@.data == segments[i]
        }
}

/// What an [`Upload`] holds, as mathematical values.
pub struct UploadView {
    /// The identity of the file that is being uploaded.
    pub id: Uuid,
    /// The name of the file so far; empty until a field declares one.
    pub filename: Seq<char>,
    /// The number of chunks handed out so far.
    pub total_chunks: int,
}

/// The state of one upload: the identity of the new file, its name so far,
/// and the number of chunks handed out.
#[derive(Debug)]
pub struct Upload {
    id: Uuid,
    filename: String,
    total_chunks: i32,
}

impl View for Upload {
    type V = UploadView;

    closed spec fn view(&self) -> UploadView {
        UploadView {
            id: self.id,
            filename: self.filename@,
            total_chunks: self.total_chunks as int,
        }
    }
}

impl Upload {
    /// Starts an upload under a fresh random identity, before any data is
    /// read.
    pub fn begin() -> (upload: Self)
        ensures
            upload@.filename == Seq::<char>::empty(),
            upload@.total_chunks == 0,
    {
        Upload::with_id(Uuid::new_v4())
    }

    /// Starts an upload under the given identity: no name, no chunk.
    pub fn with_id(id: Uuid) -> (upload: Self)
        ensures
            upload@ == (UploadView { id, filename: Seq::empty(), total_chunks: 0 }),
    {
        Upload { id, filename: String::new(), total_chunks: 0 }
    }

    /// The identity of the file that is being uploaded.
    pub fn id(&self) -> (id: Uuid)
        ensures
            id == self@.id,
    {
        self.id
    }

    /// The name of the file so far.
    pub fn filename(&self) -> (name: &String)
        ensures
            name@ == self@.filename,
    {
        &self.filename
    }

    /// The number of chunks handed out so far.
    pub fn total_chunks(&self) -> (count: i32)
        ensures
            0 <= count,
            count == self@.total_chunks,
    {
        proof {
            use_type_invariant(self);
        }
        self.total_chunks
    }

    #[verifier::type_invariant]
    spec fn counted_from_zero(self) -> bool {
        0 <= self.total_chunks
    }

    /// Whether one more chunk can be numbered.
    pub fn has_room(&self) -> (room: bool)
        ensures
            room == (self@.total_chunks < i32::MAX),
    {
        self.total_chunks < i32::MAX
    }

    /// Takes the header of the next field. A field without a content
    /// disposition is refused and changes nothing; otherwise the file name
    /// that the field declares, if any, becomes the name of the upload.
    pub fn start_field(&mut self, content_disposition: Option<&ContentDisposition>) -> (result:
        Result<(), CustomError>)
        ensures
            match content_disposition {
                Some(disposition) => {
                    &&& result is Ok
                    &&& final(self)@ == (UploadView {
                        filename: name_after_field(old(self)@.filename, *disposition),
                        ..old(self)@
                    })
                },
                None => {
                    &&& result == Err::<(), CustomError>(CustomError::NullError)
                    &&& final(self)@ == old(self)@
                },
            },
    {
        proof {
            use_type_invariant(&*self);
        }
        match content_disposition {
            None => Err(CustomError::NullError),
            Some(disposition) => {
                match &disposition.filename {
                    Some(file_name) => {
                        self.filename = file_name.clone();
                    },
                    None => {},
                }
                Ok(())
            },
        }
    }

    /// Makes the next chunk of the file from one segment of the body, under
    /// a fresh random identity of its own: it gets the next number, counted
    /// from zero over the whole request.
    pub fn next_chunk(&mut self, data: Vec<u8>) -> (chunk: ChunkRecord)
        requires
            old(self)@.total_chunks < i32::MAX,
        ensures
            chunk@.file_id == old(self)@.id,
            chunk@.chunk_num == old(self)@.total_chunks,
            chunk@.data == data@,
            final(self)@ == (UploadView {
                total_chunks: old(self)@.total_chunks + 1,
                ..old(self)@
            }),
    {
        self.chunk_with_id(Uuid::new_v4(), data)
    }

    /// Makes the next chunk of the file from one segment of the body, under
    /// the given identity: it gets the next number, counted from zero over
    /// the whole request.
    pub fn chunk_with_id(&mut self, chunk_id: Uuid, data: Vec<u8>) -> (chunk: ChunkRecord)
        requires
            old(self)@.total_chunks < i32::MAX,
        ensures
            chunk@ == (ChunkRecordView {
                id: chunk_id,
                file_id: old(self)@.id,
                chunk_num: old(self)@.total_chunks,
                data: data@,
            }),
            final(self)@ == (UploadView {
                total_chunks: old(self)@.total_chunks + 1,
                ..old(self)@
            }),
    {
        proof {
            use_type_invariant(&*self);
        }
        let chunk = ChunkRecord::new(chunk_id, self.id, self.total_chunks, data);
        self.total_chunks = self.total_chunks + 1;
        chunk
    }

    /// The barrier on which to wait for the chunks handed out so far: it
    /// expects one completion for each of them.
    pub fn barrier(&self) -> (barrier: Barrier)
        ensures
            0 <= self@.total_chunks,
            barrier@ == (BarrierView {
                expected: self@.total_chunks as nat,
                observed: 0,
                failure: None,
            }),
    {
        proof {
            use_type_invariant(self);
        }
        Barrier::new(self.total_chunks as usize)
    }

    /// The record that sums up the upload: its identity, its name and the
    /// number of chunks handed out.
    pub fn metadata(&self) -> (meta: FileMetadata)
        ensures
            meta@ == metadata_of(self@),
    {
        FileMetadata::new(self.id, self.filename.clone(), self.total_chunks)
    }

    /// Ends the upload once the body has been read to its end and the
    /// barrier for its chunks has been waited on. While the barrier waits,
    /// or where it was made for another number of chunks, there is nothing
    /// to write yet. Where a chunk failed, that failure ends the upload and
    /// no file record is written. Where every chunk is stored, the file
    /// record to write is returned.
    pub fn finish(&self, barrier: &Barrier) -> (outcome: Option<Result<FileMetadata, CustomError>>)
        ensures
            match finish_of(self@, barrier@) {
                None => outcome is None,
                Some(Err(error)) => outcome == Some(Err::<FileMetadata, CustomError>(error)),
                Some(Ok(meta)) => outcome matches Some(Ok(written)) && written@ == meta,
            },
    {
        if barrier.expected() != self.barrier().expected() {
            return None;
        }
        match barrier.poll() {
            Release::Waiting => None,
            Release::Failed(error) => Some(Err(error)),
            Release::Satisfied => Some(Ok(self.metadata())),
        }
    }
}

/// The file record that sums up an upload in this state.
pub open spec fn metadata_of(upload: UploadView) -> FileMetadataView {
    FileMetadataView { id: upload.id, name: upload.filename, chunk_count: upload.total_chunks }
}

/// How an upload in this state ends on this barrier: not yet while the
/// barrier waits or counts another number of chunks; with the first failure
/// where a chunk failed; with the file record where every chunk is stored.
pub open spec fn finish_of(upload: UploadView, barrier: BarrierView) -> Option<
    Result<FileMetadataView, CustomError>,
> {
    if barrier.expected != upload.total_chunks {
        None
    } else {
        match release_of(barrier) {
            Release::Waiting => None,
            Release::Failed(error) => Some(Err(error)),
            Release::Satisfied => Some(Ok(metadata_of(upload))),
        }
    }
}

/// Among the first `count` fields, as many are read as among all of them,
/// or all `count` where that is fewer.
pub proof fn lemma_accepted_prefix(fields: Seq<Field>, count: int)
    requires
        0 <= count <= fields.len(),
    ensures
        accepted_fields(fields) <= fields.len(),
        accepted_fields(fields.take(count)) == if count <= accepted_fields(fields) {
            count
        } else {
            accepted_fields(fields) as int
        },
    decreases fields.len(),
{
    if count == fields.len() {
        assert(fields.take(count) =~= fields);
        if fields.len() > 0 {
            lemma_accepted_prefix(fields.drop_last(), count - 1);
        }
    } else {
        assert(fields.take(count) =~= fields.drop_last().take(count));
        lemma_accepted_prefix(fields.drop_last(), count);
    }
}

/// A longer run of leading fields holds at least as many segments.
pub proof fn lemma_segments_grow(fields: Seq<Field>, shorter: int, longer: int)
    requires
        0 <= shorter <= longer <= fields.len(),
    ensures
        segments_of(fields.take(shorter)).len() <= segments_of(fields.take(longer)).len(),
    decreases longer - shorter,
{
    if shorter < longer {
        lemma_segments_grow(fields, shorter, longer - 1);
        assert(fields.take(longer).drop_last() =~= fields.take(longer - 1));
    }
}

/// Whether the chunks of a request can be numbered: the segments of the
/// fields that are read are no more than the largest chunk count.
pub fn fits_chunk_count(fields: &Vec<Field>) -> (fits: bool)
    ensures
        fits == (segments_of(fields@.take(accepted_fields(fields@) as int)).len() <= i32::MAX),
{
    let mut total: usize = 0;
    let mut f: usize = 0;
    proof {
        lemma_accepted_prefix(fields@, 0);
    }
    while f < fields.len()
        invariant
            f <= fields@.len(),
            accepted_fields(fields@.take(f as int)) == f,
            total == segments_of(fields@.take(f as int)).len(),
            total <= i32::MAX,
        decreases fields@.len() - f,
    {
        proof {
            lemma_accepted_prefix(fields@, f as int);
            lemma_accepted_prefix(fields@, f as int + 1);
            assert(fields@.take(f as int + 1).drop_last() =~= fields@.take(f as int));
        }
        if fields[f].content_disposition.is_none() {
            return true;
        }
        let count = fields[f].segments.len();
        if count > 0x7fff_ffff - total {
            proof {
                lemma_segments_grow(fields@, f as int + 1, accepted_fields(fields@) as int);
            }
            return false;
        }
        total = total + count;
        f = f + 1;
    }
    proof {
        lemma_accepted_prefix(fields@, f as int);
    }
    true
}

/// What became of one request: the identity of the new file, the chunks to
/// store, and the file record to write once they are stored, or the
/// failure that ended the request.
#[derive(Debug)]
pub struct Ingestion {
    pub id: Uuid,
    pub chunks: Vec<ChunkRecord>,
    pub result: Result<FileMetadata, CustomError>,
}

/// Splits a multipart body, read to its end, into the chunks of a new file.
///
/// The fields are read in order. Each segment of each field becomes one
/// chunk; the chunks are numbered from zero over the whole request. A field
/// without a content disposition ends the request with
/// [`CustomError::NullError`]: the chunks of the fields before it are still
/// handed out, and no file record is. Otherwise the file record has the
/// last file name that a field declared (empty where none did) and counts
/// every segment.
pub fn upload_file(fields: &Vec<Field>) -> (ingestion: Ingestion)
    requires
        segments_of(fields@.take(accepted_fields(fields@) as int)).len() <= i32::MAX,
    ensures
        chunks_hold(
            ingestion.chunks@,
            ingestion.id,
            segments_of(fields@.take(accepted_fields(fields@) as int)),
        ),
        accepted_fields(fields@) < fields@.len() ==> ingestion.result == Err::<
            FileMetadata,
            CustomError,
        >(CustomError::NullError),
        accepted_fields(fields@) >= fields@.len() ==> (ingestion.result matches Ok(meta) && meta@
            == (FileMetadataView {
            id: ingestion.id,
            name: name_after(Seq::empty(), fields@),
            chunk_count: segments_of(fields@).len() as int,
        })),
{
    let mut upload = Upload::begin();
    let id = upload.id();
    let ghost accepted = accepted_fields(fields@) as int;
    let mut chunks: Vec<ChunkRecord> = Vec::new();
    let mut f: usize = 0;
    proof {
        lemma_accepted_prefix(fields@, 0);
    }
    while f < fields.len()
        invariant
            f <= fields@.len(),
            accepted == accepted_fields(fields@),
            accepted_fields(fields@.take(f as int)) == f,
            segments_of(fields@.take(accepted)).len() <= i32::MAX,
            upload@ == (UploadView {
                id,
                filename: name_after(Seq::empty(), fields@.take(f as int)),
                total_chunks: segments_of(fields@.take(f as int)).len() as int,
            }),
            chunks_hold(chunks@, id, segments_of(fields@.take(f as int))),
        decreases fields@.len() - f,
    {
        let ghost before = fields@.take(f as int);
        proof {
            lemma_accepted_prefix(fields@, f as int);
            lemma_accepted_prefix(fields@, f as int + 1);
            assert(fields@.take(f as int + 1).drop_last() =~= before);
        }
        let header = match &fields[f].content_disposition {
            Some(disposition) => Some(disposition),
            None => None,
        };
        match upload.start_field(header) {
            Err(error) => {
                return Ingestion { id, chunks, result: Err(error) };
            },
            Ok(_) => {},
        }
        proof {
            lemma_segments_grow(fields@, f as int + 1, accepted);
        }
        let field = &fields[f];
        let mut s: usize = 0;
        while s < field.segments.len()
            invariant
                f < fields@.len(),
                *field == fields@[f as int],
                before == fields@.take(f as int),
                s <= field.segments@.len(),
                segments_of(before).len() + field.segments@.len() <= i32::MAX,
                upload@ == (UploadView {
                    id,
                    filename: name_after(Seq::empty(), fields@.take(f as int + 1)),
                    total_chunks: segments_of(before).len() + s,
                }),
                chunks_hold(
                    chunks@,
                    id,
                    segments_of(before) + field_segments(*field).take(s as int),
                ),
            decreases field.segments@.len() - s,
        {
            let chunk_data = copy_bytes(&field.segments[s]);
            let chunk = upload.next_chunk(chunk_data);
            chunks.push(chunk);
            assert(segments_of(before) + field_segments(*field).take(s as int + 1) =~= (segments_of(
                before,
            ) + field_segments(*field).take(s as int)).push(field.segments@[s as int]@));
            s = s + 1;
        }
        assert(field_segments(*field).take(s as int) =~= field_segments(*field));
        f = f + 1;
    }
    proof {
        lemma_accepted_prefix(fields@, f as int);
        assert(fields@.take(f as int) =~= fields@);
    }
    Ingestion { id, chunks, result: Ok(upload.metadata()) }
}

} // verus!
