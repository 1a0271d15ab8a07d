//! Retrieval: the chunks of a file, read back as pairs of position and
//! bytes, are placed into an ordered array of slots and concatenated.

use crate::bytes::{append_bytes, copy_bytes};
use vstd::prelude::*;
use vstd::string::*;

verus! {

/// A chunk as retrieval sees it: its position in the file and its bytes.
pub type Row = (int, Seq<u8>);

/// The rows that a vector of chunks stands for.
pub open spec fn rows_of(chunks: Seq<(i32, Vec<u8>)>) -> Seq<Row> {
    Seq::new(chunks.len(), |j: int| (chunks[j].0 as int, chunks[j].1@))
}

/// An array of `count` slots, each of them empty.
pub open spec fn empty_slots(count: nat) -> Seq<Option<Seq<u8>>> {
    Seq::new(count, |i: int| None)
}

/// Every row names a slot of an array of `count` slots.
pub open spec fn in_range(rows: Seq<Row>, count: nat) -> bool {
    forall|j: int| 0 <= j < rows.len() ==> 0 <= (#[trigger] rows[j]).0 < count
}

/// The slots after one row has been put into the slot that its position
/// names, in place of what the slot held. A row that names no slot changes
/// nothing.
pub open spec fn place_one(slots: Seq<Option<Seq<u8>>>, row: Row) -> Seq<Option<Seq<u8>>> {
    if 0 <= row.0 < slots.len() {
        slots.update(row.0, Some(row.1))
    } else {
        slots
    }
}

/// The slots after each row, in the order of `rows`, has been placed. A
/// later row for the same slot replaces an earlier one.
pub open spec fn place_all(slots: Seq<Option<Seq<u8>>>, rows: Seq<Row>) -> Seq<Option<Seq<u8>>>
    decreases rows.len(),
{
    if rows.len() == 0 {
        slots
    } else {
        place_one(place_all(slots, rows.drop_last()), rows.last())
    }
}

/// The bytes of the filled slots, in slot order; an empty slot adds nothing.
pub open spec fn concat_filled(slots: Seq<Option<Seq<u8>>>) -> Seq<u8>
    decreases slots.len(),
{
    if slots.len() == 0 {
        Seq::empty()
    } else {
        concat_filled(slots.drop_last()) + match slots.last() {
            Some(data) => data,
            None => Seq::empty(),
        }
    }
}

/// The file that a batch of rows reassembles to: as many slots as rows,
/// each row placed by its position, the filled slots concatenated.
pub open spec fn reassembled(rows: Seq<Row>) -> Seq<u8> {
    concat_filled(place_all(empty_slots(rows.len()), rows))
}

/// Placing rows keeps the number of slots.
pub proof fn lemma_place_all_len(slots: Seq<Option<Seq<u8>>>, rows: Seq<Row>)
    ensures
        place_all(slots, rows).len() == slots.len(),
    decreases rows.len(),
{
    if rows.len() > 0 {
        lemma_place_all_len(slots, rows.drop_last());
    }
}

/// Placing one more row after `rows` is placing `rows`, then that row.
pub proof fn lemma_place_all_push(slots: Seq<Option<Seq<u8>>>, rows: Seq<Row>, row: Row)
    ensures
        place_all(slots, rows.push(row)) == place_one(place_all(slots, rows), row),
{
    assert(rows.push(row).drop_last() =~= rows);
}

/// The ordered array of slots that collects the chunks of one file, in
/// whatever order they arrive.
pub struct Reassembly {
    slots: Vec<Option<Vec<u8>>>,
}

impl View for Reassembly {
    type V = Seq<Option<Seq<u8>>>;

    closed spec fn view(&self) -> Seq<Option<Seq<u8>>> {
        Seq::new(
            self.slots@.len(),
            |i: int|
                match self.slots@[i] {
                    Some(data) => Some(data@),
                    None => None,
                },
        )
    }
}

impl Reassembly {
    /// An array of `count` empty slots.
    pub fn new(count: usize) -> (empty: Self)
        ensures
            empty@ == empty_slots(count as nat),
    {
        let mut slots: Vec<Option<Vec<u8>>> = Vec::new();
        let mut i: usize = 0;
        while i < count
            invariant
                i <= count,
                slots@.len() == i,
                forall|k: int| 0 <= k < i ==> slots@[k] is None,
            decreases count - i,
        {
            slots.push(None);
            i = i + 1;
        }
        let empty = Reassembly { slots };
        assert(empty@ =~= empty_slots(count as nat));
        empty
    }

    /// The number of slots.
    pub fn len(&self) -> (count: usize)
        ensures
            count == self@.len(),
    {
        self.slots.len()
    }

    /// Whether a position names one of the slots.
    pub fn accepts(&self, chunk_num: i32) -> (fits: bool)
        ensures
            fits == (0 <= chunk_num < self@.len()),
    {
        chunk_num >= 0 && (chunk_num as usize) < self.slots.len()
    }

    /// Puts the bytes of a chunk into the slot that its position names,
    /// in place of what the slot held.
    pub fn place(&mut self, chunk_num: i32, data: Vec<u8>)
        requires
            0 <= chunk_num < old(self)@.len(),
        ensures
            final(self)@ == old(self)@.update(chunk_num as int, Some(data@)),
    {
        self.slots.set(chunk_num as usize, Some(data));
        assert(self@ =~= old(self)@.update(chunk_num as int, Some(data@)));
    }

    /// The bytes of the filled slots, in slot order.
    pub fn into_bytes(self) -> (bytes: Vec<u8>)
        ensures
            bytes@ == concat_filled(self@),
    {
        let mut bytes: Vec<u8> = Vec::new();
        let mut i: usize = 0;
        while i < self.slots.len()
            invariant
                i <= self.slots@.len(),
                bytes@ == concat_filled(self@.take(i as int)),
            decreases self.slots@.len() - i,
        {
            assert(self@.take(i as int + 1).drop_last() =~= self@.take(i as int));
            match &self.slots[i] {
                Some(data) => {
                    append_bytes(&mut bytes, data);
                },
                None => {
                    assert(bytes@ + Seq::<u8>::empty() =~= bytes@);
                },
            }
            i = i + 1;
        }
        assert(self@.take(i as int) =~= self@);
        bytes
    }
}

/// Whether every chunk names a slot of an array with as many slots as
/// there are chunks.
pub fn positions_in_range(chunks: &Vec<(i32, Vec<u8>)>) -> (fits: bool)
    ensures
        fits == in_range(rows_of(chunks@), chunks@.len()),
{
    let mut j: usize = 0;
    while j < chunks.len()
        invariant
            j <= chunks@.len(),
            in_range(rows_of(chunks@).take(j as int), chunks@.len()),
        decreases chunks@.len() - j,
    {
        let chunk_num: i32 = chunks[j].0;
        if chunk_num < 0 || chunk_num as usize >= chunks.len() {
            assert(rows_of(chunks@)[j as int].0 == chunk_num);
            return false;
        }
        assert forall|m: int| 0 <= m < j + 1 implies 0 <= (#[trigger] rows_of(chunks@).take(
            j as int + 1,
        )[m]).0 < chunks@.len() by {
            if m < j {
                assert(rows_of(chunks@).take(j as int)[m] == rows_of(chunks@).take(j as int + 1)[m]);
            }
        }
        j = j + 1;
    }
    assert(rows_of(chunks@).take(j as int) =~= rows_of(chunks@));
    true
}

/// Collects chunks, taken in the order in which they arrived, into as many
/// slots as there are chunks.
pub fn collect(arrivals: &Vec<(i32, Vec<u8>)>) -> (sorted_chunks: Reassembly)
    requires
        in_range(rows_of(arrivals@), arrivals@.len()),
    ensures
        sorted_chunks@ == place_all(empty_slots(arrivals@.len()), rows_of(arrivals@)),
        sorted_chunks@.len() == arrivals@.len(),
{
    let ghost rows = rows_of(arrivals@);
    let mut sorted_chunks = Reassembly::new(arrivals.len());
    let mut j: usize = 0;
    while j < arrivals.len()
        invariant
            j <= arrivals@.len(),
            rows == rows_of(arrivals@),
            in_range(rows, arrivals@.len()),
            sorted_chunks@ == place_all(empty_slots(arrivals@.len()), rows.take(j as int)),
        decreases arrivals@.len() - j,
    {
        proof {
            lemma_place_all_len(empty_slots(arrivals@.len()), rows.take(j as int));
            lemma_place_all_push(empty_slots(arrivals@.len()), rows.take(j as int), rows[j as int]);
            assert(rows.take(j as int + 1) =~= rows.take(j as int).push(rows[j as int]));
        }
        let chunk_num: i32 = arrivals[j].0;
        let chunk_data = copy_bytes(&arrivals[j].1);
        sorted_chunks.place(chunk_num, chunk_data);
        j = j + 1;
    }
    proof {
        assert(rows.take(j as int) =~= rows);
        lemma_place_all_len(empty_slots(arrivals@.len()), rows);
    }
    sorted_chunks
}

/// Reassembles a file from its chunks, taken in the order in which they
/// arrived: as many slots as chunks, each chunk placed by its position, the
/// filled slots concatenated.
pub fn reassemble(arrivals: &Vec<(i32, Vec<u8>)>) -> (bytes: Vec<u8>)
    requires
        in_range(rows_of(arrivals@), arrivals@.len()),
    ensures
        bytes@ == reassembled(rows_of(arrivals@)),
{
    collect(arrivals).into_bytes()
}

/// How a download ends.
#[derive(Debug, PartialEq, Eq)]
pub enum Download {
    /// The store holds no chunk of the file.
    NotFound,
    /// The file, reassembled from its chunks.
    Complete(Vec<u8>),
}

/// How the download of a file with these chunks ends: not found where there
/// is no chunk, the reassembled file otherwise.
pub open spec fn download_outcome(rows: Seq<Row>) -> Option<Seq<u8>> {
    if rows.len() == 0 {
        None
    } else {
        Some(reassembled(rows))
    }
}

impl View for Download {
    type V = Option<Seq<u8>>;

    open spec fn view(&self) -> Option<Seq<u8>> {
        match self {
            Download::NotFound => None,
            Download::Complete(bytes) => Some(bytes@),
        }
    }
}

/// How a download ends on these slots: not found where there is no slot,
/// the bytes of the filled slots otherwise.
pub open spec fn outcome_of(slots: Seq<Option<Seq<u8>>>) -> Option<Seq<u8>> {
    if slots.len() == 0 {
        None
    } else {
        Some(concat_filled(slots))
    }
}

impl Reassembly {
    /// Ends the collection: a file of no chunk is not found; otherwise the
    /// file is the bytes of the filled slots, in slot order.
    pub fn finish(self) -> (outcome: Download)
        ensures
            outcome@ == outcome_of(self@),
    {
        if self.len() == 0 {
            return Download::NotFound;
        }
        Download::Complete(self.into_bytes())
    }
}

impl Download {
    /// The status code of the response: 404 where the file was not found,
    /// 200 otherwise.
    pub fn status_code(&self) -> (code: u16)
        ensures
            code == (if self@ is None { 404int } else { 200int }),
    {
        match self {
            Download::NotFound => 404,
            Download::Complete(_) => 200,
        }
    }

    /// The plain-text body of the response.
    pub fn body(&self) -> (text: String)
        ensures
            text@ == (if self@ is None {
                "File not found"@
            } else {
                "File downloaded successfully"@
            }),
    {
        match self {
            Download::NotFound => String::from_str("File not found"),
            Download::Complete(_) => String::from_str("File downloaded successfully"),
        }
    }
}

/// Turns the chunks that the store returned for a file into the outcome of
/// the download: not found where the store returned none, and never an
/// empty file in that case; otherwise the file reassembled from them.
pub fn download_file(fetched_chunks: &Vec<(i32, Vec<u8>)>) -> (outcome: Download)
    requires
        in_range(rows_of(fetched_chunks@), fetched_chunks@.len()),
    ensures
        outcome@ == download_outcome(rows_of(fetched_chunks@)),
        outcome is NotFound <==> fetched_chunks@.len() == 0,
{
    collect(fetched_chunks).finish()
}

} // verus!
