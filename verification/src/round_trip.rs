//! What holds of an upload followed by downloads: the chunks of a file,
//! stored and read back in any order, reassemble to the bytes that were
//! uploaded.

use crate::endpoints::download::{
    concat_filled, download_outcome, empty_slots, lemma_place_all_len, place_all, reassembled, Row,
};
use crate::endpoints::upload::chunks_hold;
use crate::helper::{first_free, is_first_free, lemma_names_need_room, spec_file_name};
use crate::structs::ChunkRecord;
use uuid::Uuid;
use vstd::prelude::*;

verus! {

/// Some row is for this position.
pub open spec fn occurs(rows: Seq<Row>, position: int) -> bool {
    exists|j: int| 0 <= j < rows.len() && (#[trigger] rows[j]).0 == position
}

/// No two rows for one position differ in their bytes.
pub open spec fn consistent(rows: Seq<Row>) -> bool {
    forall|j: int, k: int|
        0 <= j < rows.len() && 0 <= k < rows.len() && (#[trigger] rows[j]).0 == (#[trigger] rows[k]).0
            ==> rows[j].1 == rows[k].1
}

/// The rows under which the segments of a file are stored: each segment
/// under its position.
pub open spec fn stored_rows(segments: Seq<Seq<u8>>) -> Seq<Row> {
    Seq::new(segments.len(), |i: int| (i, segments[i]))
}

/// The rows that a bulk read returns for these chunk records.
pub open spec fn rows_of_records(chunks: Seq<ChunkRecord>) -> Seq<Row> {
    Seq::new(chunks.len(), |i: int| (chunks[i]@.chunk_num, chunks[i]@.data))
}

/// An array of slots in which slot `i` holds segment `i`.
pub open spec fn filled_slots(segments: Seq<Seq<u8>>) -> Seq<Option<Seq<u8>>> {
    Seq::new(segments.len(), |i: int| Some(segments[i]))
}

/// What a slot holds after rows were placed into empty slots: the bytes of
/// one of the rows for its position, or nothing where no row is for it.
pub proof fn lemma_slot_contents(rows: Seq<Row>, count: nat, position: int)
    requires
        0 <= position < count,
    ensures
        place_all(empty_slots(count), rows).len() == count,
        match place_all(empty_slots(count), rows)[position] {
            Some(data) => rows.contains((position, data)),
            None => !occurs(rows, position),
        },
    decreases rows.len(),
{
    lemma_place_all_len(empty_slots(count), rows);
    if rows.len() > 0 {
        let before = rows.drop_last();
        let last = rows.last();
        lemma_slot_contents(before, count, position);
        lemma_place_all_len(empty_slots(count), before);
        let slots = place_all(empty_slots(count), rows);
        if last.0 == position {
            assert(rows[rows.len() - 1] == (position, last.1));
        } else {
            assert(slots[position] == place_all(empty_slots(count), before)[position]);
            match slots[position] {
                Some(data) => {
                    let j = choose|j: int| 0 <= j < before.len() && before[j] == (position, data);
                    assert(rows[j] == (position, data));
                },
                None => {
                    if occurs(rows, position) {
                        let j = choose|j: int| 0 <= j < rows.len() && (#[trigger] rows[j]).0 == position;
                        assert(before[j].0 == position);
                    }
                },
            }
        }
    }
}

/// The order in which rows arrive does not change what the slots hold:
/// two runs of the same rows, no two of which differ on a position, fill
/// the slots alike.
pub proof fn lemma_order_irrelevant(first: Seq<Row>, second: Seq<Row>, count: nat)
    requires
        first.to_multiset() == second.to_multiset(),
        consistent(first),
    ensures
        place_all(empty_slots(count), first) == place_all(empty_slots(count), second),
{
    let slots_first = place_all(empty_slots(count), first);
    let slots_second = place_all(empty_slots(count), second);
    lemma_place_all_len(empty_slots(count), first);
    lemma_place_all_len(empty_slots(count), second);
    first.to_multiset_ensures();
    second.to_multiset_ensures();
    assert forall|i: int| 0 <= i < count implies slots_first[i] == slots_second[i] by {
        lemma_slot_contents(first, count, i);
        lemma_slot_contents(second, count, i);
        match slots_first[i] {
            Some(data) => {
                assert(first.to_multiset().count((i, data)) > 0);
                assert(second.contains((i, data)));
                let k = choose|k: int| 0 <= k < second.len() && second[k] == (i, data);
                assert(second[k].0 == i);
                match slots_second[i] {
                    Some(other) => {
                        assert(second.to_multiset().count((i, other)) > 0);
                        assert(first.contains((i, other)));
                        let a = choose|a: int| 0 <= a < first.len() && first[a] == (i, data);
                        let b = choose|b: int| 0 <= b < first.len() && first[b] == (i, other);
                        assert(first[a].0 == first[b].0);
                    },
                    None => {},
                }
            },
            None => {
                match slots_second[i] {
                    Some(other) => {
                        assert(second.to_multiset().count((i, other)) > 0);
                        assert(first.contains((i, other)));
                        let a = choose|a: int| 0 <= a < first.len() && first[a] == (i, other);
                        assert(first[a].0 == i);
                    },
                    None => {},
                }
            },
        }
    }
    assert(slots_first =~= slots_second);
}

/// Placed in the order of their positions, the stored rows fill every slot
/// with its segment.
pub proof fn lemma_stored_rows_fill(segments: Seq<Seq<u8>>)
    ensures
        consistent(stored_rows(segments)),
        place_all(empty_slots(segments.len()), stored_rows(segments)) == filled_slots(segments),
{
    let rows = stored_rows(segments);
    let slots = place_all(empty_slots(segments.len()), rows);
    lemma_place_all_len(empty_slots(segments.len()), rows);
    assert forall|i: int| 0 <= i < segments.len() implies slots[i] == Some(segments[i]) by {
        lemma_slot_contents(rows, segments.len(), i);
        match slots[i] {
            Some(data) => {
                let k = choose|k: int| 0 <= k < rows.len() && rows[k] == (i, data);
                assert(rows[k] == (k, segments[k]));
            },
            None => {
                assert(rows[i].0 == i);
            },
        }
    }
    assert(slots =~= filled_slots(segments));
}

/// Slots that hold one segment each concatenate to the segments in order.
pub proof fn lemma_concat_filled_slots(segments: Seq<Seq<u8>>)
    ensures
        concat_filled(filled_slots(segments)) == segments.flatten(),
    decreases segments.len(),
{
    if segments.len() == 0 {
        assert(filled_slots(segments) =~= Seq::<Option<Seq<u8>>>::empty());
    } else {
        let before = segments.drop_last();
        lemma_concat_filled_slots(before);
        assert(filled_slots(segments).drop_last() =~= filled_slots(before));
        before.lemma_flatten_push(segments.last());
        assert(before.push(segments.last()) =~= segments);
    }
}

/// The rows of the chunks that an upload made of these segments are the
/// stored rows of the segments, and no position is missing or taken twice.
pub proof fn lemma_chunks_are_stored_rows(
    chunks: Seq<ChunkRecord>,
    file_id: Uuid,
    segments: Seq<Seq<u8>>,
)
    requires
        chunks_hold(chunks, file_id, segments),
    ensures
        rows_of_records(chunks) == stored_rows(segments),
        chunks.len() == segments.len(),
        forall|i: int| 0 <= i < segments.len() ==> occurs(rows_of_records(chunks), i),
        forall|j: int, k: int|
            0 <= j < k < chunks.len() ==> (#[trigger] chunks[j])@.chunk_num != (
            #[trigger] chunks[k])@.chunk_num,
        forall|j: int|
            0 <= j < chunks.len() ==> 0 <= (#[trigger] chunks[j])@.chunk_num < segments.len(),
{
    assert(rows_of_records(chunks) =~= stored_rows(segments));
    assert forall|i: int| 0 <= i < segments.len() implies occurs(rows_of_records(chunks), i) by {
        assert(rows_of_records(chunks)[i].0 == i);
    }
}

/// Uploading segments and downloading the file gives back the bytes of the
/// segments in order, in whatever order the chunks were stored and in
/// whatever order they arrive on retrieval. A file of no segment reassembles
/// to no bytes, and its download ends as not found.
pub proof fn lemma_round_trip(
    chunks: Seq<ChunkRecord>,
    file_id: Uuid,
    segments: Seq<Seq<u8>>,
    arrivals: Seq<Row>,
)
    requires
        chunks_hold(chunks, file_id, segments),
        arrivals.to_multiset() == rows_of_records(chunks).to_multiset(),
    ensures
        reassembled(arrivals) == segments.flatten(),
        segments.len() > 0 ==> download_outcome(arrivals) == Some(segments.flatten()),
        segments.len() == 0 ==> download_outcome(arrivals) is None,
{
    lemma_chunks_are_stored_rows(chunks, file_id, segments);
    let stored = stored_rows(segments);
    arrivals.to_multiset_ensures();
    stored.to_multiset_ensures();
    assert(arrivals.len() == segments.len());
    lemma_stored_rows_fill(segments);
    lemma_order_irrelevant(stored, arrivals, segments.len());
    lemma_concat_filled_slots(segments);
}

/// Nothing stored: the slots are none, the bytes are none, and the download
/// ends as not found rather than with an empty file.
pub proof fn lemma_nothing_stored(arrivals: Seq<Row>)
    requires
        arrivals.len() == 0,
    ensures
        reassembled(arrivals) == Seq::<u8>::empty(),
        download_outcome(arrivals) is None,
{
    assert(empty_slots(0) =~= Seq::<Option<Seq<u8>>>::empty());
}

/// Among the names to try, one is free, and no more names are in use
/// before it than the directory holds.
pub proof fn lemma_first_free_exists(taken: Seq<Seq<char>>)
    ensures
        is_first_free(taken, first_free(taken)),
        first_free(taken) <= taken.len(),
{
    lemma_free_from(taken, 0);
    let counter = first_free(taken);
    lemma_names_need_room(taken, counter);
}

proof fn lemma_free_from(taken: Seq<Seq<char>>, counter: nat)
    requires
        forall|j: nat| j < counter ==> taken.contains(#[trigger] spec_file_name(j)),
    ensures
        is_first_free(taken, first_free(taken)),
    decreases taken.len() - counter,
{
    lemma_names_need_room(taken, counter);
    if taken.contains(spec_file_name(counter)) {
        lemma_names_need_room(taken, counter + 1);
        lemma_free_from(taken, counter + 1);
    } else {
        assert(is_first_free(taken, counter));
    }
}

/// Downloading a file twice gives the same bytes both times, in whatever
/// order the chunks arrive each time, and writes them under two different
/// names: the second download finds the name of the first in use.
pub proof fn lemma_download_twice(
    stored: Seq<Row>,
    first: Seq<Row>,
    second: Seq<Row>,
    taken: Seq<Seq<char>>,
)
    requires
        consistent(stored),
        first.to_multiset() == stored.to_multiset(),
        second.to_multiset() == stored.to_multiset(),
    ensures
        download_outcome(first) == download_outcome(second),
        spec_file_name(first_free(taken)) != spec_file_name(
            first_free(taken.push(spec_file_name(first_free(taken)))),
        ),
{
    stored.to_multiset_ensures();
    first.to_multiset_ensures();
    second.to_multiset_ensures();
    lemma_order_irrelevant(stored, first, stored.len());
    lemma_order_irrelevant(stored, second, stored.len());
    let first_name = spec_file_name(first_free(taken));
    let later = taken.push(first_name);
    lemma_first_free_exists(later);
    assert(later[later.len() - 1] == first_name);
    assert(later.contains(first_name));
}

} // verus!
