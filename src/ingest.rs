//! Turning the unordered results of a file's uploads into the catalog rows of
//! that file, in chunk order.

use vstd::prelude::*;
use crate::retry::Locator;

verus! {

/// A chunk that reached the remote endpoint, with the digest of its payload.
pub struct UploadedChunk {
    pub index: usize,
    pub locator: Locator,
    /// Hex-encoded digest of the chunk's payload.
    pub digest: String,
}

/// One catalogued chunk of a file.
pub struct ChunkRecord {
    pub file_id: i64,
    pub index: usize,
    pub message_id: String,
    pub url: String,
    pub digest: String,
}

/// Why the uploads of a file cannot be catalogued.
#[derive(Debug, Clone, Copy, PartialEq, Eq, Structural)]
pub enum IngestError {
    /// The file has chunks, and none of them was uploaded.
    NoChunksUploaded,
    /// Some chunk is missing, repeated, or out of the file's index range.
    IncompleteUpload,
}

/// The uploads hold each index `0..n` exactly once, and nothing else.
pub open spec fn covers_exactly(results: Seq<UploadedChunk>, n: nat) -> bool {
    &&& forall|j: int| 0 <= j < results.len() ==> (#[trigger] results[j]).index < n
    &&& forall|j: int, k: int|
        0 <= j < k < results.len() ==> (#[trigger] results[j]).index != (#[trigger] results[k]).index
    &&& forall|i: int| 0 <= i < n ==> #[trigger] has_index(results, i)
}

/// Some upload in `results` carries index `i`.
pub open spec fn has_index(results: Seq<UploadedChunk>, i: int) -> bool {
    exists|j: int| 0 <= j < results.len() && results[j].index == i
}

/// `row` catalogues `upload` under `file_id`.
pub open spec fn records(row: ChunkRecord, file_id: i64, upload: UploadedChunk) -> bool {
    &&& row.file_id == file_id
    &&& row.index == upload.index
    &&& row.message_id == upload.locator.message_id
    &&& row.url == upload.locator.url
    &&& row.digest == upload.digest
}

/// Every upload of `results` is catalogued under `file_id` at the row of its index.
pub open spec fn all_recorded(rows: Seq<ChunkRecord>, file_id: i64, results: Seq<UploadedChunk>) -> bool {
    forall|j: int|
        0 <= j < results.len() ==> records(rows[(#[trigger] results[j]).index as int], file_id, results[j])
}

/// `rows` are the chunks of one file in catalogue order: indices `0..len`,
/// ascending, with no gap and no repetition.
pub open spec fn in_chunk_order(rows: Seq<ChunkRecord>) -> bool {
    forall|i: int| 0 <= i < rows.len() ==> (#[trigger] rows[i]).index == i
}

/// Orders the uploads of a file with `n` chunks by index, whatever order they
/// finished in, and makes them the file's catalog rows. Succeeds exactly when
/// every chunk `0..n` was uploaded once; a file whose chunks all failed, and
/// any other gap or repetition, is refused so that no file is catalogued with
/// missing chunks.
pub fn plan_chunk_rows(file_id: i64, n: usize, results: Vec<UploadedChunk>) -> (r: Result<
    Vec<ChunkRecord>,
    IngestError,
>)
    ensures
        r is Ok <==> covers_exactly(results@, n as nat),
        r is Err ==> (r->Err_0 == IngestError::NoChunksUploaded <==> n > 0 && results@.len() == 0),
        r is Ok ==> r->Ok_0@.len() == n,
        r is Ok ==> in_chunk_order(r->Ok_0@),
        r is Ok ==> all_recorded(r->Ok_0@, file_id, results@),
{
    let ghost orig = results@;
    if n > 0 && results.len() == 0 {
        assert(!has_index(results@, 0));
        return Err(IngestError::NoChunksUploaded);
    }
    let mut slots: Vec<Option<UploadedChunk>> = Vec::new();
    let mut i: usize = 0;
    while i < n
        invariant
            orig == results@,
            i <= n,
            slots@.len() == i,
            forall|k: int| 0 <= k < i ==> (#[trigger] slots@[k]) is None,
        decreases n - i,
    {
        slots.push(None);
        i = i + 1;
    }
    let mut pending = results;
    while pending.len() > 0
        invariant
            slots@.len() == n,
            orig == results@,
            n > 0 ==> orig.len() > 0,
            forall|k: int| 0 <= k < n && (#[trigger] slots@[k]) is Some ==> slots@[k]->Some_0.index == k,
            pending@ == orig.take(pending@.len() as int),
            pending@.len() <= orig.len(),
            forall|j: int| pending@.len() <= j < orig.len() ==> (#[trigger] orig[j]).index < n,
            forall|j: int, k: int|
                pending@.len() <= j < k < orig.len() ==> (#[trigger] orig[j]).index
                    != (#[trigger] orig[k]).index,
            forall|k: int|
                0 <= k < n ==> ((#[trigger] slots@[k]) is Some <==> exists|j: int|
                    pending@.len() <= j < orig.len() && orig[j].index == k),
            forall|k: int|
                0 <= k < n && (#[trigger] slots@[k]) is Some ==> exists|j: int|
                    pending@.len() <= j < orig.len() && orig[j] == slots@[k]->Some_0,
        decreases pending@.len(),
    {
        let ghost before = pending@;
        let item = pending.pop().unwrap();
        let ghost p = pending@.len() as int;
        assert(orig[p] == item);
        assert(orig.len() > 0);
        let idx = item.index;
        if idx >= n {
            assert(!covers_exactly(orig, n as nat)) by {
                assert(orig[p].index >= n);
            }
            return Err(IngestError::IncompleteUpload);
        }
        let taken = match &slots[idx] {
            Some(_) => true,
            None => false,
        };
        if taken {
            assert(!covers_exactly(orig, n as nat)) by {
                let j = choose|j: int| p + 1 <= j < orig.len() && orig[j].index == idx;
                assert(orig[p].index == orig[j].index);
            }
            return Err(IngestError::IncompleteUpload);
        }
        slots.set(idx, Some(item));
        assert(pending@ =~= orig.take(p));
        assert forall|k: int| 0 <= k < n implies ((#[trigger] slots@[k]) is Some <==> exists|j: int|
            p <= j < orig.len() && orig[j].index == k) by {
            if k != idx && slots@[k] is Some {
                let j = choose|j: int| p + 1 <= j < orig.len() && orig[j].index == k;
                assert(p <= j < orig.len() && orig[j].index == k);
            }
            if exists|j: int| p <= j < orig.len() && orig[j].index == k {
                let j = choose|j: int| p <= j < orig.len() && orig[j].index == k;
                if j != p {
                    assert(p + 1 <= j < orig.len() && orig[j].index == k);
                }
            }
        }
        assert forall|k: int| 0 <= k < n && (#[trigger] slots@[k]) is Some implies exists|j: int|
            p <= j < orig.len() && orig[j] == slots@[k]->Some_0 by {
            if k != idx {
                let j = choose|j: int| p + 1 <= j < orig.len() && orig[j] == slots@[k]->Some_0;
                assert(p <= j < orig.len() && orig[j] == slots@[k]->Some_0);
            }
        }
    }
    assert(orig.take(0) =~= pending@);
    let mut rows: Vec<ChunkRecord> = Vec::new();
    let ghost mut src: Seq<int> = Seq::empty();
    let mut i: usize = 0;
    while i < n
        invariant
            i <= n,
            slots@.len() == n,
            orig == results@,
            n > 0 ==> orig.len() > 0,
            forall|k: int| i <= k < n && (#[trigger] slots@[k]) is Some ==> slots@[k]->Some_0.index == k,
            rows@.len() == i,
            in_chunk_order(rows@),
            forall|k: int| i <= k < n ==> ((#[trigger] slots@[k]) is Some <==> exists|j: int|
                0 <= j < orig.len() && orig[j].index == k),
            forall|k: int|
                i <= k < n && (#[trigger] slots@[k]) is Some ==> exists|j: int|
                    0 <= j < orig.len() && orig[j] == slots@[k]->Some_0,
            src.len() == i,
            forall|k: int|
                0 <= k < i ==> 0 <= #[trigger] src[k] < orig.len() && records(rows@[k], file_id, orig[src[k]]),
            forall|k: int| 0 <= k < i ==> #[trigger] has_index(orig, k),
            forall|j: int| 0 <= j < orig.len() ==> (#[trigger] orig[j]).index < n,
            forall|j: int, k: int|
                0 <= j < k < orig.len() ==> (#[trigger] orig[j]).index != (#[trigger] orig[k]).index,
        decreases n - i,
    {
        let ghost old_slots = slots@;
        let slot = slots[i].take();
        assert(slots@ =~= old_slots.update(i as int, None));
        assert(old_slots[i as int] == slot);
        match slot {
            None => {
                assert(!covers_exactly(orig, n as nat)) by {
                    assert(!has_index(orig, i as int));
                }
                return Err(IngestError::IncompleteUpload);
            },
            Some(up) => {
                assert(old_slots[i as int] is Some);
                let ghost j = choose|j: int| 0 <= j < orig.len() && orig[j] == up;
                assert(has_index(orig, i as int));
                let ghost ks = rows@;
                rows.push(
                    ChunkRecord {
                        file_id,
                        index: up.index,
                        message_id: up.locator.message_id,
                        url: up.locator.url,
                        digest: up.digest,
                    },
                );
                assert(up.index == i);
                assert(records(rows@[i as int], file_id, orig[j]));
                let ghost old_src = src;
                proof {
                    src = src.push(j);
                }
                assert forall|k: int|
                    0 <= k < i + 1 implies 0 <= #[trigger] src[k] < orig.len() && records(rows@[k], file_id, orig[src[k]]) by {
                    if k < i {
                        assert(rows@[k] == ks[k]);
                        assert(src[k] == old_src[k]);
                    }
                }
            },
        }
        i = i + 1;
    }
    assert(i == n);
    assert(covers_exactly(orig, n as nat));
    assert forall|j: int| 0 <= j < orig.len() implies records(
        rows@[(#[trigger] orig[j]).index as int],
        file_id,
        orig[j],
    ) by {
        let k = orig[j].index as int;
        let j2 = src[k];
        assert(0 <= j2 < orig.len() && records(rows@[k], file_id, orig[j2]));
        if j2 < j {
            assert(orig[j2].index != orig[j].index);
        } else if j < j2 {
            assert(orig[j].index != orig[j2].index);
        }
    }
    assert(all_recorded(rows@, file_id, orig));
    Ok(rows)
}

} // verus!
