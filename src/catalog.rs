//! The catalog: files and the ordered locators of their chunks.

use vstd::prelude::*;
use crate::ingest::{ChunkRecord, in_chunk_order};
use crate::split::chunk_count;

verus! {

/// One catalogued file.
pub struct FileRecord {
    /// Assigned by the catalog: unique, and increasing in order of creation.
    pub id: i64,
    pub filename: String,
    /// Total size in bytes.
    pub filesize: u64,
    /// Chunk size the file was split with, in bytes.
    pub chunk_size: u64,
    /// Creation time, ISO-8601.
    pub created_at: String,
}

/// Why a catalog operation failed.
#[derive(Debug, Clone, Copy, PartialEq, Eq, Structural)]
pub enum CatalogError {
    /// No file has the identifier given.
    NotFound,
    /// The file already has its chunk rows; they are written once.
    AlreadyCatalogued,
    /// The rows are not in chunk order, or belong to another file.
    InvalidRows,
    /// No identifier is left to assign.
    IdsExhausted,
    /// A restored file's identifier is not above every identifier in use.
    IdNotIncreasing,
}

/// Files with their chunk rows, kept in order of identifier and of chunk index.
pub struct Catalog {
    files: Vec<FileRecord>,
    rows: Vec<Vec<ChunkRecord>>,
    next_id: i64,
}

/// The identifiers of `files` increase strictly with position.
pub open spec fn ids_ascending(files: Seq<FileRecord>) -> bool {
    forall|i: int, j: int| 0 <= i < j < files.len() ==> (#[trigger] files[i]).id < (#[trigger] files[j]).id
}

/// `rows` are all the chunks of file `rec`: its chunks in chunk order, as
/// many as its size needs at its chunk size, `ceil(filesize / chunk_size)`.
pub open spec fn rows_fit(rows: Seq<ChunkRecord>, rec: FileRecord) -> bool {
    &&& rows_of_file(rows, rec.id)
    &&& rec.chunk_size > 0
    &&& rows.len() == chunk_count(rec.filesize as int, rec.chunk_size as int)
}

/// `after` is `before` with `rec` added last, under an identifier greater
/// than every identifier of `before`.
pub open spec fn created(before: Seq<FileRecord>, after: Seq<FileRecord>, rec: FileRecord) -> bool {
    &&& after == before.push(rec)
    &&& forall|i: int| 0 <= i < before.len() ==> (#[trigger] before[i]).id < rec.id
}

/// Listing law: starting from an empty catalog, after the files `recs` are
/// created one after another (`states[k]` being the files before the `k`-th
/// creation), the listing holds exactly those records, in order of creation,
/// with strictly ascending identifiers and the sizes and chunk sizes they were
/// created with.
pub proof fn lemma_listing_after_creations(states: Seq<Seq<FileRecord>>, recs: Seq<FileRecord>)
    requires
        states.len() == recs.len() + 1,
        states[0] == Seq::<FileRecord>::empty(),
        forall|k: int| 0 <= k < recs.len() ==> created(#[trigger] states[k], states[k + 1], recs[k]),
    ensures
        states.last() == recs,
        ids_ascending(states.last()),
    decreases recs.len(),
{
    if recs.len() == 0 {
        assert(recs =~= Seq::<FileRecord>::empty());
    } else {
        let n = recs.len() - 1;
        let fewer_states = states.drop_last();
        let fewer = recs.drop_last();
        assert forall|k: int| 0 <= k < fewer.len() implies created(
            #[trigger] fewer_states[k],
            fewer_states[k + 1],
            fewer[k],
        ) by {
            assert(created(states[k], states[k + 1], recs[k]));
        }
        lemma_listing_after_creations(fewer_states, fewer);
        assert(created(states[n], states[n + 1], recs[n]));
        assert(states[n] == fewer);
        assert(states.last() =~= recs);
    }
}

/// `rows` are the chunks of file `id`, in chunk order.
pub open spec fn rows_of_file(rows: Seq<ChunkRecord>, id: i64) -> bool {
    &&& in_chunk_order(rows)
    &&& forall|k: int| 0 <= k < rows.len() ==> (#[trigger] rows[k]).file_id == id
}

impl Catalog {
    /// The catalogued files, in order of creation.
    pub closed spec fn files(&self) -> Seq<FileRecord> {
        self.files@
    }

    /// The chunk rows of the file at position `i` of `files()`.
    pub closed spec fn rows_at(&self, i: int) -> Seq<ChunkRecord> {
        self.rows@[i]@
    }

    /// The identifier the next created file receives.
    pub closed spec fn next_id(&self) -> i64 {
        self.next_id
    }

    /// Position in `files()` of the file with identifier `id`, when there is one.
    pub open spec fn position_of(&self, id: i64) -> int {
        choose|i: int| 0 <= i < self.files().len() && self.files()[i].id == id
    }

    /// Some catalogued file has identifier `id`.
    pub open spec fn has_file(&self, id: i64) -> bool {
        exists|i: int| 0 <= i < self.files().len() && (#[trigger] self.files()[i]).id == id
    }

    /// The catalog's invariant.
    pub closed spec fn wf(&self) -> bool {
        &&& self.files@.len() == self.rows@.len()
        &&& ids_ascending(self.files@)
        &&& self.next_id >= 1
        &&& forall|i: int| 0 <= i < self.files@.len() ==> 0 < (#[trigger] self.files@[i]).id < self.next_id
        &&& forall|i: int| 0 <= i < self.rows@.len() ==> rows_of_file((#[trigger] self.rows@[i])@, self.files@[i].id)
        &&& forall|i: int|
            0 <= i < self.rows@.len() && (#[trigger] self.rows@[i])@.len() > 0 ==> rows_fit(
                self.rows@[i]@,
                self.files@[i],
            )
    }

    /// The invariant as callers may use it: identifiers ascend, are below
    /// `next_id()`, and every file's rows are its chunks in chunk order,
    /// complete once there are any.
    pub proof fn lemma_wf(&self)
        requires
            self.wf(),
        ensures
            ids_ascending(self.files()),
            self.next_id() >= 1,
            forall|i: int| 0 <= i < self.files().len() ==> 0 < #[trigger] self.files()[i].id < self.next_id(),
            forall|i: int| 0 <= i < self.files().len() ==> rows_of_file(#[trigger] self.rows_at(i), self.files()[i].id),
            forall|i: int|
                0 <= i < self.files().len() && (#[trigger] self.rows_at(i)).len() > 0 ==> rows_fit(
                    self.rows_at(i),
                    self.files()[i],
                ),
    {
    }

    proof fn lemma_position(&self, id: i64, p: int)
        requires
            self.wf(),
            0 <= p < self.files().len(),
            self.files()[p].id == id,
        ensures
            self.position_of(id) == p,
    {
        let q = self.position_of(id);
        assert(0 <= q < self.files().len() && self.files()[q].id == id);
        if q < p {
            assert(self.files@[q].id < self.files@[p].id);
        } else if q > p {
            assert(self.files@[p].id < self.files@[q].id);
        }
    }

    /// An empty catalog.
    pub fn new() -> (r: Catalog)
        ensures
            r.wf(),
            r.files() == Seq::<FileRecord>::empty(),
    {
        Catalog { files: Vec::new(), rows: Vec::new(), next_id: 1 }
    }

    /// Adds a file with no chunk rows yet, under an identifier greater than
    /// every identifier given before.
    pub fn create_file(
        &mut self,
        filename: String,
        filesize: u64,
        chunk_size: u64,
        created_at: String,
    ) -> (r: Result<i64, CatalogError>)
        requires
            old(self).wf(),
        ensures
            final(self).wf(),
            r is Err <==> old(self).next_id() == i64::MAX,
            r is Err ==> r == Err::<i64, CatalogError>(CatalogError::IdsExhausted) && *final(self) == *old(self),
            r is Ok ==> {
                let id = r->Ok_0;
                &&& id == old(self).next_id()
                &&& final(self).next_id() == id + 1
                &&& id > 0
                &&& created(
                    old(self).files(),
                    final(self).files(),
                    FileRecord { id, filename, filesize, chunk_size, created_at },
                )
                &&& final(self).rows_at(old(self).files().len() as int) == Seq::<ChunkRecord>::empty()
                &&& forall|i: int| 0 <= i < old(self).files().len() ==> #[trigger] final(self).rows_at(i) == old(self).rows_at(i)
            },
    {
        if self.next_id == i64::MAX {
            return Err(CatalogError::IdsExhausted);
        }
        let id = self.next_id;
        self.push_file(FileRecord { id, filename, filesize, chunk_size, created_at });
        Ok(id)
    }

    /// Adds a file kept elsewhere under the identifier it already has, which
    /// must lie above every identifier in use; files created later get
    /// identifiers above it.
    pub fn restore_file(&mut self, rec: FileRecord) -> (r: Result<(), CatalogError>)
        requires
            old(self).wf(),
        ensures
            final(self).wf(),
            r is Err <==> !(old(self).next_id() <= rec.id < i64::MAX),
            r is Err ==> r == Err::<(), CatalogError>(CatalogError::IdNotIncreasing) && *final(self) == *old(self),
            r is Ok ==> {
                &&& created(old(self).files(), final(self).files(), rec)
                &&& final(self).next_id() == rec.id + 1
                &&& final(self).rows_at(old(self).files().len() as int) == Seq::<ChunkRecord>::empty()
                &&& forall|i: int| 0 <= i < old(self).files().len() ==> #[trigger] final(self).rows_at(i) == old(self).rows_at(i)
            },
    {
        if rec.id < self.next_id || rec.id == i64::MAX {
            return Err(CatalogError::IdNotIncreasing);
        }
        self.push_file(rec);
        Ok(())
    }

    fn push_file(&mut self, rec: FileRecord)
        requires
            old(self).wf(),
            old(self).next_id() <= rec.id < i64::MAX,
        ensures
            final(self).wf(),
            created(old(self).files(), final(self).files(), rec),
            final(self).next_id() == rec.id + 1,
            final(self).rows_at(old(self).files().len() as int) == Seq::<ChunkRecord>::empty(),
            forall|i: int| 0 <= i < old(self).files().len() ==> #[trigger] final(self).rows_at(i) == old(self).rows_at(i),
    {
        let id = rec.id;
        let ghost old_rows = self.rows@;
        self.files.push(rec);
        self.rows.push(Vec::new());
        self.next_id = id + 1;
        proof {
            assert forall|i: int| 0 <= i < self.rows@.len() implies rows_of_file(
                (#[trigger] self.rows@[i])@,
                self.files@[i].id,
            ) by {
                if i < old_rows.len() {
                    assert(self.rows@[i] == old_rows[i]);
                }
            }
            assert forall|i: int| 0 <= i < old_rows.len() implies #[trigger] self.rows@[i]@ == old_rows[i]@ by {}
            assert forall|i: int|
                0 <= i < self.rows@.len() && (#[trigger] self.rows@[i])@.len() > 0 implies rows_fit(
                self.rows@[i]@,
                self.files@[i],
            ) by {
                assert(i < old_rows.len());
                assert(self.rows@[i] == old_rows[i]);
            }
        }
    }

    /// Position of file `id`, searching by identifier.
    fn position(&self, id: i64) -> (r: Option<usize>)
        requires
            self.wf(),
        ensures
            r is None <==> !self.has_file(id),
            r is Some ==> r->Some_0 < self.files().len() && self.files()[r->Some_0 as int].id == id,
    {
        let mut i: usize = 0;
        while i < self.files.len()
            invariant
                i <= self.files@.len(),
                forall|k: int| 0 <= k < i ==> (#[trigger] self.files@[k]).id != id,
            decreases self.files@.len() - i,
        {
            if self.files[i].id == id {
                return Some(i);
            }
            i = i + 1;
        }
        None
    }

    /// All files, ascending by identifier.
    pub fn list(&self) -> (r: &Vec<FileRecord>)
        requires
            self.wf(),
        ensures
            r@ == self.files(),
            ids_ascending(r@),
    {
        &self.files
    }

    /// The record of file `id`.
    pub fn file(&self, id: i64) -> (r: Result<&FileRecord, CatalogError>)
        requires
            self.wf(),
        ensures
            r is Err <==> !self.has_file(id),
            r is Err ==> r->Err_0 == CatalogError::NotFound,
            r is Ok ==> exists|i: int|
                0 <= i < self.files().len() && self.files()[i] == *r->Ok_0 && #[trigger] self.files()[i].id == id,
    {
        match self.position(id) {
            None => Err(CatalogError::NotFound),
            Some(p) => Ok(&self.files[p]),
        }
    }

    /// The chunk rows of file `id`, ascending by index.
    pub fn chunks_of(&self, id: i64) -> (r: Result<&Vec<ChunkRecord>, CatalogError>)
        requires
            self.wf(),
        ensures
            r is Err <==> !self.has_file(id),
            r is Err ==> r->Err_0 == CatalogError::NotFound,
            r is Ok ==> rows_of_file(r->Ok_0@, id) && exists|i: int|
                0 <= i < self.files().len() && #[trigger] self.files()[i].id == id && self.rows_at(i)
                    == r->Ok_0@,
    {
        match self.position(id) {
            None => Err(CatalogError::NotFound),
            Some(p) => {
                assert(rows_of_file(self.rows@[p as int]@, self.files@[p as int].id));
                Ok(&self.rows[p])
            },
        }
    }

    /// Records the chunk rows of file `id`, once: the rows must be all of
    /// that file's chunks, `ceil(filesize / chunk_size)` of them, in chunk
    /// order.
    pub fn record_chunks(&mut self, id: i64, rows: Vec<ChunkRecord>) -> (r: Result<(), CatalogError>)
        requires
            old(self).wf(),
        ensures
            final(self).wf(),
            final(self).files() == old(self).files(),
            final(self).next_id() == old(self).next_id(),
            r is Err ==> forall|i: int| 0 <= i < old(self).files().len() ==> #[trigger] final(self).rows_at(i) == old(self).rows_at(i),
            r == Err::<(), CatalogError>(CatalogError::NotFound) <==> !old(self).has_file(id),
            r == Err::<(), CatalogError>(CatalogError::InvalidRows) <==> old(self).has_file(id) && !rows_fit(
                rows@,
                old(self).files()[old(self).position_of(id)],
            ),
            r == Err::<(), CatalogError>(CatalogError::AlreadyCatalogued) <==> old(self).has_file(id) && rows_fit(
                rows@,
                old(self).files()[old(self).position_of(id)],
            ) && old(self).rows_at(old(self).position_of(id)).len() > 0,
            r is Ok <==> old(self).has_file(id) && rows_fit(rows@, old(self).files()[old(self).position_of(id)])
                && old(self).rows_at(old(self).position_of(id)).len() == 0,
            r is Ok ==> forall|i: int|
                0 <= i < old(self).files().len() ==> #[trigger] final(self).rows_at(i) == if old(self).files()[i].id == id {
                    rows@
                } else {
                    old(self).rows_at(i)
                },
    {
        let p = match self.position(id) {
            None => {
                return Err(CatalogError::NotFound);
            },
            Some(p) => p,
        };
        proof {
            self.lemma_position(id, p as int);
        }
        let filesize = self.files[p].filesize;
        let chunk_size = self.files[p].chunk_size;
        if chunk_size == 0 {
            return Err(CatalogError::InvalidRows);
        }
        let q = filesize / chunk_size;
        let expected: u64 = if filesize % chunk_size == 0 {
            q
        } else {
            assert(q < u64::MAX) by (nonlinear_arith)
                requires
                    q == filesize / chunk_size,
                    filesize % chunk_size != 0,
                    chunk_size > 0,
                    filesize <= u64::MAX,
            {
                assert(chunk_size >= 2);
                assert(q * chunk_size <= filesize);
            }
            q + 1
        };
        if rows.len() as u64 != expected {
            return Err(CatalogError::InvalidRows);
        }
        let mut k: usize = 0;
        while k < rows.len()
            invariant
                *self == *old(self),
                self.wf(),
                p < self.files@.len(),
                self.files@[p as int].id == id,
                k <= rows@.len(),
                forall|m: int| 0 <= m < k ==> (#[trigger] rows@[m]).index == m && rows@[m].file_id == id,
            decreases rows@.len() - k,
        {
            if rows[k].index != k || rows[k].file_id != id {
                return Err(CatalogError::InvalidRows);
            }
            k = k + 1;
        }
        proof {
            assert forall|i: int| 0 <= i < self.files@.len() && #[trigger] self.files@[i].id == id implies i == p by {
                if i < p {
                    assert(self.files@[i].id < self.files@[p as int].id);
                } else if i > p {
                    assert(self.files@[p as int].id < self.files@[i].id);
                }
            }
            assert(rows_fit(rows@, self.files@[p as int]));
        }
        if self.rows[p].len() > 0 {
            return Err(CatalogError::AlreadyCatalogued);
        }
        let ghost old_rows = self.rows@;
        self.rows.set(p, rows);
        proof {
            assert forall|i: int| 0 <= i < self.rows@.len() implies rows_of_file(
                (#[trigger] self.rows@[i])@,
                self.files@[i].id,
            ) by {
                if i != p {
                    assert(self.rows@[i] == old_rows[i]);
                }
            }
            assert forall|i: int|
                0 <= i < self.rows@.len() && (#[trigger] self.rows@[i])@.len() > 0 implies rows_fit(
                self.rows@[i]@,
                self.files@[i],
            ) by {
                if i != p {
                    assert(self.rows@[i] == old_rows[i]);
                }
            }
        }
        Ok(())
    }
}

} // verus!
