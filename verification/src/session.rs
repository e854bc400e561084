//! The multipart upload session: collects the per-chunk results that the
//! workers produce, in whatever order they arrive, and turns them into the
//! ordered completion manifest the storage protocol requires — part
//! numbers strictly increasing from 1. A failure reported by any worker
//! aborts the session: no manifest is ever produced from it.

use vstd::prelude::*;
use vstd::set_lib::{lemma_int_range, lemma_len_subset, set_int_range};

use crate::errors::CoreError;

verus! {

/// The result of uploading one chunk: the chunk's index and the entity
/// tag the storage service returned for it.
pub struct PartResult {
    pub index: u16,
    pub etag: String,
}

/// One entry of the completion manifest: a 1-based part number and the
/// entity tag of that part.
pub struct ManifestEntry {
    pub part_number: u16,
    pub etag: String,
}

/// No two collected results claim the same chunk.
pub open spec fn indices_distinct(parts: Seq<PartResult>) -> bool {
    forall|i: int, j: int|
        0 <= i < j < parts.len() ==> parts[i].index != parts[j].index
}

/// Every collected result is for a chunk of this transfer.
pub open spec fn indices_in_range(parts: Seq<PartResult>, count: u16) -> bool {
    forall|i: int| 0 <= i < parts.len() ==> (#[trigger] parts[i]).index < count
}

/// Some collected result is for chunk `j`.
pub open spec fn covers(parts: Seq<PartResult>, j: int) -> bool {
    exists|i: int| 0 <= i < parts.len() && (#[trigger] parts[i]).index == j
}

/// Some collected result pairs chunk `j` with this entity tag.
pub open spec fn has_part(parts: Seq<PartResult>, j: int, etag: Seq<char>) -> bool {
    exists|i: int|
        0 <= i < parts.len() && (#[trigger] parts[i]).index == j && parts[i].etag@ == etag
}

/// Every chunk has a collected result.
pub open spec fn covers_all(parts: Seq<PartResult>, count: u16) -> bool {
    forall|j: int| 0 <= j < count ==> covers(parts, j)
}

/// The state of one multipart transfer: how many chunks it has, the
/// results collected so far, and the first failure reported, if any.
pub struct MultipartSession {
    pub chunk_count: u16,
    pub parts: Vec<PartResult>,
    pub failure: Option<CoreError>,
}

impl MultipartSession {
    /// The session's internal invariant: collected results are for
    /// distinct, in-range chunks.
    pub open spec fn wf(self) -> bool {
        indices_distinct(self.parts@) && indices_in_range(self.parts@, self.chunk_count)
    }

    /// When completion is owed: no worker failed and every chunk's result
    /// arrived.
    pub open spec fn accepts_completion(self) -> bool {
        self.failure is None && covers_all(self.parts@, self.chunk_count)
    }

    /// Opens a session for a transfer of `chunk_count` chunks.
    pub fn new(chunk_count: u16) -> (s: Self)
        ensures
            s.wf(),
            s.chunk_count == chunk_count,
            s.parts@.len() == 0,
            s.failure is None,
    {
        MultipartSession { chunk_count, parts: Vec::new(), failure: None }
    }

    /// Records one worker's result. Accepts it exactly when it is for an
    /// in-range chunk no result has claimed yet; anything else is a
    /// protocol error and leaves the session unchanged.
    pub fn record_part(&mut self, part: PartResult) -> (r: Result<(), CoreError>)
        requires
            old(self).wf(),
        ensures
            final(self).wf(),
            final(self).chunk_count == old(self).chunk_count,
            final(self).failure == old(self).failure,
            r is Ok <==> (part.index < old(self).chunk_count && !covers(
                old(self).parts@,
                part.index as int,
            )),
            r is Ok ==> final(self).parts@ == old(self).parts@.push(part),
            r is Err ==> final(self).parts@ == old(self).parts@ && r->Err_0 is Protocol,
    {
        if part.index >= self.chunk_count {
            return Err(CoreError::Protocol(String::from_str("part index out of range")));
        }
        let mut i: usize = 0;
        let n = self.parts.len();
        while i < n
            invariant
                i <= n,
                *self == *old(self),
                old(self).wf(),
                part.index < old(self).chunk_count,
                n == self.parts@.len(),
                forall|k: int| 0 <= k < i ==> (#[trigger] self.parts@[k]).index != part.index,
            decreases n - i,
        {
            if self.parts[i].index == part.index {
                return Err(CoreError::Protocol(String::from_str("duplicate part index")));
            }
            i = i + 1;
        }
        self.parts.push(part);
        Ok(())
    }

    /// Records a worker's failure. The first failure is kept; it is fatal
    /// to the whole transfer.
    pub fn record_failure(&mut self, error: CoreError)
        ensures
            final(self).failure is Some,
            old(self).failure is Some ==> final(self).failure == old(self).failure,
            old(self).failure is None ==> final(self).failure == Some(error),
            final(self).parts == old(self).parts,
            final(self).chunk_count == old(self).chunk_count,
    {
        if self.failure.is_none() {
            self.failure = Some(error);
        }
    }

    /// Closes the session. Yields the completion manifest — part numbers
    /// strictly increasing from 1, each entry carrying the entity tag of
    /// its chunk — exactly when no failure was recorded and every chunk's
    /// result arrived; otherwise the transfer aborts with the failure, or
    /// with a protocol error for the first missing chunk.
    pub fn finish(self) -> (r: Result<Vec<ManifestEntry>, CoreError>)
        requires
            self.wf(),
        ensures
            r is Ok <==> self.accepts_completion(),
            r is Ok ==> {
                let m = r->Ok_0@;
                &&& m.len() == self.chunk_count
                &&& forall|j: int|
                    0 <= j < m.len() ==> (#[trigger] m[j]).part_number == j + 1 && has_part(
                        self.parts@,
                        j,
                        m[j].etag@,
                    )
            },
            self.failure is Some ==> r == Result::<Vec<ManifestEntry>, CoreError>::Err(
                self.failure->0,
            ),
            self.failure is None && r is Err ==> r->Err_0 is Protocol,
    {
        let MultipartSession { chunk_count, parts, failure } = self;
        match failure {
            Some(e) => {
                return Err(e);
            },
            None => {},
        }
        let mut m: Vec<ManifestEntry> = Vec::new();
        let mut j: u16 = 0;
        while j < chunk_count
            invariant
                j <= chunk_count,
                self.failure is None,
                self.chunk_count == chunk_count,
                self.parts@ == parts@,
                m@.len() == j,
                forall|k: int|
                    0 <= k < j ==> (#[trigger] m@[k]).part_number == k + 1 && has_part(
                        parts@,
                        k,
                        m@[k].etag@,
                    ),
            decreases chunk_count - j,
        {
            let mut i: usize = 0;
            let n = parts.len();
            let mut found: bool = false;
            while i < n
                invariant_except_break
                    !found,
                invariant
                    i <= n,
                    n == parts@.len(),
                    forall|k: int| 0 <= k < i ==> (#[trigger] parts@[k]).index != j,
                ensures
                    i <= n,
                    n == parts@.len(),
                    found ==> i < n && parts@[i as int].index == j,
                    !found ==> forall|k: int| 0 <= k < n ==> (#[trigger] parts@[k]).index != j,
                decreases n - i,
            {
                if parts[i].index == j {
                    found = true;
                    break;
                }
                i = i + 1;
            }
            if !found {
                proof {
                    assert(!covers(parts@, j as int));
                }
                return Err(CoreError::Protocol(String::from_str("missing part result")));
            }
            let etag = parts[i].etag.clone();
            proof {
                assert(parts@[i as int].etag@ == etag@);
            }
            m.push(ManifestEntry { part_number: j + 1, etag });
            j = j + 1;
        }
        proof {
            assert forall|k: int| 0 <= k < chunk_count implies covers(parts@, k) by {
                assert(has_part(parts@, k, m@[k].etag@));
            }
        }
        Ok(m)
    }
}

/// The 1-based part number a chunk is uploaded under: the storage
/// protocol numbers parts from 1, while chunks are indexed from 0.
pub fn part_number(index: u16) -> (r: u16)
    requires
        index < 0xFFFF,
    ensures
        r == index + 1,
{
    index + 1
}

/// The completion manifest's part numbers are strictly increasing and
/// start at 1, regardless of the order in which the results arrived.
pub proof fn lemma_manifest_part_numbers(m: Seq<ManifestEntry>)
    requires
        forall|j: int| 0 <= j < m.len() ==> (#[trigger] m[j]).part_number == j + 1,
    ensures
        m.len() > 0 ==> m[0].part_number == 1,
        forall|i: int, j: int|
            0 <= i < j < m.len() ==> m[i].part_number < m[j].part_number,
{
}

/// As many distinct, in-range results as there are chunks leave no chunk
/// without one: collecting one result per chunk is enough for completion.
pub proof fn lemma_full_session_covers(parts: Seq<PartResult>, count: u16)
    requires
        indices_distinct(parts),
        indices_in_range(parts, count),
        parts.len() == count,
    ensures
        covers_all(parts, count),
{
    broadcast use vstd::set::group_set_axioms;
    broadcast use vstd::seq_lib::seq_to_set_is_finite;

    let idxs: Seq<int> = parts.map_values(|p: PartResult| p.index as int);
    assert(idxs.no_duplicates()) by {
        assert forall|i: int, j: int|
            0 <= i < idxs.len() && 0 <= j < idxs.len() && i != j implies idxs[i] != idxs[j] by {
            if i < j {
                assert(parts[i].index != parts[j].index);
            } else {
                assert(parts[j].index != parts[i].index);
            }
        }
    }
    idxs.unique_seq_to_set();
    assert forall|j: int| 0 <= j < count implies covers(parts, j) by {
        if !covers(parts, j) {
            // then the index set fits inside the range with j removed,
            // which holds one element too few
            let r = set_int_range(0, count as int).remove(j);
            assert(idxs.to_set().subset_of(r)) by {
                assert forall|x: int| idxs.to_set().contains(x) implies r.contains(x) by {
                    let i = choose|i: int| 0 <= i < idxs.len() && idxs[i] == x;
                    assert(parts[i].index < count);
                    assert(parts[i].index != j);
                }
            }
            lemma_int_range(0, count as int);
            assert(set_int_range(0, count as int).contains(j));
            assert(r.len() == count - 1);
            lemma_len_subset(idxs.to_set(), r);
            assert(false);
        }
    }
}

/// A session that holds no failure and one result for every chunk accepts
/// completion: success is owed once the count of collected results
/// reaches the chunk count.
pub proof fn lemma_full_session_completes(s: MultipartSession)
    requires
        s.wf(),
        s.failure is None,
        s.parts@.len() == s.chunk_count,
    ensures
        s.accepts_completion(),
{
    lemma_full_session_covers(s.parts@, s.chunk_count);
}

/// A transfer in which any worker reported a failure never yields a
/// completion manifest.
pub proof fn lemma_failure_aborts(s: MultipartSession)
    requires
        s.failure is Some,
    ensures
        !s.accepts_completion(),
{
}

} // verus!
