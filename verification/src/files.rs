//! The file descriptors that the renderer consumes: an identifier, a
//! compaction level, a closed time interval and a byte size, plus the
//! size-uniformity tracker folded over a whole set of files.

use vstd::prelude::*;

verus! {

/// Storage tier of a file, totally ordered `Initial < NonOverlapped < Final`
/// and displayed as `L0` / `L1` / `L2`.
#[derive(Clone, Copy, Debug, PartialEq, Eq, Structural)]
pub enum CompactionLevel {
    Initial,
    NonOverlapped,
    Final,
}

/// One file-metadata record, consumed read-only by the renderer.
///
/// A record is well formed when `min_time <= max_time` and
/// `file_size_bytes >= 0`; the renderer rejects anything else.
#[derive(Clone, Copy, Debug, PartialEq, Eq, Structural)]
pub struct ParquetFile {
    pub id: i64,
    pub compaction_level: CompactionLevel,
    pub min_time: i64,
    pub max_time: i64,
    pub file_size_bytes: i64,
}

/// Reported when a record breaks the `ParquetFile` invariants; it names the
/// offending file.
#[derive(Clone, Copy, Debug, PartialEq, Eq, Structural)]
pub struct ValidationError {
    pub file_id: i64,
}

/// The invariants a record must satisfy before it can be rendered.
pub open spec fn file_wf(f: ParquetFile) -> bool {
    f.min_time <= f.max_time && f.file_size_bytes >= 0
}

/// Every record of the sequence is well formed.
pub open spec fn files_wf(files: Seq<ParquetFile>) -> bool {
    forall|i: int| 0 <= i < files.len() ==> file_wf(files[i])
}

/// Index of the first record that is not well formed, or `-1` when all are.
pub open spec fn first_invalid(files: Seq<ParquetFile>) -> int
    decreases files.len(),
{
    if files.len() == 0 {
        -1
    } else if !file_wf(files[0]) {
        0
    } else {
        let rest = first_invalid(files.drop_first());
        if rest < 0 {
            -1
        } else {
            rest + 1
        }
    }
}

/// `first_invalid` is `-1` exactly on well-formed sequences; otherwise it
/// points at the first offending record.
pub proof fn lemma_first_invalid_characterizes(files: Seq<ParquetFile>)
    ensures
        first_invalid(files) == -1 <==> files_wf(files),
        first_invalid(files) >= 0 ==> 0 <= first_invalid(files) < files.len()
            && !file_wf(files[first_invalid(files)])
            && (forall|j: int| 0 <= j < first_invalid(files) ==> file_wf(files[j])),
    decreases files.len(),
{
    if files.len() > 0 && file_wf(files[0]) {
        lemma_first_invalid_characterizes(files.drop_first());
        let rest = first_invalid(files.drop_first());
        if rest >= 0 {
            assert(files.drop_first()[rest] == files[rest + 1]);
            assert forall|j: int| 0 <= j < rest + 1 implies file_wf(files[j]) by {
                if j > 0 {
                    assert(files.drop_first()[j - 1] == files[j]);
                }
            }
        } else {
            assert forall|i: int| 0 <= i < files.len() implies file_wf(files[i]) by {
                if i > 0 {
                    assert(files.drop_first()[i - 1] == files[i]);
                }
            }
        }
    }
}

/// The first record that fails the scan is the one `first_invalid` names.
pub proof fn lemma_first_invalid_at(files: Seq<ParquetFile>, i: int)
    requires
        0 <= i < files.len(),
        !file_wf(files[i]),
        forall|j: int| 0 <= j < i ==> file_wf(files[j]),
    ensures
        first_invalid(files) == i,
    decreases files.len(),
{
    if i > 0 {
        assert forall|j: int| 0 <= j < i - 1 implies file_wf(files.drop_first()[j]) by {
            assert(files.drop_first()[j] == files[j + 1]);
        }
        assert(files.drop_first()[i - 1] == files[i]);
        lemma_first_invalid_at(files.drop_first(), i - 1);
    }
}

/// Tracks whether a set of files carries no size yet, exactly one distinct
/// size, or several distinct sizes. Once `Mixed`, it stays `Mixed`.
#[derive(Clone, Copy, Debug, PartialEq, Eq, Structural)]
pub enum FileSizeSeen {
    Unseen,
    Uniform(i64),
    Mixed,
}

impl FileSizeSeen {
    /// One step of the size-uniformity fold.
    pub open spec fn observe_spec(self, file_size_bytes: i64) -> FileSizeSeen {
        match self {
            FileSizeSeen::Unseen => FileSizeSeen::Uniform(file_size_bytes),
            FileSizeSeen::Uniform(sz) => if sz == file_size_bytes {
                FileSizeSeen::Uniform(sz)
            } else {
                FileSizeSeen::Mixed
            },
            FileSizeSeen::Mixed => FileSizeSeen::Mixed,
        }
    }

    /// Folds one more file size into the tracker.
    pub fn observe(self, file_size_bytes: i64) -> (r: FileSizeSeen)
        ensures
            r == self.observe_spec(file_size_bytes),
    {
        match self {
            FileSizeSeen::Unseen => FileSizeSeen::Uniform(file_size_bytes),
            FileSizeSeen::Uniform(sz) => if sz == file_size_bytes {
                FileSizeSeen::Uniform(sz)
            } else {
                FileSizeSeen::Mixed
            },
            FileSizeSeen::Mixed => FileSizeSeen::Mixed,
        }
    }
}

} // verus!
