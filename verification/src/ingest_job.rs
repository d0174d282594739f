//! The ingest pipeline's decisions: what each file still needs, and what a card's files
//! add up to. The worker threads that copy, hash and decode are the caller's.
use vstd::prelude::*;
use crate::manifest::{Freshness, Manifest};
use crate::scan::IngestFile;
use crate::text::{chars_of, extend_str, string_of};

verus! {

/// Copy workers: both stages share one network link, so more buys nothing.
pub const COPY_WORKERS: usize = 4;

/// Verify workers; each holds a whole file in memory while it decodes.
pub const VERIFY_WORKERS: usize = 4;

/// How far the copy stage may run ahead of the verify stage.
pub const VERIFY_QUEUE_DEPTH: usize = COPY_WORKERS;

pub const COPY_ATTEMPTS: usize = 3;
pub const VERIFY_ATTEMPTS: usize = 2;

/// The most files that can look busy on the grid at once: one per worker plus the hand-off
/// queue between the stages.
pub fn most_busy() -> (r: usize)
    ensures
        r == COPY_WORKERS + VERIFY_QUEUE_DEPTH + VERIFY_WORKERS,
        r <= 16,
{
    COPY_WORKERS + VERIFY_QUEUE_DEPTH + VERIFY_WORKERS
}

/// What the grid draws for one file.
#[derive(Debug, Clone, Copy, PartialEq, Eq, Structural)]
pub enum FileState {
    Pending,
    /// A `.partial` from a run that was killed rather than cancelled.
    Incomplete,
    Copying,
    /// Being read back, hash-checked and decoded.
    Verifying,
    Done,
    Failed,
}

impl FileState {
    pub open spec fn busy(self) -> bool {
        self == FileState::Copying || self == FileState::Verifying
    }

    pub open spec fn settled(self) -> bool {
        self == FileState::Done || self == FileState::Failed
    }

    pub fn is_busy(self) -> (r: bool)
        ensures
            r == self.busy(),
    {
        match self {
            FileState::Copying | FileState::Verifying => true,
            _ => false,
        }
    }

    /// Whether this file has no work outstanding.
    pub fn is_settled(self) -> (r: bool)
        ensures
            r == self.settled(),
    {
        match self {
            FileState::Done | FileState::Failed => true,
            _ => false,
        }
    }
}

/// What `prepare` decided for one file.
#[derive(Debug, Clone, PartialEq, Eq)]
pub enum Plan {
    AlreadyDone,
    /// Timestamps shifted but sizes match; confirm with a hash of the source.
    Recheck(String),
    /// A `.partial` is lying around from an interrupted run.
    Incomplete,
    Copy,
}

impl Plan {
    pub fn initial_state(&self) -> (r: FileState)
        ensures
            r == match self {
                Plan::AlreadyDone => FileState::Done,
                Plan::Incomplete => FileState::Incomplete,
                Plan::Recheck(_) => FileState::Pending,
                Plan::Copy => FileState::Pending,
            },
    {
        match self {
            Plan::AlreadyDone => FileState::Done,
            Plan::Incomplete => FileState::Incomplete,
            Plan::Recheck(_) | Plan::Copy => FileState::Pending,
        }
    }
}

/// The plan for one file, given what the manifest says about it, the hash it recorded (if
/// any), and whether a `.partial` of it exists at the destination.
pub fn plan_for(freshness: Freshness, recorded_hash: Option<&String>, partial_exists: bool) -> (r: Plan)
    ensures
        freshness == Freshness::Current ==> r == Plan::AlreadyDone,
        freshness == Freshness::Recheck ==> (r matches Plan::Recheck(h) && h@ == match recorded_hash {
            Some(x) => x@,
            None => Seq::<char>::empty(),
        }),
        freshness == Freshness::Stale ==> r == (if partial_exists {
            Plan::Incomplete
        } else {
            Plan::Copy
        }),
{
    match freshness {
        Freshness::Current => Plan::AlreadyDone,
        Freshness::Recheck => Plan::Recheck(
            match recorded_hash {
                Some(h) => h.clone(),
                None => String::new(),
            },
        ),
        Freshness::Stale => {
            if partial_exists {
                Plan::Incomplete
            } else {
                Plan::Copy
            }
        },
    }
}

/// Decide the plan for one scanned file from the manifest, the destination's `(size, mtime)`
/// if it exists, and whether a `.partial` of it exists.
pub fn prepare_file(
    manifest: &Manifest,
    file: &IngestFile,
    dst: Option<(u64, i64)>,
    partial_exists: bool,
) -> (r: Plan)
    requires
        manifest.wf(),
    ensures
        ({
            let f = crate::manifest::freshness_spec(
                manifest.map(),
                crate::manifest::key_spec(file.rel_path@),
                file.size,
                file.mtime,
                dst,
            );
            &&& f == Freshness::Current ==> r == Plan::AlreadyDone
            &&& f == Freshness::Recheck ==> (r matches Plan::Recheck(h) && h@ == manifest.map()[crate::manifest::key_spec(file.rel_path@)].blake3@)
            &&& f == Freshness::Stale ==> r == (if partial_exists {
                Plan::Incomplete
            } else {
                Plan::Copy
            })
        }),
{
    let freshness = manifest.freshness(file, dst);
    let recorded = match manifest.get(file.rel_path.as_str()) {
        Some(entry) => Some(&entry.blake3),
        None => None,
    };
    plan_for(freshness, recorded, partial_exists)
}

/// `dst` with `.partial` appended: where a copy is written before it is renamed into place.
pub fn partial_path(dst: &str) -> (r: String)
    ensures
        r@ == dst@ + ".partial"@,
{
    let mut v = chars_of(dst);
    extend_str(&mut v, ".partial");
    string_of(&v)
}

// ---------------------------------------------------------------------------------------
// A card's files, taken together
// ---------------------------------------------------------------------------------------

/// How many of `states` equal `state`.
pub open spec fn count_spec(states: Seq<FileState>, state: FileState) -> nat
    decreases states.len(),
{
    if states.len() == 0 {
        0
    } else {
        count_spec(states.drop_last(), state) + if states.last() == state {
            1nat
        } else {
            0nat
        }
    }
}

pub fn count_of(states: &[FileState], state: FileState) -> (r: usize)
    ensures
        r == count_spec(states@, state),
{
    let mut n: usize = 0;
    let mut i: usize = 0;
    while i < states.len()
        invariant
            i <= states.len(),
            n == count_spec(states@.take(i as int), state),
            n <= i,
        decreases states.len() - i,
    {
        assert(states@.take(i + 1).drop_last() =~= states@.take(i as int));
        if states[i] == state {
            n += 1;
        }
        i += 1;
    }
    assert(states@.take(states.len() as int) =~= states@);
    n
}

/// Whether every file has reached a terminal state; never true of a card with no files.
pub fn all_settled(states: &[FileState]) -> (r: bool)
    ensures
        r == (states@.len() > 0 && forall|i: int| 0 <= i < states@.len() ==> states@[i].settled()),
{
    if states.len() == 0 {
        return false;
    }
    let mut i: usize = 0;
    while i < states.len()
        invariant
            i <= states.len(),
            forall|k: int| 0 <= k < i ==> states@[k].settled(),
        decreases states.len() - i,
    {
        if !states[i].is_settled() {
            return false;
        }
        i += 1;
    }
    true
}

/// Whether every file is done: the card can be ejected.
pub fn all_done(states: &[FileState]) -> (r: bool)
    ensures
        r == (states@.len() > 0 && forall|i: int| 0 <= i < states@.len() ==> states@[i] == FileState::Done),
{
    if states.len() == 0 {
        return false;
    }
    let mut i: usize = 0;
    while i < states.len()
        invariant
            i <= states.len(),
            forall|k: int| 0 <= k < i ==> states@[k] == FileState::Done,
        decreases states.len() - i,
    {
        if states[i] != FileState::Done {
            return false;
        }
        i += 1;
    }
    true
}

/// Total size of the files that are not yet done; file `i`'s state is `states[i]`.
pub open spec fn outstanding_spec(files: Seq<IngestFile>, states: Seq<FileState>) -> nat
    decreases files.len(),
{
    if files.len() == 0 {
        0
    } else {
        outstanding_spec(files.drop_last(), states) + if states[files.len() - 1] != FileState::Done {
            files.last().size as nat
        } else {
            0nat
        }
    }
}

/// Bytes still to copy: the sizes of files whose state is not `Done`, pairing files and
/// states by position.
pub fn bytes_outstanding(files: &[IngestFile], states: &[FileState]) -> (r: u64)
    requires
        files@.len() == states@.len(),
        outstanding_spec(files@, states@) <= u64::MAX,
    ensures
        r == outstanding_spec(files@, states@),
{
    let mut total: u64 = 0;
    let mut i: usize = 0;
    while i < files.len()
        invariant
            files@.len() == states@.len(),
            i <= files.len(),
            outstanding_spec(files@, states@) <= u64::MAX,
            total == outstanding_spec(files@.take(i as int), states@),
        decreases files.len() - i,
    {
        assert(files@.take(i + 1).drop_last() =~= files@.take(i as int));
        proof {
            lemma_outstanding_prefix(files@, states@, i + 1);
        }
        if states[i] != FileState::Done {
            total = total + files[i].size;
        }
        i += 1;
    }
    assert(files@.take(files.len() as int) =~= files@);
    total
}

proof fn lemma_outstanding_prefix(files: Seq<IngestFile>, states: Seq<FileState>, i: int)
    requires
        0 <= i <= files.len(),
    ensures
        outstanding_spec(files.take(i), states) <= outstanding_spec(files, states),
    decreases files.len() - i,
{
    if i < files.len() {
        lemma_outstanding_prefix(files, states, i + 1);
        assert(files.take(i + 1).drop_last() =~= files.take(i));
    } else {
        assert(files.take(i) =~= files);
    }
}

/// A card whose every file is done is also settled: completion never precedes settling.
pub proof fn law_complete_implies_settled(states: Seq<FileState>)
    ensures
        (states.len() > 0 && forall|i: int| 0 <= i < states.len() ==> states[i] == FileState::Done)
            ==> (states.len() > 0 && forall|i: int| 0 <= i < states.len() ==> states[i].settled()),
{
}

} // verus!
