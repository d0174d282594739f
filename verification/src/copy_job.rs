//! A copy job's bookkeeping: which files of a plan it copies, how many workers share them,
//! what a finished copy must match before it counts, and what the workers tell the UI. The
//! reading, writing and threads are the caller's; each worker reports here what happened
//! and is told what to send and whether to go on.
use vstd::prelude::*;
use crate::copy_plan::{copies, copy_worker_count, Action, PlannedFile};
use crate::text::{dec, dec_i64, dec_u64, extend, extend_str, owned, sdec, str_eq, string_of};

verus! {

/// Why copying one file did not finish.
pub enum CopyError {
    Cancelled,
    /// The bytes written did not hash the same as the bytes read; names the destination.
    HashMismatch { path: String },
    Other(String),
}

pub open spec fn copy_error_text(e: CopyError) -> Seq<char> {
    match e {
        CopyError::Cancelled => "cancelled"@,
        CopyError::HashMismatch { path } => "hash mismatch after copy ("@ + path@ + ")"@,
        CopyError::Other(m) => m@,
    }
}

impl CopyError {
    /// The sentence the error reads as.
    pub fn message(&self) -> (r: String)
        ensures
            r@ == copy_error_text(*self),
    {
        match self {
            CopyError::Cancelled => owned("cancelled"),
            CopyError::HashMismatch { path } => {
                let mut out: Vec<char> = Vec::new();
                extend_str(&mut out, "hash mismatch after copy (");
                extend_str(&mut out, path.as_str());
                extend_str(&mut out, ")");
                string_of(&out)
            },
            CopyError::Other(m) => owned(m.as_str()),
        }
    }
}

/// Why a copied file does not match its source.
pub enum VerifyError {
    SizeMismatch { src_size: u64, dst_size: u64 },
    MtimeMismatch { src_mtime: i64, dst_mtime: i64 },
    HashMismatch,
    Other(String),
}

pub open spec fn verify_error_text(e: VerifyError) -> Seq<char> {
    match e {
        VerifyError::SizeMismatch { src_size, dst_size } =>
            "size mismatch after copy: source is "@ + dec(src_size as nat) + " bytes, destination is "@
                + dec(dst_size as nat) + " bytes"@,
        VerifyError::MtimeMismatch { src_mtime, dst_mtime } =>
            "mtime mismatch after copy: source is "@ + sdec(src_mtime as int) + ", destination is "@
                + sdec(dst_mtime as int),
        VerifyError::HashMismatch => "hash mismatch after copy"@,
        VerifyError::Other(m) => m@,
    }
}

impl VerifyError {
    /// The sentence the error reads as.
    pub fn message(&self) -> (r: String)
        ensures
            r@ == verify_error_text(*self),
    {
        match self {
            VerifyError::SizeMismatch { src_size, dst_size } => {
                let mut out: Vec<char> = Vec::new();
                extend_str(&mut out, "size mismatch after copy: source is ");
                extend(&mut out, &dec_u64(*src_size));
                extend_str(&mut out, " bytes, destination is ");
                extend(&mut out, &dec_u64(*dst_size));
                extend_str(&mut out, " bytes");
                string_of(&out)
            },
            VerifyError::MtimeMismatch { src_mtime, dst_mtime } => {
                let mut out: Vec<char> = Vec::new();
                extend_str(&mut out, "mtime mismatch after copy: source is ");
                extend(&mut out, &dec_i64(*src_mtime));
                extend_str(&mut out, ", destination is ");
                extend(&mut out, &dec_i64(*dst_mtime));
                string_of(&out)
            },
            VerifyError::HashMismatch => owned("hash mismatch after copy"),
            VerifyError::Other(m) => owned(m.as_str()),
        }
    }
}

/// The first checks on a copied file, before anything is hashed: the sizes must agree and
/// the modification times may differ by at most two seconds.
pub fn verify_stats(src_size: u64, dst_size: u64, src_mtime: i64, dst_mtime: i64) -> (r: Result<(), VerifyError>)
    requires
        i64::MIN < src_mtime - dst_mtime <= i64::MAX,
    ensures
        src_size != dst_size ==> r == Err::<(), VerifyError>(VerifyError::SizeMismatch { src_size, dst_size }),
        src_size == dst_size && (src_mtime - dst_mtime > 2 || dst_mtime - src_mtime > 2)
            ==> r == Err::<(), VerifyError>(VerifyError::MtimeMismatch { src_mtime, dst_mtime }),
        src_size == dst_size && -2 <= src_mtime - dst_mtime <= 2 ==> r is Ok,
{
    if src_size != dst_size {
        return Err(VerifyError::SizeMismatch { src_size, dst_size });
    }
    let delta = src_mtime - dst_mtime;
    let magnitude = if delta < 0 { -delta } else { delta };
    if magnitude > 2 {
        return Err(VerifyError::MtimeMismatch { src_mtime, dst_mtime });
    }
    Ok(())
}

/// The last check on a copied file: source and destination hash alike.
pub fn verify_hashes(src_hash: &str, dst_hash: &str) -> (r: Result<(), VerifyError>)
    ensures
        src_hash@ == dst_hash@ <==> r is Ok,
        src_hash@ != dst_hash@ ==> r == Err::<(), VerifyError>(VerifyError::HashMismatch),
{
    if str_eq(src_hash, dst_hash) {
        Ok(())
    } else {
        Err(VerifyError::HashMismatch)
    }
}

/// Whether a freshly written `.partial` may replace `dst`: only when it hashes the same as
/// the source did while it was read.
pub fn check_written_hash(dst: &str, src_hash: &str, written_hash: &str) -> (r: Result<(), CopyError>)
    ensures
        src_hash@ == written_hash@ <==> r is Ok,
        src_hash@ != written_hash@ ==> (r matches Err(CopyError::HashMismatch { path }) && path@ == dst@),
{
    if str_eq(src_hash, written_hash) {
        Ok(())
    } else {
        Err(CopyError::HashMismatch { path: owned(dst) })
    }
}

/// Positions, in order, of the planned files a job copies: the new ones and the
/// overwrites.
pub open spec fn copyable_spec(files: Seq<PlannedFile>, n: int) -> Seq<usize>
    decreases n,
{
    if n <= 0 {
        Seq::empty()
    } else if copies(files[n - 1].action) {
        copyable_spec(files, n - 1).push((n - 1) as usize)
    } else {
        copyable_spec(files, n - 1)
    }
}

pub fn copyable_indices(files: &[PlannedFile]) -> (r: Vec<usize>)
    ensures
        r@ == copyable_spec(files@, files@.len() as int),
{
    let mut out: Vec<usize> = Vec::new();
    let mut i: usize = 0;
    while i < files.len()
        invariant
            i <= files.len(),
            out@ == copyable_spec(files@, i as int),
        decreases files.len() - i,
    {
        match files[i].action {
            Action::New | Action::Overwrite => out.push(i),
            _ => {},
        }
        i += 1;
    }
    out
}

/// Workers for a job of `files` copies: the number asked for, or one per file up to four;
/// never fewer than one nor more than the files (one for an empty job).
pub fn job_worker_count(requested: Option<usize>, files: usize) -> (r: usize)
    ensures
        ({
            let wanted: int = match requested {
                Some(n) => n as int,
                None => if files < 1 { 1 } else if files > 4 { 4 } else { files as int },
            };
            let cap: int = if files < 1 { 1 } else { files as int };
            r == if wanted < 1 { 1 } else if wanted > cap { cap } else { wanted }
        }),
{
    let wanted = match requested {
        Some(n) => n,
        None => copy_worker_count(files),
    };
    let cap = if files < 1 { 1 } else { files };
    if wanted < 1 {
        1
    } else if wanted > cap {
        cap
    } else {
        wanted
    }
}

// ---------------------------------------------------------------------------------------
// What the workers tell the UI
// ---------------------------------------------------------------------------------------

/// Updates the UI receives while a job runs.
pub enum JobMsg {
    FileDone { rel_path: String },
    FileFailed { rel_path: String, error: String },
    Finished,
    Cancelled,
}

impl JobMsg {
    pub open spec fn ends_job(self) -> bool {
        !(self is FileDone)
    }
}

/// The flags a job's workers share: whether the job has been told to stop, and whether its
/// one closing message has gone out.
#[derive(Debug, Clone, Copy, PartialEq, Eq, Structural)]
pub struct JobFlags {
    pub cancel: bool,
    pub terminal_sent: bool,
}

impl JobFlags {
    pub fn new() -> (r: JobFlags)
        ensures
            !r.cancel,
            !r.terminal_sent,
    {
        JobFlags { cancel: false, terminal_sent: false }
    }
}

/// Claim the closing message: true for exactly the first caller.
fn claim_terminal(flags: &mut JobFlags) -> (r: bool)
    ensures
        r == !old(flags).terminal_sent,
        final(flags).terminal_sent,
        final(flags).cancel == old(flags).cancel,
{
    if flags.terminal_sent {
        false
    } else {
        flags.terminal_sent = true;
        true
    }
}

/// A worker that finds the job cancelled before taking a file stops, and the first one to
/// do so reports the cancellation.
pub fn on_cancel_seen(flags: &mut JobFlags) -> (r: Option<JobMsg>)
    ensures
        final(flags).terminal_sent,
        final(flags).cancel == old(flags).cancel,
        old(flags).terminal_sent ==> r is None,
        !old(flags).terminal_sent ==> r == Some(JobMsg::Cancelled),
{
    if claim_terminal(flags) {
        Some(JobMsg::Cancelled)
    } else {
        None
    }
}

/// What a worker does once one file's copy has ended: the message to send, if any, and
/// whether to take another file. A copied file is reported and the worker goes on; a
/// cancelled copy ends the job as cancelled; any other failure stops every worker and is
/// reported with the file it happened on. Only the first ending is reported.
pub fn after_copy(flags: &mut JobFlags, rel_path: &str, outcome: &Result<(), CopyError>) -> (r: (Option<JobMsg>, bool))
    ensures
        match *outcome {
            Ok(()) => {
                &&& *final(flags) == *old(flags)
                &&& r.1
                &&& r.0 matches Some(JobMsg::FileDone { rel_path: p }) && p@ == rel_path@
            },
            Err(CopyError::Cancelled) => {
                &&& final(flags).terminal_sent
                &&& final(flags).cancel == old(flags).cancel
                &&& !r.1
                &&& old(flags).terminal_sent ==> r.0 is None
                &&& !old(flags).terminal_sent ==> r.0 == Some(JobMsg::Cancelled)
            },
            Err(e) => {
                &&& final(flags).terminal_sent
                &&& final(flags).cancel
                &&& !r.1
                &&& old(flags).terminal_sent ==> r.0 is None
                &&& !old(flags).terminal_sent ==> (r.0 matches Some(JobMsg::FileFailed { rel_path: p, error })
                    && p@ == rel_path@ && error@ == copy_error_text(e))
            },
        },
{
    match outcome {
        Ok(()) => (Some(JobMsg::FileDone { rel_path: owned(rel_path) }), true),
        Err(CopyError::Cancelled) => {
            if claim_terminal(flags) {
                (Some(JobMsg::Cancelled), false)
            } else {
                (None, false)
            }
        },
        Err(e) => {
            flags.cancel = true;
            if claim_terminal(flags) {
                (Some(JobMsg::FileFailed { rel_path: owned(rel_path), error: e.message() }), false)
            } else {
                (None, false)
            }
        },
    }
}

/// Once every worker has stopped: the job finished unless it was cancelled or has already
/// ended.
pub fn on_all_joined(flags: &JobFlags) -> (r: Option<JobMsg>)
    ensures
        !flags.terminal_sent && !flags.cancel <==> r is Some,
        r is Some ==> r == Some(JobMsg::Finished),
{
    if !flags.terminal_sent && !flags.cancel {
        Some(JobMsg::Finished)
    } else {
        None
    }
}

// ---------------------------------------------------------------------------------------
// One ending per job
// ---------------------------------------------------------------------------------------

/// What a worker can run into: the job cancelled under it, or the end of one copy, which
/// either succeeded, was cancelled, or failed otherwise.
#[derive(Debug, Clone, Copy, PartialEq, Eq, Structural)]
pub enum WorkerEvent {
    CancelSeen,
    CopyOk,
    CopyCancelled,
    CopyFailed,
}

/// The flags after an event, and whether a closing message went out for it, as the
/// functions above decide.
pub open spec fn step(f: JobFlags, e: WorkerEvent) -> (JobFlags, bool) {
    match e {
        WorkerEvent::CopyOk => (f, false),
        WorkerEvent::CopyFailed => (JobFlags { cancel: true, terminal_sent: true }, !f.terminal_sent),
        _ => (JobFlags { cancel: f.cancel, terminal_sent: true }, !f.terminal_sent),
    }
}

/// Closing messages sent over a run of events, counting the final `Finished` check.
pub open spec fn closings(f: JobFlags, events: Seq<WorkerEvent>) -> nat
    decreases events.len(),
{
    if events.len() == 0 {
        if !f.terminal_sent && !f.cancel { 1 } else { 0 }
    } else {
        let (g, sent) = step(f, events[0]);
        (if sent { 1nat } else { 0nat }) + closings(g, events.drop_first())
    }
}

/// However the workers' events interleave, a job that starts with nothing sent ends with
/// exactly one closing message: `Cancelled`, `FileFailed` or `Finished`, never two.
pub proof fn law_one_closing_message(events: Seq<WorkerEvent>)
    ensures
        closings(JobFlags { cancel: false, terminal_sent: false }, events) == 1,
    decreases events.len(),
{
    lemma_closings(JobFlags { cancel: false, terminal_sent: false }, events);
}

proof fn lemma_closings(f: JobFlags, events: Seq<WorkerEvent>)
    ensures
        f.terminal_sent ==> closings(f, events) == 0,
        !f.terminal_sent && !f.cancel ==> closings(f, events) == 1,
    decreases events.len(),
{
    if events.len() > 0 {
        let (g, _) = step(f, events[0]);
        lemma_closings(g, events.drop_first());
    }
}

} // verus!
