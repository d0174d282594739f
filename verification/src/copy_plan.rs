//! Planning a copy between two folder trees: which files to copy, which to leave, and
//! which would overwrite something newer. Walking the trees and reading timestamps is the
//! caller's; every decision made about what it found is here.
use vstd::prelude::*;
use crate::text::{chars_of, has_suffix, string_of, str_eq};
use crate::ingest::{extension, file_name, extension_vec, file_name_vec, path_join, path_join_str};

verus! {

/// Largest timestamp difference, in seconds, still treated as "the same time".
pub const MTIME_TOLERANCE_SECS: i64 = 2;

/// How copying a file compares against what is already at the destination.
#[derive(Debug, Clone, Copy, PartialEq, Eq, Structural)]
pub enum Action {
    New,
    Overwrite,
    Conflict { dest_newer: bool },
    Identical,
}

/// The action `classify` decides, stated over integers.
pub open spec fn classify_spec(src_size: u64, src_mtime: i64, dst: Option<(u64, i64)>) -> Action {
    match dst {
        None => Action::New,
        Some((dsz, dmt)) => {
            let delta = src_mtime - dmt;
            if dsz == src_size && -2 <= delta <= 2 {
                Action::Identical
            } else if delta < -2 {
                Action::Conflict { dest_newer: true }
            } else {
                Action::Overwrite
            }
        }
    }
}

/// Compare a source file against its destination by size and modification time.
pub fn classify(src_size: u64, src_mtime: i64, dst_size: Option<u64>, dst_mtime: Option<i64>) -> (r: Action)
    requires
        // the difference of two timestamps must be representable
        dst_mtime matches Some(d) ==> i64::MIN <= src_mtime - d <= i64::MAX,
    ensures
        r == classify_spec(
            src_size,
            src_mtime,
            match (dst_size, dst_mtime) {
                (Some(s), Some(t)) => Some((s, t)),
                _ => None,
            },
        ),
{
    let (dsz, dmt) = match (dst_size, dst_mtime) {
        (Some(s), Some(t)) => (s, t),
        _ => return Action::New,
    };
    let delta = src_mtime - dmt;
    if dsz == src_size && -MTIME_TOLERANCE_SECS <= delta && delta <= MTIME_TOLERANCE_SECS {
        return Action::Identical;
    }
    if delta > MTIME_TOLERANCE_SECS {
        Action::Overwrite
    } else if delta < -MTIME_TOLERANCE_SECS {
        Action::Conflict { dest_newer: true }
    } else {
        Action::Overwrite
    }
}


/// Which way a copy goes.
#[derive(Debug, Clone, Copy, PartialEq, Eq, Hash, Structural)]
pub enum Direction {
    Pull,
    Push,
}

/// When a pull leaves RAWs and TIFFs behind.
#[derive(Debug, Clone, Copy, PartialEq, Eq, Structural)]
pub enum PullFilterMode {
    AlwaysSkipRawAndTif,
    SkipRawAndTifWhenWorkTifsExceed { threshold: usize },
    NoFilter,
}

/// Extensions a default pull leaves on prod: camera RAWs and TIFFs.
pub open spec fn pull_excluded_ext(e: Seq<char>) -> bool {
    ||| e == "tif"@ ||| e == "tiff"@ ||| e == "nef"@ ||| e == "cr2"@ ||| e == "cr3"@
    ||| e == "arw"@ ||| e == "rw2"@ ||| e == "orf"@ ||| e == "raf"@ ||| e == "dng"@
}

pub open spec fn excluded_for_pull(name: Seq<char>) -> bool {
    pull_excluded_ext(crate::text::lower_seq(extension(file_name(name))))
}

/// Whether a pull that skips RAWs and TIFFs leaves this file behind (case-insensitive).
pub fn is_excluded_for_pull(file_name: &str) -> (r: bool)
    ensures
        r == excluded_for_pull(file_name@),
{
    let s = chars_of(file_name);
    let n = file_name_vec(&s);
    let e = extension_vec(&n);
    let l = crate::text::lower_vec(&e);
    let x = string_of(&l);
    let t = x.as_str();
    str_eq(t, "tif") || str_eq(t, "tiff") || str_eq(t, "nef") || str_eq(t, "cr2") || str_eq(t, "cr3")
        || str_eq(t, "arw") || str_eq(t, "rw2") || str_eq(t, "orf") || str_eq(t, "raf") || str_eq(
        t,
        "dng",
    )
}

/// Whether a file's extension is `tif` or `tiff`, in any case.
pub fn is_tif_name(name: &str) -> (r: bool)
    ensures
        r == ({
            let e = crate::text::lower_seq(extension(file_name(name@)));
            e == "tif"@ || e == "tiff"@
        }),
{
    let s = chars_of(name);
    let n = file_name_vec(&s);
    let e = extension_vec(&n);
    let l = crate::text::lower_vec(&e);
    let x = string_of(&l);
    str_eq(x.as_str(), "tif") || str_eq(x.as_str(), "tiff")
}

/// Whether a pull with this filter leaves RAWs and TIFFs behind. `work_tifs_exceed` says
/// whether the source's `work` folder holds more TIFFs than the threshold; it is only
/// consulted for the threshold mode.
pub fn skips_pull_excluded(direction: Direction, pull_filter: PullFilterMode, work_tifs_exceed: bool) -> (r: bool)
    ensures
        r == (direction == Direction::Pull && match pull_filter {
            PullFilterMode::AlwaysSkipRawAndTif => true,
            PullFilterMode::NoFilter => false,
            PullFilterMode::SkipRawAndTifWhenWorkTifsExceed { .. } => work_tifs_exceed,
        }),
{
    direction == Direction::Pull && match pull_filter {
        PullFilterMode::AlwaysSkipRawAndTif => true,
        PullFilterMode::NoFilter => false,
        PullFilterMode::SkipRawAndTifWhenWorkTifsExceed { .. } => work_tifs_exceed,
    }
}

/// Whether a walked file takes part in a plan: never an in-flight `.partial`, and not an
/// excluded RAW or TIFF when the pull skips them.
pub fn is_planned(file_name: &str, skip_pull_excluded: bool) -> (r: bool)
    ensures
        r == (!crate::text::ends_with(file_name@, ".partial"@) && !(skip_pull_excluded
            && excluded_for_pull(file_name@))),
{
    let s = chars_of(file_name);
    let suffix = chars_of(".partial");
    if has_suffix(&s, &suffix) {
        return false;
    }
    !(skip_pull_excluded && is_excluded_for_pull(file_name))
}

/// One file of a plan.
#[derive(Debug, Clone)]
pub struct PlannedFile {
    pub rel_path: String,
    pub src_abs: String,
    pub dst_abs: String,
    pub size: u64,
    pub action: Action,
}

/// What a walk found for one source file: its path relative to the source root, its size
/// and modification time, and the destination's size and modification time if it exists.
#[derive(Debug, Clone)]
pub struct SourceFile {
    pub rel_path: String,
    pub size: u64,
    pub mtime: i64,
    pub dst: Option<(u64, i64)>,
}

/// A copy plan.
#[derive(Debug, Clone)]
pub struct Plan {
    pub direction: Direction,
    pub src_root: String,
    pub dst_root: String,
    pub files: Vec<PlannedFile>,
    pub total_bytes_to_copy: u64,
}

pub open spec fn copies(a: Action) -> bool {
    a == Action::New || a == Action::Overwrite
}

/// Total size of the source files whose action copies them.
pub open spec fn bytes_to_copy(files: Seq<SourceFile>) -> nat
    decreases files.len(),
{
    if files.len() == 0 {
        0
    } else {
        let f = files.last();
        bytes_to_copy(files.drop_last()) + if copies(classify_spec(f.size, f.mtime, f.dst)) {
            f.size as nat
        } else {
            0nat
        }
    }
}

pub open spec fn mtimes_comparable(files: Seq<SourceFile>) -> bool {
    forall|i: int|
        0 <= i < files.len() ==> match (#[trigger] files[i]).dst {
            Some((_, d)) => i64::MIN <= files[i].mtime - d <= i64::MAX,
            None => true,
        }
}

/// The plan for copying `files` from `src_root` to `dst_root`: each file classified
/// against its destination, with the total of what will actually be copied.
pub fn assemble_plan(direction: Direction, src_root: &str, dst_root: &str, files: &Vec<SourceFile>) -> (r: Plan)
    requires
        mtimes_comparable(files@),
        bytes_to_copy(files@) <= u64::MAX,
    ensures
        r.direction == direction,
        r.src_root@ == src_root@,
        r.dst_root@ == dst_root@,
        r.files@.len() == files@.len(),
        forall|i: int|
            0 <= i < files@.len() ==> {
                let p = #[trigger] r.files@[i];
                let f = files@[i];
                &&& p.rel_path@ == f.rel_path@
                &&& p.src_abs@ == path_join(src_root@, f.rel_path@)
                &&& p.dst_abs@ == path_join(dst_root@, f.rel_path@)
                &&& p.size == f.size
                &&& p.action == classify_spec(f.size, f.mtime, f.dst)
            },
        r.total_bytes_to_copy == bytes_to_copy(files@),
{
    let mut planned: Vec<PlannedFile> = Vec::new();
    let mut total: u64 = 0;
    let mut i: usize = 0;
    while i < files.len()
        invariant
            i <= files.len(),
            mtimes_comparable(files@),
            bytes_to_copy(files@) <= u64::MAX,
            planned@.len() == i,
            forall|k: int|
                0 <= k < i ==> {
                    let p = #[trigger] planned@[k];
                    let f = files@[k];
                    &&& p.rel_path@ == f.rel_path@
                    &&& p.src_abs@ == path_join(src_root@, f.rel_path@)
                    &&& p.dst_abs@ == path_join(dst_root@, f.rel_path@)
                    &&& p.size == f.size
                    &&& p.action == classify_spec(f.size, f.mtime, f.dst)
                },
            total == bytes_to_copy(files@.take(i as int)),
        decreases files.len() - i,
    {
        let f = &files[i];
        assert(files@.take(i + 1).drop_last() =~= files@.take(i as int));
        proof {
            lemma_bytes_prefix(files@, i + 1);
        }
        let (dsz, dmt) = match f.dst {
            Some((s, t)) => (Some(s), Some(t)),
            None => (None, None),
        };
        assert(match files@[i as int].dst {
            Some((_, d)) => i64::MIN <= files@[i as int].mtime - d <= i64::MAX,
            None => true,
        });
        let action = classify(f.size, f.mtime, dsz, dmt);
        if matches!(action, Action::New | Action::Overwrite) {
            total = total + f.size;
        }
        planned.push(
            PlannedFile {
                rel_path: f.rel_path.clone(),
                src_abs: path_join_str(src_root, f.rel_path.as_str()),
                dst_abs: path_join_str(dst_root, f.rel_path.as_str()),
                size: f.size,
                action,
            },
        );
        i += 1;
    }
    assert(files@.take(files.len() as int) =~= files@);
    Plan {
        direction,
        src_root: String::from_str(src_root),
        dst_root: String::from_str(dst_root),
        files: planned,
        total_bytes_to_copy: total,
    }
}

proof fn lemma_bytes_prefix(files: Seq<SourceFile>, i: int)
    requires
        0 <= i <= files.len(),
    ensures
        bytes_to_copy(files.take(i)) <= bytes_to_copy(files),
    decreases files.len() - i,
{
    if i < files.len() {
        lemma_bytes_prefix(files, i + 1);
        assert(files.take(i + 1).drop_last() =~= files.take(i));
    } else {
        assert(files.take(i) =~= files);
    }
}

pub open spec fn is_conflict(a: Action) -> bool {
    a matches Action::Conflict { .. }
}

impl Plan {
    /// The files whose destination is newer than the source, in plan order.
    pub fn conflicts(&self) -> (r: Vec<&PlannedFile>)
        ensures
            r@.len() == self.files@.filter(|f: PlannedFile| is_conflict(f.action)).len(),
            forall|k: int|
                0 <= k < r@.len() ==> *r@[k] == self.files@.filter(
                    |f: PlannedFile| is_conflict(f.action),
                )[k],
    {
        let ghost pred = |f: PlannedFile| is_conflict(f.action);
        let mut out: Vec<&PlannedFile> = Vec::new();
        let mut i: usize = 0;
        while i < self.files.len()
            invariant
                i <= self.files.len(),
                pred == (|f: PlannedFile| is_conflict(f.action)),
                out@.len() == self.files@.take(i as int).filter(pred).len(),
                forall|k: int|
                    0 <= k < out@.len() ==> *out@[k] == self.files@.take(i as int).filter(pred)[k],
            decreases self.files.len() - i,
        {
            proof {
                assert(self.files@.take(i + 1) =~= self.files@.take(i as int).push(
                    self.files@[i as int],
                ));
                self.files@.take(i as int).lemma_filter_push(self.files@[i as int], pred);
            }
            if matches!(self.files[i].action, Action::Conflict { .. }) {
                out.push(&self.files[i]);
            }
            i += 1;
        }
        assert(self.files@.take(self.files.len() as int) =~= self.files@);
        out
    }
}

/// Why a file appears in a plan's file list, or `None` when it is unchanged and left out.
pub fn display_reason(action: Action) -> (r: Option<&'static str>)
    ensures
        match action {
            Action::New => r == Some("New file"),
            Action::Overwrite => r == Some("File updated"),
            Action::Conflict { dest_newer: true } => r == Some("Conflict, destination newer"),
            Action::Conflict { dest_newer: false } => r == Some("Conflict, source newer"),
            Action::Identical => r is None,
        },
{
    match action {
        Action::New => Some("New file"),
        Action::Overwrite => Some("File updated"),
        Action::Conflict { dest_newer: true } => Some("Conflict, destination newer"),
        Action::Conflict { dest_newer: false } => Some("Conflict, source newer"),
        Action::Identical => None,
    }
}

/// The palette colour a reason is shown in: the complete-status green for a new file,
/// the information colour for an update, the error colour for a conflict.
#[derive(Debug, Clone, Copy, PartialEq, Eq, Structural)]
pub enum ReasonColor {
    StatusComplete,
    MsgInfo,
    MsgError,
}

pub open spec fn reason_color(a: Action) -> ReasonColor {
    match a {
        Action::New => ReasonColor::StatusComplete,
        Action::Overwrite => ReasonColor::MsgInfo,
        _ => ReasonColor::MsgError,
    }
}

/// One line of a plan's file list: the file, why it is copied, and the colour of that
/// reason.
#[derive(Debug, Clone, PartialEq, Eq)]
pub struct TransferFileRow {
    pub path: String,
    pub reason: &'static str,
    pub color: ReasonColor,
}

pub open spec fn reason_text(a: Action) -> Seq<char> {
    match a {
        Action::New => "New file"@,
        Action::Overwrite => "File updated"@,
        Action::Conflict { dest_newer: true } => "Conflict, destination newer"@,
        Action::Conflict { dest_newer: false } => "Conflict, source newer"@,
        Action::Identical => Seq::empty(),
    }
}

pub open spec fn is_listed(f: PlannedFile) -> bool {
    f.action != Action::Identical
}

pub open spec fn row_view(f: PlannedFile) -> (Seq<char>, Seq<char>, ReasonColor) {
    (f.rel_path@, reason_text(f.action), reason_color(f.action))
}

pub open spec fn rows_view(rows: Seq<TransferFileRow>) -> Seq<(Seq<char>, Seq<char>, ReasonColor)> {
    rows.map_values(|r: TransferFileRow| (r.path@, r.reason@, r.color))
}

/// A plan's file list: every file that is not already identical, in plan order.
pub fn transfer_file_rows(plan: &Plan) -> (r: Vec<TransferFileRow>)
    ensures
        rows_view(r@) == plan.files@.filter(|f: PlannedFile| is_listed(f)).map_values(|f: PlannedFile| row_view(f)),
{
    let ghost pred = |f: PlannedFile| is_listed(f);
    let ghost fv = |f: PlannedFile| row_view(f);
    let mut rows: Vec<TransferFileRow> = Vec::new();
    let mut i: usize = 0;
    assert(plan.files@.take(0).filter(pred) =~= Seq::<PlannedFile>::empty()) by {
        reveal(Seq::filter);
    }
    assert(rows_view(rows@) =~= plan.files@.take(0).filter(pred).map_values(fv));
    while i < plan.files.len()
        invariant
            i <= plan.files@.len(),
            pred == (|f: PlannedFile| is_listed(f)),
            fv == (|f: PlannedFile| row_view(f)),
            rows_view(rows@) == plan.files@.take(i as int).filter(pred).map_values(fv),
        decreases plan.files@.len() - i,
    {
        let f = &plan.files[i];
        proof {
            assert(plan.files@.take(i + 1) =~= plan.files@.take(i as int).push(plan.files@[i as int]));
            plan.files@.take(i as int).lemma_filter_push(plan.files@[i as int], pred);
        }
        let ghost before = rows_view(rows@);
        match display_reason(f.action) {
            Some(reason) => {
                let color = match f.action {
                    Action::New => ReasonColor::StatusComplete,
                    Action::Overwrite => ReasonColor::MsgInfo,
                    _ => ReasonColor::MsgError,
                };
                rows.push(TransferFileRow { path: crate::text::owned(f.rel_path.as_str()), reason, color });
                assert(rows_view(rows@) =~= before.push(row_view(plan.files@[i as int])));
                assert(plan.files@.take(i + 1).filter(pred).map_values(fv) =~= plan.files@.take(i as int).filter(pred).map_values(fv).push(row_view(plan.files@[i as int])));
            },
            None => {},
        }
        i += 1;
    }
    assert(plan.files@.take(plan.files@.len() as int) =~= plan.files@);
    rows
}

/// Copy workers for a job: one per file, at least one, at most four.
pub fn copy_worker_count(copyable_files: usize) -> (r: usize)
    ensures
        r == if copyable_files < 1 {
            1
        } else if copyable_files > 4 {
            4
        } else {
            copyable_files
        },
{
    if copyable_files < 1 {
        1
    } else if copyable_files > 4 {
        4
    } else {
        copyable_files
    }
}

/// How a file compares against an existing destination, over all sizes and times: a
/// destination more than two seconds newer than the source is a conflict whatever the
/// sizes; a source more than two seconds newer overwrites; within two seconds, equal sizes
/// are identical and differing sizes overwrite; a missing destination is new.
pub proof fn law_classify_by_time_then_size(src_size: u64, src_mtime: i64, dst_size: u64, dst_mtime: i64)
    ensures
        classify_spec(src_size, src_mtime, None) == Action::New,
        dst_mtime - src_mtime > 2 ==> classify_spec(src_size, src_mtime, Some((dst_size, dst_mtime)))
            == (Action::Conflict { dest_newer: true }),
        src_mtime - dst_mtime > 2 ==> classify_spec(src_size, src_mtime, Some((dst_size, dst_mtime))) == Action::Overwrite,
        -2 <= src_mtime - dst_mtime <= 2 && src_size == dst_size
            ==> classify_spec(src_size, src_mtime, Some((dst_size, dst_mtime))) == Action::Identical,
        -2 <= src_mtime - dst_mtime <= 2 && src_size != dst_size
            ==> classify_spec(src_size, src_mtime, Some((dst_size, dst_mtime))) == Action::Overwrite,
{
}

/// A newer destination is never overwritten silently: whenever a file's destination is
/// more than two seconds newer, classifying it gives a conflict, so it is neither copied
/// nor counted in the bytes to copy.
pub proof fn law_a_newer_destination_is_never_copied(src_size: u64, src_mtime: i64, dst_size: u64, dst_mtime: i64)
    requires
        dst_mtime - src_mtime > 2,
    ensures
        !copies(classify_spec(src_size, src_mtime, Some((dst_size, dst_mtime)))),
        is_conflict(classify_spec(src_size, src_mtime, Some((dst_size, dst_mtime)))),
{
}

} // verus!
