//! What the session does as a row's transfer moves along: where a finished plan goes,
//! what a copy job's messages add up to, what follows a finished transfer, when an
//! archived asset's Prod folder may be deleted, and what the status bar says meanwhile.
//! The threads, folders and timers are the caller's; it brings each result here.
use vstd::prelude::*;
use crate::asset::{asset_type_label, asset_type_order, done_text, AssetType, RowKey, TransferKind};
use crate::copy_job::JobMsg;
use crate::copy_plan::{is_conflict, Action, Plan, PlannedFile};
use crate::ingest::{extension, file_name};
use crate::notion::{Asset, AssetStatus};
use crate::status_text::{abbreviate_status_path, abbreviated_path, duration_text, fmt_duration};
use crate::text::{
    chars_of, dec, extend, extend_str, has_suffix, lex_less, lex_lt, lower_seq, lower_vec, owned, seq_eq, str_eq,
    string_of,
};

verus! {

// ---------------------------------------------------------------------------------------
// A finished plan
// ---------------------------------------------------------------------------------------

/// Where a finished plan goes next.
pub enum PlanRoute {
    /// Straight to copying.
    Copy(Plan),
    /// To the conflict dialog first: some destination is newer than its source.
    AskAboutConflicts(Plan),
}

/// An archive's source is authoritative: a file whose destination looks newer is
/// overwritten all the same.
pub open spec fn resolved(f: PlannedFile) -> PlannedFile {
    if is_conflict(f.action) {
        PlannedFile { action: Action::Overwrite, ..f }
    } else {
        f
    }
}

/// Total size of the files of a plan that are in conflict.
pub open spec fn conflict_bytes(files: Seq<PlannedFile>) -> nat
    decreases files.len(),
{
    if files.len() == 0 {
        0
    } else {
        conflict_bytes(files.drop_last()) + if is_conflict(files.last().action) {
            files.last().size as nat
        } else {
            0nat
        }
    }
}

pub open spec fn has_conflict(files: Seq<PlannedFile>) -> bool {
    exists|i: int| 0 <= i < files.len() && is_conflict(#[trigger] files[i].action)
}

proof fn lemma_conflict_bytes_prefix(files: Seq<PlannedFile>, i: int)
    requires
        0 <= i <= files.len(),
    ensures
        conflict_bytes(files.take(i)) <= conflict_bytes(files),
    decreases files.len() - i,
{
    if i < files.len() {
        lemma_conflict_bytes_prefix(files, i + 1);
        assert(files.take(i + 1).drop_last() =~= files.take(i));
    } else {
        assert(files.take(i) =~= files);
    }
}

/// Decide where a finished plan goes. Archiving and unarchiving never ask: their conflicts
/// become overwrites and count towards the bytes to copy. A push or pull with a conflict
/// goes to the dialog; anything else is copied.
pub fn route_plan(kind: TransferKind, plan: Plan) -> (r: PlanRoute)
    requires
        (kind == TransferKind::Archive || kind == TransferKind::Unarchive)
            ==> plan.total_bytes_to_copy + conflict_bytes(plan.files@) <= u64::MAX,
    ensures
        (kind == TransferKind::Archive || kind == TransferKind::Unarchive) ==> (r matches PlanRoute::Copy(p) && {
            &&& p.direction == plan.direction
            &&& p.src_root == plan.src_root
            &&& p.dst_root == plan.dst_root
            &&& p.files@ == plan.files@.map_values(|f: PlannedFile| resolved(f))
            &&& p.total_bytes_to_copy == plan.total_bytes_to_copy + conflict_bytes(plan.files@)
        }),
        !(kind == TransferKind::Archive || kind == TransferKind::Unarchive) && has_conflict(plan.files@)
            ==> r == PlanRoute::AskAboutConflicts(plan),
        !(kind == TransferKind::Archive || kind == TransferKind::Unarchive) && !has_conflict(plan.files@)
            ==> r == PlanRoute::Copy(plan),
{
    if kind.touches_archive() {
        let ghost orig = plan;
        let mut plan = plan;
        let mut i: usize = 0;
        while i < plan.files.len()
            invariant
                i <= plan.files.len(),
                plan.files@.len() == orig.files@.len(),
                plan.direction == orig.direction,
                plan.src_root == orig.src_root,
                plan.dst_root == orig.dst_root,
                forall|k: int| 0 <= k < i ==> plan.files@[k] == resolved(orig.files@[k]),
                forall|k: int| i <= k < plan.files@.len() ==> plan.files@[k] == orig.files@[k],
                plan.total_bytes_to_copy == orig.total_bytes_to_copy + conflict_bytes(orig.files@.take(i as int)),
                orig.total_bytes_to_copy + conflict_bytes(orig.files@) <= u64::MAX,
            decreases plan.files.len() - i,
        {
            proof {
                assert(orig.files@.take(i + 1).drop_last() =~= orig.files@.take(i as int));
                lemma_conflict_bytes_prefix(orig.files@, i + 1);
            }
            if matches!(plan.files[i].action, Action::Conflict { .. }) {
                let size = plan.files[i].size;
                let mut f = plan.files.remove(i);
                f.action = Action::Overwrite;
                plan.files.insert(i, f);
                plan.total_bytes_to_copy = plan.total_bytes_to_copy + size;
            }
            i += 1;
        }
        assert(orig.files@.take(orig.files@.len() as int) =~= orig.files@);
        assert(plan.files@ =~= orig.files@.map_values(|f: PlannedFile| resolved(f)));
        return PlanRoute::Copy(plan);
    }
    let mut i: usize = 0;
    while i < plan.files.len()
        invariant
            i <= plan.files.len(),
            !(kind == TransferKind::Archive || kind == TransferKind::Unarchive),
            forall|k: int| 0 <= k < i ==> !is_conflict(#[trigger] plan.files@[k].action),
        decreases plan.files.len() - i,
    {
        if matches!(plan.files[i].action, Action::Conflict { .. }) {
            return PlanRoute::AskAboutConflicts(plan);
        }
        i += 1;
    }
    PlanRoute::Copy(plan)
}

/// An archive or unarchive never stops at the conflict dialog: once its plan is routed,
/// no file of it is left in conflict.
pub proof fn law_an_archive_leaves_no_conflicts(files: Seq<PlannedFile>)
    ensures
        !has_conflict(files.map_values(|f: PlannedFile| resolved(f))),
{
    let r = files.map_values(|f: PlannedFile| resolved(f));
    assert forall|i: int| 0 <= i < r.len() implies !is_conflict(#[trigger] r[i].action) by {
        assert(r[i] == resolved(files[i]));
    }
}

// ---------------------------------------------------------------------------------------
// A copy job's messages
// ---------------------------------------------------------------------------------------

/// What a batch of a job's messages adds up to.
pub struct JobDrain {
    /// The job has ended: finished, failed or cancelled.
    pub done: bool,
    /// It finished with every file copied.
    pub succeeded: bool,
    /// The banner for the last failure among them.
    pub error: Option<String>,
}

pub open spec fn failure_text(slug: Seq<char>, rel_path: Seq<char>, error: Seq<char>) -> Seq<char> {
    slug + ": "@ + rel_path + " \u{2014} "@ + error
}

/// `(done, succeeded, banner)` after the messages, in order.
pub open spec fn drain_spec(slug: Seq<char>, msgs: Seq<JobMsg>) -> (bool, bool, Option<Seq<char>>)
    decreases msgs.len(),
{
    if msgs.len() == 0 {
        (false, false, None)
    } else {
        let (d, s, e) = drain_spec(slug, msgs.drop_last());
        match msgs.last() {
            JobMsg::FileDone { .. } => (d, s, e),
            JobMsg::FileFailed { rel_path, error } => (true, s, Some(failure_text(slug, rel_path@, error@))),
            JobMsg::Finished => (true, true, e),
            JobMsg::Cancelled => (true, s, e),
        }
    }
}

pub fn drain_job_messages(slug: &str, msgs: &Vec<JobMsg>) -> (r: JobDrain)
    ensures
        ({
            let (d, s, e) = drain_spec(slug@, msgs@);
            &&& r.done == d
            &&& r.succeeded == s
            &&& match e {
                Some(t) => r.error is Some && r.error->0@ == t,
                None => r.error is None,
            }
        }),
{
    let mut done = false;
    let mut succeeded = false;
    let mut error: Option<String> = None;
    let mut i: usize = 0;
    while i < msgs.len()
        invariant
            i <= msgs.len(),
            ({
                let (d, s, e) = drain_spec(slug@, msgs@.take(i as int));
                &&& done == d
                &&& succeeded == s
                &&& match e {
                    Some(t) => error is Some && error->0@ == t,
                    None => error is None,
                }
            }),
        decreases msgs.len() - i,
    {
        assert(msgs@.take(i + 1).drop_last() =~= msgs@.take(i as int));
        match &msgs[i] {
            JobMsg::FileDone { .. } => {},
            JobMsg::FileFailed { rel_path, error: e } => {
                let mut v = chars_of(slug);
                extend_str(&mut v, ": ");
                extend_str(&mut v, rel_path.as_str());
                extend_str(&mut v, " \u{2014} ");
                extend_str(&mut v, e.as_str());
                error = Some(string_of(&v));
                done = true;
            },
            JobMsg::Finished => {
                done = true;
                succeeded = true;
            },
            JobMsg::Cancelled => {
                done = true;
            },
        }
        i += 1;
    }
    assert(msgs@.take(msgs@.len() as int) =~= msgs@);
    JobDrain { done, succeeded, error }
}

// ---------------------------------------------------------------------------------------
// After a transfer
// ---------------------------------------------------------------------------------------

/// What follows a transfer that has ended. Whatever happened, the row is validated again
/// and its transfer estimates are started afresh; these say what else is done.
#[derive(Debug, Clone, Copy, PartialEq, Eq, Structural)]
pub struct FollowUp {
    pub refresh_prod_folder: bool,
    pub refresh_local_folder: bool,
    pub refresh_archive_folder: bool,
    /// Read back what was pushed.
    pub verify_push: bool,
    /// The archive copy is verified: delete the Prod folder, behind its safety check.
    pub delete_prod: bool,
    /// Show the kind's done toast; an archive's waits for its delete step.
    pub toast: bool,
}

pub fn after_transfer(kind: TransferKind, succeeded: bool) -> (r: FollowUp)
    ensures
        r.refresh_prod_folder == if succeeded {
            kind != TransferKind::Archive
        } else {
            kind == TransferKind::Archive || kind == TransferKind::Unarchive
        },
        r.refresh_local_folder == (succeeded && kind == TransferKind::Pull),
        r.refresh_archive_folder == ((kind == TransferKind::Archive || kind == TransferKind::Unarchive)),
        r.verify_push == (succeeded && kind == TransferKind::Push),
        r.delete_prod == (succeeded && kind == TransferKind::Archive),
        r.toast == (succeeded && kind != TransferKind::Archive),
{
    let none = FollowUp {
        refresh_prod_folder: false,
        refresh_local_folder: false,
        refresh_archive_folder: false,
        verify_push: false,
        delete_prod: false,
        toast: false,
    };
    if succeeded {
        match kind {
            TransferKind::Pull => FollowUp { refresh_prod_folder: true, refresh_local_folder: true, toast: true, ..none },
            TransferKind::Push => FollowUp { refresh_prod_folder: true, verify_push: true, toast: true, ..none },
            TransferKind::Unarchive => FollowUp {
                refresh_prod_folder: true,
                refresh_archive_folder: true,
                toast: true,
                ..none
            },
            TransferKind::Archive => FollowUp { refresh_archive_folder: true, delete_prod: true, ..none },
        }
    } else if kind.touches_archive() {
        FollowUp { refresh_prod_folder: true, refresh_archive_folder: true, ..none }
    } else {
        none
    }
}

/// `Pushed to prod in 1m 5s`: the toast for a transfer that took `secs` seconds.
pub fn transfer_toast(kind: TransferKind, secs: u64) -> (r: String)
    ensures
        r@ == done_text(kind) + " in "@ + duration_text(secs as nat),
{
    let mut v = chars_of(kind.done_label());
    extend_str(&mut v, " in ");
    extend_str(&mut v, fmt_duration(secs).as_str());
    string_of(&v)
}

/// What the end of an archive's Prod deletion shows: the toast for the whole archive, or
/// the banner saying Prod was not fully deleted.
pub fn archive_delete_outcome(slug: &str, result: &Result<(), String>, secs: u64) -> (r: Result<String, String>)
    ensures
        match *result {
            Ok(()) => r is Ok && r->Ok_0@ == "Archived in "@ + duration_text(secs as nat),
            Err(e) => r is Err && r->Err_0@ == "Archived "@ + slug@ + " but could not delete all Prod files: "@ + e@,
        },
{
    match result {
        Ok(()) => {
            let mut v = chars_of("Archived in ");
            extend_str(&mut v, fmt_duration(secs).as_str());
            Ok(string_of(&v))
        },
        Err(e) => {
            let mut v = chars_of("Archived ");
            extend_str(&mut v, slug);
            extend_str(&mut v, " but could not delete all Prod files: ");
            extend_str(&mut v, e.as_str());
            Err(string_of(&v))
        },
    }
}

// ---------------------------------------------------------------------------------------
// Deleting Prod after an archive
// ---------------------------------------------------------------------------------------

/// A TIFF under the asset's `work` folder: archiving leaves these behind on purpose.
pub open spec fn work_tif(rel: Seq<char>) -> bool {
    &&& rel.len() > 5
    &&& rel.take(4) == "work"@
    &&& crate::ingest::is_sep(rel[4])
    &&& ({
        let e = lower_seq(extension(file_name(rel)));
        e == "tif"@ || e == "tiff"@
    })
}

/// A file found in Prod that may go with the folder: an unfinished `.partial`, a work
/// TIFF the archive left behind, or a file the archive copied and verified.
pub open spec fn may_delete(rel: Seq<char>, verified: Seq<Seq<char>>) -> bool {
    crate::text::ends_with(file_name(rel), ".partial"@) || work_tif(rel) || verified.contains(rel)
}

pub open spec fn refusal_text(rel: Seq<char>) -> Seq<char> {
    "Prod gained an un-archived file since archiving started ("@ + rel + "); Prod was NOT deleted"@
}

pub open spec fn views_of(s: Seq<String>) -> Seq<Seq<char>> {
    s.map_values(|t: String| t@)
}

fn is_work_tif(rel: &str) -> (r: bool)
    ensures
        r == work_tif(rel@),
{
    proof {
        reveal_strlit("work");
    }
    let s = chars_of(rel);
    if s.len() <= 5 {
        return false;
    }
    if !(s[0] == 'w' && s[1] == 'o' && s[2] == 'r' && s[3] == 'k') {
        assert(s@.take(4) != "work"@) by {
            if s@.take(4) == "work"@ {
                assert(s@.take(4)[0] == 'w' && s@.take(4)[1] == 'o' && s@.take(4)[2] == 'r' && s@.take(4)[3] == 'k');
            }
        }
        return false;
    }
    assert(s@.take(4) =~= "work"@);
    if !(s[4] == '/' || s[4] == '\\') {
        return false;
    }
    crate::copy_plan::is_tif_name(rel)
}

fn contains_text(list: &Vec<String>, t: &str) -> (r: bool)
    ensures
        r == views_of(list@).contains(t@),
{
    let mut i: usize = 0;
    while i < list.len()
        invariant
            i <= list.len(),
            forall|k: int| 0 <= k < i ==> (#[trigger] list@[k])@ != t@,
        decreases list.len() - i,
    {
        if str_eq(list[i].as_str(), t) {
            assert(views_of(list@)[i as int] == t@);
            return true;
        }
        i += 1;
    }
    assert forall|k: int| 0 <= k < views_of(list@).len() implies views_of(list@)[k] != t@ by {
        assert(list@[k]@ != t@);
    }
    false
}

/// The last check before an archived asset's Prod folder is deleted, given every file now
/// in it (by path relative to the folder) and every file the archive verified. Prod may go
/// only if it holds nothing else: a file that appeared after the archive was planned is
/// not in the archive, and deleting it would lose it. The refusal names the first such
/// file.
pub fn check_prod_before_delete(found: &Vec<String>, verified: &Vec<String>) -> (r: Result<(), String>)
    ensures
        r is Ok <==> forall|i: int| 0 <= i < found@.len() ==> may_delete((#[trigger] found@[i])@, views_of(verified@)),
        r is Err ==> exists|i: int|
            0 <= i < found@.len() && !may_delete((#[trigger] found@[i])@, views_of(verified@))
                && (forall|j: int| 0 <= j < i ==> may_delete(found@[j]@, views_of(verified@)))
                && r->Err_0@ == refusal_text(found@[i]@),
{
    let partial = chars_of(".partial");
    let mut i: usize = 0;
    while i < found.len()
        invariant
            i <= found.len(),
            partial@ == ".partial"@,
            forall|j: int| 0 <= j < i ==> may_delete((#[trigger] found@[j])@, views_of(verified@)),
        decreases found.len() - i,
    {
        let rel = found[i].as_str();
        let s = chars_of(rel);
        let name = crate::ingest::file_name_vec(&s);
        let ok = has_suffix(&name, &partial) || is_work_tif(rel) || contains_text(verified, rel);
        if !ok {
            let mut v = chars_of("Prod gained an un-archived file since archiving started (");
            extend_str(&mut v, rel);
            extend_str(&mut v, "); Prod was NOT deleted");
            return Err(string_of(&v));
        }
        i += 1;
    }
    Ok(())
}

// ---------------------------------------------------------------------------------------
// The status bar's activity line
// ---------------------------------------------------------------------------------------

/// A row's transfer in flight, with the file it is on if it has said.
pub struct ActiveTransfer {
    pub key: RowKey,
    pub kind: TransferKind,
    pub current_file: Option<String>,
}

/// `a` comes before `b`: by asset type, then by slug.
pub open spec fn key_before(a: RowKey, b: RowKey) -> bool {
    asset_type_order(a.asset_type) < asset_type_order(b.asset_type)
        || (a.asset_type == b.asset_type && lex_lt(a.slug@, b.slug@))
}

/// Position of the first of the smallest keys among the first `n`.
pub open spec fn min_pos(keys: Seq<RowKey>, n: int) -> int
    decreases n,
{
    if n <= 1 {
        0
    } else {
        let m = min_pos(keys, n - 1);
        if key_before(keys[n - 1], keys[m]) {
            n - 1
        } else {
            m
        }
    }
}

proof fn lemma_min_pos_bounds(keys: Seq<RowKey>, n: int)
    requires
        1 <= n,
    ensures
        0 <= min_pos(keys, n) < n,
    decreases n,
{
    if n > 1 {
        lemma_min_pos_bounds(keys, n - 1);
    }
}

fn key_is_before(a: &RowKey, b: &RowKey) -> (r: bool)
    ensures
        r == key_before(*a, *b),
{
    let oa = a.asset_type.order();
    let ob = b.asset_type.order();
    if oa < ob {
        return true;
    }
    if oa != ob {
        return false;
    }
    let sa = chars_of(a.slug.as_str());
    let sb = chars_of(b.slug.as_str());
    lex_less(&sa, &sb)
}

pub open spec fn opt_string(o: Option<String>) -> Option<Seq<char>> {
    match o {
        Some(s) => Some(s@),
        None => None,
    }
}

/// What a file being worked on is called in the status bar: the file's shortened path,
/// or the asset when there is no file to name.
pub open spec fn target_text(t: AssetType, slug: Seq<char>, file: Option<Seq<char>>) -> Seq<char> {
    match file {
        Some(f) => if f.len() > 0 {
            abbreviated_path(f)
        } else {
            asset_type_label(t) + "/"@ + slug
        },
        None => asset_type_label(t) + "/"@ + slug,
    }
}

fn target_of(key: &RowKey, current_file: &Option<String>) -> (r: Vec<char>)
    ensures
        r@ == target_text(key.asset_type, key.slug@, opt_string(*current_file)),
{
    match current_file {
        Some(f) => {
            if f.unicode_len() > 0 {
                return chars_of(abbreviate_status_path(f.as_str()).as_str());
            }
        },
        None => {},
    }
    let mut t = chars_of(key.asset_type.folder());
    extend_str(&mut t, "/");
    extend_str(&mut t, key.slug.as_str());
    t
}

pub open spec fn transfer_keys(s: Seq<ActiveTransfer>) -> Seq<RowKey> {
    s.map_values(|a: ActiveTransfer| a.key)
}

/// The status bar's activity line: the first transfer by asset type and slug, else the
/// first verification, else the first Prod deletion; nothing when all are idle.
pub open spec fn activity_text(jobs: Seq<ActiveTransfer>, verifications: Seq<ActiveTransfer>, deletes: Seq<RowKey>) -> Option<Seq<char>> {
    if jobs.len() > 0 {
        let j = jobs[min_pos(transfer_keys(jobs), jobs.len() as int)];
        Some(crate::status_text::transfer_action_text(j.key.asset_type, j.key.slug@, j.kind, opt_string(j.current_file)))
    } else if verifications.len() > 0 {
        let v = verifications[min_pos(transfer_keys(verifications), verifications.len() as int)];
        Some("Verifying "@ + target_text(v.key.asset_type, v.key.slug@, opt_string(v.current_file)))
    } else if deletes.len() > 0 {
        let k = deletes[min_pos(deletes, deletes.len() as int)];
        Some("Removing Prod files "@ + asset_type_label(k.asset_type) + "/"@ + k.slug@)
    } else {
        None
    }
}

fn first_key(keys: &Vec<RowKey>) -> (r: usize)
    requires
        keys@.len() > 0,
    ensures
        r == min_pos(keys@, keys@.len() as int),
        r < keys@.len(),
{
    let mut m: usize = 0;
    let mut i: usize = 1;
    while i < keys.len()
        invariant
            1 <= i <= keys.len(),
            m == min_pos(keys@, i as int),
            m < i,
        decreases keys.len() - i,
    {
        if key_is_before(&keys[i], &keys[m]) {
            m = i;
        }
        i += 1;
    }
    m
}

fn keys_of(s: &Vec<ActiveTransfer>) -> (r: Vec<RowKey>)
    ensures
        r@ == transfer_keys(s@),
{
    let mut out: Vec<RowKey> = Vec::new();
    let mut i: usize = 0;
    while i < s.len()
        invariant
            i <= s.len(),
            out@ == transfer_keys(s@.take(i as int)),
        decreases s.len() - i,
    {
        out.push(RowKey { asset_type: s[i].key.asset_type, slug: s[i].key.slug.clone() });
        i += 1;
        assert(out@ =~= transfer_keys(s@.take(i as int)));
    }
    assert(s@.take(s@.len() as int) =~= s@);
    out
}

pub fn active_file_action_status(
    jobs: &Vec<ActiveTransfer>,
    verifications: &Vec<ActiveTransfer>,
    deletes: &Vec<RowKey>,
) -> (r: Option<String>)
    ensures
        opt_string(r) == activity_text(jobs@, verifications@, deletes@),
{
    if jobs.len() > 0 {
        let keys = keys_of(jobs);
        let m = first_key(&keys);
        let j = &jobs[m];
        let file: Option<&str> = match &j.current_file {
            Some(f) => Some(f.as_str()),
            None => None,
        };
        let t = crate::status_text::format_active_transfer_action(&j.key, j.kind, file);
        return Some(t);
    }
    if verifications.len() > 0 {
        let keys = keys_of(verifications);
        let m = first_key(&keys);
        let v = &verifications[m];
        let mut out = chars_of("Verifying ");
        extend(&mut out, &target_of(&v.key, &v.current_file));
        return Some(string_of(&out));
    }
    if deletes.len() > 0 {
        let m = first_key(deletes);
        let k = &deletes[m];
        let mut out = chars_of("Removing Prod files ");
        extend_str(&mut out, k.asset_type.folder());
        extend_str(&mut out, "/");
        extend_str(&mut out, k.slug.as_str());
        return Some(string_of(&out));
    }
    None
}

// ---------------------------------------------------------------------------------------
// Rows of a loaded list
// ---------------------------------------------------------------------------------------

/// `j` is the first asset with this slug.
pub open spec fn first_with_slug(assets: Seq<Asset>, slug: Seq<char>, j: int) -> bool {
    &&& 0 <= j < assets.len()
    &&& assets[j].slug@ == slug
    &&& forall|k: int| 0 <= k < j ==> assets[k].slug@ != slug
}

fn find_slug(assets: &Vec<Asset>, slug: &str) -> (r: Option<usize>)
    ensures
        match r {
            Some(j) => first_with_slug(assets@, slug@, j as int),
            None => forall|k: int| 0 <= k < assets@.len() ==> (#[trigger] assets@[k]).slug@ != slug@,
        },
{
    let mut i: usize = 0;
    while i < assets.len()
        invariant
            i <= assets.len(),
            forall|k: int| 0 <= k < i ==> (#[trigger] assets@[k]).slug@ != slug@,
        decreases assets.len() - i,
    {
        if str_eq(assets[i].slug.as_str(), slug) {
            return Some(i);
        }
        i += 1;
    }
    None
}

/// After a title rename has gone through: the first asset with the old slug takes the new
/// title as its slug; nothing else changes.
pub fn rename_asset_slug(assets: &mut Vec<Asset>, old_slug: &str, new_title: &str)
    ensures
        final(assets)@.len() == old(assets)@.len(),
        forall|j: int| first_with_slug(old(assets)@, old_slug@, j) ==> {
            &&& final(assets)@[j].slug@ == new_title@
            &&& final(assets)@[j] == (Asset { slug: final(assets)@[j].slug, ..old(assets)@[j] })
            &&& forall|k: int| 0 <= k < old(assets)@.len() && k != j ==> final(assets)@[k] == old(assets)@[k]
        },
        (forall|k: int| 0 <= k < old(assets)@.len() ==> old(assets)@[k].slug@ != old_slug@) ==> final(assets)@ == old(assets)@,
{
    let ghost before = assets@;
    match find_slug(assets, old_slug) {
        Some(j) => {
            assert forall|k: int| first_with_slug(before, old_slug@, k) implies k == j as int by {
                if k < j as int {
                    assert(before[k].slug@ != old_slug@);
                } else if k > j as int {
                    assert(before[j as int].slug@ != old_slug@);
                }
            }
            let mut a = assets.remove(j);
            a.slug = owned(new_title);
            assets.insert(j, a);
            assert(assets@ =~= before.update(j as int, a));
        },
        None => {},
    }
}

/// Set the status of the first asset with this slug, giving back the status it had; `None`
/// when no asset has the slug.
pub fn set_asset_status(assets: &mut Vec<Asset>, slug: &str, status: Option<AssetStatus>) -> (r: Option<AssetStatus>)
    ensures
        final(assets)@.len() == old(assets)@.len(),
        forall|j: int| first_with_slug(old(assets)@, slug@, j) ==> {
            &&& r == old(assets)@[j].status
            &&& final(assets)@[j] == (Asset { status: status, ..old(assets)@[j] })
            &&& forall|k: int| 0 <= k < old(assets)@.len() && k != j ==> final(assets)@[k] == old(assets)@[k]
        },
        (forall|k: int| 0 <= k < old(assets)@.len() ==> old(assets)@[k].slug@ != slug@) ==> {
            &&& r is None
            &&& final(assets)@ == old(assets)@
        },
{
    let ghost before = assets@;
    match find_slug(assets, slug) {
        Some(j) => {
            assert forall|k: int| first_with_slug(before, slug@, k) implies k == j as int by {
                if k < j as int {
                    assert(before[k].slug@ != slug@);
                } else if k > j as int {
                    assert(before[j as int].slug@ != slug@);
                }
            }
            let mut a = assets.remove(j);
            let mut previous = status;
            std::mem::swap(&mut a.status, &mut previous);
            assets.insert(j, a);
            assert(assets@ =~= before.update(j as int, a));
            previous
        },
        None => None,
    }
}

/// Nothing un-archived is deleted with Prod: a found file may go only when it is a
/// `.partial`, was verified in the archive, or is a TIFF (`tif` or `tiff`, in any case)
/// under the asset's `work` folder.
pub proof fn law_only_archived_files_and_work_tiffs_may_go(rel: Seq<char>, verified: Seq<Seq<char>>)
    ensures
        may_delete(rel, verified) <==> (
            crate::text::ends_with(file_name(rel), ".partial"@)
            || verified.contains(rel)
            || (rel.len() > 5 && rel.take(5) == "work/"@ || rel.len() > 5 && rel.take(5) == "work\\"@) && ({
                let e = lower_seq(extension(file_name(rel)));
                e == "tif"@ || e == "tiff"@
            })
        ),
{
    reveal_strlit("work");
    reveal_strlit("work/");
    reveal_strlit("work\\");
    if rel.len() > 5 {
        assert(rel.take(5) == rel.take(4).push(rel[4]));
        if rel.take(4) == "work"@ && crate::ingest::is_sep(rel[4]) {
            if rel[4] == '/' {
                assert(rel.take(5) =~= "work/"@);
            } else {
                assert(rel.take(5) =~= "work\\"@);
            }
        }
        if rel.take(5) == "work/"@ || rel.take(5) == "work\\"@ {
            assert(rel.take(4) =~= rel.take(5).take(4));
            assert(rel.take(4) =~= "work"@);
            assert(rel[4] == rel.take(5)[4]);
        }
    }
}

} // verus!
