//! How closely prod is watched, by how long the user has been inactive.
//!
//! Durations are whole milliseconds.
use vstd::prelude::*;
use crate::asset::{AssetType, RowKey};
use crate::text::str_eq;

verus! {

/// Which root a filesystem event came from.
#[derive(Debug, Clone, Copy, PartialEq, Eq, Structural)]
pub enum WatchSource {
    Local,
    Prod,
}

/// A filesystem event: where it came from and the paths it touched.
#[derive(Debug, Clone)]
pub struct RawEvent {
    pub source: WatchSource,
    pub paths: Vec<String>,
}

/// How prod is monitored, by how long the user has been inactive in the window.
#[derive(Debug, Clone, Copy, PartialEq, Eq, Structural)]
pub enum WatchMode {
    /// Under 2 minutes inactive: prod is watched in real time.
    RealTime,
    /// 2 to 10 minutes inactive: prod is polled every 30 seconds.
    Poll30s,
    /// 10 to 30 minutes inactive: prod is polled every 2 minutes.
    Poll2min,
    /// Over 30 minutes inactive: prod is not monitored.
    Idle,
}

/// The ends of the first three modes.
pub const REAL_TIME_END_MS: u64 = 120_000;
pub const POLL_30S_END_MS: u64 = 600_000;
pub const POLL_2MIN_END_MS: u64 = 1_800_000;

pub open spec fn mode_for(inactive_ms: nat) -> WatchMode {
    if inactive_ms < REAL_TIME_END_MS {
        WatchMode::RealTime
    } else if inactive_ms < POLL_30S_END_MS {
        WatchMode::Poll30s
    } else if inactive_ms < POLL_2MIN_END_MS {
        WatchMode::Poll2min
    } else {
        WatchMode::Idle
    }
}

/// The time left until the mode changes, if it ever does again.
pub open spec fn boundary_spec(inactive_ms: nat) -> Option<nat> {
    if inactive_ms < REAL_TIME_END_MS {
        Some((REAL_TIME_END_MS - inactive_ms) as nat)
    } else if inactive_ms < POLL_30S_END_MS {
        Some((POLL_30S_END_MS - inactive_ms) as nat)
    } else if inactive_ms < POLL_2MIN_END_MS {
        Some((POLL_2MIN_END_MS - inactive_ms) as nat)
    } else {
        None
    }
}

/// How far along the schedule a mode is.
pub open spec fn mode_rank(m: WatchMode) -> nat {
    match m {
        WatchMode::RealTime => 0,
        WatchMode::Poll30s => 1,
        WatchMode::Poll2min => 2,
        WatchMode::Idle => 3,
    }
}

impl WatchMode {
    /// How often prod is polled in this mode, or `None` when it is not polled.
    pub fn poll_interval(self) -> (r: Option<u64>)
        ensures
            r == match self {
                WatchMode::Poll30s => Some(30_000u64),
                WatchMode::Poll2min => Some(120_000u64),
                _ => None,
            },
    {
        match self {
            WatchMode::Poll30s => Some(30_000),
            WatchMode::Poll2min => Some(120_000),
            WatchMode::RealTime | WatchMode::Idle => None,
        }
    }

    /// Whether prod is watched in real time in this mode.
    pub fn is_real_time(self) -> (r: bool)
        ensures
            r == (self == WatchMode::RealTime),
    {
        match self {
            WatchMode::RealTime => true,
            _ => false,
        }
    }

    /// The mode for a time of inactivity.
    pub fn for_inactivity(inactive_ms: u64) -> (r: WatchMode)
        ensures
            r == mode_for(inactive_ms as nat),
    {
        if inactive_ms < REAL_TIME_END_MS {
            WatchMode::RealTime
        } else if inactive_ms < POLL_30S_END_MS {
            WatchMode::Poll30s
        } else if inactive_ms < POLL_2MIN_END_MS {
            WatchMode::Poll2min
        } else {
            WatchMode::Idle
        }
    }

    /// The time until the next mode boundary, so that a repaint can be scheduled for it;
    /// `None` once idle, when nothing is left to schedule.
    pub fn boundary_after(inactive_ms: u64) -> (r: Option<u64>)
        ensures
            match boundary_spec(inactive_ms as nat) {
                Some(d) => r == Some(d as u64),
                None => r is None,
            },
    {
        if inactive_ms < REAL_TIME_END_MS {
            Some(REAL_TIME_END_MS - inactive_ms)
        } else if inactive_ms < POLL_30S_END_MS {
            Some(POLL_30S_END_MS - inactive_ms)
        } else if inactive_ms < POLL_2MIN_END_MS {
            Some(POLL_2MIN_END_MS - inactive_ms)
        } else {
            None
        }
    }
}

/// Monitoring only relaxes as inactivity grows.
pub proof fn law_mode_relaxes_with_inactivity(a: nat, b: nat)
    requires
        a <= b,
    ensures
        mode_rank(mode_for(a)) <= mode_rank(mode_for(b)),
{
}

/// The boundary is exactly where the mode next changes: the mode holds until then and
/// differs from then on; without a boundary it never changes again.
pub proof fn law_boundary_is_next_mode_change(inactive: nat, later: nat)
    requires
        inactive <= later,
    ensures
        match boundary_spec(inactive) {
            Some(d) => d > 0 && (later < inactive + d ==> mode_for(later) == mode_for(inactive)) && (
            later >= inactive + d ==> mode_for(later) != mode_for(inactive)),
            None => mode_for(later) == mode_for(inactive),
        },
{
}

/// How long after the last event a changed asset is re-validated.
pub const DEBOUNCE_MS: u64 = 1_500;
/// The longest a stream of events can postpone re-validation.
pub const HARD_DEADLINE_MS: u64 = 8_000;

/// A re-validation waiting for filesystem events to settle: due at `deadline` (moved on
/// by each event) or at `hard_deadline` (fixed by the first), whichever comes first.
#[derive(Debug, Clone, Copy, PartialEq, Eq, Structural)]
pub struct PendingWatch {
    pub deadline: u64,
    pub hard_deadline: u64,
    pub update_local: bool,
    pub update_prod: bool,
}

pub open spec fn record_spec(pending: Option<PendingWatch>, source: WatchSource, now: u64) -> PendingWatch {
    let base = match pending {
        Some(p) => p,
        None => PendingWatch {
            deadline: now,
            hard_deadline: (now + HARD_DEADLINE_MS) as u64,
            update_local: false,
            update_prod: false,
        },
    };
    PendingWatch {
        deadline: (now + DEBOUNCE_MS) as u64,
        hard_deadline: base.hard_deadline,
        update_local: base.update_local || source == WatchSource::Local,
        update_prod: base.update_prod || source == WatchSource::Prod,
    }
}

/// Records an event for an asset at `now`.
pub fn record_event(pending: Option<PendingWatch>, source: WatchSource, now: u64) -> (r: PendingWatch)
    requires
        now + HARD_DEADLINE_MS <= u64::MAX,
    ensures
        r == record_spec(pending, source, now),
{
    let mut p = match pending {
        Some(p) => p,
        None => PendingWatch {
            deadline: now,
            hard_deadline: now + HARD_DEADLINE_MS,
            update_local: false,
            update_prod: false,
        },
    };
    p.deadline = now + DEBOUNCE_MS;
    match source {
        WatchSource::Local => p.update_local = true,
        WatchSource::Prod => p.update_prod = true,
    }
    p
}

/// Whether the re-validation is due at `now`.
pub fn is_due(pending: &PendingWatch, now: u64) -> (r: bool)
    ensures
        r == (now >= pending.deadline || now >= pending.hard_deadline),
{
    now >= pending.deadline || now >= pending.hard_deadline
}

/// Events keep moving the deadline, never the hard one: however many follow the first,
/// the re-validation is due once the hard deadline after the first has passed.
pub proof fn law_events_cannot_postpone_forever(first: u64, source: WatchSource, later: Seq<(WatchSource, u64)>, now: u64)
    requires
        first + HARD_DEADLINE_MS <= u64::MAX,
        now >= first + HARD_DEADLINE_MS,
    ensures
        ({
            let p = replay(Some(record_spec(None, source, first)), later);
            p.hard_deadline == first + HARD_DEADLINE_MS && (now >= p.deadline || now >= p.hard_deadline)
        }),
{
    lemma_replay_keeps_hard_deadline(record_spec(None, source, first), later);
}

/// The pending entry after events `events`, starting from `start`.
pub open spec fn replay(start: Option<PendingWatch>, events: Seq<(WatchSource, u64)>) -> PendingWatch
    recommends
        start is Some,
    decreases events.len(),
{
    if events.len() == 0 {
        start->0
    } else {
        replay(Some(record_spec(start, events[0].0, events[0].1)), events.drop_first())
    }
}

proof fn lemma_replay_keeps_hard_deadline(p: PendingWatch, events: Seq<(WatchSource, u64)>)
    ensures
        replay(Some(p), events).hard_deadline == p.hard_deadline,
    decreases events.len(),
{
    if events.len() > 0 {
        lemma_replay_keeps_hard_deadline(record_spec(Some(p), events[0].0, events[0].1), events.drop_first());
    }
}

// ---------------------------------------------------------------------------------------
// The rows waiting for their events to settle
// ---------------------------------------------------------------------------------------

/// A row as the waiting list identifies it.
pub open spec fn row_id(k: RowKey) -> (AssetType, Seq<char>) {
    (k.asset_type, k.slug@)
}

/// Each row at most once.
pub open spec fn rows_unique(s: Seq<(RowKey, PendingWatch)>) -> bool {
    forall|i: int, j: int| 0 <= i < j < s.len() ==> row_id(s[i].0) != row_id(s[j].0)
}

fn same_row(a: &RowKey, b: &RowKey) -> (r: bool)
    ensures
        r == (row_id(*a) == row_id(*b)),
{
    a.asset_type == b.asset_type && str_eq(a.slug.as_str(), b.slug.as_str())
}

/// Record a filesystem event for a row at `now`: the row's entry moves its deadline on
/// and notes which side changed; a row with no entry gets one.
pub fn record_watch_event(pending: &mut Vec<(RowKey, PendingWatch)>, key: RowKey, source: WatchSource, now: u64)
    requires
        rows_unique(old(pending)@),
        now + HARD_DEADLINE_MS <= u64::MAX,
    ensures
        rows_unique(final(pending)@),
        (exists|j: int| 0 <= j < old(pending)@.len() && row_id(old(pending)@[j].0) == row_id(key)) ==> ({
            let j = choose|j: int| 0 <= j < old(pending)@.len() && row_id(old(pending)@[j].0) == row_id(key);
            final(pending)@ == old(pending)@.update(j, (old(pending)@[j].0, record_spec(Some(old(pending)@[j].1), source, now)))
        }),
        !(exists|j: int| 0 <= j < old(pending)@.len() && row_id(old(pending)@[j].0) == row_id(key))
            ==> final(pending)@ == old(pending)@.push((key, record_spec(None, source, now))),
{
    let ghost before = pending@;
    let mut i: usize = 0;
    while i < pending.len()
        invariant
            i <= pending.len(),
            pending@ == before,
            before == old(pending)@,
            rows_unique(before),
            now + HARD_DEADLINE_MS <= u64::MAX,
            forall|k: int| 0 <= k < i ==> row_id(before[k].0) != row_id(key),
        decreases pending.len() - i,
    {
        if same_row(&pending[i].0, &key) {
            assert forall|k: int| 0 <= k < before.len() && row_id(before[k].0) == row_id(key) implies k == i as int by {
                if k != i as int {
                    assert(row_id(before[k].0) != row_id(before[i as int].0));
                }
            }
            let (k, p) = pending.remove(i);
            let updated = record_event(Some(p), source, now);
            pending.insert(i, (k, updated));
            assert(pending@ =~= before.update(i as int, (before[i as int].0, record_spec(Some(before[i as int].1), source, now))));
            return;
        }
        i += 1;
    }
    let fresh = record_event(None, source, now);
    pending.push((key, fresh));
}

/// The entries due at `now`, in order, and those still waiting.
pub open spec fn due_part(s: Seq<(RowKey, PendingWatch)>, now: u64, n: int) -> Seq<(RowKey, PendingWatch)>
    decreases n,
{
    if n <= 0 {
        Seq::empty()
    } else if now >= s[n - 1].1.deadline || now >= s[n - 1].1.hard_deadline {
        due_part(s, now, n - 1).push(s[n - 1])
    } else {
        due_part(s, now, n - 1)
    }
}

pub open spec fn waiting_part(s: Seq<(RowKey, PendingWatch)>, now: u64, n: int) -> Seq<(RowKey, PendingWatch)>
    decreases n,
{
    if n <= 0 {
        Seq::empty()
    } else if now >= s[n - 1].1.deadline || now >= s[n - 1].1.hard_deadline {
        waiting_part(s, now, n - 1)
    } else {
        waiting_part(s, now, n - 1).push(s[n - 1])
    }
}

/// Take the rows whose re-validation is due at `now` out of the waiting list.
pub fn take_due(pending: &mut Vec<(RowKey, PendingWatch)>, now: u64) -> (r: Vec<(RowKey, PendingWatch)>)
    ensures
        r@ == due_part(old(pending)@, now, old(pending)@.len() as int),
        final(pending)@ == waiting_part(old(pending)@, now, old(pending)@.len() as int),
{
    let total = pending.len();
    let ghost orig = pending@;
    let mut rest: Vec<(RowKey, PendingWatch)> = Vec::new();
    std::mem::swap(pending, &mut rest);
    let mut due: Vec<(RowKey, PendingWatch)> = Vec::new();
    let mut i: usize = 0;
    while rest.len() > 0
        invariant
            rest@ == orig.subrange(i as int, total as int),
            i <= total,
            total == orig.len(),
            due@ == due_part(orig, now, i as int),
            pending@ == waiting_part(orig, now, i as int),
        decreases rest@.len(),
    {
        let e = rest.remove(0);
        assert(e == orig[i as int]);
        if is_due(&e.1, now) {
            due.push(e);
        } else {
            pending.push(e);
        }
        i += 1;
        assert(rest@ =~= orig.subrange(i as int, total as int));
    }
    due
}

/// Once taken out, a row is not waiting any more: nothing is re-validated twice for one
/// burst of events, and nothing due is left behind.
pub proof fn law_taking_due_rows_leaves_only_waiting_ones(s: Seq<(RowKey, PendingWatch)>, now: u64)
    ensures
        forall|i: int| 0 <= i < waiting_part(s, now, s.len() as int).len() ==> {
            let p = #[trigger] waiting_part(s, now, s.len() as int)[i].1;
            now < p.deadline && now < p.hard_deadline
        },
        forall|i: int| 0 <= i < due_part(s, now, s.len() as int).len() ==> {
            let p = #[trigger] due_part(s, now, s.len() as int)[i].1;
            now >= p.deadline || now >= p.hard_deadline
        },
        due_part(s, now, s.len() as int).len() + waiting_part(s, now, s.len() as int).len() == s.len(),
{
    lemma_parts(s, now, s.len() as int);
}

proof fn lemma_parts(s: Seq<(RowKey, PendingWatch)>, now: u64, n: int)
    requires
        0 <= n <= s.len(),
    ensures
        forall|i: int| 0 <= i < waiting_part(s, now, n).len() ==> {
            let p = #[trigger] waiting_part(s, now, n)[i].1;
            now < p.deadline && now < p.hard_deadline
        },
        forall|i: int| 0 <= i < due_part(s, now, n).len() ==> {
            let p = #[trigger] due_part(s, now, n)[i].1;
            now >= p.deadline || now >= p.hard_deadline
        },
        due_part(s, now, n).len() + waiting_part(s, now, n).len() == n,
    decreases n,
{
    if n > 0 {
        lemma_parts(s, now, n - 1);
    }
}

// ---------------------------------------------------------------------------------------
// Mode changes and poll ticks
// ---------------------------------------------------------------------------------------

/// What one pass of the watcher decides about monitoring prod.
#[derive(Debug, Clone, Copy, PartialEq, Eq, Structural)]
pub struct WatchTick {
    /// The mode changed: the watched paths are to be worked out again.
    pub mode_changed: bool,
    /// Poll prod now.
    pub poll_now: bool,
    /// When the next poll is due, in whatever mode polls.
    pub next_poll_at: u64,
}

pub open spec fn interval_of(m: WatchMode) -> Option<u64> {
    match m {
        WatchMode::Poll30s => Some(30_000u64),
        WatchMode::Poll2min => Some(120_000u64),
        _ => None,
    }
}

/// A pass at `now` in `mode`, the previous pass having been in `last_mode`: a change of
/// mode into a polling one schedules its first poll an interval away; in a polling mode,
/// a poll that has come due runs and the next is scheduled an interval on.
pub fn watch_tick(last_mode: WatchMode, mode: WatchMode, next_poll_at: u64, now: u64) -> (r: WatchTick)
    requires
        now + 120_000 <= u64::MAX,
    ensures
        r.mode_changed == (mode != last_mode),
        ({
            let scheduled: u64 = if mode != last_mode && interval_of(mode) is Some {
                (now + interval_of(mode)->0) as u64
            } else {
                next_poll_at
            };
            match interval_of(mode) {
                Some(iv) => {
                    &&& r.poll_now == (now >= scheduled)
                    &&& r.next_poll_at == if now >= scheduled { (now + iv) as u64 } else { scheduled }
                },
                None => !r.poll_now && r.next_poll_at == scheduled,
            }
        }),
{
    let changed = mode != last_mode;
    let mut next = next_poll_at;
    if changed {
        match mode.poll_interval() {
            Some(iv) => next = now + iv,
            None => {},
        }
    }
    match mode.poll_interval() {
        Some(iv) => {
            if now >= next {
                WatchTick { mode_changed: changed, poll_now: true, next_poll_at: now + iv }
            } else {
                WatchTick { mode_changed: changed, poll_now: false, next_poll_at: next }
            }
        },
        None => WatchTick { mode_changed: changed, poll_now: false, next_poll_at: next },
    }
}

/// A folder to watch in prod, and whether its subfolders are watched too.
pub struct WatchPath {
    pub path: String,
    pub recursive: bool,
}

/// A row with errors whose prod folder exists: its folder, and whether that folder has a
/// `staging` subfolder.
pub struct ErrorRowFolder {
    pub slug_folder: String,
    pub staging_folder: String,
    pub staging_exists: bool,
}

pub open spec fn row_paths(f: ErrorRowFolder) -> Seq<(Seq<char>, bool)> {
    if f.staging_exists {
        seq![(f.slug_folder@, false), (f.staging_folder@, true)]
    } else {
        seq![(f.slug_folder@, false)]
    }
}

pub open spec fn rows_paths(rows: Seq<ErrorRowFolder>) -> Seq<(Seq<char>, bool)>
    decreases rows.len(),
{
    if rows.len() == 0 {
        Seq::empty()
    } else {
        rows_paths(rows.drop_last()) + row_paths(rows.last())
    }
}

pub open spec fn watch_views(s: Seq<WatchPath>) -> Seq<(Seq<char>, bool)> {
    s.map_values(|w: WatchPath| (w.path@, w.recursive))
}

pub open spec fn root_paths(roots: Seq<String>) -> Seq<(Seq<char>, bool)> {
    roots.map_values(|r: String| (r@, false))
}

/// What prod is watched for in real time: each selected type's root, without its
/// subfolders, and for each row with errors its folder and, when it has one, the whole of
/// its `staging` folder. Nothing is watched in the other modes.
pub fn prod_watch_paths(real_time: bool, type_roots: &Vec<String>, error_rows: &Vec<ErrorRowFolder>) -> (r: Vec<WatchPath>)
    ensures
        real_time ==> watch_views(r@) == root_paths(type_roots@) + rows_paths(error_rows@),
        !real_time ==> r@.len() == 0,
{
    let mut out: Vec<WatchPath> = Vec::new();
    if !real_time {
        return out;
    }
    let mut i: usize = 0;
    while i < type_roots.len()
        invariant
            i <= type_roots.len(),
            watch_views(out@) == root_paths(type_roots@.take(i as int)),
        decreases type_roots.len() - i,
    {
        let ghost prev = out@;
        out.push(WatchPath { path: crate::text::owned(type_roots[i].as_str()), recursive: false });
        assert(watch_views(out@) =~= watch_views(prev).push((type_roots@[i as int]@, false)));
        assert(type_roots@.take(i + 1) =~= type_roots@.take(i as int).push(type_roots@[i as int]));
        i += 1;
        assert(watch_views(out@) =~= root_paths(type_roots@.take(i as int)));
    }
    assert(type_roots@.take(type_roots@.len() as int) =~= type_roots@);
    let ghost roots = watch_views(out@);
    let mut j: usize = 0;
    while j < error_rows.len()
        invariant
            j <= error_rows.len(),
            roots == root_paths(type_roots@),
            watch_views(out@) == roots + rows_paths(error_rows@.take(j as int)),
        decreases error_rows.len() - j,
    {
        let ghost prev = out@;
        let row = &error_rows[j];
        assert(error_rows@.take(j + 1).drop_last() =~= error_rows@.take(j as int));
        out.push(WatchPath { path: crate::text::owned(row.slug_folder.as_str()), recursive: false });
        if row.staging_exists {
            out.push(WatchPath { path: crate::text::owned(row.staging_folder.as_str()), recursive: true });
        }
        assert(watch_views(out@) =~= watch_views(prev) + row_paths(error_rows@[j as int]));
        j += 1;
    }
    assert(error_rows@.take(error_rows@.len() as int) =~= error_rows@);
    out
}

} // verus!
