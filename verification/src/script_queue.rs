//! The queue of admin scripts: one script runs at a time, a script waits for the scripts
//! it depends on, and a script whose dependency did not succeed is blocked rather than
//! run. Starting a process and reading its output is the caller's; which script runs next,
//! and what is recorded when one ends, is decided here.
//!
//! Times are milliseconds on a monotonic clock.
use vstd::prelude::*;
use crate::asset::{AssetType, RowKey};
use crate::scripts::{action_kinds, ScriptAction, ScriptKey, ScriptKind, ScriptRun, ScriptRunStatus};
use crate::text::{chars_of, extend_str, owned, str_eq, string_of};

verus! {

/// A script key as plain values: the row's type and slug, and the script.
pub type KeyView = (AssetType, Seq<char>, ScriptKind);

pub open spec fn kv(k: ScriptKey) -> KeyView {
    (k.row.asset_type, k.row.slug@, k.kind)
}

pub open spec fn kvs(ks: Seq<ScriptKey>) -> Seq<KeyView> {
    ks.map_values(|k: ScriptKey| kv(k))
}

fn same_key(a: &ScriptKey, b: &ScriptKey) -> (r: bool)
    ensures
        r == (kv(*a) == kv(*b)),
{
    a.row.asset_type == b.row.asset_type && a.kind == b.kind && str_eq(
        a.row.slug.as_str(),
        b.row.slug.as_str(),
    )
}

fn copy_key(k: &ScriptKey) -> (r: ScriptKey)
    ensures
        kv(r) == kv(*k),
{
    ScriptKey { row: RowKey { asset_type: k.row.asset_type, slug: owned(k.row.slug.as_str()) }, kind: k.kind }
}

// ---------------------------------------------------------------------------------------
// Results
// ---------------------------------------------------------------------------------------

/// A script run as plain values: which script, how it ended, its output, when it started
/// and when it ended.
pub type RunView = (ScriptKind, ScriptRunStatus, Seq<char>, u64, u64);

pub open spec fn rv(r: ScriptRun) -> RunView {
    (r.kind, r.status, r.output@, r.started_at, r.finished_at)
}

fn copy_run(r: &ScriptRun) -> (c: ScriptRun)
    ensures
        rv(c) == rv(*r),
{
    ScriptRun {
        kind: r.kind,
        status: r.status,
        output: owned(r.output.as_str()),
        started_at: r.started_at,
        finished_at: r.finished_at,
    }
}

/// The recorded result of a script: the last one recorded for its key.
pub open spec fn result_of(rs: Seq<(ScriptKey, ScriptRun)>, k: KeyView) -> Option<RunView>
    decreases rs.len(),
{
    if rs.len() == 0 {
        None
    } else if kv(rs.last().0) == k {
        Some(rv(rs.last().1))
    } else {
        result_of(rs.drop_last(), k)
    }
}

pub open spec fn succeeded_in(rs: Seq<(ScriptKey, ScriptRun)>, k: KeyView) -> bool {
    match result_of(rs, k) {
        Some(r) => r.1 == ScriptRunStatus::Succeeded,
        None => false,
    }
}

/// A script that ended without succeeding: it failed, or was blocked itself.
pub open spec fn failed_in(rs: Seq<(ScriptKey, ScriptRun)>, k: KeyView) -> bool {
    match result_of(rs, k) {
        Some(r) => r.1 != ScriptRunStatus::Succeeded,
        None => false,
    }
}

/// Forgets the result of `key`, if any.
fn forget_result(rs: &mut Vec<(ScriptKey, ScriptRun)>, key: &ScriptKey)
    ensures
        forall|k: KeyView|
            #[trigger] result_of(final(rs)@, k) == if k == kv(*key) {
                None
            } else {
                result_of(old(rs)@, k)
            },
{
    let ghost start = rs@;
    let mut kept: Vec<(ScriptKey, ScriptRun)> = Vec::new();
    let mut i: usize = 0;
    while i < rs.len()
        invariant
            i <= rs@.len(),
            rs@ == start,
            forall|k: KeyView|
                #[trigger] result_of(kept@, k) == if k == kv(*key) {
                    None
                } else {
                    result_of(start.take(i as int), k)
                },
        decreases rs@.len() - i,
    {
        assert(start.take(i + 1).drop_last() =~= start.take(i as int));
        let ghost before = kept@;
        let ghost t = start.take(i + 1);
        assert(t.last() == start[i as int]);
        if !same_key(&rs[i].0, key) {
            kept.push((copy_key(&rs[i].0), copy_run(&rs[i].1)));
            assert(kept@.drop_last() =~= before);
            assert(kv(kept@.last().0) == kv(start[i as int].0));
            assert(rv(kept@.last().1) == rv(start[i as int].1));
            assert forall|k: KeyView|
                #[trigger] result_of(kept@, k) == if k == kv(*key) {
                    None
                } else {
                    result_of(t, k)
                } by {
                assert(result_of(before, k) == if k == kv(*key) {
                    None
                } else {
                    result_of(start.take(i as int), k)
                });
            }
        } else {
            assert forall|k: KeyView|
                #[trigger] result_of(kept@, k) == if k == kv(*key) {
                    None
                } else {
                    result_of(t, k)
                } by {
                assert(result_of(before, k) == if k == kv(*key) {
                    None
                } else {
                    result_of(start.take(i as int), k)
                });
            }
        }
        i += 1;
    }
    assert(start.take(start.len() as int) =~= start);
    *rs = kept;
}

/// Records `run` as the result of `key`, replacing any earlier one.
fn record_result(rs: &mut Vec<(ScriptKey, ScriptRun)>, key: &ScriptKey, run: ScriptRun)
    ensures
        forall|k: KeyView|
            #[trigger] result_of(final(rs)@, k) == if k == kv(*key) {
                Some(rv(run))
            } else {
                result_of(old(rs)@, k)
            },
{
    forget_result(rs, key);
    let ghost before = rs@;
    let ghost rrun = rv(run);
    rs.push((copy_key(key), run));
    assert(rs@.drop_last() =~= before);
    assert(rv(rs@.last().1) == rrun);
    assert(kv(rs@.last().0) == kv(*key));
    assert forall|k: KeyView|
        #[trigger] result_of(rs@, k) == if k == kv(*key) {
            Some(rv(run))
        } else {
            result_of(before, k)
        } by {}
}


/// All recorded results, by key.
pub open spec fn rmap(rs: Seq<(ScriptKey, ScriptRun)>) -> Map<KeyView, RunView> {
    Map::new(|k: KeyView| result_of(rs, k) is Some, |k: KeyView| result_of(rs, k)->0)
}

proof fn lemma_rmap_forget(before: Seq<(ScriptKey, ScriptRun)>, after: Seq<(ScriptKey, ScriptRun)>, key: KeyView)
    requires
        forall|k: KeyView|
            #[trigger] result_of(after, k) == if k == key {
                None
            } else {
                result_of(before, k)
            },
    ensures
        rmap(after) == rmap(before).remove(key),
{
    assert(rmap(after) =~= rmap(before).remove(key));
}

proof fn lemma_rmap_record(before: Seq<(ScriptKey, ScriptRun)>, after: Seq<(ScriptKey, ScriptRun)>, key: KeyView, run: RunView)
    requires
        forall|k: KeyView|
            #[trigger] result_of(after, k) == if k == key {
                Some(run)
            } else {
                result_of(before, k)
            },
    ensures
        rmap(after) == rmap(before).insert(key, run),
{
    assert forall|k: KeyView| #[trigger] rmap(after).contains_key(k) == rmap(before).insert(key, run).contains_key(k) by {
        assert(result_of(after, k) == if k == key {
            Some(run)
        } else {
            result_of(before, k)
        });
    }
    assert(rmap(after) =~= rmap(before).insert(key, run));
}

/// The result of a script, if one is recorded.
fn find_result(rs: &Vec<(ScriptKey, ScriptRun)>, key: &ScriptKey) -> (r: Option<usize>)
    ensures
        match r {
            Some(i) => i < rs@.len() && result_of(rs@, kv(*key)) == Some(rv(rs@[i as int].1)),
            None => result_of(rs@, kv(*key)) is None,
        },
{
    let mut i: usize = rs.len();
    assert(rs@.take(i as int) =~= rs@);
    while i > 0
        invariant
            i <= rs@.len(),
            result_of(rs@, kv(*key)) == result_of(rs@.take(i as int), kv(*key)),
        decreases i,
    {
        let ghost t = rs@.take(i as int);
        assert(t.last() == rs@[i - 1]);
        assert(t.drop_last() =~= rs@.take(i - 1));
        if same_key(&rs[i - 1].0, key) {
            return Some(i - 1);
        }
        i -= 1;
    }
    assert(rs@.take(0) =~= Seq::<(ScriptKey, ScriptRun)>::empty());
    None
}

pub open spec fn succeeded_at(m: Map<KeyView, RunView>, k: KeyView) -> bool {
    m.contains_key(k) && m[k].1 == ScriptRunStatus::Succeeded
}

/// A script that ended without succeeding: it failed, or was itself blocked.
pub open spec fn failed_at(m: Map<KeyView, RunView>, k: KeyView) -> bool {
    m.contains_key(k) && m[k].1 != ScriptRunStatus::Succeeded
}

fn has_succeeded(rs: &Vec<(ScriptKey, ScriptRun)>, key: &ScriptKey) -> (r: bool)
    ensures
        r == succeeded_at(rmap(rs@), kv(*key)),
{
    match find_result(rs, key) {
        Some(i) => rs[i].1.status == ScriptRunStatus::Succeeded,
        None => false,
    }
}

fn has_failed(rs: &Vec<(ScriptKey, ScriptRun)>, key: &ScriptKey) -> (r: bool)
    ensures
        r == failed_at(rmap(rs@), kv(*key)),
{
    match find_result(rs, key) {
        Some(i) => rs[i].1.status != ScriptRunStatus::Succeeded,
        None => false,
    }
}

/// A recorded run of one of a row's scripts that did not succeed.
pub open spec fn alert_of(e: (ScriptKey, ScriptRun), t: AssetType, slug: Seq<char>) -> bool {
    e.0.row.asset_type == t && e.0.row.slug@ == slug && e.1.status != ScriptRunStatus::Succeeded
}

// ---------------------------------------------------------------------------------------
// The queue as plain values
// ---------------------------------------------------------------------------------------

/// A script waiting to run, and the scripts that must have succeeded before it starts.
#[derive(Debug, Clone)]
pub struct QueuedScript {
    pub key: ScriptKey,
    pub depends_on: Vec<ScriptKey>,
}

pub type QueuedView = (KeyView, Seq<KeyView>);

pub open spec fn qv(q: QueuedScript) -> QueuedView {
    (kv(q.key), kvs(q.depends_on@))
}

pub open spec fn qvs(qs: Seq<QueuedScript>) -> Seq<QueuedView> {
    qs.map_values(|q: QueuedScript| qv(q))
}

/// The queue of one window: the scripts waiting, in the order they were asked for; the
/// one running, if any; and how each script that ended did.
#[derive(Debug)]
pub struct ScriptQueue {
    pub queue: Vec<QueuedScript>,
    pub running: Option<ScriptKey>,
    pub results: Vec<(ScriptKey, ScriptRun)>,
}

#[verifier::ext_equal]
pub struct QueueView {
    pub queue: Seq<QueuedView>,
    pub running: Option<KeyView>,
    pub results: Map<KeyView, RunView>,
}

impl View for ScriptQueue {
    type V = QueueView;

    open spec fn view(&self) -> QueueView {
        QueueView {
            queue: qvs(self.queue@),
            running: match self.running {
                Some(k) => Some(kv(k)),
                None => None,
            },
            results: rmap(self.results@),
        }
    }
}

pub open spec fn kind_label(k: ScriptKind) -> Seq<char> {
    if k == ScriptKind::Normalize {
        "Normalize"@
    } else {
        "Render"@
    }
}

/// What a blocked script records: that its dependency failed outright, or did not succeed
/// (it was blocked itself).
pub open spec fn blocked_text(kind: ScriptKind, dep: ScriptKind, dep_failed: bool) -> Seq<char> {
    kind_label(kind) + " blocked because "@ + kind_label(dep) + if dep_failed {
        " failed"@
    } else {
        " did not succeed"@
    }
}

pub open spec fn blocked_run(kind: ScriptKind, dep: ScriptKind, dep_failed: bool, now: u64) -> RunView {
    (kind, ScriptRunStatus::Blocked, blocked_text(kind, dep, dep_failed), now, now)
}

/// The first dependency that ended without succeeding.
pub open spec fn first_failed(m: Map<KeyView, RunView>, deps: Seq<KeyView>) -> Option<KeyView>
    decreases deps.len(),
{
    if deps.len() == 0 {
        None
    } else if failed_at(m, deps[0]) {
        Some(deps[0])
    } else {
        first_failed(m, deps.drop_first())
    }
}

/// One pass over the queue, front to back: each script with a dependency that did not
/// succeed is blocked, which can block later ones in the same pass.
pub open spec fn sweep(q: Seq<QueuedView>, m: Map<KeyView, RunView>, now: u64) -> (Seq<QueuedView>, Map<KeyView, RunView>)
    decreases q.len(),
{
    if q.len() == 0 {
        (q, m)
    } else {
        let prev = sweep(q.drop_last(), m, now);
        let e = q.last();
        match first_failed(prev.1, e.1) {
            Some(d) => (prev.0, prev.1.insert(e.0, blocked_run(e.0.2, d.2, false, now))),
            None => (prev.0.push(e), prev.1),
        }
    }
}

/// Passes until one blocks nothing.
pub open spec fn resolve(q: Seq<QueuedView>, m: Map<KeyView, RunView>, now: u64) -> (Seq<QueuedView>, Map<KeyView, RunView>)
    decreases q.len(),
{
    let s = sweep(q, m, now);
    if s.0.len() >= q.len() {
        s
    } else {
        resolve(s.0, s.1, now)
    }
}

/// One pass blocking every script that depends on `failed`, which has just failed.
pub open spec fn block_pass(q: Seq<QueuedView>, m: Map<KeyView, RunView>, failed: KeyView, now: u64) -> (Seq<QueuedView>, Map<KeyView, RunView>)
    decreases q.len(),
{
    if q.len() == 0 {
        (q, m)
    } else {
        let prev = block_pass(q.drop_last(), m, failed, now);
        let e = q.last();
        if e.1.contains(failed) {
            (prev.0, prev.1.insert(e.0, blocked_run(e.0.2, failed.2, true, now)))
        } else {
            (prev.0.push(e), prev.1)
        }
    }
}

pub open spec fn ready_at(m: Map<KeyView, RunView>, deps: Seq<KeyView>) -> bool {
    forall|i: int| 0 <= i < deps.len() ==> succeeded_at(m, #[trigger] deps[i])
}

/// The index of the first queued script whose dependencies have all succeeded, or -1.
pub open spec fn first_ready(q: Seq<QueuedView>, m: Map<KeyView, RunView>, from: int) -> int
    decreases q.len() - from,
{
    if from < 0 || from >= q.len() {
        -1
    } else if ready_at(m, q[from].1) {
        from
    } else {
        first_ready(q, m, from + 1)
    }
}

/// Starts the first ready script when none is running.
pub open spec fn start_next(s: QueueView) -> (QueueView, Option<KeyView>) {
    if s.running is Some {
        (s, None)
    } else {
        let i = first_ready(s.queue, s.results, 0);
        if i < 0 {
            (s, None)
        } else {
            (QueueView { queue: s.queue.remove(i), running: Some(s.queue[i].0), results: s.results }, Some(s.queue[i].0))
        }
    }
}

pub open spec fn scheduled(s: QueueView, k: KeyView) -> bool {
    s.running == Some(k) || exists|i: int| 0 <= i < s.queue.len() && (#[trigger] s.queue[i]).0 == k
}


/// What asking for an action's scripts does, one script after the other: a script already
/// waiting or running is not asked for twice, but the next one still waits for it; a
/// script whose program cannot be found stops the request there; any other is queued
/// behind the one before it, forgetting how it did last time.
pub open spec fn enqueue_kinds(
    s: QueueView,
    row: (AssetType, Seq<char>),
    kinds: Seq<ScriptKind>,
    resolvable: Seq<ScriptKind>,
    deps: Seq<KeyView>,
) -> (QueueView, Option<ScriptKind>)
    decreases kinds.len(),
{
    if kinds.len() == 0 {
        (s, None)
    } else {
        let k = (row.0, row.1, kinds[0]);
        if scheduled(s, k) {
            enqueue_kinds(s, row, kinds.drop_first(), resolvable, seq![k])
        } else if !resolvable.contains(kinds[0]) {
            (s, Some(kinds[0]))
        } else {
            enqueue_kinds(
                QueueView { queue: s.queue.push((k, deps)), running: s.running, results: s.results.remove(k) },
                row,
                kinds.drop_first(),
                resolvable,
                seq![k],
            )
        }
    }
}

/// What the queue does when the running script ends with `run`: it is recorded; when it
/// did not succeed, what depends on it is blocked; then whatever can no longer succeed is
/// blocked, and the next ready script starts.
pub open spec fn finish_spec(s: QueueView, run: RunView, now: u64) -> (QueueView, Option<KeyView>)
    recommends
        s.running is Some,
{
    let k = s.running->0;
    let m1 = s.results.insert(k, run);
    let after = if run.1 != ScriptRunStatus::Succeeded {
        let b = block_pass(s.queue, m1, k, now);
        if b.0.len() < s.queue.len() {
            resolve(b.0, b.1, now)
        } else {
            b
        }
    } else {
        (s.queue, m1)
    };
    let r = resolve(after.0, after.1, now);
    start_next(QueueView { queue: r.0, running: None, results: r.1 })
}

pub open spec fn opt_kv(k: Option<ScriptKey>) -> Option<KeyView> {
    match k {
        Some(x) => Some(kv(x)),
        None => None,
    }
}

fn copy_keys(ks: &Vec<ScriptKey>) -> (r: Vec<ScriptKey>)
    ensures
        kvs(r@) == kvs(ks@),
{
    let mut out: Vec<ScriptKey> = Vec::new();
    let mut i: usize = 0;
    while i < ks.len()
        invariant
            i <= ks@.len(),
            kvs(out@) == kvs(ks@.take(i as int)),
        decreases ks@.len() - i,
    {
        let ghost before = kvs(out@);
        out.push(copy_key(&ks[i]));
        assert(kvs(out@) =~= before.push(kv(ks@[i as int])));
        assert(kvs(ks@.take(i + 1)) =~= kvs(ks@.take(i as int)).push(kv(ks@[i as int])));
        i += 1;
    }
    assert(ks@.take(ks@.len() as int) =~= ks@);
    out
}

fn copy_queued(q: &QueuedScript) -> (r: QueuedScript)
    ensures
        qv(r) == qv(*q),
{
    QueuedScript { key: copy_key(&q.key), depends_on: copy_keys(&q.depends_on) }
}

fn has_key(ks: &Vec<ScriptKey>, key: &ScriptKey) -> (r: bool)
    ensures
        r == kvs(ks@).contains(kv(*key)),
{
    let mut i: usize = 0;
    while i < ks.len()
        invariant
            i <= ks@.len(),
            forall|j: int| 0 <= j < i ==> kv(ks@[j]) != kv(*key),
        decreases ks@.len() - i,
    {
        if same_key(&ks[i], key) {
            assert(kvs(ks@)[i as int] == kv(*key));
            return true;
        }
        i += 1;
    }
    assert forall|j: int| 0 <= j < kvs(ks@).len() implies kvs(ks@)[j] != kv(*key) by {
        assert(kvs(ks@)[j] == kv(ks@[j]));
    }
    false
}

/// The first dependency that ended without succeeding, by its index.
fn first_failed_dep(rs: &Vec<(ScriptKey, ScriptRun)>, deps: &Vec<ScriptKey>) -> (r: Option<usize>)
    ensures
        match r {
            Some(j) => j < deps@.len() && first_failed(rmap(rs@), kvs(deps@)) == Some(kv(deps@[j as int])),
            None => first_failed(rmap(rs@), kvs(deps@)) is None,
        },
{
    let ghost m = rmap(rs@);
    let ghost all = kvs(deps@);
    let mut j: usize = 0;
    assert(all.subrange(0, all.len() as int) =~= all);
    while j < deps.len()
        invariant
            j <= deps@.len(),
            m == rmap(rs@),
            all == kvs(deps@),
            first_failed(m, all) == first_failed(m, all.subrange(j as int, all.len() as int)),
        decreases deps@.len() - j,
    {
        let ghost rest = all.subrange(j as int, all.len() as int);
        assert(rest[0] == kv(deps@[j as int]));
        assert(rest.drop_first() =~= all.subrange(j + 1, all.len() as int));
        if has_failed(rs, &deps[j]) {
            return Some(j);
        }
        j += 1;
    }
    None
}

fn blocked_message(kind: ScriptKind, dep: ScriptKind, dep_failed: bool) -> (r: String)
    ensures
        r@ == blocked_text(kind, dep, dep_failed),
{
    let mut v = chars_of(kind.label());
    extend_str(&mut v, " blocked because ");
    extend_str(&mut v, dep.label());
    if dep_failed {
        extend_str(&mut v, " failed");
    } else {
        extend_str(&mut v, " did not succeed");
    }
    string_of(&v)
}

fn blocked(kind: ScriptKind, dep: ScriptKind, dep_failed: bool, now: u64) -> (r: ScriptRun)
    ensures
        rv(r) == blocked_run(kind, dep, dep_failed, now),
{
    ScriptRun {
        kind,
        status: ScriptRunStatus::Blocked,
        output: blocked_message(kind, dep, dep_failed),
        started_at: now,
        finished_at: now,
    }
}

impl ScriptQueue {
    /// Nothing queued, running or recorded.
    pub fn new() -> (r: ScriptQueue)
        ensures
            r@.queue == Seq::<QueuedView>::empty(),
            r@.running is None,
            r@.results == Map::<KeyView, RunView>::empty(),
    {
        let r = ScriptQueue { queue: Vec::new(), running: None, results: Vec::new() };
        assert(r@.queue =~= Seq::<QueuedView>::empty());
        assert(r@.results =~= Map::<KeyView, RunView>::empty());
        r
    }

    /// One pass blocking the scripts with a dependency that did not succeed.
    fn sweep_once(&mut self, now: u64)
        ensures
            (final(self)@.queue, final(self)@.results) == sweep(old(self)@.queue, old(self)@.results, now),
            final(self)@.running == old(self)@.running,
    {
        let ghost q0 = self@.queue;
        let ghost m0 = self@.results;
        let mut kept: Vec<QueuedScript> = Vec::new();
        let mut i: usize = 0;
        assert(q0.take(0) =~= Seq::<QueuedView>::empty());
        assert(qvs(kept@) =~= Seq::<QueuedView>::empty());
        while i < self.queue.len()
            invariant
                i <= self.queue@.len(),
                qvs(self.queue@) == q0,
                (qvs(kept@), rmap(self.results@)) == sweep(q0.take(i as int), m0, now),
                self@.running == old(self)@.running,
            decreases self.queue@.len() - i,
        {
            let ghost t = q0.take(i + 1);
            assert(t.drop_last() =~= q0.take(i as int));
            assert(t.last() == qv(self.queue@[i as int]));
            let ghost before = qvs(kept@);
            let ghost mb = rmap(self.results@);
            match first_failed_dep(&self.results, &self.queue[i].depends_on) {
                Some(j) => {
                    let run = blocked(self.queue[i].key.kind, self.queue[i].depends_on[j].kind, false, now);
                    let key = copy_key(&self.queue[i].key);
                    let ghost r0 = self.results@;
                    record_result(&mut self.results, &key, run);
                    proof {
                        lemma_rmap_record(r0, self.results@, kv(key), blocked_run(key.kind, self.queue@[i as int].depends_on@[j as int].kind, false, now));
                    }
                },
                None => {
                    kept.push(copy_queued(&self.queue[i]));
                    assert(qvs(kept@) =~= before.push(qv(self.queue@[i as int])));
                },
            }
            i += 1;
        }
        assert(q0.take(q0.len() as int) =~= q0);
        self.queue = kept;
    }

    /// Blocks, pass after pass, every script that can no longer succeed.
    fn resolve_blocked(&mut self, now: u64)
        ensures
            (final(self)@.queue, final(self)@.results) == resolve(old(self)@.queue, old(self)@.results, now),
            final(self)@.running == old(self)@.running,
    {
        let ghost target = resolve(self@.queue, self@.results, now);
        loop
            invariant_except_break
                resolve(self@.queue, self@.results, now) == target,
            invariant
                self@.running == old(self)@.running,
            ensures
                (self@.queue, self@.results) == target,
                self@.running == old(self)@.running,
            decreases self@.queue.len(),
        {
            let n = self.queue.len();
            let ghost q = self@.queue;
            let ghost m = self@.results;
            self.sweep_once(now);
            if self.queue.len() >= n {
                assert(self@.queue.len() == self.queue@.len());
                break;
            }
        }
    }

    /// Blocks every script that depends on `failed`, which has just failed; then, when any
    /// was, whatever can no longer succeed.
    fn block_dependents(&mut self, failed: &ScriptKey, now: u64)
        ensures
            ({
                let b = block_pass(old(self)@.queue, old(self)@.results, kv(*failed), now);
                (final(self)@.queue, final(self)@.results) == if b.0.len() < old(self)@.queue.len() {
                    resolve(b.0, b.1, now)
                } else {
                    b
                }
            }),
            final(self)@.running == old(self)@.running,
    {
        let ghost q0 = self@.queue;
        let ghost m0 = self@.results;
        let ghost f = kv(*failed);
        let n = self.queue.len();
        let mut kept: Vec<QueuedScript> = Vec::new();
        let mut i: usize = 0;
        assert(q0.take(0) =~= Seq::<QueuedView>::empty());
        assert(qvs(kept@) =~= Seq::<QueuedView>::empty());
        while i < self.queue.len()
            invariant
                i <= self.queue@.len(),
                n == self.queue@.len(),
                qvs(self.queue@) == q0,
                (qvs(kept@), rmap(self.results@)) == block_pass(q0.take(i as int), m0, f, now),
                self@.running == old(self)@.running,
                f == kv(*failed),
            decreases self.queue@.len() - i,
        {
            let ghost t = q0.take(i + 1);
            assert(t.drop_last() =~= q0.take(i as int));
            assert(t.last() == qv(self.queue@[i as int]));
            let ghost before = qvs(kept@);
            if has_key(&self.queue[i].depends_on, failed) {
                let run = blocked(self.queue[i].key.kind, failed.kind, true, now);
                let key = copy_key(&self.queue[i].key);
                let ghost r0 = self.results@;
                record_result(&mut self.results, &key, run);
                proof {
                    lemma_rmap_record(r0, self.results@, kv(key), blocked_run(key.kind, failed.kind, true, now));
                }
            } else {
                kept.push(copy_queued(&self.queue[i]));
                assert(qvs(kept@) =~= before.push(qv(self.queue@[i as int])));
            }
            i += 1;
        }
        assert(q0.take(q0.len() as int) =~= q0);
        self.queue = kept;
        if self.queue.len() < n {
            self.resolve_blocked(now);
        }
    }

    fn all_succeeded(&self, deps: &Vec<ScriptKey>) -> (r: bool)
        ensures
            r == ready_at(self@.results, kvs(deps@)),
    {
        let mut j: usize = 0;
        while j < deps.len()
            invariant
                j <= deps@.len(),
                forall|k: int| 0 <= k < j ==> succeeded_at(self@.results, #[trigger] kvs(deps@)[k]),
            decreases deps@.len() - j,
        {
            if !has_succeeded(&self.results, &deps[j]) {
                assert(kvs(deps@)[j as int] == kv(deps@[j as int]));
                return false;
            }
            assert(kvs(deps@)[j as int] == kv(deps@[j as int]));
            j += 1;
        }
        true
    }

    /// Starts the first queued script whose dependencies have all succeeded, when no script
    /// is running; the caller runs the script it names.
    pub fn start_next_ready(&mut self) -> (r: Option<ScriptKey>)
        ensures
            (final(self)@, opt_kv(r)) == start_next(old(self)@),
    {
        if self.running.is_some() {
            assert(old(self)@.running is Some);
            return None;
        }
        let ghost q = self@.queue;
        let ghost m = self@.results;
        let mut i: usize = 0;
        while i < self.queue.len()
            invariant
                i <= self.queue@.len(),
                self@.queue == q,
                self@.results == m,
                self.running is None,
                q == old(self)@.queue,
                m == old(self)@.results,
                old(self)@.running is None,
                first_ready(q, m, 0) == first_ready(q, m, i as int),
            decreases self.queue@.len() - i,
        {
            assert(q[i as int].1 == kvs(self.queue@[i as int].depends_on@));
            if self.all_succeeded(&self.queue[i].depends_on) {
                assert(first_ready(q, m, i as int) == i as int);
                let ghost ek = kv(self.queue@[i as int].key);
                let entry = self.queue.remove(i);
                assert(qvs(self.queue@) =~= q.remove(i as int));
                let started = copy_key(&entry.key);
                self.running = Some(entry.key);
                assert(self@ =~= QueueView { queue: q.remove(i as int), running: Some(ek), results: m });
                return Some(started);
            }
            i += 1;
        }
        None
    }

    /// How the script did the last time it ended, if it has.
    pub fn result_for(&self, key: &ScriptKey) -> (r: Option<&ScriptRun>)
        ensures
            match r {
                Some(x) => self@.results.contains_key(kv(*key)) && rv(*x) == self@.results[kv(*key)],
                None => !self@.results.contains_key(kv(*key)),
            },
    {
        match find_result(&self.results, key) {
            Some(i) => Some(&self.results[i].1),
            None => None,
        }
    }

    /// The script running on a row, if any.
    pub fn running_kind_for_row(&self, row: &RowKey) -> (r: Option<ScriptKind>)
        ensures
            match self@.running {
                Some(k) => if (k.0, k.1) == (row.asset_type, row.slug@) {
                    r == Some(k.2)
                } else {
                    r is None
                },
                None => r is None,
            },
    {
        match &self.running {
            Some(k) => {
                if k.row.asset_type == row.asset_type && str_eq(k.row.slug.as_str(), row.slug.as_str()) {
                    Some(k.kind)
                } else {
                    None
                }
            },
            None => None,
        }
    }

    /// Whether a row has a script waiting while none of its scripts runs.
    pub fn is_queued_for_row(&self, row: &RowKey) -> (r: bool)
        ensures
            r == ((exists|i: int|
                0 <= i < self@.queue.len() && ((#[trigger] self@.queue[i]).0.0, self@.queue[i].0.1) == (
                    row.asset_type,
                    row.slug@,
                )) && !(self@.running matches Some(k) && (k.0, k.1) == (row.asset_type, row.slug@))),
    {
        if self.running_kind_for_row(row).is_some() {
            return false;
        }
        let mut i: usize = 0;
        while i < self.queue.len()
            invariant
                i <= self.queue@.len(),
                !(self@.running matches Some(k) && (k.0, k.1) == (row.asset_type, row.slug@)),
                forall|j: int|
                    0 <= j < i ==> ((#[trigger] self@.queue[j]).0.0, self@.queue[j].0.1) != (row.asset_type, row.slug@),
            decreases self.queue@.len() - i,
        {
            assert(self@.queue[i as int] == qv(self.queue@[i as int]));
            let k = &self.queue[i].key;
            if k.row.asset_type == row.asset_type && str_eq(k.row.slug.as_str(), row.slug.as_str()) {
                return true;
            }
            i += 1;
        }
        false
    }

    /// The latest recorded run of a row's scripts that did not succeed, to warn about:
    /// of those that ended last, the one recorded last.
    pub fn latest_alert_for_row(&self, row: &RowKey) -> (r: Option<&ScriptRun>)
        ensures
            match r {
                Some(x) => exists|i: int|
                    0 <= i < self.results@.len() && alert_of(self.results@[i], row.asset_type, row.slug@) && *x
                        == self.results@[i].1,
                None => true,
            },
            r matches Some(x) ==> forall|j: int|
                0 <= j < self.results@.len() && alert_of(#[trigger] self.results@[j], row.asset_type, row.slug@)
                    ==> self.results@[j].1.finished_at <= x.finished_at,
            r is None ==> forall|j: int|
                0 <= j < self.results@.len() ==> !alert_of(#[trigger] self.results@[j], row.asset_type, row.slug@),
    {
        let mut best: Option<usize> = None;
        let mut i: usize = 0;
        while i < self.results.len()
            invariant
                i <= self.results@.len(),
                match best {
                    Some(b) => b < i && alert_of(self.results@[b as int], row.asset_type, row.slug@)
                        && forall|j: int|
                        0 <= j < i && alert_of(#[trigger] self.results@[j], row.asset_type, row.slug@)
                            ==> self.results@[j].1.finished_at <= self.results@[b as int].1.finished_at,
                    None => forall|j: int|
                        0 <= j < i ==> !alert_of(#[trigger] self.results@[j], row.asset_type, row.slug@),
                },
            decreases self.results@.len() - i,
        {
            let (k, run) = &self.results[i];
            let alert = k.row.asset_type == row.asset_type && str_eq(k.row.slug.as_str(), row.slug.as_str())
                && run.status != ScriptRunStatus::Succeeded;
            if alert {
                match best {
                    Some(b) => {
                        if self.results[b].1.finished_at <= run.finished_at {
                            best = Some(i);
                        }
                    },
                    None => {
                        best = Some(i);
                    },
                }
            }
            i += 1;
        }
        match best {
            Some(b) => Some(&self.results[b].1),
            None => None,
        }
    }

    /// Whether the script is waiting or running.
    pub fn is_scheduled(&self, key: &ScriptKey) -> (r: bool)
        ensures
            r == scheduled(self@, kv(*key)),
    {
        match &self.running {
            Some(k) => {
                if same_key(k, key) {
                    return true;
                }
            },
            None => {},
        }
        let mut i: usize = 0;
        while i < self.queue.len()
            invariant
                i <= self.queue@.len(),
                forall|j: int| 0 <= j < i ==> (#[trigger] self@.queue[j]).0 != kv(*key),
            decreases self.queue@.len() - i,
        {
            assert(self@.queue[i as int] == qv(self.queue@[i as int]));
            if same_key(&self.queue[i].key, key) {
                return true;
            }
            i += 1;
        }
        false
    }

    /// Records how the running script ended, blocks what can no longer succeed, and starts
    /// the next ready script; the caller runs the script it names.
    pub fn finish(&mut self, run: ScriptRun, now: u64) -> (r: Option<ScriptKey>)
        requires
            old(self)@.running is Some,
        ensures
            (final(self)@, opt_kv(r)) == finish_spec(old(self)@, rv(run), now),
    {
        let key = match &self.running {
            Some(k) => copy_key(k),
            None => {
                return None;
            },
        };
        self.running = None;
        let failed = run.status != ScriptRunStatus::Succeeded;
        let ghost r0 = self.results@;
        let ghost rr = rv(run);
        record_result(&mut self.results, &key, run);
        proof {
            lemma_rmap_record(r0, self.results@, kv(key), rr);
        }
        if failed {
            self.block_dependents(&key, now);
        }
        self.resolve_blocked(now);
        self.start_next_ready()
    }

    /// Asks for an action's scripts on a row; `resolvable` lists the scripts whose programs
    /// were found. Names the script whose program was not found, if one stopped the
    /// request; else the script the caller should now run, if one could start.
    pub fn enqueue_action(
        &mut self,
        row: &RowKey,
        action: ScriptAction,
        resolvable: &[ScriptKind],
    ) -> (r: Result<Option<ScriptKey>, ScriptKind>)
        ensures
            ({
                let e = enqueue_kinds(
                    old(self)@,
                    (row.asset_type, row.slug@),
                    action_kinds(action),
                    resolvable@,
                    Seq::empty(),
                );
                match e.1 {
                    Some(kind) => r == Err::<Option<ScriptKey>, ScriptKind>(kind) && final(self)@ == e.0,
                    None => r is Ok && (final(self)@, opt_kv(r->Ok_0)) == start_next(e.0),
                }
            }),
    {
        let kinds = action.kinds();
        let ghost rowv = (row.asset_type, row.slug@);
        let ghost target = enqueue_kinds(self@, rowv, kinds@, resolvable@, Seq::empty());
        let mut deps: Vec<ScriptKey> = Vec::new();
        let mut i: usize = 0;
        assert(kinds@.subrange(0, kinds@.len() as int) =~= kinds@);
        assert(kvs(deps@) =~= Seq::<KeyView>::empty());
        while i < kinds.len()
            invariant
                i <= kinds@.len(),
                kinds@ == action_kinds(action),
                rowv == (row.asset_type, row.slug@),
                target == enqueue_kinds(old(self)@, rowv, action_kinds(action), resolvable@, Seq::empty()),
                enqueue_kinds(self@, rowv, kinds@.subrange(i as int, kinds@.len() as int), resolvable@, kvs(deps@))
                    == target,
            decreases kinds@.len() - i,
        {
            let kind = kinds[i];
            let ghost rest = kinds@.subrange(i as int, kinds@.len() as int);
            assert(rest[0] == kind);
            assert(rest.drop_first() =~= kinds@.subrange(i + 1, kinds@.len() as int));
            let key = ScriptKey { row: RowKey { asset_type: row.asset_type, slug: owned(row.slug.as_str()) }, kind };
            assert(kv(key) == (rowv.0, rowv.1, kind));
            if self.is_scheduled(&key) {
                let mut one: Vec<ScriptKey> = Vec::new();
                one.push(key);
                deps = one;
                assert(kvs(deps@) =~= seq![(rowv.0, rowv.1, kind)]);
            } else if !contains_kind(resolvable, kind) {
                return Err(kind);
            } else {
                let ghost s0 = self@;
                let ghost d0 = kvs(deps@);
                let ghost r0 = self.results@;
                forget_result(&mut self.results, &key);
                proof {
                    lemma_rmap_forget(r0, self.results@, kv(key));
                }
                self.queue.push(QueuedScript { key: copy_key(&key), depends_on: copy_keys(&deps) });
                assert(qvs(self.queue@) =~= s0.queue.push((kv(key), d0)));
                assert(self@ =~= QueueView {
                    queue: s0.queue.push((kv(key), d0)),
                    running: s0.running,
                    results: s0.results.remove(kv(key)),
                });
                let mut one: Vec<ScriptKey> = Vec::new();
                one.push(key);
                deps = one;
                assert(kvs(deps@) =~= seq![(rowv.0, rowv.1, kind)]);
            }
            i += 1;
        }
        Ok(self.start_next_ready())
    }
}


fn contains_kind(kinds: &[ScriptKind], kind: ScriptKind) -> (r: bool)
    ensures
        r == kinds@.contains(kind),
{
    let mut i: usize = 0;
    while i < kinds.len()
        invariant
            i <= kinds@.len(),
            forall|j: int| 0 <= j < i ==> kinds@[j] != kind,
        decreases kinds@.len() - i,
    {
        if kinds[i] == kind {
            return true;
        }
        i += 1;
    }
    false
}


// ---------------------------------------------------------------------------------------
// What the queue promises
// ---------------------------------------------------------------------------------------

proof fn lemma_first_ready(q: Seq<QueuedView>, m: Map<KeyView, RunView>, from: int)
    requires
        first_ready(q, m, from) >= 0,
    ensures
        0 <= first_ready(q, m, from) < q.len(),
        ready_at(m, q[first_ready(q, m, from)].1),
    decreases q.len() - from,
{
    if from >= 0 && from < q.len() && !ready_at(m, q[from].1) {
        lemma_first_ready(q, m, from + 1);
    }
}

/// One script runs at a time, and a script only starts once every script it depends on
/// has succeeded.
pub proof fn law_a_script_starts_only_after_its_dependencies_succeeded(s: QueueView)
    ensures
        s.running is Some ==> start_next(s).1 is None,
        start_next(s).1 matches Some(k) ==> exists|i: int|
            0 <= i < s.queue.len() && (#[trigger] s.queue[i]).0 == k && ready_at(s.results, s.queue[i].1),
        start_next(s).1 matches Some(k) ==> start_next(s).0.running == Some(k),
{
    if s.running is None && first_ready(s.queue, s.results, 0) >= 0 {
        lemma_first_ready(s.queue, s.results, 0);
    }
}

proof fn lemma_sweep(q: Seq<QueuedView>, m: Map<KeyView, RunView>, now: u64)
    ensures
        sweep(q, m, now).0.len() <= q.len(),
        sweep(q, m, now).0.len() == q.len() ==> {
            &&& sweep(q, m, now) == (q, m)
            &&& forall|i: int| 0 <= i < q.len() ==> first_failed(m, (#[trigger] q[i]).1) is None
        },
    decreases q.len(),
{
    if q.len() > 0 {
        let d = q.drop_last();
        lemma_sweep(d, m, now);
        let prev = sweep(d, m, now);
        if sweep(q, m, now).0.len() == q.len() {
            assert(first_failed(prev.1, q.last().1) is None);
            assert(d.push(q.last()) =~= q);
            assert forall|i: int| 0 <= i < q.len() implies first_failed(m, (#[trigger] q[i]).1) is None by {
                if i < q.len() - 1 {
                    assert(q[i] == d[i]);
                }
            }
        }
    }
}

/// Once the queue has been resolved, no waiting script depends on a script that ended
/// without succeeding.
pub proof fn law_resolving_leaves_nothing_waiting_on_a_failure(q: Seq<QueuedView>, m: Map<KeyView, RunView>, now: u64)
    ensures
        ({
            let r = resolve(q, m, now);
            forall|i: int| 0 <= i < r.0.len() ==> first_failed(r.1, (#[trigger] r.0[i]).1) is None
        }),
    decreases q.len(),
{
    lemma_sweep(q, m, now);
    let s = sweep(q, m, now);
    if s.0.len() < q.len() {
        law_resolving_leaves_nothing_waiting_on_a_failure(s.0, s.1, now);
    }
}

/// After a script ends, no waiting script depends on one that ended without succeeding:
/// what can no longer run has been blocked.
pub proof fn law_after_a_script_ends_nothing_waits_on_a_failure(s: QueueView, run: RunView, now: u64)
    requires
        s.running is Some,
    ensures
        ({
            let f = finish_spec(s, run, now).0;
            forall|i: int| 0 <= i < f.queue.len() ==> first_failed(f.results, (#[trigger] f.queue[i]).1) is None
        }),
{
    let k = s.running->0;
    let m1 = s.results.insert(k, run);
    let after = if run.1 != ScriptRunStatus::Succeeded {
        let b = block_pass(s.queue, m1, k, now);
        if b.0.len() < s.queue.len() {
            resolve(b.0, b.1, now)
        } else {
            b
        }
    } else {
        (s.queue, m1)
    };
    let r = resolve(after.0, after.1, now);
    law_resolving_leaves_nothing_waiting_on_a_failure(after.0, after.1, now);
    let v = QueueView { queue: r.0, running: None, results: r.1 };
    let i0 = first_ready(v.queue, v.results, 0);
    if i0 >= 0 {
        lemma_first_ready(v.queue, v.results, 0);
        let f = start_next(v).0;
        assert forall|i: int| 0 <= i < f.queue.len() implies first_failed(f.results, (#[trigger] f.queue[i]).1) is None by {
            if i < i0 {
                assert(f.queue[i] == r.0[i]);
            } else {
                assert(f.queue[i] == r.0[i + 1]);
            }
        }
    }
}

} // verus!
