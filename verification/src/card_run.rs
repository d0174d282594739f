//! A card's ingest run as the session keeps it: where each file stands, why the failed ones
//! failed, what the manifest has gained since it was last written, and when the manifest
//! and the card's log are due. Workers, timers and files are the caller's: it hands each
//! worker message and each finished scan in here, and carries out what comes back.
use vstd::prelude::*;
use crate::ingest::{card_dir, path_join, path_join_str, thumb_rel_path, thumb_rel_spec, CardFingerprint};
use crate::ingest_job::{
    all_done, all_settled, bytes_outstanding, count_of, count_spec, outstanding_spec, FileState, Plan,
};
use crate::ingest_log::{plural, plural_spec, Summary};
use crate::manifest::{key_for, key_spec, Entry, Manifest};
use crate::scan::{CardScan, IngestFile, Skipped};
use crate::text::{chars_of, dec, dec_usize, extend, extend_str, join, join_vec, owned, str_eq, string_of, views};

verus! {

/// Everything a card contributes to a session.
pub struct CardRun {
    pub id: u64,
    pub drive_letter: char,
    pub card_name: String,
    pub card_signature: String,
    /// The card's root folder, `I:\` for drive `I`.
    pub root: String,
    pub dest_dir: String,
    pub scan: CardScan,
    /// One state per scanned file, in the scan's order.
    pub states: Vec<FileState>,
    /// Why a file failed, by its position in the scan; each position at most once.
    pub errors: Vec<(usize, String)>,
    pub manifest: Manifest,
    /// Entries written since the manifest was last flushed.
    pub unflushed: usize,
    pub started: bool,
    pub logged: bool,
    /// Set when the run is cancelled, cleared when it is started again.
    pub cancelled: bool,
}

/// The recorded failures as a map from file position to reason; a later record for a
/// position wins.
pub open spec fn err_map(s: Seq<(usize, String)>) -> Map<usize, Seq<char>>
    decreases s.len(),
{
    if s.len() == 0 {
        Map::empty()
    } else {
        err_map(s.drop_last()).insert(s.last().0, s.last().1@)
    }
}

pub open spec fn positions_unique(s: Seq<(usize, String)>) -> bool {
    forall|i: int, j: int| 0 <= i < j < s.len() ==> s[i].0 != s[j].0
}

/// A run as the contracts speak of it.
#[verifier::ext_equal]
pub struct RunView {
    pub id: u64,
    pub drive_letter: char,
    pub card_name: Seq<char>,
    pub card_signature: Seq<char>,
    pub root: Seq<char>,
    pub dest_dir: Seq<char>,
    pub scan: CardScan,
    pub states: Seq<FileState>,
    pub errors: Map<usize, Seq<char>>,
    pub manifest_version: u32,
    pub manifest_signature: Seq<char>,
    pub manifest_name: Seq<char>,
    pub entries: Map<Seq<char>, Entry>,
    pub unflushed: nat,
    pub started: bool,
    pub logged: bool,
    pub cancelled: bool,
}

impl View for CardRun {
    type V = RunView;

    open spec fn view(&self) -> RunView {
        RunView {
            id: self.id,
            drive_letter: self.drive_letter,
            card_name: self.card_name@,
            card_signature: self.card_signature@,
            root: self.root@,
            dest_dir: self.dest_dir@,
            scan: self.scan,
            states: self.states@,
            errors: err_map(self.errors@),
            manifest_version: self.manifest.version,
            manifest_signature: self.manifest.card_signature@,
            manifest_name: self.manifest.card_name@,
            entries: self.manifest.map(),
            unflushed: self.unflushed as nat,
            started: self.started,
            logged: self.logged,
            cancelled: self.cancelled,
        }
    }
}

impl RunView {
    /// Every file has reached a terminal state; never true of a run with no files.
    pub open spec fn settled(self) -> bool {
        self.states.len() > 0 && forall|i: int| 0 <= i < self.states.len() ==> self.states[i].settled()
    }

    /// Every file is done: the card can be ejected.
    pub open spec fn complete(self) -> bool {
        self.states.len() > 0 && forall|i: int| 0 <= i < self.states.len() ==> self.states[i] == FileState::Done
    }

    pub open spec fn running(self) -> bool {
        self.started && !self.settled() && !self.cancelled
    }
}

/// What a worker tells the session about one file of one card.
pub enum IngestMsg {
    /// A file moved into a new state short of the end.
    Stage { card: u64, index: usize, state: FileState },
    Done { card: u64, index: usize, entry: Entry },
    Failed { card: u64, index: usize, error: String },
}

impl IngestMsg {
    pub open spec fn card(self) -> u64 {
        match self {
            IngestMsg::Stage { card, .. } => card,
            IngestMsg::Done { card, .. } => card,
            IngestMsg::Failed { card, .. } => card,
        }
    }
}

/// A run after one of its own messages: a stage or an ending is recorded for a file the
/// run has; an ending clears or records the file's failure; a finished file's record joins
/// the manifest under its portable key and counts towards the next flush.
pub open spec fn apply_spec(v: RunView, m: IngestMsg) -> RunView {
    match m {
        IngestMsg::Stage { index, state, .. } => RunView {
            states: if index < v.states.len() { v.states.update(index as int, state) } else { v.states },
            ..v
        },
        IngestMsg::Done { index, entry, .. } => {
            let has_file = index < v.scan.files@.len();
            RunView {
                states: if index < v.states.len() { v.states.update(index as int, FileState::Done) } else { v.states },
                errors: v.errors.remove(index),
                entries: if has_file {
                    v.entries.insert(key_spec(v.scan.files@[index as int].rel_path@), entry)
                } else {
                    v.entries
                },
                unflushed: if has_file { v.unflushed + 1 } else { v.unflushed },
                ..v
            }
        },
        IngestMsg::Failed { index, error, .. } => RunView {
            states: if index < v.states.len() { v.states.update(index as int, FileState::Failed) } else { v.states },
            errors: v.errors.insert(index, error@),
            ..v
        },
    }
}

// ---------------------------------------------------------------------------------------
// The failure records
// ---------------------------------------------------------------------------------------

proof fn lemma_err_absent(s: Seq<(usize, String)>, k: usize)
    requires
        forall|j: int| 0 <= j < s.len() ==> s[j].0 != k,
    ensures
        !err_map(s).contains_key(k),
    decreases s.len(),
{
    if s.len() > 0 {
        lemma_err_absent(s.drop_last(), k);
    }
}

proof fn lemma_err_remove(s: Seq<(usize, String)>, i: int)
    requires
        0 <= i < s.len(),
        positions_unique(s),
    ensures
        err_map(s.remove(i)) == err_map(s).remove(s[i].0),
        positions_unique(s.remove(i)),
    decreases s.len(),
{
    let k = s[i].0;
    let t = s.remove(i);
    if i == s.len() - 1 {
        assert(t =~= s.drop_last());
        lemma_err_absent(s.drop_last(), k);
        assert(err_map(t) =~= err_map(s).remove(k));
    } else {
        assert(t.drop_last() =~= s.drop_last().remove(i));
        assert(t.last() == s.last());
        lemma_err_remove(s.drop_last(), i);
        assert(s.last().0 != k);
        assert(err_map(t) =~= err_map(s).remove(k));
    }
}

proof fn lemma_err_update(s: Seq<(usize, String)>, i: int, e: String)
    requires
        0 <= i < s.len(),
        positions_unique(s),
    ensures
        err_map(s.update(i, (s[i].0, e))) == err_map(s).insert(s[i].0, e@),
        positions_unique(s.update(i, (s[i].0, e))),
    decreases s.len(),
{
    let k = s[i].0;
    let t = s.update(i, (k, e));
    if i == s.len() - 1 {
        assert(t.drop_last() =~= s.drop_last());
        assert(err_map(t) =~= err_map(s).insert(k, e@));
    } else {
        assert(t.drop_last() =~= s.drop_last().update(i, (k, e)));
        lemma_err_update(s.drop_last(), i, e);
        assert(s.last().0 != k);
        assert(err_map(t) =~= err_map(s).insert(k, e@));
    }
}

/// Position in `errors` of the record for file `index`, if there is one.
fn find_error(errors: &Vec<(usize, String)>, index: usize) -> (r: Option<usize>)
    ensures
        match r {
            Some(i) => i < errors@.len() && errors@[i as int].0 == index,
            None => forall|j: int| 0 <= j < errors@.len() ==> errors@[j].0 != index,
        },
{
    let mut i: usize = 0;
    while i < errors.len()
        invariant
            i <= errors.len(),
            forall|j: int| 0 <= j < i ==> errors@[j].0 != index,
        decreases errors.len() - i,
    {
        if errors[i].0 == index {
            return Some(i);
        }
        i += 1;
    }
    None
}

fn clear_error(errors: &mut Vec<(usize, String)>, index: usize)
    requires
        positions_unique(old(errors)@),
    ensures
        positions_unique(final(errors)@),
        err_map(final(errors)@) == err_map(old(errors)@).remove(index),
{
    match find_error(errors, index) {
        Some(i) => {
            proof {
                lemma_err_remove(errors@, i as int);
            }
            errors.remove(i);
        },
        None => {
            proof {
                lemma_err_absent(errors@, index);
            }
            assert(err_map(errors@) =~= err_map(errors@).remove(index));
        },
    }
}

fn record_error(errors: &mut Vec<(usize, String)>, index: usize, error: String)
    requires
        positions_unique(old(errors)@),
    ensures
        positions_unique(final(errors)@),
        err_map(final(errors)@) == err_map(old(errors)@).insert(index, error@),
{
    match find_error(errors, index) {
        Some(i) => {
            proof {
                lemma_err_update(errors@, i as int, error);
            }
            errors.set(i, (index, error));
        },
        None => {
            let ghost before = errors@;
            errors.push((index, error));
            assert(errors@.drop_last() =~= before);
        },
    }
}

// ---------------------------------------------------------------------------------------
// One run
// ---------------------------------------------------------------------------------------

/// A run just made for `card`: nothing scanned yet, its files bound for
/// `{ingest_root}/{friendly name}`, its root the card's drive.
pub open spec fn fresh_for(v: RunView, id: u64, card: CardFingerprint, ingest_root: Seq<char>) -> bool {
    &&& v.id == id
    &&& v.drive_letter == card.drive_letter
    &&& v.card_name == card.friendly_name@
    &&& v.card_signature == card.signature@
    &&& v.root == seq![card.drive_letter, ':', '\\']
    &&& v.dest_dir == path_join(ingest_root, card.friendly_name@)
    &&& v.scan.files@.len() == 0
    &&& v.states.len() == 0
    &&& v.errors == Map::<usize, Seq<char>>::empty()
    &&& v.entries == Map::<Seq<char>, Entry>::empty()
    &&& v.unflushed == 0
    &&& !v.started
    &&& !v.logged
    &&& !v.cancelled
}

impl CardRun {
    pub open spec fn wf(&self) -> bool {
        &&& self.manifest.wf()
        &&& positions_unique(self.errors@)
        &&& self.states@.len() == self.scan.files@.len()
    }

    /// A run for a card just plugged in: nothing scanned yet, its files bound for
    /// `{ingest_root}/{friendly name}`.
    pub fn for_card(id: u64, card: &CardFingerprint, ingest_root: &str) -> (r: CardRun)
        ensures
            r.wf(),
            fresh_for(r@, id, *card, ingest_root@),
    {
        let mut root: Vec<char> = Vec::new();
        root.push(card.drive_letter);
        root.push(':');
        root.push('\\');
        let run = CardRun {
            id,
            drive_letter: card.drive_letter,
            card_name: owned(card.friendly_name.as_str()),
            card_signature: owned(card.signature.as_str()),
            root: string_of(&root),
            dest_dir: card_dir(ingest_root, card),
            scan: CardScan {
                files: Vec::new(),
                ext_counts: Vec::new(),
                cameras: Vec::new(),
                skipped: Skipped { jpeg_with_raw: 0, other: 0 },
            },
            states: Vec::new(),
            errors: Vec::new(),
            manifest: Manifest::new(),
            unflushed: 0,
            started: false,
            logged: false,
            cancelled: false,
        };
        assert(root@ =~= seq![card.drive_letter, ':', '\\']);
        assert(err_map(run.errors@) =~= Map::<usize, Seq<char>>::empty());
        run
    }

    pub fn file_count(&self) -> (r: usize)
        ensures
            r == self.scan.files@.len(),
    {
        self.scan.files.len()
    }

    pub fn count_of(&self, state: FileState) -> (r: usize)
        ensures
            r == count_spec(self.states@, state),
    {
        count_of(self.states.as_slice(), state)
    }

    pub fn done_count(&self) -> (r: usize)
        ensures
            r == count_spec(self.states@, FileState::Done),
    {
        self.count_of(FileState::Done)
    }

    pub fn failed_count(&self) -> (r: usize)
        ensures
            r == count_spec(self.states@, FileState::Failed),
    {
        self.count_of(FileState::Failed)
    }

    /// Whether every file has reached a terminal state.
    pub fn is_settled(&self) -> (r: bool)
        ensures
            r == self@.settled(),
    {
        all_settled(self.states.as_slice())
    }

    /// Fully ingested with nothing outstanding: the card can be ejected.
    pub fn is_complete(&self) -> (r: bool)
        ensures
            r == self@.complete(),
    {
        all_done(self.states.as_slice())
    }

    pub fn is_running(&self) -> (r: bool)
        ensures
            r == self@.running(),
    {
        self.started && !self.is_settled() && !self.cancelled
    }

    /// Bytes still to copy: the sizes of the files that are not done.
    pub fn bytes_outstanding(&self) -> (r: u64)
        requires
            self.wf(),
            outstanding_spec(self.scan.files@, self.states@) <= u64::MAX,
        ensures
            r == outstanding_spec(self.scan.files@, self.states@),
    {
        bytes_outstanding(self.scan.files.as_slice(), self.states.as_slice())
    }

    /// Record one of this run's worker messages.
    pub fn apply(&mut self, msg: IngestMsg)
        requires
            old(self).wf(),
            old(self).unflushed < usize::MAX,
        ensures
            final(self).wf(),
            final(self)@ == apply_spec(old(self)@, msg),
    {
        let ghost v = self@;
        let ghost m = msg;
        match msg {
            IngestMsg::Stage { card: _, index, state } => {
                if index < self.states.len() {
                    self.states.set(index, state);
                }
            },
            IngestMsg::Done { card: _, index, entry } => {
                if index < self.states.len() {
                    self.states.set(index, FileState::Done);
                }
                clear_error(&mut self.errors, index);
                if index < self.scan.files.len() {
                    self.manifest.insert(self.scan.files[index].rel_path.as_str(), entry);
                    self.unflushed = self.unflushed + 1;
                }
            },
            IngestMsg::Failed { card: _, index, error } => {
                if index < self.states.len() {
                    self.states.set(index, FileState::Failed);
                }
                record_error(&mut self.errors, index, error);
            },
        }
        assert(self@ =~= apply_spec(v, m));
    }
}

// ---------------------------------------------------------------------------------------
// The session's runs
// ---------------------------------------------------------------------------------------

pub open spec fn runs_view(s: Seq<CardRun>) -> Seq<RunView> {
    s.map_values(|r: CardRun| r@)
}

pub open spec fn all_wf(s: Seq<CardRun>) -> bool {
    forall|i: int| 0 <= i < s.len() ==> (#[trigger] s[i]).wf()
}

/// `j` is the first run with this id.
pub open spec fn first_with_id(vs: Seq<RunView>, id: u64, j: int) -> bool {
    &&& 0 <= j < vs.len()
    &&& vs[j].id == id
    &&& forall|k: int| 0 <= k < j ==> vs[k].id != id
}

/// The runs after a worker message: it goes to the first run with the message's card id,
/// and a message for a card no run has any more is dropped.
pub open spec fn deliver_spec(vs: Seq<RunView>, m: IngestMsg) -> Seq<RunView> {
    if exists|j: int| first_with_id(vs, m.card(), j) {
        let j = choose|j: int| first_with_id(vs, m.card(), j);
        vs.update(j, apply_spec(vs[j], m))
    } else {
        vs
    }
}

/// The runs after a batch of messages, taken in the order they arrived.
pub open spec fn pump_spec(vs: Seq<RunView>, msgs: Seq<IngestMsg>) -> Seq<RunView>
    decreases msgs.len(),
{
    if msgs.len() == 0 {
        vs
    } else {
        pump_spec(deliver_spec(vs, msgs[0]), msgs.drop_first())
    }
}

impl IngestMsg {
    pub fn card_id(&self) -> (r: u64)
        ensures
            r == self.card(),
    {
        match self {
            IngestMsg::Stage { card, .. } => *card,
            IngestMsg::Done { card, .. } => *card,
            IngestMsg::Failed { card, .. } => *card,
        }
    }
}

/// Position of the first run with this id, if any.
pub fn find_run(runs: &Vec<CardRun>, id: u64) -> (r: Option<usize>)
    ensures
        match r {
            Some(j) => first_with_id(runs_view(runs@), id, j as int),
            None => forall|k: int| 0 <= k < runs@.len() ==> runs@[k].id != id,
        },
{
    let mut i: usize = 0;
    while i < runs.len()
        invariant
            i <= runs.len(),
            forall|k: int| 0 <= k < i ==> runs@[k].id != id,
        decreases runs.len() - i,
    {
        if runs[i].id == id {
            return Some(i);
        }
        i += 1;
    }
    None
}

/// Hand one worker message to the run it is for.
pub fn deliver(runs: &mut Vec<CardRun>, msg: IngestMsg)
    requires
        all_wf(old(runs)@),
        forall|i: int| 0 <= i < old(runs)@.len() ==> (#[trigger] old(runs)@[i]).unflushed < usize::MAX,
    ensures
        all_wf(final(runs)@),
        runs_view(final(runs)@) == deliver_spec(runs_view(old(runs)@), msg),
        final(runs)@.len() == old(runs)@.len(),
        forall|i: int| 0 <= i < final(runs)@.len() ==> (#[trigger] final(runs)@[i]).unflushed <= old(runs)@[i].unflushed + 1,
{
    let ghost vs = runs_view(runs@);
    let ghost before = runs@;
    let card = msg.card_id();
    match find_run(runs, card) {
        Some(j) => {
            proof {
                assert forall|k: int| first_with_id(vs, card, k) implies k == j as int by {
                    if k < j as int {
                        assert(vs[k].id != card);
                    } else if k > j as int {
                        assert(vs[j as int].id != card);
                    }
                }
            }
            let ghost m = msg;
            let mut run = runs.remove(j);
            run.apply(msg);
            runs.insert(j, run);
            assert(runs@ =~= before.update(j as int, run));
            assert(runs_view(runs@) =~= vs.update(j as int, apply_spec(vs[j as int], m)));
        },
        None => {
            assert(!exists|j: int| first_with_id(vs, card, j));
        },
    }
}

/// Hand a batch of worker messages to their runs, in the order they arrived.
pub fn pump_ingest_messages(runs: &mut Vec<CardRun>, msgs: Vec<IngestMsg>)
    requires
        all_wf(old(runs)@),
        forall|i: int| 0 <= i < old(runs)@.len() ==> (#[trigger] old(runs)@[i]).unflushed + msgs@.len() < usize::MAX,
    ensures
        all_wf(final(runs)@),
        runs_view(final(runs)@) == pump_spec(runs_view(old(runs)@), msgs@),
{
    let ghost all = msgs@;
    let ghost start = runs_view(runs@);
    let mut msgs = msgs;
    while msgs.len() > 0
        invariant
            all_wf(runs@),
            forall|i: int| 0 <= i < runs@.len() ==> (#[trigger] runs@[i]).unflushed + msgs@.len() < usize::MAX,
            pump_spec(runs_view(runs@), msgs@) == pump_spec(start, all),
        decreases msgs@.len(),
    {
        let ghost rest = msgs@;
        let m = msgs.remove(0);
        assert(msgs@ =~= rest.drop_first());
        let ghost mid = runs@;
        deliver(runs, m);
        assert forall|i: int| 0 <= i < runs@.len() implies (#[trigger] runs@[i]).unflushed + msgs@.len() < usize::MAX by {
            assert(runs@[i].unflushed <= mid[i].unflushed + 1);
        }
    }
}

// ---------------------------------------------------------------------------------------
// Flushing the manifest and writing the card's log
// ---------------------------------------------------------------------------------------

/// A run's manifest is due to be written once enough new entries have piled up, or once a
/// started run has settled with anything unwritten.
pub open spec fn flush_due(v: RunView, every: nat) -> bool {
    v.unflushed >= every || (v.started && v.settled() && v.unflushed > 0)
}

/// A started run that has settled gets its log once.
pub open spec fn log_due(v: RunView) -> bool {
    v.started && v.settled() && !v.logged
}

/// Positions, in order, of the runs whose manifest is due.
pub open spec fn flush_positions(vs: Seq<RunView>, every: nat, n: int) -> Seq<usize>
    decreases n,
{
    if n <= 0 {
        Seq::empty()
    } else if flush_due(vs[n - 1], every) {
        flush_positions(vs, every, n - 1).push((n - 1) as usize)
    } else {
        flush_positions(vs, every, n - 1)
    }
}

/// Positions, in order, of the runs whose log is due.
pub open spec fn log_positions(vs: Seq<RunView>, n: int) -> Seq<usize>
    decreases n,
{
    if n <= 0 {
        Seq::empty()
    } else if log_due(vs[n - 1]) {
        log_positions(vs, n - 1).push((n - 1) as usize)
    } else {
        log_positions(vs, n - 1)
    }
}

/// Which runs need their manifest written and which their log, in that order of work:
/// every flush is done before any log.
pub fn finish_settled_cards(runs: &Vec<CardRun>, flush_every: usize) -> (r: (Vec<usize>, Vec<usize>))
    ensures
        r.0@ == flush_positions(runs_view(runs@), flush_every as nat, runs@.len() as int),
        r.1@ == log_positions(runs_view(runs@), runs@.len() as int),
{
    let ghost vs = runs_view(runs@);
    let mut to_flush: Vec<usize> = Vec::new();
    let mut to_log: Vec<usize> = Vec::new();
    let mut i: usize = 0;
    while i < runs.len()
        invariant
            i <= runs.len(),
            vs == runs_view(runs@),
            to_flush@ == flush_positions(vs, flush_every as nat, i as int),
            to_log@ == log_positions(vs, i as int),
        decreases runs.len() - i,
    {
        let run = &runs[i];
        let settled = run.started && run.is_settled();
        if run.unflushed >= flush_every || (settled && run.unflushed > 0) {
            to_flush.push(i);
        }
        if settled && !run.logged {
            to_log.push(i);
        }
        i += 1;
    }
    (to_flush, to_log)
}

/// Start writing a run's manifest, unless a write for it is still in flight: one write per
/// card at a time, so two cannot race on the share. True when the caller should write the
/// manifest now; the run then counts nothing as unwritten.
pub fn begin_flush(run: &mut CardRun, write_in_flight: bool) -> (r: bool)
    requires
        old(run).wf(),
    ensures
        final(run).wf(),
        r == !write_in_flight,
        r ==> final(run)@ == (RunView { unflushed: 0, ..old(run)@ }),
        !r ==> final(run)@ == old(run)@,
{
    if write_in_flight {
        return false;
    }
    let ghost v = run@;
    run.unflushed = 0;
    assert(run@ =~= (RunView { unflushed: 0, ..v }));
    true
}

/// Total size of the files that are done.
pub open spec fn done_bytes_spec(files: Seq<IngestFile>, states: Seq<FileState>) -> nat
    decreases files.len(),
{
    if files.len() == 0 {
        0
    } else {
        done_bytes_spec(files.drop_last(), states) + if states[files.len() - 1] == FileState::Done {
            files.last().size as nat
        } else {
            0nat
        }
    }
}

proof fn lemma_done_bytes_prefix(files: Seq<IngestFile>, states: Seq<FileState>, i: int)
    requires
        0 <= i <= files.len(),
    ensures
        done_bytes_spec(files.take(i), states) <= done_bytes_spec(files, states),
    decreases files.len() - i,
{
    if i < files.len() {
        lemma_done_bytes_prefix(files, states, i + 1);
        assert(files.take(i + 1).drop_last() =~= files.take(i));
    } else {
        assert(files.take(i) =~= files);
    }
}

/// The failures a log lists, in the order they were recorded: each record of a file the
/// scan has, as its portable path and the reason.
pub open spec fn failures_spec(errs: Seq<(usize, String)>, files: Seq<IngestFile>) -> Seq<(Seq<char>, Seq<char>)>
    decreases errs.len(),
{
    if errs.len() == 0 {
        Seq::empty()
    } else {
        let (i, e) = errs.last();
        let rest = failures_spec(errs.drop_last(), files);
        if i < files.len() {
            rest.push((key_spec(files[i as int].rel_path@), e@))
        } else {
            rest
        }
    }
}

pub open spec fn pair_views(s: Seq<(String, String)>) -> Seq<(Seq<char>, Seq<char>)> {
    s.map_values(|p: (String, String)| (p.0@, p.1@))
}

pub open spec fn string_views(s: Seq<String>) -> Seq<Seq<char>> {
    s.map_values(|t: String| t@)
}

fn copy_strings(v: &Vec<String>) -> (r: Vec<String>)
    ensures
        string_views(r@) == string_views(v@),
{
    let mut out: Vec<String> = Vec::new();
    let mut i: usize = 0;
    while i < v.len()
        invariant
            i <= v.len(),
            string_views(out@) == string_views(v@.take(i as int)),
        decreases v.len() - i,
    {
        let ghost prev = out@;
        let t = owned(v[i].as_str());
        out.push(t);
        assert(v@.take(i + 1) =~= v@.take(i as int).push(v@[i as int]));
        assert(string_views(out@) =~= string_views(prev).push(t@));
        assert(string_views(v@.take(i + 1)) =~= string_views(v@.take(i as int)).push(v@[i as int]@));
        i += 1;
    }
    assert(v@.take(v@.len() as int) =~= v@);
    out
}

/// Close a settled run's books: it is marked as logged, and the summary its card's log
/// records is returned: what was ingested, how many bytes, what was skipped, and every
/// recorded failure of a scanned file.
pub fn write_card_log(run: &mut CardRun) -> (r: Summary)
    requires
        old(run).wf(),
        done_bytes_spec(old(run).scan.files@, old(run).states@) <= u64::MAX,
    ensures
        final(run).wf(),
        final(run)@ == (RunView { logged: true, ..old(run)@ }),
        r.card_name@ == old(run).card_name@,
        r.card_signature@ == old(run).card_signature@,
        r.destination@ == old(run).dest_dir@,
        string_views(r.cameras@) == string_views(old(run).scan.cameras@),
        r.ingested == count_spec(old(run).states@, FileState::Done),
        r.bytes == done_bytes_spec(old(run).scan.files@, old(run).states@),
        r.skipped == old(run).scan.skipped,
        pair_views(r.failures@) == failures_spec(old(run).errors@, old(run).scan.files@),
        r.cancelled == old(run).cancelled,
{
    let ghost v = run@;
    run.logged = true;
    assert(run@ =~= (RunView { logged: true, ..v }));
    let files = &run.scan.files;
    let mut failures: Vec<(String, String)> = Vec::new();
    let mut k: usize = 0;
    while k < run.errors.len()
        invariant
            k <= run.errors.len(),
            files == &run.scan.files,
            pair_views(failures@) == failures_spec(run.errors@.take(k as int), files@),
        decreases run.errors.len() - k,
    {
        assert(run.errors@.take(k + 1).drop_last() =~= run.errors@.take(k as int));
        let index = run.errors[k].0;
        if index < files.len() {
            let path = key_for(files[index].rel_path.as_str());
            let reason = owned(run.errors[k].1.as_str());
            failures.push((path, reason));
        }
        k += 1;
        assert(pair_views(failures@) =~= failures_spec(run.errors@.take(k as int), files@));
    }
    assert(run.errors@.take(run.errors@.len() as int) =~= run.errors@);
    let ingested = run.done_count();
    let mut bytes: u64 = 0;
    let mut i: usize = 0;
    while i < files.len()
        invariant
            i <= files.len(),
            files@.len() == run.states@.len(),
            files == &run.scan.files,
            done_bytes_spec(files@, run.states@) <= u64::MAX,
            bytes == done_bytes_spec(files@.take(i as int), run.states@),
        decreases files.len() - i,
    {
        assert(files@.take(i + 1).drop_last() =~= files@.take(i as int));
        proof {
            lemma_done_bytes_prefix(files@, run.states@, i + 1);
        }
        if run.states[i] == FileState::Done {
            bytes = bytes + files[i].size;
        }
        i += 1;
    }
    assert(files@.take(files@.len() as int) =~= files@);
    Summary {
        card_name: owned(run.card_name.as_str()),
        card_signature: owned(run.card_signature.as_str()),
        destination: owned(run.dest_dir.as_str()),
        cameras: copy_strings(&run.scan.cameras),
        ingested,
        bytes,
        skipped: run.scan.skipped,
        failures,
        cancelled: run.cancelled,
    }
}

// ---------------------------------------------------------------------------------------
// Matching runs to the cards plugged in
// ---------------------------------------------------------------------------------------

pub open spec fn card_sigs(cards: Seq<CardFingerprint>) -> Seq<Seq<char>> {
    cards.map_values(|c: CardFingerprint| c.signature@)
}

pub open spec fn run_sigs(vs: Seq<RunView>) -> Seq<Seq<char>> {
    vs.map_values(|v: RunView| v.card_signature)
}

/// The runs that stay when the plugged-in cards change: a started run keeps its place even
/// if its card was pulled, so it does not vanish under the user; an unstarted one stays
/// only while its card is in.
pub open spec fn kept_runs(vs: Seq<RunView>, sigs: Seq<Seq<char>>, n: int) -> Seq<RunView>
    decreases n,
{
    if n <= 0 {
        Seq::empty()
    } else if vs[n - 1].started || sigs.contains(vs[n - 1].card_signature) {
        kept_runs(vs, sigs, n - 1).push(vs[n - 1])
    } else {
        kept_runs(vs, sigs, n - 1)
    }
}

/// Card `j` gets a new run: no kept run is for it, and no earlier card has its signature.
pub open spec fn gets_run(kept: Seq<Seq<char>>, cards: Seq<CardFingerprint>, j: int) -> bool {
    &&& !kept.contains(cards[j].signature@)
    &&& forall|i: int| 0 <= i < j ==> cards[i].signature@ != cards[j].signature@
}

/// Positions, in order, of the cards that get a new run.
pub open spec fn added_cards(kept: Seq<Seq<char>>, cards: Seq<CardFingerprint>, n: int) -> Seq<int>
    decreases n,
{
    if n <= 0 {
        Seq::empty()
    } else if gets_run(kept, cards, n - 1) {
        added_cards(kept, cards, n - 1).push(n - 1)
    } else {
        added_cards(kept, cards, n - 1)
    }
}

proof fn lemma_added_bounds(kept: Seq<Seq<char>>, cards: Seq<CardFingerprint>, n: int)
    requires
        0 <= n <= cards.len(),
    ensures
        added_cards(kept, cards, n).len() <= n,
        forall|k: int| 0 <= k < added_cards(kept, cards, n).len() ==> 0 <= #[trigger] added_cards(kept, cards, n)[k] < n,
    decreases n,
{
    if n > 0 {
        lemma_added_bounds(kept, cards, n - 1);
    }
}

/// Whether some run is for the card with this signature.
fn has_run_for(runs: &Vec<CardRun>, signature: &str) -> (r: bool)
    ensures
        r == exists|k: int| 0 <= k < runs@.len() && (#[trigger] runs@[k]).card_signature@ == signature@,
{
    let mut i: usize = 0;
    while i < runs.len()
        invariant
            i <= runs.len(),
            forall|k: int| 0 <= k < i ==> (#[trigger] runs@[k]).card_signature@ != signature@,
        decreases runs.len() - i,
    {
        if str_eq(runs[i].card_signature.as_str(), signature) {
            return true;
        }
        i += 1;
    }
    false
}

/// Whether one of the cards has this signature.
fn has_card(cards: &Vec<CardFingerprint>, signature: &str) -> (r: bool)
    ensures
        r == card_sigs(cards@).contains(signature@),
{
    let mut i: usize = 0;
    while i < cards.len()
        invariant
            i <= cards.len(),
            forall|k: int| 0 <= k < i ==> (#[trigger] cards@[k]).signature@ != signature@,
        decreases cards.len() - i,
    {
        if str_eq(cards[i].signature.as_str(), signature) {
            assert(card_sigs(cards@)[i as int] == signature@);
            return true;
        }
        i += 1;
    }
    assert forall|k: int| 0 <= k < card_sigs(cards@).len() implies card_sigs(cards@)[k] != signature@ by {
        assert(cards@[k].signature@ != signature@);
    }
    false
}

/// Match the runs to the cards actually plugged in: drop the unstarted runs of pulled
/// cards, and give every newly seen card a run, numbered on from `next_id`. Returns the
/// signatures of the new runs, whose cards are to be scanned.
pub fn reconcile_ingest_runs(
    runs: &mut Vec<CardRun>,
    cards: &Vec<CardFingerprint>,
    next_id: &mut u64,
    ingest_root: &str,
) -> (to_scan: Vec<String>)
    requires
        all_wf(old(runs)@),
        *old(next_id) + cards@.len() <= u64::MAX,
    ensures
        ({
            let kept = kept_runs(runs_view(old(runs)@), card_sigs(cards@), old(runs)@.len() as int);
            let added = added_cards(run_sigs(kept), cards@, cards@.len() as int);
            &&& all_wf(final(runs)@)
            &&& final(runs)@.len() == kept.len() + added.len()
            &&& runs_view(final(runs)@).take(kept.len() as int) == kept
            &&& forall|k: int| 0 <= k < added.len() ==> fresh_for(
                #[trigger] final(runs)@[kept.len() + k]@,
                (*old(next_id) + k) as u64,
                cards@[added[k]],
                ingest_root@,
            )
            &&& *final(next_id) == *old(next_id) + added.len()
            &&& string_views(to_scan@) == added.map_values(|j: int| cards@[j].signature@)
        }),
        forall|j: int| 0 <= j < cards@.len() ==> exists|k: int|
            0 <= k < final(runs)@.len() && (#[trigger] final(runs)@[k]).card_signature@ == (#[trigger] cards@[j]).signature@,
        forall|k: int| 0 <= k < final(runs)@.len() ==> (#[trigger] final(runs)@[k]).started
            || card_sigs(cards@).contains(final(runs)@[k].card_signature@),
{
    let ghost vs = runs_view(runs@);
    let ghost sigs = card_sigs(cards@);
    let total = runs.len();
    let ghost n = runs@.len();
    let ghost orig = runs@;
    let mut pending: Vec<CardRun> = Vec::new();
    std::mem::swap(runs, &mut pending);
    assert(pending@ == orig);
    let mut i: usize = 0;
    while pending.len() > 0
        invariant
            pending@ == orig.subrange(i as int, n as int),
            i <= n,
            n == orig.len(),
            n == total,
            vs == runs_view(orig),
            all_wf(orig),
            all_wf(runs@),
            runs_view(runs@) == kept_runs(vs, sigs, i as int),
            sigs == card_sigs(cards@),
            forall|k: int| 0 <= k < runs@.len() ==> (#[trigger] runs@[k]).started
                || sigs.contains(runs@[k].card_signature@),
        decreases pending@.len(),
    {
        let run = pending.remove(0);
        assert(run == orig[i as int]);
        let keep = run.started || has_card(cards, run.card_signature.as_str());
        let ghost before = runs@;
        if keep {
            runs.push(run);
            assert(runs_view(runs@) =~= runs_view(before).push(vs[i as int]));
        }
        i += 1;
        assert(pending@ =~= orig.subrange(i as int, n as int));
    }
    assert(i == n);
    let ghost kept = runs_view(runs@);
    let ghost kept_sigs = run_sigs(kept);
    let ghost kept_len = runs@.len();
    let ghost start_id = *next_id;
    let mut to_scan: Vec<String> = Vec::new();
    let mut j: usize = 0;
    while j < cards.len()
        invariant
            j <= cards@.len(),
            kept == kept_runs(vs, sigs, n as int),
            kept_sigs == run_sigs(kept),
            kept_len == kept.len(),
            sigs == card_sigs(cards@),
            start_id + cards@.len() <= u64::MAX,
            all_wf(runs@),
            runs@.len() == kept_len + added_cards(kept_sigs, cards@, j as int).len(),
            runs_view(runs@).take(kept_len as int) == kept,
            forall|k: int| 0 <= k < added_cards(kept_sigs, cards@, j as int).len() ==> fresh_for(
                #[trigger] runs@[kept_len + k]@,
                (start_id + k) as u64,
                cards@[added_cards(kept_sigs, cards@, j as int)[k]],
                ingest_root@,
            ),
            *next_id == start_id + added_cards(kept_sigs, cards@, j as int).len(),
            string_views(to_scan@) == added_cards(kept_sigs, cards@, j as int).map_values(|c: int| cards@[c].signature@),
            forall|c: int| 0 <= c < j ==> exists|k: int|
                0 <= k < runs@.len() && (#[trigger] runs@[k]).card_signature@ == (#[trigger] cards@[c]).signature@,
            forall|k: int| 0 <= k < runs@.len() ==> (#[trigger] runs@[k]).started
                || sigs.contains(runs@[k].card_signature@),
        decreases cards@.len() - j,
    {
        let ghost added = added_cards(kept_sigs, cards@, j as int);
        proof {
            lemma_added_bounds(kept_sigs, cards@, j as int);
        }
        let card = &cards[j];
        let exists_already = has_run_for(runs, card.signature.as_str());
        proof {
            // A run exists for card j exactly when it does not get a new one.
            if gets_run(kept_sigs, cards@, j as int) {
                assert forall|k: int| 0 <= k < runs@.len() implies (#[trigger] runs@[k]).card_signature@ != card.signature@ by {
                    if k < kept_len {
                        assert(runs_view(runs@).take(kept_len as int)[k] == kept[k]);
                        assert(kept_sigs[k] == runs@[k].card_signature@);
                    } else {
                        let a = k - kept_len;
                        assert(fresh_for(runs@[kept_len + a]@, (start_id + a) as u64, cards@[added[a]], ingest_root@));
                        assert(0 <= added[a] < j);
                    }
                }
            } else {
                if kept_sigs.contains(card.signature@) {
                    let k = choose|k: int| 0 <= k < kept_sigs.len() && kept_sigs[k] == card.signature@;
                    assert(runs_view(runs@).take(kept_len as int)[k] == kept[k]);
                    assert(runs@[k].card_signature@ == card.signature@);
                } else {
                    let c = choose|c: int| 0 <= c < j && cards@[c].signature@ == cards@[j as int].signature@;
                    assert(cards@[c].signature@ == cards@[c].signature@);
                }
            }
        }
        if !exists_already {
            let id = *next_id;
            let run = CardRun::for_card(id, card, ingest_root);
            let ghost before = runs@;
            runs.push(run);
            *next_id = id + 1;
            let ghost prev_scan = to_scan@;
            let sig = owned(card.signature.as_str());
            to_scan.push(sig);
            proof {
                assert(string_views(to_scan@) =~= string_views(prev_scan).push(sig@));
                assert(added.push(j as int).map_values(|c: int| cards@[c].signature@)
                    =~= added.map_values(|c: int| cards@[c].signature@).push(cards@[j as int].signature@));
                assert forall|c: int| 0 <= c < j + 1 implies exists|k: int|
                    0 <= k < runs@.len() && (#[trigger] runs@[k]).card_signature@ == (#[trigger] cards@[c]).signature@ by {
                    if c < j {
                        let k = choose|k: int| 0 <= k < before.len() && (#[trigger] before[k]).card_signature@ == cards@[c].signature@;
                        assert(runs@[k] == before[k]);
                    } else {
                        assert(runs@[runs@.len() - 1].card_signature@ == cards@[c].signature@);
                    }
                }
                assert(added_cards(kept_sigs, cards@, j + 1) == added.push(j as int));
                assert(runs_view(runs@).take(kept_len as int) =~= runs_view(before).take(kept_len as int));
                assert forall|k: int| 0 <= k < added.len() + 1 implies fresh_for(
                    #[trigger] runs@[kept_len + k]@,
                    (start_id + k) as u64,
                    cards@[added.push(j as int)[k]],
                    ingest_root@,
                ) by {
                    if k < added.len() {
                        assert(runs@[kept_len + k] == before[kept_len + k]);
                    }
                }
                assert(string_views(to_scan@) =~= added.push(j as int).map_values(|c: int| cards@[c].signature@));
                assert(sigs[j as int] == card.signature@);
            }
        } else {
            proof {
                assert(added_cards(kept_sigs, cards@, j + 1) == added);
                assert forall|c: int| 0 <= c < j + 1 implies exists|k: int|
                    0 <= k < runs@.len() && (#[trigger] runs@[k]).card_signature@ == (#[trigger] cards@[c]).signature@ by {
                    if c == j {
                        let k = choose|k: int| 0 <= k < runs@.len() && (#[trigger] runs@[k]).card_signature@ == card.signature@;
                        assert(runs@[k].card_signature@ == cards@[c].signature@);
                    }
                }
            }
        }
        j += 1;
    }
    to_scan
}

// ---------------------------------------------------------------------------------------
// Scans, starting, cancelling, forgetting
// ---------------------------------------------------------------------------------------

pub open spec fn initial_state_of(p: Plan) -> FileState {
    match p {
        Plan::AlreadyDone => FileState::Done,
        Plan::Incomplete => FileState::Incomplete,
        Plan::Recheck(_) => FileState::Pending,
        Plan::Copy => FileState::Pending,
    }
}

/// A run once its card's scan is in: the scan's files, each in the state its plan starts
/// it in, and the manifest read from the destination, stamped with this card's signature
/// and name.
pub open spec fn prepared_spec(v: RunView, scan: CardScan, m: Manifest, plans: Seq<Plan>) -> RunView {
    RunView {
        scan: scan,
        states: plans.map_values(|p: Plan| initial_state_of(p)),
        manifest_version: m.version,
        manifest_signature: v.card_signature,
        manifest_name: v.card_name,
        entries: m.map(),
        ..v
    }
}

/// `j` is the first run for the card with this signature.
pub open spec fn first_with_signature(vs: Seq<RunView>, sig: Seq<char>, j: int) -> bool {
    &&& 0 <= j < vs.len()
    &&& vs[j].card_signature == sig
    &&& forall|k: int| 0 <= k < j ==> vs[k].card_signature != sig
}

/// Position of the first run for the card with this signature, if any.
fn find_signature(runs: &Vec<CardRun>, signature: &str) -> (r: Option<usize>)
    ensures
        match r {
            Some(j) => first_with_signature(runs_view(runs@), signature@, j as int),
            None => forall|k: int| 0 <= k < runs@.len() ==> (#[trigger] runs@[k]).card_signature@ != signature@,
        },
{
    let mut i: usize = 0;
    while i < runs.len()
        invariant
            i <= runs.len(),
            forall|k: int| 0 <= k < i ==> (#[trigger] runs@[k]).card_signature@ != signature@,
        decreases runs.len() - i,
    {
        if str_eq(runs[i].card_signature.as_str(), signature) {
            return Some(i);
        }
        i += 1;
    }
    None
}

/// Hand a finished scan to the first run for its card; a scan for a card no run has any
/// more is dropped.
pub fn apply_prepared(runs: &mut Vec<CardRun>, signature: &str, scan: CardScan, manifest: Manifest, plans: &Vec<Plan>)
    requires
        all_wf(old(runs)@),
        manifest.wf(),
        plans@.len() == scan.files@.len(),
    ensures
        all_wf(final(runs)@),
        (exists|j: int| first_with_signature(runs_view(old(runs)@), signature@, j)) ==> ({
            let j = choose|j: int| first_with_signature(runs_view(old(runs)@), signature@, j);
            runs_view(final(runs)@) == runs_view(old(runs)@).update(
                j,
                prepared_spec(old(runs)@[j]@, scan, manifest, plans@),
            )
        }),
        !(exists|j: int| first_with_signature(runs_view(old(runs)@), signature@, j)) ==> final(runs)@ == old(runs)@,
{
    let ghost vs = runs_view(runs@);
    let ghost before = runs@;
    let i = match find_signature(runs, signature) {
        Some(i) => i,
        None => {
            assert forall|j: int| !first_with_signature(vs, signature@, j) by {
                if 0 <= j < vs.len() {
                    assert(before[j].card_signature@ != signature@);
                }
            }
            return;
        },
    };
    assert forall|k: int| first_with_signature(vs, signature@, k) implies k == i as int by {
        if k < i as int {
            assert(before[k].card_signature@ != signature@);
        } else if k > i as int {
            assert(vs[i as int].card_signature != signature@);
        }
    }
    let mut run = runs.remove(i);
    let ghost v = run@;
    let mut states: Vec<FileState> = Vec::new();
    let mut k: usize = 0;
    while k < plans.len()
        invariant
            k <= plans.len(),
            states@ == plans@.take(k as int).map_values(|p: Plan| initial_state_of(p)),
        decreases plans.len() - k,
    {
        let st = plans[k].initial_state();
        states.push(st);
        k += 1;
        assert(states@ =~= plans@.take(k as int).map_values(|p: Plan| initial_state_of(p)));
    }
    assert(plans@.take(plans@.len() as int) =~= plans@);
    let mut manifest = manifest;
    manifest.card_signature = owned(run.card_signature.as_str());
    manifest.card_name = owned(run.card_name.as_str());
    run.states = states;
    run.manifest = manifest;
    run.scan = scan;
    assert(run@ =~= prepared_spec(v, scan, manifest, plans@));
    runs.insert(i, run);
    assert(runs@ =~= before.update(i as int, run));
    assert(runs_view(runs@) =~= vs.update(i as int, prepared_spec(before[i as int]@, scan, manifest, plans@)));
}

/// What asking to start a run came to.
pub enum StartDecision {
    /// Already started, or nothing on the card to ingest: nothing happens.
    Ignored,
    /// Refused rather than fill the destination and fail every remaining file.
    NotEnoughSpace { needed: u64, free: u64 },
    /// Started: every file not yet done is to be copied.
    Started { needed: u64, plans: Vec<Plan> },
}

pub open spec fn start_plan(s: FileState) -> Plan {
    if s == FileState::Done {
        Plan::AlreadyDone
    } else {
        Plan::Copy
    }
}

/// Start ingesting a card, given the free space at the destination when it could be read.
pub fn start_card_ingest(run: &mut CardRun, free: Option<u64>) -> (r: StartDecision)
    requires
        old(run).wf(),
        outstanding_spec(old(run).scan.files@, old(run).states@) <= u64::MAX,
    ensures
        final(run).wf(),
        ({
            let v = old(run)@;
            let needed = outstanding_spec(old(run).scan.files@, old(run).states@);
            if v.started || old(run).scan.files@.len() == 0 {
                r is Ignored && final(run)@ == v
            } else if free is Some && free->0 < needed {
                r == StartDecision::NotEnoughSpace { needed: needed as u64, free: free->0 } && final(run)@ == v
            } else {
                &&& r matches StartDecision::Started { needed: n, plans }
                    && n == needed && plans@ == v.states.map_values(|s: FileState| start_plan(s))
                &&& final(run)@ == (RunView { started: true, cancelled: false, ..v })
            }
        }),
{
    if run.started || run.scan.files.len() == 0 {
        return StartDecision::Ignored;
    }
    let needed = run.bytes_outstanding();
    match free {
        Some(f) => {
            if f < needed {
                return StartDecision::NotEnoughSpace { needed, free: f };
            }
        },
        None => {},
    }
    let ghost v = run@;
    run.started = true;
    run.cancelled = false;
    assert(run@ =~= (RunView { started: true, cancelled: false, ..v }));
    let mut plans: Vec<Plan> = Vec::new();
    let mut k: usize = 0;
    while k < run.states.len()
        invariant
            k <= run.states.len(),
            plans@ == run.states@.take(k as int).map_values(|s: FileState| start_plan(s)),
        decreases run.states.len() - k,
    {
        if run.states[k] == FileState::Done {
            plans.push(Plan::AlreadyDone);
        } else {
            plans.push(Plan::Copy);
        }
        k += 1;
        assert(plans@ =~= run.states@.take(k as int).map_values(|s: FileState| start_plan(s)));
    }
    assert(run.states@.take(run.states@.len() as int) =~= run.states@);
    StartDecision::Started { needed, plans }
}

pub open spec fn cancelled_state(s: FileState) -> FileState {
    if s.settled() {
        s
    } else {
        FileState::Pending
    }
}

/// Cancel a card's run: every file not yet done or failed goes back to pending, and the
/// run is neither started nor, from then on, running.
pub fn cancel_card_ingest(run: &mut CardRun)
    requires
        old(run).wf(),
    ensures
        final(run).wf(),
        final(run)@ == (RunView {
            states: old(run)@.states.map_values(|s: FileState| cancelled_state(s)),
            started: false,
            cancelled: true,
            ..old(run)@
        }),
        !final(run)@.running(),
{
    let ghost v = run@;
    let mut k: usize = 0;
    while k < run.states.len()
        invariant
            k <= run.states.len(),
            run.states@.len() == v.states.len(),
            forall|i: int| 0 <= i < k ==> run.states@[i] == cancelled_state(v.states[i]),
            forall|i: int| k <= i < run.states@.len() ==> run.states@[i] == v.states[i],
            run@ == (RunView { states: run.states@, ..v }),
            run.wf(),
        decreases run.states.len() - k,
    {
        if !run.states[k].is_settled() {
            run.states.set(k, FileState::Pending);
        }
        k += 1;
    }
    run.started = false;
    run.cancelled = true;
    assert(run@ =~= (RunView {
        states: v.states.map_values(|s: FileState| cancelled_state(s)),
        started: false,
        cancelled: true,
        ..v
    }));
}

/// The runs that are still working, in order.
pub open spec fn running_runs(vs: Seq<RunView>, n: int) -> Seq<RunView>
    decreases n,
{
    if n <= 0 {
        Seq::empty()
    } else if vs[n - 1].running() {
        running_runs(vs, n - 1).push(vs[n - 1])
    } else {
        running_runs(vs, n - 1)
    }
}

/// Before re-scanning every card, keep only the runs still working.
pub fn rescan_cards(runs: &mut Vec<CardRun>)
    requires
        all_wf(old(runs)@),
    ensures
        all_wf(final(runs)@),
        runs_view(final(runs)@) == running_runs(runs_view(old(runs)@), old(runs)@.len() as int),
{
    let total = runs.len();
    let ghost orig = runs@;
    let ghost vs = runs_view(orig);
    let mut pending: Vec<CardRun> = Vec::new();
    std::mem::swap(runs, &mut pending);
    let mut i: usize = 0;
    while pending.len() > 0
        invariant
            pending@ == orig.subrange(i as int, total as int),
            i <= total,
            total == orig.len(),
            vs == runs_view(orig),
            all_wf(orig),
            all_wf(runs@),
            runs_view(runs@) == running_runs(vs, i as int),
        decreases pending@.len(),
    {
        let run = pending.remove(0);
        assert(run == orig[i as int]);
        let ghost before = runs@;
        if run.is_running() {
            runs.push(run);
            assert(runs_view(runs@) =~= runs_view(before).push(vs[i as int]));
        }
        i += 1;
        assert(pending@ =~= orig.subrange(i as int, total as int));
    }
}

/// The runs on other drives than `letter`, in order.
pub open spec fn other_drives(vs: Seq<RunView>, letter: char, n: int) -> Seq<RunView>
    decreases n,
{
    if n <= 0 {
        Seq::empty()
    } else if vs[n - 1].drive_letter != letter {
        other_drives(vs, letter, n - 1).push(vs[n - 1])
    } else {
        other_drives(vs, letter, n - 1)
    }
}

/// Once a card has been ejected, forget every run on its drive.
pub fn forget_drive(runs: &mut Vec<CardRun>, letter: char)
    requires
        all_wf(old(runs)@),
    ensures
        all_wf(final(runs)@),
        runs_view(final(runs)@) == other_drives(runs_view(old(runs)@), letter, old(runs)@.len() as int),
{
    let total = runs.len();
    let ghost orig = runs@;
    let ghost vs = runs_view(orig);
    let mut pending: Vec<CardRun> = Vec::new();
    std::mem::swap(runs, &mut pending);
    let mut i: usize = 0;
    while pending.len() > 0
        invariant
            pending@ == orig.subrange(i as int, total as int),
            i <= total,
            total == orig.len(),
            vs == runs_view(orig),
            all_wf(orig),
            all_wf(runs@),
            runs_view(runs@) == other_drives(vs, letter, i as int),
        decreases pending@.len(),
    {
        let run = pending.remove(0);
        assert(run == orig[i as int]);
        let ghost before = runs@;
        if run.drive_letter != letter {
            runs.push(run);
            assert(runs_view(runs@) =~= runs_view(before).push(vs[i as int]));
        }
        i += 1;
        assert(pending@ =~= orig.subrange(i as int, total as int));
    }
}

/// Whether any ingest work is in flight: a scan, a manifest write, or a running card.
pub fn ingest_busy(scans_pending: bool, writes_pending: bool, runs: &Vec<CardRun>) -> (r: bool)
    ensures
        r == (scans_pending || writes_pending || exists|k: int| 0 <= k < runs@.len() && (#[trigger] runs@[k])@.running()),
{
    if scans_pending || writes_pending {
        return true;
    }
    let mut i: usize = 0;
    while i < runs.len()
        invariant
            i <= runs.len(),
            forall|k: int| 0 <= k < i ==> !(#[trigger] runs@[k])@.running(),
        decreases runs.len() - i,
    {
        if runs[i].is_running() {
            return true;
        }
        i += 1;
    }
    false
}

// ---------------------------------------------------------------------------------------
// What holds across these steps
// ---------------------------------------------------------------------------------------

/// A run's log is written once: after `write_card_log` the run is never due another.
pub proof fn law_a_card_is_logged_once(v: RunView)
    ensures
        !log_due(RunView { logged: true, ..v }),
{
}

/// A flushed manifest is not due again until new entries arrive: after `begin_flush`
/// starts a write, the run counts nothing unwritten and `finish_settled_cards` skips it.
pub proof fn law_a_flushed_manifest_waits_for_new_entries(v: RunView, every: nat)
    requires
        every > 0,
    ensures
        !flush_due(RunView { unflushed: 0, ..v }, every),
{
}

/// A file reported done stays done with no failure against it, whatever was recorded
/// before; one reported failed carries the worker's reason.
pub proof fn law_the_last_word_on_a_file_wins(v: RunView, card: u64, index: usize, entry: Entry, error: String)
    requires
        index < v.states.len(),
    ensures
        apply_spec(v, IngestMsg::Done { card, index, entry }).states[index as int] == FileState::Done,
        !apply_spec(v, IngestMsg::Done { card, index, entry }).errors.contains_key(index),
        apply_spec(v, IngestMsg::Failed { card, index, error }).states[index as int] == FileState::Failed,
        apply_spec(v, IngestMsg::Failed { card, index, error }).errors[index] == error@,
{
}

/// A message for a card that no run has any more changes nothing.
pub proof fn law_a_message_for_a_pulled_card_is_dropped(vs: Seq<RunView>, m: IngestMsg)
    requires
        forall|k: int| 0 <= k < vs.len() ==> vs[k].id != m.card(),
    ensures
        deliver_spec(vs, m) == vs,
{
}

// ---------------------------------------------------------------------------------------
// The work a started run hands to the copy workers
// ---------------------------------------------------------------------------------------

/// One file for the copy workers: where it goes, where its thumbnail goes, and, for a file
/// only being re-checked after a timestamp shift, the hash the manifest recorded.
pub struct IngestTask {
    pub card: u64,
    pub index: usize,
    pub file: IngestFile,
    pub dst: String,
    pub thumb_abs: String,
    /// The thumbnail's path as the manifest records it.
    pub thumb_rel: String,
    pub recheck: Option<String>,
}

/// The task for file `i` of a run, as the contracts describe it.
pub open spec fn task_matches(t: IngestTask, v: RunView, i: int, plan: Plan) -> bool {
    let rel = v.scan.files@[i].rel_path@;
    &&& t.card == v.id
    &&& t.index == i
    &&& t.file == v.scan.files@[i]
    &&& t.dst@ == path_join(v.dest_dir, rel)
    &&& t.thumb_abs@ == path_join(v.dest_dir, thumb_rel_spec(rel))
    &&& t.thumb_rel@ == key_spec(thumb_rel_spec(rel))
    &&& match plan {
        Plan::Recheck(h) => t.recheck is Some && t.recheck->0@ == h@,
        _ => t.recheck is None,
    }
}

/// Positions, in order, of the files a run still has to copy or re-check: every file whose
/// plan is not already done.
pub open spec fn task_positions(plans: Seq<Plan>, n: int) -> Seq<int>
    decreases n,
{
    if n <= 0 {
        Seq::empty()
    } else if plans[n - 1] is AlreadyDone {
        task_positions(plans, n - 1)
    } else {
        task_positions(plans, n - 1).push(n - 1)
    }
}

proof fn lemma_task_positions_bounds(plans: Seq<Plan>, n: int)
    requires
        0 <= n <= plans.len(),
    ensures
        forall|k: int| 0 <= k < task_positions(plans, n).len() ==> 0 <= #[trigger] task_positions(plans, n)[k] < n,
    decreases n,
{
    if n > 0 {
        lemma_task_positions_bounds(plans, n - 1);
        let prev = task_positions(plans, n - 1);
        assert forall|k: int| 0 <= k < task_positions(plans, n).len() implies 0 <= #[trigger] task_positions(plans, n)[k] < n by {
            if k < prev.len() {
                assert(task_positions(plans, n)[k] == prev[k]);
            }
        }
    }
}

/// The copy tasks for a started run, one per file still to do, in the scan's order.
pub fn ingest_tasks(run: &CardRun, plans: &Vec<Plan>) -> (r: Vec<IngestTask>)
    requires
        run.wf(),
        plans@.len() == run.scan.files@.len(),
    ensures
        r@.len() == task_positions(plans@, plans@.len() as int).len(),
        forall|k: int| 0 <= k < r@.len() ==> task_matches(
            #[trigger] r@[k],
            run@,
            task_positions(plans@, plans@.len() as int)[k],
            plans@[task_positions(plans@, plans@.len() as int)[k]],
        ),
{
    let mut tasks: Vec<IngestTask> = Vec::new();
    let mut i: usize = 0;
    while i < plans.len()
        invariant
            i <= plans.len(),
            plans@.len() == run.scan.files@.len(),
            tasks@.len() == task_positions(plans@, i as int).len(),
            forall|k: int| 0 <= k < tasks@.len() ==> task_matches(
                #[trigger] tasks@[k],
                run@,
                task_positions(plans@, i as int)[k],
                plans@[task_positions(plans@, i as int)[k]],
            ),
        decreases plans.len() - i,
    {
        proof {
            lemma_task_positions_bounds(plans@, i as int);
        }
        let recheck: Option<String> = match &plans[i] {
            Plan::AlreadyDone => {
                i += 1;
                continue;
            },
            Plan::Recheck(h) => Some(owned(h.as_str())),
            Plan::Incomplete | Plan::Copy => None,
        };
        let file = &run.scan.files[i];
        let thumb_rel = thumb_rel_path(file.rel_path.as_str());
        let task = IngestTask {
            card: run.id,
            index: i,
            file: file.duplicate(),
            dst: path_join_str(run.dest_dir.as_str(), file.rel_path.as_str()),
            thumb_abs: path_join_str(run.dest_dir.as_str(), thumb_rel.as_str()),
            thumb_rel: key_for(thumb_rel.as_str()),
            recheck,
        };
        let ghost prev = tasks@;
        tasks.push(task);
        assert(task_positions(plans@, i + 1) == task_positions(plans@, i as int).push(i as int));
        assert forall|k: int| 0 <= k < tasks@.len() implies task_matches(
            #[trigger] tasks@[k],
            run@,
            task_positions(plans@, i + 1)[k],
            plans@[task_positions(plans@, i + 1)[k]],
        ) by {
            if k < prev.len() {
                assert(tasks@[k] == prev[k]);
            }
        }
        i += 1;
    }
    tasks
}

// ---------------------------------------------------------------------------------------
// The card's header action
// ---------------------------------------------------------------------------------------

/// What the action at the right of a card's header does when clicked.
#[derive(Debug, Clone, Copy, PartialEq, Eq, Structural)]
pub enum CardAction {
    Start,
    Cancel,
    Eject,
}

/// The progress counters a running card reports, with its copied bytes already written
/// out as the caller shows sizes.
pub struct HeaderProgress {
    pub files_done: usize,
    pub files_total: usize,
    pub bytes_done_text: String,
}

proof fn lemma_count_le(states: Seq<FileState>, state: FileState)
    ensures
        count_spec(states, state) <= states.len(),
    decreases states.len(),
{
    if states.len() > 0 {
        lemma_count_le(states.drop_last(), state);
    }
}

/// The files of a run not yet done.
pub open spec fn outstanding_count(states: Seq<FileState>) -> int {
    states.len() - count_spec(states, FileState::Done)
}

/// The header action of a card: nothing while it is scanning; once every file is done,
/// "Safely remove {card}" to eject it; while it runs, "{done} / {total} · {bytes}" and
/// the time left when known, to cancel it; otherwise, when files are outstanding,
/// "Ingest {n files} · {outstanding bytes}" to start it, and nothing when none are. Sizes
/// come written out by the caller: `outstanding_text` is the run's outstanding bytes.
pub open spec fn header_spec(
    v: RunView,
    scanning: bool,
    done: nat,
    total: nat,
    bytes_done: Seq<char>,
    eta: Option<Seq<char>>,
    outstanding_text: Seq<char>,
) -> Option<(Seq<char>, CardAction)> {
    if scanning {
        None
    } else if v.complete() {
        Some(("Safely remove "@ + v.card_name, CardAction::Eject))
    } else if v.running() {
        let base = dec(done) + " / "@ + dec(total) + " \u{b7} "@ + bytes_done;
        Some((
            match eta {
                Some(t) => base + " \u{b7} "@ + t,
                None => base,
            },
            CardAction::Cancel,
        ))
    } else if outstanding_count(v.states) == 0 {
        None
    } else {
        Some((
            "Ingest "@ + plural_spec(outstanding_count(v.states) as nat, "file"@) + " \u{b7} "@ + outstanding_text,
            CardAction::Start,
        ))
    }
}

pub open spec fn label_view(r: Option<(String, CardAction)>) -> Option<(Seq<char>, CardAction)> {
    match r {
        Some((t, a)) => Some((t@, a)),
        None => None,
    }
}

pub fn header_action(
    run: &CardRun,
    scanning: bool,
    progress: &HeaderProgress,
    eta_text: Option<&str>,
    outstanding_text: &str,
) -> (r: Option<(String, CardAction)>)
    ensures
        label_view(r) == header_spec(
            run@,
            scanning,
            progress.files_done as nat,
            progress.files_total as nat,
            progress.bytes_done_text@,
            match eta_text {
                Some(t) => Some(t@),
                None => None,
            },
            outstanding_text@,
        ),
{
    if scanning {
        return None;
    }
    if run.is_complete() {
        let mut v = chars_of("Safely remove ");
        extend_str(&mut v, run.card_name.as_str());
        return Some((string_of(&v), CardAction::Eject));
    }
    if run.is_running() {
        let mut v = dec_usize(progress.files_done);
        extend_str(&mut v, " / ");
        extend(&mut v, &dec_usize(progress.files_total));
        extend_str(&mut v, " \u{b7} ");
        extend_str(&mut v, progress.bytes_done_text.as_str());
        match eta_text {
            Some(t) => {
                extend_str(&mut v, " \u{b7} ");
                extend_str(&mut v, t);
            },
            None => {},
        }
        return Some((string_of(&v), CardAction::Cancel));
    }
    proof {
        lemma_count_le(run.states@, FileState::Done);
    }
    let outstanding = run.states.len() - run.done_count();
    if outstanding == 0 {
        return None;
    }
    let mut v = chars_of("Ingest ");
    extend_str(&mut v, plural(outstanding, "file").as_str());
    extend_str(&mut v, " \u{b7} ");
    extend_str(&mut v, outstanding_text);
    Some((string_of(&v), CardAction::Start))
}

// ---------------------------------------------------------------------------------------
// The card's detail line
// ---------------------------------------------------------------------------------------

pub open spec fn opt_piece(present: bool, text: Seq<char>) -> Seq<Seq<char>> {
    if present {
        seq![text]
    } else {
        Seq::empty()
    }
}

/// The pieces of the line under a card's name: while it is scanning, how many files have
/// been examined; otherwise its contents, its cameras, what was skipped and how many files
/// failed, each only when there is something to say; and "card removed" once it is pulled.
pub open spec fn detail_pieces(v: RunView, scanning: bool, examined: nat, connected: bool) -> Seq<Seq<char>> {
    let contents = join(v.scan.ext_counts@.map_values(|e: (String, usize)| crate::scan::count_piece(e)), ", "@);
    let cameras = views_of_strings(v.scan.cameras@);
    let sk = v.scan.skipped;
    let failed = count_spec(v.states, FileState::Failed);
    (if scanning {
        seq!["Scanning\u{2026} "@ + dec(examined) + " files"@]
    } else {
        opt_piece(contents.len() > 0, contents)
            + opt_piece(cameras.len() > 0, "Cameras: "@ + join(cameras, ", "@))
            + opt_piece(
                !(sk.jpeg_with_raw == 0 && sk.other == 0),
                crate::scan::describe_text(sk.jpeg_with_raw as nat, sk.other as nat),
            )
            + opt_piece(failed > 0, dec(failed) + " failed"@)
    }) + opt_piece(!connected, "card removed"@)
}

pub open spec fn views_of_strings(s: Seq<String>) -> Seq<Seq<char>> {
    s.map_values(|t: String| t@)
}

/// The detail line of a card: its pieces joined with three spaces. `examined` is how many
/// files the running scan has looked at; `connected` whether the card is still plugged in.
pub fn card_detail_line(run: &CardRun, scanning: bool, examined: usize, connected: bool) -> (r: String)
    ensures
        r@ == join(detail_pieces(run@, scanning, examined as nat, connected), "   "@),
{
    let mut pieces: Vec<Vec<char>> = Vec::new();
    if scanning {
        let mut v = chars_of("Scanning\u{2026} ");
        extend(&mut v, &dec_usize(examined));
        extend_str(&mut v, " files");
        pieces.push(v);
        assert(views(pieces@) =~= seq!["Scanning\u{2026} "@ + dec(examined as nat) + " files"@]);
    } else {
        let contents = run.scan.describe_contents();
        if contents.unicode_len() > 0 {
            pieces.push(chars_of(contents.as_str()));
        }
        let ghost p1 = views(pieces@);
        if run.scan.cameras.len() > 0 {
            let mut names: Vec<Vec<char>> = Vec::new();
            let mut i: usize = 0;
            while i < run.scan.cameras.len()
                invariant
                    i <= run.scan.cameras.len(),
                    views(names@) == views_of_strings(run.scan.cameras@.take(i as int)),
                decreases run.scan.cameras.len() - i,
            {
                let ghost prev = names@;
                names.push(chars_of(run.scan.cameras[i].as_str()));
                assert(views(names@) =~= views(prev).push(run.scan.cameras@[i as int]@));
                assert(run.scan.cameras@.take(i + 1) =~= run.scan.cameras@.take(i as int).push(run.scan.cameras@[i as int]));
                i += 1;
            }
            assert(run.scan.cameras@.take(run.scan.cameras@.len() as int) =~= run.scan.cameras@);
            let sep = chars_of(", ");
            let mut v = chars_of("Cameras: ");
            extend(&mut v, &join_vec(&names, &sep));
            pieces.push(v);
        }
        let ghost p2 = views(pieces@);
        match run.scan.skipped.describe() {
            Some(t) => pieces.push(chars_of(t.as_str())),
            None => {},
        }
        let ghost p3 = views(pieces@);
        let failed = run.failed_count();
        if failed > 0 {
            let mut v = dec_usize(failed);
            extend_str(&mut v, " failed");
            pieces.push(v);
        }
        proof {
            let contents_s = join(run@.scan.ext_counts@.map_values(|e: (String, usize)| crate::scan::count_piece(e)), ", "@);
            let cams = views_of_strings(run@.scan.cameras@);
            assert(p1 =~= opt_piece(contents_s.len() > 0, contents_s));
            assert(p2 =~= p1 + opt_piece(cams.len() > 0, "Cameras: "@ + join(cams, ", "@)));
            let sk = run.scan.skipped;
            assert(p3 =~= p2 + opt_piece(
                !(sk.jpeg_with_raw == 0 && sk.other == 0),
                crate::scan::describe_text(sk.jpeg_with_raw as nat, sk.other as nat),
            ));
            let f = count_spec(run@.states, FileState::Failed);
            assert(views(pieces@) =~= p3 + opt_piece(f > 0, dec(f) + " failed"@));
        }
    }
    let ghost before = views(pieces@);
    if !connected {
        pieces.push(chars_of("card removed"));
    }
    assert(views(pieces@) =~= before + opt_piece(!connected, "card removed"@));
    let sep = chars_of("   ");
    string_of(&join_vec(&pieces, &sep))
}

} // verus!
