//! Steps the session takes as background work reports back: a login finishing, an asset
//! list arriving (held back while the user is moving through the table), and a thumbnail
//! being made. The channels, caches and textures are the caller's; it hands each report
//! here and carries out what comes back.
use vstd::prelude::*;
use crate::asset::AssetType;
use crate::auth::{apply_tokens, auth_required_prefix, is_auth_required_error, AuthTokens, BrowserLogin, Credentials};
use crate::notion::{AssetList, AssetListState};
use crate::text::{chars_of, contains_exec, contains_seq, starts_with};

verus! {

// ---------------------------------------------------------------------------------------
// The login flow
// ---------------------------------------------------------------------------------------

/// What the login flow reports.
pub enum AuthMsg {
    /// The browser was sent to this login.
    Started(BrowserLogin),
    Success(AuthTokens),
    Error(String),
}

/// How a batch of login reports ended.
pub enum AuthOutcome {
    /// The flow is still going.
    Waiting,
    /// Logged in: the tokens are stored; the caller saves them, re-reads who is logged
    /// in, drops the list refreshes still in flight and refreshes every type.
    LoggedIn,
    /// The flow failed with this message, for the error banner.
    Failed(String),
}

/// The login shown to the user, and the outcome, after the reports in order: a start
/// records its login; a success or an error ends the flow, and what follows it is never
/// read.
pub open spec fn auth_spec(login: Option<BrowserLogin>, msgs: Seq<AuthMsg>) -> (Option<BrowserLogin>, Option<AuthMsg>)
    decreases msgs.len(),
{
    if msgs.len() == 0 {
        (login, None)
    } else {
        match msgs[0] {
            AuthMsg::Started(l) => auth_spec(Some(l), msgs.drop_first()),
            AuthMsg::Success(t) => (None, Some(AuthMsg::Success(t))),
            AuthMsg::Error(m) => (login, Some(AuthMsg::Error(m))),
        }
    }
}

/// Drain the login flow's reports. A success stores its tokens and closes the login
/// prompt; a success or an error ends the flow (`*waiting` becomes false).
pub fn pump_auth(
    msgs: Vec<AuthMsg>,
    login: &mut Option<BrowserLogin>,
    waiting: &mut bool,
    token_prompt_open: &mut bool,
    credentials: &mut Credentials,
) -> (r: AuthOutcome)
    ensures
        ({
            let (l, end) = auth_spec(*old(login), msgs@);
            &&& *final(login) == l
            &&& match end {
                None => {
                    &&& r is Waiting
                    &&& *final(waiting) == *old(waiting)
                    &&& *final(token_prompt_open) == *old(token_prompt_open)
                    &&& *final(credentials) == *old(credentials)
                },
                Some(AuthMsg::Success(t)) => {
                    &&& r is LoggedIn
                    &&& !*final(waiting)
                    &&& !*final(token_prompt_open)
                    &&& final(credentials).auth_access_token@ == t.access_token@
                    &&& final(credentials).auth_refresh_token@ == t.refresh_token@
                    &&& final(credentials).auth_expires_at == t.expires_at
                },
                Some(AuthMsg::Error(m)) => {
                    &&& (r matches AuthOutcome::Failed(e) && e@ == m@)
                    &&& !*final(waiting)
                    &&& *final(token_prompt_open) == *old(token_prompt_open)
                    &&& *final(credentials) == *old(credentials)
                },
                Some(AuthMsg::Started(_)) => false,
            }
        }),
{
    let ghost all = msgs@;
    let mut msgs = msgs;
    let mut outcome = AuthOutcome::Waiting;
    let mut done = false;
    while !done && msgs.len() > 0
        invariant
            !done ==> auth_spec(*login, msgs@) == auth_spec(*old(login), all),
            !done ==> (outcome is Waiting && *waiting == *old(waiting) && *token_prompt_open == *old(token_prompt_open)
                && *credentials == *old(credentials)),
            done ==> ({
                let (l, end) = auth_spec(*old(login), all);
                &&& *login == l
                &&& match end {
                    Some(AuthMsg::Success(t)) => {
                        &&& outcome is LoggedIn
                        &&& !*waiting
                        &&& !*token_prompt_open
                        &&& credentials.auth_access_token@ == t.access_token@
                        &&& credentials.auth_refresh_token@ == t.refresh_token@
                        &&& credentials.auth_expires_at == t.expires_at
                    },
                    Some(AuthMsg::Error(m)) => {
                        &&& (outcome matches AuthOutcome::Failed(e) && e@ == m@)
                        &&& !*waiting
                        &&& *token_prompt_open == *old(token_prompt_open)
                        &&& *credentials == *old(credentials)
                    },
                    _ => false,
                }
            }),
        decreases msgs@.len(),
    {
        let ghost rest = msgs@;
        let ghost cur = *login;
        let m = msgs.remove(0);
        let ghost mg = m;
        assert(mg == rest[0]);
        assert(msgs@ =~= rest.drop_first());
        match m {
            AuthMsg::Started(l) => {
                *login = Some(l);
            },
            AuthMsg::Success(t) => {
                assert(auth_spec(cur, rest) == (None::<BrowserLogin>, Some(mg)));
                apply_tokens(credentials, &t);
                *login = None;
                *waiting = false;
                *token_prompt_open = false;
                outcome = AuthOutcome::LoggedIn;
                done = true;
            },
            AuthMsg::Error(e) => {
                assert(auth_spec(cur, rest) == (cur, Some(mg)));
                *waiting = false;
                outcome = AuthOutcome::Failed(e);
                done = true;
            },
        }
    }
    outcome
}

// ---------------------------------------------------------------------------------------
// Asset lists arriving
// ---------------------------------------------------------------------------------------

/// What one type's list refresh came back with.
pub enum ListResult {
    /// The list, and the tokens when they were refreshed on the way.
    Fetched(AssetList, Option<AuthTokens>),
    Failed(String),
}

/// Each asset type at most once.
pub open spec fn types_unique<V>(s: Seq<(AssetType, V)>) -> bool {
    forall|i: int, j: int| 0 <= i < j < s.len() ==> s[i].0 != s[j].0
}

/// The entries as a map from asset type; a later entry for a type wins.
pub open spec fn by_type<V>(s: Seq<(AssetType, V)>) -> Map<AssetType, V>
    decreases s.len(),
{
    if s.len() == 0 {
        Map::empty()
    } else {
        by_type(s.drop_last()).insert(s.last().0, s.last().1)
    }
}

proof fn lemma_by_type_update<V>(s: Seq<(AssetType, V)>, i: int, v: V)
    requires
        0 <= i < s.len(),
        types_unique(s),
    ensures
        by_type(s.update(i, (s[i].0, v))) == by_type(s).insert(s[i].0, v),
        types_unique(s.update(i, (s[i].0, v))),
    decreases s.len(),
{
    let k = s[i].0;
    let t = s.update(i, (k, v));
    if i == s.len() - 1 {
        assert(t.drop_last() =~= s.drop_last());
        assert(by_type(t) =~= by_type(s).insert(k, v));
    } else {
        assert(t.drop_last() =~= s.drop_last().update(i, (k, v)));
        lemma_by_type_update(s.drop_last(), i, v);
        assert(s.last().0 != k);
        assert(by_type(t) =~= by_type(s).insert(k, v));
    }
}

proof fn lemma_by_type_absent<V>(s: Seq<(AssetType, V)>, k: AssetType)
    requires
        forall|j: int| 0 <= j < s.len() ==> s[j].0 != k,
    ensures
        !by_type(s).contains_key(k),
    decreases s.len(),
{
    if s.len() > 0 {
        lemma_by_type_absent(s.drop_last(), k);
    }
}

/// Set the entry for type `t`, replacing any it had.
pub fn set_for_type<V>(s: &mut Vec<(AssetType, V)>, t: AssetType, v: V)
    requires
        types_unique(old(s)@),
    ensures
        types_unique(final(s)@),
        by_type(final(s)@) == by_type(old(s)@).insert(t, v),
{
    let ghost before = s@;
    let mut i: usize = 0;
    while i < s.len()
        invariant
            i <= s.len(),
            s@ == before,
            before == old(s)@,
            types_unique(before),
            forall|k: int| 0 <= k < i ==> before[k].0 != t,
        decreases s.len() - i,
    {
        if s[i].0 == t {
            proof {
                lemma_by_type_update(before, i as int, v);
            }
            s.remove(i);
            s.insert(i, (t, v));
            assert(s@ =~= before.update(i as int, (before[i as int].0, v)));
            return;
        }
        i += 1;
    }
    s.push((t, v));
    assert(s@.drop_last() =~= before);
}

/// What a list result asks of the caller.
pub struct ListStep {
    /// Tokens refreshed on the way: store and save them.
    pub tokens: Option<AuthTokens>,
    /// The refresh failed for want of a login: open the login prompt.
    pub open_token_prompt: bool,
    /// The list went on screen: cache it, rebuild the folder caches and validate the
    /// visible rows.
    pub shown: bool,
}

/// Take in one type's list result. While the cursor has moved in the table in the last
/// two seconds (`cursor_guard`), a fetched list is held back in `pending`, replacing any
/// list held for the type, so rows do not jump under the pointer; otherwise it goes
/// straight on screen. A failure is shown for the type, and opens the login prompt when it
/// asks for a login.
pub fn on_list_result(
    lists: &mut Vec<(AssetType, AssetListState)>,
    pending: &mut Vec<(AssetType, AssetList)>,
    t: AssetType,
    result: ListResult,
    cursor_guard: bool,
) -> (r: ListStep)
    requires
        types_unique(old(lists)@),
        types_unique(old(pending)@),
    ensures
        types_unique(final(lists)@),
        types_unique(final(pending)@),
        match result {
            ListResult::Fetched(list, tokens) => {
                &&& r.tokens == tokens
                &&& !r.open_token_prompt
                &&& r.shown == !cursor_guard
                &&& cursor_guard ==> by_type(final(pending)@) == by_type(old(pending)@).insert(t, list)
                    && final(lists)@ == old(lists)@
                &&& !cursor_guard ==> by_type(final(lists)@) == by_type(old(lists)@).insert(t, AssetListState::Loaded(list))
                    && final(pending)@ == old(pending)@
            },
            ListResult::Failed(msg) => {
                &&& r.tokens is None
                &&& r.open_token_prompt == starts_with(msg@, auth_required_prefix())
                &&& !r.shown
                &&& by_type(final(lists)@) == by_type(old(lists)@).insert(t, AssetListState::Error(msg))
                &&& final(pending)@ == old(pending)@
            },
        },
{
    match result {
        ListResult::Fetched(list, tokens) => {
            if cursor_guard {
                set_for_type(pending, t, list);
            } else {
                set_for_type(lists, t, AssetListState::Loaded(list));
            }
            ListStep { tokens, open_token_prompt: false, shown: !cursor_guard }
        },
        ListResult::Failed(msg) => {
            let prompt = is_auth_required_error(msg.as_str());
            set_for_type(lists, t, AssetListState::Error(msg));
            ListStep { tokens: None, open_token_prompt: prompt, shown: false }
        },
    }
}

/// The held lists put on screen, first to last.
pub open spec fn flushed(m: Map<AssetType, AssetListState>, held: Seq<(AssetType, AssetList)>) -> Map<AssetType, AssetListState>
    decreases held.len(),
{
    if held.len() == 0 {
        m
    } else {
        flushed(m, held.drop_last()).insert(held.last().0, AssetListState::Loaded(held.last().1))
    }
}

/// Once the cursor has rested for two seconds, every held list goes on screen. Returns the
/// types put on screen, in order; the caller caches each, rebuilds the folder caches,
/// validates the visible rows and takes in the published-asset refresh. Nothing happens
/// while the cursor is still moving or nothing is held.
pub fn flush_pending(
    lists: &mut Vec<(AssetType, AssetListState)>,
    pending: &mut Vec<(AssetType, AssetList)>,
    cursor_guard: bool,
) -> (r: Vec<AssetType>)
    requires
        types_unique(old(lists)@),
    ensures
        types_unique(final(lists)@),
        cursor_guard || old(pending)@.len() == 0 ==> {
            &&& r@.len() == 0
            &&& final(lists)@ == old(lists)@
            &&& final(pending)@ == old(pending)@
        },
        !cursor_guard && old(pending)@.len() > 0 ==> {
            &&& r@ == old(pending)@.map_values(|e: (AssetType, AssetList)| e.0)
            &&& by_type(final(lists)@) == flushed(by_type(old(lists)@), old(pending)@)
            &&& final(pending)@.len() == 0
        },
{
    let mut shown: Vec<AssetType> = Vec::new();
    if cursor_guard || pending.len() == 0 {
        return shown;
    }
    let total = pending.len();
    let ghost held = pending@;
    let ghost start = by_type(lists@);
    let mut taken: Vec<(AssetType, AssetList)> = Vec::new();
    std::mem::swap(pending, &mut taken);
    let mut i: usize = 0;
    while taken.len() > 0
        invariant
            taken@ == held.subrange(i as int, held.len() as int),
            i <= held.len(),
            held.len() == total,
            types_unique(lists@),
            by_type(lists@) == flushed(start, held.take(i as int)),
            shown@ == held.take(i as int).map_values(|e: (AssetType, AssetList)| e.0),
            pending@.len() == 0,
        decreases taken@.len(),
    {
        let (t, list) = taken.remove(0);
        assert(held.take(i + 1).drop_last() =~= held.take(i as int));
        set_for_type(lists, t, AssetListState::Loaded(list));
        shown.push(t);
        assert(shown@ =~= held.take(i + 1).map_values(|e: (AssetType, AssetList)| e.0));
        i += 1;
        assert(taken@ =~= held.subrange(i as int, held.len() as int));
    }
    assert(held.take(held.len() as int) =~= held);
    shown
}

// ---------------------------------------------------------------------------------------
// Thumbnails arriving
// ---------------------------------------------------------------------------------------

/// What to do with a finished thumbnail job.
#[derive(Debug, Clone, Copy, PartialEq, Eq, Structural)]
pub enum ThumbnailFollowUp {
    /// Load the thumbnail made and show it.
    Show,
    /// The source changed while it was being made: make it again.
    Respawn,
    /// The asset has no thumbnail source: drop its preview and revision.
    Forget,
    /// It failed for good: log the error.
    Warn,
}

pub open spec fn missing_source_text() -> Seq<char> {
    "Missing thumbnail source"@
}

/// A thumbnail job started at `job_revision` has ended with `result`: the revision it was
/// made from, or an error. `current_revision` is the row's revision now, when the row still
/// has one; without it the job's own counts as current.
pub fn thumbnail_follow_up(result: &Result<u64, String>, job_revision: u64, current_revision: Option<u64>) -> (r: ThumbnailFollowUp)
    ensures
        ({
            let current = match current_revision {
                Some(c) => c,
                None => job_revision,
            };
            r == match *result {
                Ok(made) => if made != current {
                    ThumbnailFollowUp::Respawn
                } else {
                    ThumbnailFollowUp::Show
                },
                Err(e) => if contains_seq(e@, missing_source_text()) {
                    ThumbnailFollowUp::Forget
                } else if current != job_revision {
                    ThumbnailFollowUp::Respawn
                } else {
                    ThumbnailFollowUp::Warn
                },
            }
        }),
{
    let current = match current_revision {
        Some(c) => c,
        None => job_revision,
    };
    match result {
        Ok(made) => {
            if *made != current {
                ThumbnailFollowUp::Respawn
            } else {
                ThumbnailFollowUp::Show
            }
        },
        Err(e) => {
            let text = chars_of(e.as_str());
            let needle = chars_of("Missing thumbnail source");
            if contains_exec(&text, &needle) {
                ThumbnailFollowUp::Forget
            } else if current != job_revision {
                ThumbnailFollowUp::Respawn
            } else {
                ThumbnailFollowUp::Warn
            }
        },
    }
}

} // verus!
