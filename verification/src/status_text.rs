//! Texts of the status bar and the ingest view, and the path matching behind the
//! filesystem watcher.
use vstd::prelude::*;
use crate::asset::{asset_type_label, AssetType, RowKey, TransferKind};
use crate::copy_plan::Direction;
use crate::ingest::is_sep;
use crate::text::{
    chars_of, contains_exec, contains_seq, dec, dec_u64, extend, extend_str, join, join_vec,
    lower_seq, lower_vec, owned, seq_eq, string_of, to_lowercase, unicode_lower, views, words,
    words_vec,
};

verus! {

// ---------------------------------------------------------------------------------------
// Durations
// ---------------------------------------------------------------------------------------

/// A duration in whole seconds, at least one: `{s}s` under a minute, `{m}m {s}s` above.
pub open spec fn duration_text(secs: nat) -> Seq<char> {
    let s = if secs < 1 { 1 } else { secs };
    if s < 60 {
        dec(s) + "s"@
    } else {
        dec(s / 60) + "m "@ + dec(s % 60) + "s"@
    }
}

pub fn fmt_duration(secs: u64) -> (r: String)
    ensures
        r@ == duration_text(secs as nat),
{
    let s = if secs < 1 {
        1
    } else {
        secs
    };
    if s < 60 {
        let mut v = dec_u64(s);
        extend_str(&mut v, "s");
        string_of(&v)
    } else {
        let mut v = dec_u64(s / 60);
        extend_str(&mut v, "m ");
        let sec = dec_u64(s % 60);
        extend(&mut v, &sec);
        extend_str(&mut v, "s");
        string_of(&v)
    }
}

/// The remaining time of an ingest, as the ingest view words it. Under a minute it is
/// rounded to the nearest five seconds and never zero; up to an hour to the nearest
/// minute and never zero; from an hour on in hours and the nearest minute, a rounded
/// sixty minutes carrying into the hour.
pub open spec fn eta_text(secs: nat) -> Seq<char> {
    if secs < 60 {
        let r = (secs + 2) / 5 * 5;
        let rounded = if r < 5 { 5 } else { r };
        "ETL "@ + dec(rounded) + " seconds"@
    } else if secs >= 3600 {
        let h0 = secs / 3600;
        let m0 = (secs % 3600 + 30) / 60;
        let hours: nat = if m0 >= 60 { h0 + 1 } else { h0 };
        let minutes: nat = if m0 >= 60 { 0 } else { m0 };
        let label = if hours == 1 { "hour"@ } else { "hours"@ };
        if minutes == 0 {
            "ETL "@ + dec(hours) + " "@ + label
        } else {
            "ETL "@ + dec(hours) + " "@ + label + " "@ + dec(minutes) + " min"@
        }
    } else {
        let m = (secs + 30) / 60;
        let minutes = if m < 1 { 1 } else { m };
        if minutes == 1 {
            "ETL 1 minute"@
        } else {
            "ETL "@ + dec(minutes) + " minutes"@
        }
    }
}

pub fn fmt_eta(remaining_secs: u64) -> (r: String)
    ensures
        r@ == eta_text(remaining_secs as nat),
{
    let secs = remaining_secs;
    if secs < 60 {
        let r = (secs + 2) / 5 * 5;
        let rounded = if r < 5 {
            5
        } else {
            r
        };
        let mut v = chars_of("ETL ");
        let d = dec_u64(rounded);
        extend(&mut v, &d);
        extend_str(&mut v, " seconds");
        return string_of(&v);
    }
    if secs >= 3600 {
        let h0 = secs / 3600;
        let m0 = (secs % 3600 + 30) / 60;
        let (hours, minutes) = if m0 >= 60 {
            (h0 + 1, 0)
        } else {
            (h0, m0)
        };
        let label = if hours == 1 {
            "hour"
        } else {
            "hours"
        };
        let mut v = chars_of("ETL ");
        let d = dec_u64(hours);
        extend(&mut v, &d);
        extend_str(&mut v, " ");
        extend_str(&mut v, label);
        if minutes != 0 {
            extend_str(&mut v, " ");
            let m = dec_u64(minutes);
            extend(&mut v, &m);
            extend_str(&mut v, " min");
        }
        return string_of(&v);
    }
    let m = (secs + 30) / 60;
    let minutes = if m < 1 {
        1
    } else {
        m
    };
    if minutes == 1 {
        owned("ETL 1 minute")
    } else {
        let mut v = chars_of("ETL ");
        let d = dec_u64(minutes);
        extend(&mut v, &d);
        extend_str(&mut v, " minutes");
        string_of(&v)
    }
}

/// Seconds ticking away inside one rounding step do not change the estimate's text.
pub proof fn law_eta_holds_still_within_a_step(a: nat, b: nat)
    requires
        (a < 60 && b < 60 && (a + 2) / 5 == (b + 2) / 5) || (60 <= a < 3600 && 60 <= b < 3600 && (a
            + 30) / 60 == (b + 30) / 60),
    ensures
        eta_text(a) == eta_text(b),
{
}

// ---------------------------------------------------------------------------------------
// Paths in the status bar
// ---------------------------------------------------------------------------------------

/// `s` split at every `/` and `\\`, empty pieces kept.
pub open spec fn split_at_seps(s: Seq<char>) -> Seq<Seq<char>>
    decreases s.len(),
{
    if s.len() == 0 {
        seq![Seq::<char>::empty()]
    } else {
        let prev = split_at_seps(s.drop_last());
        if is_sep(s.last()) {
            prev.push(Seq::<char>::empty())
        } else {
            prev.update(prev.len() - 1, prev.last().push(s.last()))
        }
    }
}

proof fn lemma_split_at_seps_nonempty(s: Seq<char>)
    ensures
        split_at_seps(s).len() >= 1,
    decreases s.len(),
{
    if s.len() > 0 {
        lemma_split_at_seps_nonempty(s.drop_last());
    }
}

/// The pieces of `parts` that are neither empty nor `.`.
pub open spec fn named_parts(parts: Seq<Seq<char>>) -> Seq<Seq<char>>
    decreases parts.len(),
{
    if parts.len() == 0 {
        Seq::empty()
    } else {
        let prev = named_parts(parts.drop_last());
        let p = parts.last();
        if p.len() == 0 || p == "."@ {
            prev
        } else {
            prev.push(p)
        }
    }
}

/// The non-empty pieces of `parts`.
pub open spec fn nonempty_parts(parts: Seq<Seq<char>>) -> Seq<Seq<char>>
    decreases parts.len(),
{
    if parts.len() == 0 {
        Seq::empty()
    } else {
        let prev = nonempty_parts(parts.drop_last());
        if parts.last().len() == 0 {
            prev
        } else {
            prev.push(parts.last())
        }
    }
}

fn split_at_seps_vec(s: &[char]) -> (r: Vec<Vec<char>>)
    ensures
        views(r@) == split_at_seps(s@),
{
    let mut parts: Vec<Vec<char>> = Vec::new();
    parts.push(Vec::new());
    let mut i: usize = 0;
    assert(views(parts@) =~= split_at_seps(s@.take(0)));
    while i < s.len()
        invariant
            i <= s.len(),
            parts@.len() >= 1,
            views(parts@) == split_at_seps(s@.take(i as int)),
        decreases s.len() - i,
    {
        let c = s[i];
        assert(s@.take(i + 1).drop_last() =~= s@.take(i as int));
        assert(s@.take(i + 1).last() == c);
        if c == '/' || c == '\\' {
            parts.push(Vec::new());
            assert(views(parts@) =~= split_at_seps(s@.take(i + 1)));
        } else {
            let mut piece = parts.pop().unwrap();
            piece.push(c);
            parts.push(piece);
            assert(views(parts@) =~= split_at_seps(s@.take(i + 1)));
        }
        i += 1;
    }
    assert(s@.take(s.len() as int) =~= s@);
    parts
}

fn nonempty_vec(parts: &Vec<Vec<char>>, skip_dots: bool) -> (r: Vec<Vec<char>>)
    ensures
        skip_dots ==> views(r@) == named_parts(views(parts@)),
        !skip_dots ==> views(r@) == nonempty_parts(views(parts@)),
{
    let dot = chars_of(".");
    let mut out: Vec<Vec<char>> = Vec::new();
    let mut i: usize = 0;
    while i < parts.len()
        invariant
            i <= parts.len(),
            dot@ == "."@,
            skip_dots ==> views(out@) == named_parts(views(parts@).take(i as int)),
            !skip_dots ==> views(out@) == nonempty_parts(views(parts@).take(i as int)),
        decreases parts.len() - i,
    {
        assert(views(parts@).take(i + 1).drop_last() =~= views(parts@).take(i as int));
        assert(views(parts@).take(i + 1).last() == parts@[i as int]@);
        let p = &parts[i];
        let keep = p.len() > 0 && !(skip_dots && seq_eq(p, &dot));
        if keep {
            out.push(crate::ingest::slice_to(p, p.len()));
            assert(out@[out@.len() - 1]@ =~= parts@[i as int]@);
        }
        i += 1;
        assert(skip_dots ==> views(out@) =~= named_parts(views(parts@).take(i as int)));
        assert(!skip_dots ==> views(out@) =~= nonempty_parts(views(parts@).take(i as int)));
    }
    assert(views(parts@).take(parts.len() as int) =~= views(parts@));
    out
}

/// A path shortened for the status bar: its non-empty parts joined with `\\`, and beyond
/// three parts only the last three after `...`.
pub open spec fn abbreviated_path(path: Seq<char>) -> Seq<char> {
    let parts = nonempty_parts(split_at_seps(path));
    if parts.len() <= 3 {
        join(parts, "\\"@)
    } else {
        "..."@ + join(parts.skip(parts.len() - 3), "\\"@)
    }
}

pub fn abbreviate_status_path(path: &str) -> (r: String)
    ensures
        r@ == abbreviated_path(path@),
{
    let s = chars_of(path);
    let pieces = split_at_seps_vec(&s);
    let parts = nonempty_vec(&pieces, false);
    let sep = chars_of("\\");
    if parts.len() <= 3 {
        let j = join_vec(&parts, &sep);
        return string_of(&j);
    }
    let mut tail: Vec<Vec<char>> = Vec::new();
    let n = parts.len();
    let mut i: usize = n - 3;
    while i < n
        invariant
            n == parts@.len(),
            n >= 4,
            n - 3 <= i <= n,
            tail@.len() == i - (n - 3),
            views(tail@) == views(parts@).subrange(n - 3, i as int),
        decreases n - i,
    {
        let piece = crate::ingest::slice_to(&parts[i], parts[i].len());
        assert(piece@ =~= parts@[i as int]@);
        tail.push(piece);
        assert(views(tail@)[i - (n - 3)] == views(parts@)[i as int]);
        i += 1;
        assert(views(tail@) =~= views(parts@).subrange(n - 3, i as int));
    }
    assert(views(parts@).subrange(n - 3, n as int) =~= views(parts@).skip(n - 3));
    let mut v = chars_of("...");
    let j = join_vec(&tail, &sep);
    extend(&mut v, &j);
    string_of(&v)
}

/// What the status bar says about a transfer: the file being copied, or the asset when no
/// file is known.
pub open spec fn transfer_action_text(key_type: AssetType, slug: Seq<char>, kind: TransferKind, file: Option<Seq<char>>) -> Seq<char> {
    let target = match file {
        Some(f) => if f.len() > 0 {
            abbreviated_path(f)
        } else {
            asset_type_label(key_type) + "/"@ + slug
        },
        None => asset_type_label(key_type) + "/"@ + slug,
    };
    match kind {
        TransferKind::Push => "Uploading "@ + target + " to Prod"@,
        TransferKind::Pull => "Downloading "@ + target + " from Prod"@,
        TransferKind::Archive => "Archiving "@ + target,
        TransferKind::Unarchive => "Unarchiving "@ + target,
    }
}

pub open spec fn opt_view(f: Option<&str>) -> Option<Seq<char>> {
    match f {
        Some(s) => Some(s@),
        None => None,
    }
}

pub fn format_active_transfer_action(key: &RowKey, kind: TransferKind, current_file: Option<&str>) -> (r: String)
    ensures
        r@ == transfer_action_text(key.asset_type, key.slug@, kind, opt_view(current_file)),
{
    let target: Vec<char> = match current_file {
        Some(file) => {
            if file.unicode_len() > 0 {
                chars_of(abbreviate_status_path(file).as_str())
            } else {
                let mut t = chars_of(key.asset_type.folder());
                extend_str(&mut t, "/");
                extend_str(&mut t, key.slug.as_str());
                t
            }
        },
        None => {
            let mut t = chars_of(key.asset_type.folder());
            extend_str(&mut t, "/");
            extend_str(&mut t, key.slug.as_str());
            t
        },
    };
    let mut v: Vec<char> = Vec::new();
    match kind {
        TransferKind::Push => {
            extend_str(&mut v, "Uploading ");
            extend(&mut v, &target);
            extend_str(&mut v, " to Prod");
        },
        TransferKind::Pull => {
            extend_str(&mut v, "Downloading ");
            extend(&mut v, &target);
            extend_str(&mut v, " from Prod");
        },
        TransferKind::Archive => {
            extend_str(&mut v, "Archiving ");
            extend(&mut v, &target);
        },
        TransferKind::Unarchive => {
            extend_str(&mut v, "Unarchiving ");
            extend(&mut v, &target);
        },
    }
    string_of(&v)
}

/// What the status bar says while a push or pull copies `current_file` of an asset.
pub fn format_active_file_action(key: &RowKey, direction: Direction, current_file: Option<&str>) -> (r: String)
    ensures
        r@ == transfer_action_text(
            key.asset_type,
            key.slug@,
            if direction == Direction::Push {
                TransferKind::Push
            } else {
                TransferKind::Pull
            },
            opt_view(current_file),
        ),
{
    let kind = match direction {
        Direction::Push => TransferKind::Push,
        Direction::Pull => TransferKind::Pull,
    };
    format_active_transfer_action(key, kind, current_file)
}

// ---------------------------------------------------------------------------------------
// Update checks
// ---------------------------------------------------------------------------------------

/// The automatic update check runs at most once per day.
pub fn should_check_for_update(last_check_day: Option<u64>, current_day: u64) -> (r: bool)
    ensures
        r == (last_check_day != Some(current_day)),
{
    match last_check_day {
        Some(d) => d != current_day,
        None => true,
    }
}

/// A check the user asked for runs whatever the day.
pub fn should_force_update_check(force: bool, last_check_day: Option<u64>, current_day: u64) -> (r: bool)
    ensures
        r == (force || last_check_day != Some(current_day)),
{
    force || should_check_for_update(last_check_day, current_day)
}

/// A release newer than the running one.
#[derive(Debug, Clone)]
pub struct UpdateInfo {
    pub tag: String,
}

/// The tag to install, from what the release lookup answered.
pub fn latest_update_tag_for_install(lookup: Result<Option<UpdateInfo>, String>) -> (r: Result<String, String>)
    ensures
        match lookup {
            Err(e) => r is Err && r->Err_0@ == e@,
            Ok(None) => r is Err && r->Err_0@ == "No newer update found"@,
            Ok(Some(u)) => r is Ok && r->Ok_0@ == u.tag@,
        },
{
    match lookup {
        Err(e) => Err(e),
        Ok(None) => Err(owned("No newer update found")),
        Ok(Some(u)) => Ok(u.tag),
    }
}

// ---------------------------------------------------------------------------------------
// Search and identity
// ---------------------------------------------------------------------------------------

/// Whether a slug matches the search box: every word of the query occurs in the slug,
/// ignoring case; an empty query matches everything.
pub open spec fn search_matches(slug: Seq<char>, query: Seq<char>) -> bool {
    query.len() == 0 || forall|i: int|
        0 <= i < words(query).len() ==> contains_seq(
            unicode_lower(slug),
            unicode_lower(#[trigger] words(query)[i]),
        )
}

pub fn slug_matches_search(slug: &str, query: &str) -> (r: bool)
    ensures
        r == search_matches(slug@, query@),
{
    if query.unicode_len() == 0 {
        return true;
    }
    let sl = to_lowercase(slug);
    let slug_lower = chars_of(sl.as_str());
    let q = chars_of(query);
    let ws = words_vec(&q);
    let mut i: usize = 0;
    while i < ws.len()
        invariant
            i <= ws.len(),
            views(ws@) == words(query@),
            slug_lower@ == unicode_lower(slug@),
            forall|k: int| 0 <= k < i ==> contains_seq(slug_lower@, unicode_lower(#[trigger] words(query@)[k])),
        decreases ws.len() - i,
    {
        let w = string_of(&ws[i]);
        assert(views(ws@)[i as int] == ws@[i as int]@);
        let wl = to_lowercase(w.as_str());
        let wlc = chars_of(wl.as_str());
        if !contains_exec(&slug_lower, &wlc) {
            return false;
        }
        i += 1;
    }
    true
}

// ---------------------------------------------------------------------------------------
// Which asset a changed path belongs to
// ---------------------------------------------------------------------------------------

/// The components of a path: its pieces between `/` and `\\` separators, empty pieces
/// and `.` left out.
pub open spec fn components(path: Seq<char>) -> Seq<Seq<char>> {
    named_parts(split_at_seps(path))
}

/// Whether two path components are equal ignoring ASCII case, as Windows paths are.
pub open spec fn eq_ci(a: Seq<char>, b: Seq<char>) -> bool {
    lower_seq(a) == lower_seq(b)
}

/// The component right below `root` when `path` lies under it, ignoring case.
pub open spec fn slug_under(root: Seq<char>, path: Seq<char>) -> Option<Seq<char>> {
    let rp = components(root);
    let pp = components(path);
    if rp.len() < pp.len() && forall|i: int| 0 <= i < rp.len() ==> eq_ci(#[trigger] rp[i], pp[i]) {
        Some(pp[rp.len() as int])
    } else {
        None
    }
}

pub(crate) fn components_vec(path: &str) -> (r: Vec<Vec<char>>)
    ensures
        views(r@) == components(path@),
{
    let s = chars_of(path);
    let pieces = split_at_seps_vec(&s);
    nonempty_vec(&pieces, true)
}

/// If `path` lies under `root`, the first component below `root`: the asset's slug.
/// Components are compared ignoring ASCII case, as the configured root and the paths a
/// watcher reports may differ in casing.
pub fn slug_under_root(root: &str, path: &str) -> (r: Option<String>)
    ensures
        match slug_under(root@, path@) {
            Some(s) => r is Some && r->0@ == s,
            None => r is None,
        },
{
    let rp = components_vec(root);
    let pp = components_vec(path);
    if rp.len() >= pp.len() {
        return None;
    }
    let mut i: usize = 0;
    while i < rp.len()
        invariant
            i <= rp.len() < pp.len(),
            views(rp@) == components(root@),
            views(pp@) == components(path@),
            forall|k: int| 0 <= k < i ==> eq_ci(#[trigger] components(root@)[k], components(path@)[k]),
        decreases rp.len() - i,
    {
        let a = lower_vec(&rp[i]);
        let b = lower_vec(&pp[i]);
        assert(views(rp@)[i as int] == rp@[i as int]@);
        assert(views(pp@)[i as int] == pp@[i as int]@);
        if !seq_eq(&a, &b) {
            return None;
        }
        i += 1;
    }
    let k = rp.len();
    assert(views(pp@)[k as int] == pp@[k as int]@);
    Some(string_of(&pp[k]))
}

/// The asset a changed path belongs to: the first of `selected_types` whose root under
/// `base` holds it.
pub open spec fn key_for(base: Seq<char>, types: Seq<AssetType>, path: Seq<char>) -> Option<(AssetType, Seq<char>)>
    decreases types.len(),
{
    if types.len() == 0 {
        None
    } else {
        match slug_under(crate::ingest::path_join(base, asset_type_label(types[0])), path) {
            Some(slug) => Some((types[0], slug)),
            None => key_for(base, types.drop_first(), path),
        }
    }
}

/// Maps a changed path to the row it belongs to, under the local or the prod root as the
/// event's source says.
pub fn key_for_path(
    local_root: &str,
    prod_root: &str,
    selected_types: &[AssetType],
    path: &str,
    source: crate::file_watcher::WatchSource,
) -> (r: Option<RowKey>)
    ensures
        ({
            let base = if source == crate::file_watcher::WatchSource::Local {
                local_root@
            } else {
                prod_root@
            };
            match key_for(base, selected_types@, path@) {
                Some((t, slug)) => match r {
                    Some(k) => k.asset_type == t && k.slug@ == slug,
                    None => false,
                },
                None => r is None,
            }
        }),
{
    let base = match source {
        crate::file_watcher::WatchSource::Local => local_root,
        crate::file_watcher::WatchSource::Prod => prod_root,
    };
    assert(base@ == (if source == crate::file_watcher::WatchSource::Local {
        local_root@
    } else {
        prod_root@
    }));
    let mut i: usize = 0;
    assert(selected_types@.skip(0) =~= selected_types@);
    while i < selected_types.len()
        invariant
            i <= selected_types@.len(),
            base@ == (if source == crate::file_watcher::WatchSource::Local {
                local_root@
            } else {
                prod_root@
            }),
            key_for(base@, selected_types@, path@) == key_for(base@, selected_types@.skip(i as int), path@),
        decreases selected_types@.len() - i,
    {
        let t = selected_types[i];
        let ghost rest = selected_types@.skip(i as int);
        assert(rest[0] == t);
        assert(rest.drop_first() =~= selected_types@.skip(i + 1));
        let root = crate::ingest::path_join_str(base, t.folder());
        match slug_under_root(root.as_str(), path) {
            Some(slug) => {
                assert(key_for(base@, rest, path@) == Some((t, slug@)));
                return Some(RowKey { asset_type: t, slug });
            },
            None => {},
        }
        i += 1;
    }
    None
}

// ---------------------------------------------------------------------------------------
// Row notices
// ---------------------------------------------------------------------------------------

/// A short notice on a row, shown for a while after it was made (milliseconds on a
/// monotonic clock).
#[derive(Debug, Clone)]
pub struct RowToast {
    pub text: String,
    pub created_at: u64,
}

/// A transfer that is waiting for the user to settle its conflicts.
#[derive(Debug)]
pub struct PendingConflict {
    pub key: RowKey,
    pub kind: TransferKind,
    pub plan: crate::copy_plan::Plan,
}

/// A copied file that did not verify, waiting to be shown to the user.
#[derive(Debug, Clone)]
pub struct PendingVerificationFailure {
    pub key: RowKey,
    pub rel_path: String,
    pub error: String,
}

/// The notice of a finished transfer: `{done label} in {duration}`.
pub fn transfer_toast_text(kind: TransferKind, elapsed_secs: u64) -> (r: String)
    ensures
        r@ == crate::asset::done_text(kind) + " in "@ + duration_text(elapsed_secs as nat),
{
    let mut v = chars_of(kind.done_label());
    extend_str(&mut v, " in ");
    extend_str(&mut v, fmt_duration(elapsed_secs).as_str());
    string_of(&v)
}


// ---------------------------------------------------------------------------------------
// Version notices
// ---------------------------------------------------------------------------------------

/// How long a version notice stays up.
pub const VERSION_NOTICE_DURATION_MS: u64 = 10_000;

/// A short-lived notice about the version, such as that it is the latest.
#[derive(Debug, Clone)]
pub struct VersionNotice {
    pub message: String,
    pub expires_at: u64,
}

/// A notice shown from `now` for the notice duration.
pub fn version_notice(message: String, now: u64) -> (r: VersionNotice)
    requires
        now + VERSION_NOTICE_DURATION_MS <= u64::MAX,
    ensures
        r.message@ == message@,
        r.expires_at == now + VERSION_NOTICE_DURATION_MS,
{
    VersionNotice { message, expires_at: now + VERSION_NOTICE_DURATION_MS }
}

/// Takes the notice down once it has expired.
pub fn clear_expired_version_notice(notice: &mut Option<VersionNotice>, now: u64)
    ensures
        match *old(notice) {
            Some(n) => if n.expires_at <= now {
                *final(notice) is None
            } else {
                *final(notice) == Some(n)
            },
            None => *final(notice) is None,
        },
{
    let expired = match notice {
        Some(n) => n.expires_at <= now,
        None => false,
    };
    if expired {
        *notice = None;
    }
}

} // verus!
