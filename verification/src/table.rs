//! The asset table's rules: which rows show, in what order, what each row says, and
//! which of its actions can run.
use vstd::prelude::*;
use crate::asset::{asset_type_order, ActionPreview, AssetType};
use crate::copy_plan::Direction;
use crate::notion::{AssetStatus, StatusGroup, StatusOption};
use crate::text::{chars_of, dec, dec_usize, extend, extend_str, lex_less, lex_lt, owned, seq_eq, string_of, to_lowercase, unicode_lower};

verus! {

/// How serious a row message is.
#[derive(Debug, Clone, Copy, PartialEq, Eq, Structural)]
pub enum MsgKind {
    Info,
    Warning,
    Error,
    Question,
}

/// What a row message offers to do.
#[derive(Debug, Clone)]
pub enum RowMsgAction {
    CreateProdFolder,
    DeleteLocalFiles,
    /// Rename the asset's page title to this fixed slug.
    RenameTitle(String),
}

/// A message attached to an asset row.
#[derive(Debug, Clone)]
pub struct RowMsg {
    pub kind: MsgKind,
    pub text: String,
    pub link: Option<String>,
    pub action: Option<RowMsgAction>,
    pub dismiss_key: Option<String>,
}

pub enum ActionView {
    CreateProdFolder,
    DeleteLocalFiles,
    RenameTitle(Seq<char>),
}

/// A row message as plain values.
pub struct RowMsgView {
    pub kind: MsgKind,
    pub text: Seq<char>,
    pub link: Option<Seq<char>>,
    pub action: Option<ActionView>,
    pub dismiss_key: Option<Seq<char>>,
}

pub open spec fn opt_text(o: Option<String>) -> Option<Seq<char>> {
    match o {
        Some(s) => Some(s@),
        None => None,
    }
}

pub open spec fn action_view(a: RowMsgAction) -> ActionView {
    match a {
        RowMsgAction::CreateProdFolder => ActionView::CreateProdFolder,
        RowMsgAction::DeleteLocalFiles => ActionView::DeleteLocalFiles,
        RowMsgAction::RenameTitle(s) => ActionView::RenameTitle(s@),
    }
}

pub open spec fn msg_view(m: RowMsg) -> RowMsgView {
    RowMsgView {
        kind: m.kind,
        text: m.text@,
        link: opt_text(m.link),
        action: match m.action {
            Some(a) => Some(action_view(a)),
            None => None,
        },
        dismiss_key: opt_text(m.dismiss_key),
    }
}

pub open spec fn msgs_view(v: Seq<RowMsg>) -> Seq<RowMsgView> {
    v.map_values(|m: RowMsg| msg_view(m))
}

fn copy_text(s: &Option<String>) -> (r: Option<String>)
    ensures
        opt_text(r) == opt_text(*s),
{
    match s {
        Some(t) => Some(owned(t.as_str())),
        None => None,
    }
}

impl RowMsgAction {
    pub fn duplicate(&self) -> (r: RowMsgAction)
        ensures
            action_view(r) == action_view(*self),
    {
        match self {
            RowMsgAction::CreateProdFolder => RowMsgAction::CreateProdFolder,
            RowMsgAction::DeleteLocalFiles => RowMsgAction::DeleteLocalFiles,
            RowMsgAction::RenameTitle(s) => RowMsgAction::RenameTitle(owned(s.as_str())),
        }
    }
}

impl RowMsg {
    /// A copy of the message.
    pub fn duplicate(&self) -> (r: RowMsg)
        ensures
            msg_view(r) == msg_view(*self),
    {
        let action = match &self.action {
            Some(a) => Some(a.duplicate()),
            None => None,
        };
        RowMsg {
            kind: self.kind,
            text: owned(self.text.as_str()),
            link: copy_text(&self.link),
            action,
            dismiss_key: copy_text(&self.dismiss_key),
        }
    }
}

pub open spec fn texts(v: Seq<String>) -> Seq<Seq<char>> {
    v.map_values(|s: String| s@)
}

/// Whether the user dismissed the message: it has a dismissal key they dismissed.
pub open spec fn dismissed_by(dismissed: Seq<Seq<char>>) -> spec_fn(RowMsgView) -> bool {
    |m: RowMsgView| match m.dismiss_key {
        Some(k) => dismissed.contains(k),
        None => false,
    }
}

pub open spec fn not_dismissed_by(dismissed: Seq<Seq<char>>) -> spec_fn(RowMsgView) -> bool {
    |m: RowMsgView| !dismissed_by(dismissed)(m)
}

pub open spec fn is_error_msg() -> spec_fn(RowMsgView) -> bool {
    |m: RowMsgView| m.kind == MsgKind::Error
}

/// The messages a row shows: those not dismissed, and of them only the errors when there
/// are any.
pub open spec fn visible_messages(msgs: Seq<RowMsgView>, dismissed: Seq<Seq<char>>) -> Seq<RowMsgView> {
    let kept = msgs.filter(not_dismissed_by(dismissed));
    if exists|i: int| 0 <= i < kept.len() && (#[trigger] kept[i]).kind == MsgKind::Error {
        kept.filter(is_error_msg())
    } else {
        kept
    }
}

fn is_dismissed(m: &RowMsg, dismissed: &[String]) -> (r: bool)
    ensures
        r == dismissed_by(texts(dismissed@))(msg_view(*m)),
{
    match &m.dismiss_key {
        Some(k) => {
            let kc = chars_of(k.as_str());
            let mut i: usize = 0;
            while i < dismissed.len()
                invariant
                    i <= dismissed@.len(),
                    kc@ == k@,
                    msg_view(*m).dismiss_key == Some(k@),
                    forall|j: int| 0 <= j < i ==> #[trigger] dismissed@[j]@ != k@,
                decreases dismissed@.len() - i,
            {
                let d = chars_of(dismissed[i].as_str());
                if seq_eq(&d, &kc) {
                    assert(texts(dismissed@)[i as int] == k@);
                    assert(texts(dismissed@).contains(k@));
                    assert(msg_view(*m).dismiss_key == Some(k@));
                    return true;
                }
                i += 1;
            }
            proof {
                if texts(dismissed@).contains(k@) {
                    let j = choose|j: int| 0 <= j < texts(dismissed@).len() && texts(dismissed@)[j] == k@;
                    assert(dismissed@[j]@ == k@);
                }
            }
            false
        },
        None => false,
    }
}

/// Filters `msgs` by a predicate given as its exec test.
fn keep_visible(msgs: &[RowMsg], dismissed: &[String]) -> (r: Vec<RowMsg>)
    ensures
        msgs_view(r@) == msgs_view(msgs@).filter(not_dismissed_by(texts(dismissed@))),
{
    let ghost pred = not_dismissed_by(texts(dismissed@));
    let mut out: Vec<RowMsg> = Vec::new();
    let mut i: usize = 0;
    while i < msgs.len()
        invariant
            i <= msgs@.len(),
            pred == not_dismissed_by(texts(dismissed@)),
            msgs_view(out@) == msgs_view(msgs@).take(i as int).filter(pred),
        decreases msgs@.len() - i,
    {
        proof {
            assert(msgs_view(msgs@).take(i + 1) =~= msgs_view(msgs@).take(i as int).push(msg_view(msgs@[i as int])));
            msgs_view(msgs@).take(i as int).lemma_filter_push(msg_view(msgs@[i as int]), pred);
        }
        let ghost before = msgs_view(out@);
        if !is_dismissed(&msgs[i], dismissed) {
            out.push(msgs[i].duplicate());
            assert(msgs_view(out@) =~= before.push(msg_view(msgs@[i as int])));
        }
        i += 1;
    }
    assert(msgs_view(msgs@).take(msgs@.len() as int) =~= msgs_view(msgs@));
    out
}

fn keep_errors(msgs: Vec<RowMsg>) -> (r: Vec<RowMsg>)
    ensures
        msgs_view(r@) == msgs_view(msgs@).filter(is_error_msg()),
{
    let ghost pred = is_error_msg();
    let mut out: Vec<RowMsg> = Vec::new();
    let mut i: usize = 0;
    while i < msgs.len()
        invariant
            i <= msgs@.len(),
            pred == is_error_msg(),
            msgs_view(out@) == msgs_view(msgs@).take(i as int).filter(pred),
        decreases msgs@.len() - i,
    {
        proof {
            assert(msgs_view(msgs@).take(i + 1) =~= msgs_view(msgs@).take(i as int).push(msg_view(msgs@[i as int])));
            msgs_view(msgs@).take(i as int).lemma_filter_push(msg_view(msgs@[i as int]), pred);
        }
        let ghost before = msgs_view(out@);
        if msgs[i].kind == MsgKind::Error {
            out.push(msgs[i].duplicate());
            assert(msgs_view(out@) =~= before.push(msg_view(msgs@[i as int])));
        }
        i += 1;
    }
    assert(msgs_view(msgs@).take(msgs@.len() as int) =~= msgs_view(msgs@));
    out
}

/// The messages a row shows: see `visible_messages`.
pub fn visible_row_messages(messages: &[RowMsg], dismissed_warning_keys: &[String]) -> (r: Vec<RowMsg>)
    ensures
        msgs_view(r@) == visible_messages(msgs_view(messages@), texts(dismissed_warning_keys@)),
{
    let kept = keep_visible(messages, dismissed_warning_keys);
    let ghost kv = msgs_view(kept@);
    let mut any_error = false;
    let mut i: usize = 0;
    while i < kept.len()
        invariant
            i <= kept@.len(),
            kv == msgs_view(kept@),
            any_error == exists|j: int| 0 <= j < i && (#[trigger] kv[j]).kind == MsgKind::Error,
        decreases kept@.len() - i,
    {
        if kept[i].kind == MsgKind::Error {
            assert(kv[i as int].kind == MsgKind::Error);
            any_error = true;
        }
        i += 1;
    }
    if any_error {
        keep_errors(kept)
    } else {
        kept
    }
}

/// When all errors stay visible, the visible messages of a row with errors are exactly
/// its undismissed errors, in order.
pub proof fn law_errors_hide_other_messages(msgs: Seq<RowMsgView>, dismissed: Seq<Seq<char>>)
    requires
        exists|i: int|
            0 <= i < msgs.len() && (#[trigger] msgs[i]).kind == MsgKind::Error && !dismissed_by(
                dismissed,
            )(msgs[i]),
    ensures
        forall|k: int|
            0 <= k < visible_messages(msgs, dismissed).len() ==> (#[trigger] visible_messages(
                msgs,
                dismissed,
            )[k]).kind == MsgKind::Error,
        visible_messages(msgs, dismissed).len() >= 1,
{
    let i = choose|i: int|
        0 <= i < msgs.len() && (#[trigger] msgs[i]).kind == MsgKind::Error && !dismissed_by(dismissed)(
            msgs[i],
        );
    let kept = msgs.filter(not_dismissed_by(dismissed));
    msgs.lemma_filter_contains(not_dismissed_by(dismissed), i);
    let j = choose|j: int| 0 <= j < kept.len() && kept[j] == msgs[i];
    assert(kept[j].kind == MsgKind::Error);
    let errs = kept.filter(is_error_msg());
    kept.lemma_filter_contains(is_error_msg(), j);
    assert forall|k: int| 0 <= k < errs.len() implies (#[trigger] errs[k]).kind == MsgKind::Error by {
        kept.lemma_filter_pred(is_error_msg(), k);
    }
}

// ---------------------------------------------------------------------------------------
// Actions
// ---------------------------------------------------------------------------------------

#[derive(Debug, Clone, Copy, PartialEq, Eq, Structural)]
pub enum RowAction {
    Push,
    Pull,
}

/// Whether a row's push or pull button can run, and what its tooltip says.
#[derive(Debug, Clone, Copy, PartialEq, Eq)]
pub struct ActionAvailability {
    pub enabled: bool,
    pub tooltip: &'static str,
}

/// Push needs the local folder and pull the prod one; either is off when its preview
/// shows nothing to copy.
pub open spec fn availability_spec(action: RowAction, has_prod_folder: bool, has_local_folder: bool, preview: Option<ActionPreview>) -> (bool, Seq<char>) {
    let nothing = match preview {
        Some(p) => p.file_count == 0,
        None => false,
    };
    match action {
        RowAction::Push => if !has_local_folder {
            (false, "Local folder missing"@)
        } else if nothing {
            (false, "Nothing new to push"@)
        } else {
            (true, "Push to Prod"@)
        },
        RowAction::Pull => if !has_prod_folder {
            (false, "No prod folder"@)
        } else if nothing {
            (false, "Nothing new to pull"@)
        } else {
            (true, "Pull from Prod"@)
        },
    }
}

pub fn row_action_availability(
    action: RowAction,
    has_prod_folder: bool,
    has_local_folder: bool,
    preview: Option<ActionPreview>,
) -> (r: ActionAvailability)
    ensures
        (r.enabled, r.tooltip@) == availability_spec(action, has_prod_folder, has_local_folder, preview),
{
    let nothing = match preview {
        Some(p) => p.file_count == 0,
        None => false,
    };
    match action {
        RowAction::Push => {
            if !has_local_folder {
                ActionAvailability { enabled: false, tooltip: "Local folder missing" }
            } else if nothing {
                ActionAvailability { enabled: false, tooltip: "Nothing new to push" }
            } else {
                ActionAvailability { enabled: true, tooltip: "Push to Prod" }
            }
        },
        RowAction::Pull => {
            if !has_prod_folder {
                ActionAvailability { enabled: false, tooltip: "No prod folder" }
            } else if nothing {
                ActionAvailability { enabled: false, tooltip: "Nothing new to pull" }
            } else {
                ActionAvailability { enabled: true, tooltip: "Pull from Prod" }
            }
        },
    }
}

/// An enabled action always has something to copy, or no preview yet, and its folder.
pub proof fn law_enabled_action_has_its_folder(
    action: RowAction,
    has_prod_folder: bool,
    has_local_folder: bool,
    preview: Option<ActionPreview>,
)
    requires
        availability_spec(action, has_prod_folder, has_local_folder, preview).0,
    ensures
        action == RowAction::Push ==> has_local_folder,
        action == RowAction::Pull ==> has_prod_folder,
        preview matches Some(p) ==> p.file_count > 0,
{
}

/// The label of a row message's action button.
pub open spec fn action_label_text(a: ActionView) -> Seq<char> {
    match a {
        ActionView::CreateProdFolder => "Create?"@,
        ActionView::DeleteLocalFiles => "Delete local files?"@,
        ActionView::RenameTitle(slug) => "Rename to "@ + slug,
    }
}

pub fn action_label(action: &RowMsgAction) -> (r: String)
    ensures
        r@ == action_label_text(action_view(*action)),
{
    match action {
        RowMsgAction::CreateProdFolder => owned("Create?"),
        RowMsgAction::DeleteLocalFiles => owned("Delete local files?"),
        RowMsgAction::RenameTitle(slug) => {
            let mut v = chars_of("Rename to ");
            extend_str(&mut v, slug.as_str());
            string_of(&v)
        },
    }
}

/// What a push or pull would copy: `Push 3 files · {size}`, the size as already written.
pub open spec fn preview_text(direction: Direction, file_count: nat, size: Seq<char>) -> Seq<char> {
    let prefix = if direction == Direction::Push { "Push "@ } else { "Pull "@ };
    let files = if file_count == 1 { "1 file"@ } else { dec(file_count) + " files"@ };
    prefix + files + " · "@ + size
}

pub fn fmt_action_preview(direction: Direction, preview: ActionPreview, size: &str) -> (r: String)
    ensures
        r@ == preview_text(direction, preview.file_count as nat, size@),
{
    let mut v = match direction {
        Direction::Push => chars_of("Push "),
        Direction::Pull => chars_of("Pull "),
    };
    if preview.file_count == 1 {
        extend_str(&mut v, "1 file");
    } else {
        let d = dec_usize(preview.file_count);
        extend(&mut v, &d);
        extend_str(&mut v, " files");
    }
    extend_str(&mut v, " · ");
    extend_str(&mut v, size);
    string_of(&v)
}

// ---------------------------------------------------------------------------------------
// Filters
// ---------------------------------------------------------------------------------------

/// Whether the author field names anyone the author filter selects.
pub fn author_matches_filter(author: &str, filters: &[String]) -> (r: bool)
    ensures
        r == crate::authors::matches_filter(author@, crate::authors::texts(filters@)),
{
    crate::authors::contains_any(author, filters)
}

/// Whether the status is in one of the selected groups; an asset without status matches
/// none.
pub open spec fn status_matches(status: Option<AssetStatus>, selected: Seq<StatusGroup>) -> bool {
    match status {
        Some(s) => selected.contains(s.group),
        None => false,
    }
}

pub fn status_matches_filter(status: &Option<AssetStatus>, selected: &[StatusGroup]) -> (r: bool)
    ensures
        r == status_matches(*status, selected@),
{
    match status {
        Some(s) => {
            let mut i: usize = 0;
            while i < selected.len()
                invariant
                    i <= selected@.len(),
                    *status == Some(*s),
                    forall|j: int| 0 <= j < i ==> selected@[j] != s.group,
                decreases selected@.len() - i,
            {
                if selected[i] == s.group {
                    assert(selected@[i as int] == s.group);
                    assert(selected@.contains(s.group));
                    return true;
                }
                i += 1;
            }
            false
        },
        None => false,
    }
}

/// Whether an asset passes the author and status filters.
pub fn asset_matches_filters(asset: &crate::notion::Asset, filters: &[String], selected: &[StatusGroup]) -> (r: bool)
    ensures
        r == (crate::authors::matches_filter(asset.author@, crate::authors::texts(filters@))
            && status_matches(asset.status, selected@)),
{
    author_matches_filter(asset.author.as_str(), filters) && status_matches_filter(&asset.status, selected)
}

/// A published asset with the same slug is only worth a warning while the asset is not
/// complete.
pub fn should_warn_published_slug(
    published_assets: &crate::polyhaven::PublishedAssets,
    slug: &str,
    status: &Option<AssetStatus>,
) -> (r: bool)
    ensures
        r == (crate::polyhaven::slug_texts(published_assets.slugs@).contains(slug@) && match status {
            Some(s) => s.group != StatusGroup::Complete,
            None => true,
        }),
{
    published_assets.contains(slug) && match status {
        Some(s) => s.group != StatusGroup::Complete,
        None => true,
    }
}

/// A Notion page url as the desktop app opens it.
pub open spec fn notion_app_url_spec(url: Seq<char>) -> Seq<char> {
    if crate::text::starts_with(url, "notion://"@) {
        url
    } else if crate::text::starts_with(url, "https://"@) {
        "notion://"@ + url.skip(8)
    } else if crate::text::starts_with(url, "http://"@) {
        "notion://"@ + url.skip(7)
    } else {
        "notion://"@ + url
    }
}

pub fn notion_app_url(url: &str) -> (r: String)
    ensures
        r@ == notion_app_url_spec(url@),
{
    let u = chars_of(url);
    let notion = chars_of("notion://");
    let https = chars_of("https://");
    let http = chars_of("http://");
    proof {
        reveal_strlit("https://");
        reveal_strlit("http://");
    }
    if crate::text::has_prefix(&u, &notion) {
        return owned(url);
    }
    let mut v = chars_of("notion://");
    if crate::text::has_prefix(&u, &https) {
        let rest = crate::ingest::slice_from(&u, 8);
        extend(&mut v, &rest);
    } else if crate::text::has_prefix(&u, &http) {
        let rest = crate::ingest::slice_from(&u, 7);
        extend(&mut v, &rest);
    } else {
        extend(&mut v, &u);
    }
    string_of(&v)
}

// ---------------------------------------------------------------------------------------
// Row order
// ---------------------------------------------------------------------------------------

/// What the table shows for one asset.
#[derive(Debug)]
pub struct RowView {
    pub asset_type: AssetType,
    pub slug: String,
    pub author: String,
    pub url: String,
    pub page_id: String,
    pub status: Option<AssetStatus>,
    pub exists_on_prod: bool,
    pub messages: Vec<RowMsg>,
}

/// The sort order of the first status option with this id, if any.
pub open spec fn option_order(options: Seq<StatusOption>, id: Seq<char>) -> Option<nat>
    decreases options.len(),
{
    if options.len() == 0 {
        None
    } else if options[0].id@ == id {
        Some(options[0].sort_order as nat)
    } else {
        option_order(options.drop_first(), id)
    }
}

/// Where a status sorts: by its option's order, else its own, and after everything when
/// there is no status.
pub open spec fn status_order_spec(status: Option<AssetStatus>, options: Seq<StatusOption>) -> nat {
    match status {
        None => usize::MAX as nat,
        Some(s) => match option_order(options, s.id@) {
            Some(o) => o,
            None => s.sort_order as nat,
        },
    }
}

pub fn status_order(status: &Option<AssetStatus>, status_options: &[StatusOption]) -> (r: usize)
    ensures
        r == status_order_spec(*status, status_options@),
{
    match status {
        None => usize::MAX,
        Some(s) => {
            let id = chars_of(s.id.as_str());
            let mut i: usize = 0;
            assert(status_options@.skip(0) =~= status_options@);
            while i < status_options.len()
                invariant
                    i <= status_options@.len(),
                    id@ == s.id@,
                    *status == Some(*s),
                    option_order(status_options@, s.id@) == option_order(status_options@.skip(i as int), s.id@),
                decreases status_options@.len() - i,
            {
                let ghost rest = status_options@.skip(i as int);
                assert(rest[0] == status_options@[i as int]);
                assert(rest.drop_first() =~= status_options@.skip(i + 1));
                let oid = chars_of(status_options[i].id.as_str());
                if seq_eq(&oid, &id) {
                    return status_options[i].sort_order;
                }
                i += 1;
            }
            s.sort_order
        },
    }
}

/// The key rows sort by: asset type, then status order, then lower-cased slug.
pub open spec fn row_key(r: RowView, options: Seq<StatusOption>) -> (nat, nat, Seq<char>) {
    (asset_type_order(r.asset_type), status_order_spec(r.status, options), unicode_lower(r.slug@))
}

pub open spec fn key_lt(a: (nat, nat, Seq<char>), b: (nat, nat, Seq<char>)) -> bool {
    a.0 < b.0 || (a.0 == b.0 && (a.1 < b.1 || (a.1 == b.1 && lex_lt(a.2, b.2))))
}

/// Where a stable insertion puts a row with key `k`: before the first row with a greater
/// key.
pub open spec fn row_insert_pos(s: Seq<RowView>, k: (nat, nat, Seq<char>), options: Seq<StatusOption>) -> int
    decreases s.len(),
{
    if s.len() == 0 {
        0
    } else if key_lt(k, row_key(s[0], options)) {
        0
    } else {
        1 + row_insert_pos(s.drop_first(), k, options)
    }
}

/// `s` stably sorted by `row_key`: what `sort_by` comparing type, status order and
/// lower-cased slug gives.
pub open spec fn sorted_rows(s: Seq<RowView>, options: Seq<StatusOption>) -> Seq<RowView>
    decreases s.len(),
{
    if s.len() == 0 {
        s
    } else {
        let t = sorted_rows(s.drop_last(), options);
        t.insert(row_insert_pos(t, row_key(s.last(), options), options), s.last())
    }
}

proof fn lemma_row_pos_unique(s: Seq<RowView>, k: (nat, nat, Seq<char>), options: Seq<StatusOption>, j: int)
    requires
        0 <= j <= s.len(),
        forall|m: int| 0 <= m < j ==> !key_lt(k, #[trigger] row_key(s[m], options)),
        j == s.len() || key_lt(k, row_key(s[j], options)),
    ensures
        row_insert_pos(s, k, options) == j,
    decreases s.len(),
{
    if s.len() > 0 && j > 0 {
        let t = s.drop_first();
        assert forall|m: int| 0 <= m < j - 1 implies !key_lt(k, #[trigger] row_key(t[m], options)) by {
            assert(t[m] == s[m + 1]);
        }
        if j < s.len() {
            assert(t[j - 1] == s[j]);
        }
        assert(!key_lt(k, row_key(s[0], options)));
        lemma_row_pos_unique(t, k, options, j - 1);
    }
}

/// A row's key as executable values.
struct RowKeyExec {
    type_order: usize,
    status_order: usize,
    slug: Vec<char>,
}

spec fn key_exec_view(k: RowKeyExec) -> (nat, nat, Seq<char>) {
    (k.type_order as nat, k.status_order as nat, k.slug@)
}

fn key_less(a: &RowKeyExec, b: &RowKeyExec) -> (r: bool)
    ensures
        r == key_lt(key_exec_view(*a), key_exec_view(*b)),
{
    a.type_order < b.type_order || (a.type_order == b.type_order && (a.status_order < b.status_order
        || (a.status_order == b.status_order && lex_less(&a.slug, &b.slug))))
}

/// Sorts the rows by asset type, then status order, then lower-cased slug, keeping rows
/// with equal keys in the order given.
pub fn sort_rows(rows: &mut Vec<RowView>, status_options: &[StatusOption])
    ensures
        final(rows)@ == sorted_rows(old(rows)@, status_options@),
{
    let ghost orig = rows@;
    let ghost opts = status_options@;
    let n = rows.len();
    let mut keys: Vec<RowKeyExec> = Vec::new();
    let mut i: usize = 0;
    while i < n
        invariant
            n == rows.len(),
            rows@ == orig,
            opts == status_options@,
            i <= n,
            keys@.len() == i,
            forall|m: int| 0 <= m < i ==> key_exec_view(#[trigger] keys@[m]) == row_key(rows@[m], opts),
        decreases n - i,
    {
        let r = &rows[i];
        let l = to_lowercase(r.slug.as_str());
        keys.push(RowKeyExec {
            type_order: r.asset_type.order(),
            status_order: status_order(&r.status, status_options),
            slug: chars_of(l.as_str()),
        });
        i += 1;
    }
    i = 0;
    assert(rows@.take(0) =~= sorted_rows(orig.take(0), opts));
    while i < n
        invariant
            n == rows.len() == keys@.len() == orig.len(),
            opts == status_options@,
            i <= n,
            rows@.take(i as int) == sorted_rows(orig.take(i as int), opts),
            rows@.skip(i as int) == orig.skip(i as int),
            forall|m: int| 0 <= m < n ==> key_exec_view(#[trigger] keys@[m]) == row_key(rows@[m], opts),
        decreases n - i,
    {
        let ghost before = rows@;
        let ghost before_keys = keys@;
        let ghost t = before.take(i as int);
        proof {
            assert(orig.take(i + 1).drop_last() =~= orig.take(i as int));
            assert(orig.skip(i as int)[0] == orig[i as int]);
            assert(before.skip(i as int)[0] == before[i as int]);
            assert(orig.take(i + 1).last() == orig[i as int]);
        }
        let mut j: usize = 0;
        while j < i && !key_less(&keys[i], &keys[j])
            invariant
                j <= i < n,
                n == keys@.len(),
                forall|m: int| 0 <= m < j ==> !key_lt(key_exec_view(keys@[i as int]), #[trigger] key_exec_view(keys@[m])),
            decreases i - j,
        {
            j += 1;
        }
        proof {
            let k = row_key(before[i as int], opts);
            assert forall|m: int| 0 <= m < j implies !key_lt(k, #[trigger] row_key(t[m], opts)) by {
                assert(t[m] == before[m]);
                assert(key_exec_view(keys@[m]) == row_key(before[m], opts));
            }
            if j < i {
                assert(t[j as int] == before[j as int]);
                assert(key_exec_view(keys@[j as int]) == row_key(before[j as int], opts));
            }
            lemma_row_pos_unique(t, k, opts, j as int);
        }
        let a = rows.remove(i);
        let k = keys.remove(i);
        rows.insert(j, a);
        keys.insert(j, k);
        proof {
            assert(rows@.take(i + 1) =~= t.insert(j as int, before[i as int]));
            assert(rows@.skip(i + 1) =~= before.skip(i + 1));
            assert(before.skip(i + 1) =~= orig.skip(i + 1)) by {
                assert forall|m: int| 0 <= m < n - i - 1 implies #[trigger] before.skip(i + 1)[m]
                    == orig.skip(i + 1)[m] by {
                    assert(before.skip(i as int)[m + 1] == orig.skip(i as int)[m + 1]);
                }
            }
            assert forall|m: int| 0 <= m < n implies key_exec_view(#[trigger] keys@[m]) == row_key(rows@[m], opts) by {
                if m < j {
                    assert(keys@[m] == before_keys[m] && rows@[m] == before[m]);
                } else if m == j {
                } else if m <= i {
                    assert(keys@[m] == before_keys[m - 1] && rows@[m] == before[m - 1]);
                } else {
                    assert(keys@[m] == before_keys[m] && rows@[m] == before[m]);
                }
            }
        }
        i += 1;
    }
    assert(rows@ =~= rows@.take(n as int));
    assert(orig =~= orig.take(n as int));
}


// ---------------------------------------------------------------------------------------
// Which rows are visible
// ---------------------------------------------------------------------------------------

/// The list loaded for a type: the first one given for it.
pub open spec fn loaded_list(lists: Seq<(AssetType, crate::notion::AssetList)>, t: AssetType) -> Option<crate::notion::AssetList>
    decreases lists.len(),
{
    if lists.len() == 0 {
        None
    } else if lists[0].0 == t {
        Some(lists[0].1)
    } else {
        loaded_list(lists.drop_first(), t)
    }
}

/// An asset the table shows: it passes the author and status filters and the search.
pub open spec fn shown(filters: Seq<Seq<char>>, groups: Seq<StatusGroup>, query: Seq<char>) -> spec_fn(crate::notion::Asset) -> bool {
    |a: crate::notion::Asset| crate::authors::matches_filter(a.author@, filters) && status_matches(a.status, groups)
        && crate::status_text::search_matches(a.slug@, query)
}

pub open spec fn keys_of(t: AssetType, assets: Seq<crate::notion::Asset>) -> Seq<(AssetType, Seq<char>)> {
    assets.map_values(|a: crate::notion::Asset| (t, a.slug@))
}

/// The rows shown, type by selected type, each type's in its list's order; a type whose
/// list has not loaded shows none.
pub open spec fn visible_keys_spec(
    types: Seq<AssetType>,
    lists: Seq<(AssetType, crate::notion::AssetList)>,
    filters: Seq<Seq<char>>,
    groups: Seq<StatusGroup>,
    query: Seq<char>,
) -> Seq<(AssetType, Seq<char>)>
    decreases types.len(),
{
    if types.len() == 0 {
        Seq::empty()
    } else {
        let t = types.last();
        visible_keys_spec(types.drop_last(), lists, filters, groups, query) + match loaded_list(lists, t) {
            Some(l) => keys_of(t, l.assets@.filter(shown(filters, groups, query))),
            None => Seq::empty(),
        }
    }
}

pub open spec fn row_keys_view(keys: Seq<crate::asset::RowKey>) -> Seq<(AssetType, Seq<char>)> {
    keys.map_values(|k: crate::asset::RowKey| (k.asset_type, k.slug@))
}

fn find_list(lists: &[(AssetType, crate::notion::AssetList)], t: AssetType) -> (r: Option<usize>)
    ensures
        match r {
            Some(i) => i < lists@.len() && loaded_list(lists@, t) == Some(lists@[i as int].1),
            None => loaded_list(lists@, t) is None,
        },
{
    let mut i: usize = 0;
    assert(lists@.skip(0) =~= lists@);
    while i < lists.len()
        invariant
            i <= lists@.len(),
            loaded_list(lists@, t) == loaded_list(lists@.skip(i as int), t),
        decreases lists@.len() - i,
    {
        assert(lists@.skip(i as int)[0] == lists@[i as int]);
        assert(lists@.skip(i as int).drop_first() =~= lists@.skip(i + 1));
        if lists[i].0 == t {
            return Some(i);
        }
        i += 1;
    }
    None
}

/// The keys of the rows the table shows, given the lists loaded so far.
pub fn visible_asset_keys(
    selected_types: &[AssetType],
    lists: &[(AssetType, crate::notion::AssetList)],
    author_filters: &[String],
    selected_groups: &[StatusGroup],
    search_query: &str,
) -> (r: Vec<crate::asset::RowKey>)
    ensures
        row_keys_view(r@) == visible_keys_spec(
            selected_types@,
            lists@,
            crate::authors::texts(author_filters@),
            selected_groups@,
            search_query@,
        ),
{
    let ghost fs = crate::authors::texts(author_filters@);
    let ghost pred = shown(fs, selected_groups@, search_query@);
    let mut keys: Vec<crate::asset::RowKey> = Vec::new();
    let mut k: usize = 0;
    assert(selected_types@.take(0) =~= Seq::<AssetType>::empty());
    assert(row_keys_view(keys@) =~= Seq::<(AssetType, Seq<char>)>::empty());
    while k < selected_types.len()
        invariant
            k <= selected_types@.len(),
            fs == crate::authors::texts(author_filters@),
            pred == shown(fs, selected_groups@, search_query@),
            row_keys_view(keys@) == visible_keys_spec(selected_types@.take(k as int), lists@, fs, selected_groups@, search_query@),
        decreases selected_types@.len() - k,
    {
        let t = selected_types[k];
        assert(selected_types@.take(k + 1).drop_last() =~= selected_types@.take(k as int));
        assert(selected_types@.take(k + 1).last() == t);
        let ghost base = row_keys_view(keys@);
        match find_list(lists, t) {
            Some(li) => {
                let assets = &lists[li].1.assets;
                let ghost all = assets@;
                let mut j: usize = 0;
                assert(all.take(0).filter(pred) =~= Seq::<crate::notion::Asset>::empty()) by {
                    reveal(Seq::filter);
                }
                assert(row_keys_view(keys@) =~= base + keys_of(t, all.take(0).filter(pred)));
                while j < assets.len()
                    invariant
                        j <= all.len(),
                        all == assets@,
                        pred == shown(fs, selected_groups@, search_query@),
                        fs == crate::authors::texts(author_filters@),
                        row_keys_view(keys@) == base + keys_of(t, all.take(j as int).filter(pred)),
                    decreases all.len() - j,
                {
                    proof {
                        assert(all.take(j + 1) =~= all.take(j as int).push(all[j as int]));
                        all.take(j as int).lemma_filter_push(all[j as int], pred);
                    }
                    let a = &assets[j];
                    let ghost before = row_keys_view(keys@);
                    if asset_matches_filters(a, author_filters, selected_groups)
                        && crate::status_text::slug_matches_search(a.slug.as_str(), search_query) {
                        keys.push(crate::asset::RowKey { asset_type: t, slug: owned(a.slug.as_str()) });
                        assert(row_keys_view(keys@) =~= before.push((t, all[j as int].slug@)));
                        assert(keys_of(t, all.take(j + 1).filter(pred)) =~= keys_of(t, all.take(j as int).filter(pred)).push((t, all[j as int].slug@)));
                    }
                    j += 1;
                }
                assert(all.take(all.len() as int) =~= all);
            },
            None => {
                assert(row_keys_view(keys@) =~= base + Seq::<(AssetType, Seq<char>)>::empty());
            },
        }
        k += 1;
    }
    assert(selected_types@.take(selected_types@.len() as int) =~= selected_types@);
    keys
}

/// Whether a row's asset is complete in its loaded list.
pub fn asset_is_complete(lists: &[(AssetType, crate::notion::AssetList)], key: &crate::asset::RowKey) -> (r: bool)
    ensures
        r == match loaded_list(lists@, key.asset_type) {
            Some(l) => exists|i: int|
                0 <= i < l.assets@.len() && (#[trigger] l.assets@[i]).slug@ == key.slug@ && (l.assets@[i].status matches Some(s) && s.group == StatusGroup::Complete),
            None => false,
        },
{
    match find_list(lists, key.asset_type) {
        Some(li) => {
            let assets = &lists[li].1.assets;
            let mut j: usize = 0;
            while j < assets.len()
                invariant
                    j <= assets@.len(),
                    li < lists@.len(),
                    assets@ == lists@[li as int].1.assets@,
                    loaded_list(lists@, key.asset_type) == Some(lists@[li as int].1),
                    forall|i: int| 0 <= i < j ==> !((#[trigger] assets@[i]).slug@ == key.slug@ && (assets@[i].status matches Some(s) && s.group == StatusGroup::Complete)),
                decreases assets@.len() - j,
            {
                let complete = match &assets[j].status {
                    Some(s) => s.group == StatusGroup::Complete,
                    None => false,
                };
                if complete && crate::text::str_eq(assets[j].slug.as_str(), key.slug.as_str()) {
                    assert(lists@[li as int].1.assets@[j as int] == assets@[j as int]);
                    return true;
                }
                j += 1;
            }
            false
        },
        None => false,
    }
}


// ---------------------------------------------------------------------------------------
// Re-validation requests
// ---------------------------------------------------------------------------------------

pub open spec fn no_repeats<A>(s: Seq<A>) -> bool {
    forall|i: int, j: int| 0 <= i < j < s.len() ==> s[i] != s[j]
}

fn same_row(a: &crate::asset::RowKey, b: &crate::asset::RowKey) -> (r: bool)
    ensures
        r == ((a.asset_type, a.slug@) == (b.asset_type, b.slug@)),
{
    a.asset_type == b.asset_type && crate::text::str_eq(a.slug.as_str(), b.slug.as_str())
}

/// Adds a key unless it is there already.
fn add_key(v: &mut Vec<crate::asset::RowKey>, k: crate::asset::RowKey)
    requires
        no_repeats(row_keys_view(old(v)@)),
    ensures
        no_repeats(row_keys_view(final(v)@)),
        row_keys_view(final(v)@).to_set() == row_keys_view(old(v)@).to_set().insert((k.asset_type, k.slug@)),
{
    let ghost kv = (k.asset_type, k.slug@);
    let mut i: usize = 0;
    while i < v.len()
        invariant
            i <= v@.len(),
            kv == (k.asset_type, k.slug@),
            v@ == old(v)@,
            no_repeats(row_keys_view(v@)),
            forall|j: int| 0 <= j < i ==> row_keys_view(v@)[j] != kv,
        decreases v@.len() - i,
    {
        if same_row(&v[i], &k) {
            assert(row_keys_view(v@)[i as int] == kv);
            assert(row_keys_view(v@).to_set().insert(kv) =~= row_keys_view(v@).to_set());
            return;
        }
        i += 1;
    }
    let ghost before = row_keys_view(v@);
    v.push(k);
    assert(row_keys_view(v@) =~= before.push(kv));
    assert(row_keys_view(v@).to_set() =~= before.to_set().insert(kv)) by {
        assert forall|x| #[trigger] row_keys_view(v@).to_set().contains(x) == before.to_set().insert(kv).contains(x) by {
            if row_keys_view(v@).contains(x) {
                let j = choose|j: int| 0 <= j < row_keys_view(v@).len() && row_keys_view(v@)[j] == x;
                if j < before.len() {
                    assert(before[j] == x);
                }
            }
            if before.contains(x) {
                let j = choose|j: int| 0 <= j < before.len() && before[j] == x;
                assert(row_keys_view(v@)[j] == x);
            }
            if x == kv {
                assert(row_keys_view(v@)[before.len() as int] == kv);
            }
        }
    }
}

/// Asks for rows to be validated again. While a validation runs, the rows wait with the
/// others already waiting, each once; otherwise every waiting row is handed back to be
/// validated now and nothing waits. Asking for no rows changes nothing.
pub fn queue_revalidation(
    pending: &mut Vec<crate::asset::RowKey>,
    keys: Vec<crate::asset::RowKey>,
    job_running: bool,
) -> (r: Vec<crate::asset::RowKey>)
    requires
        no_repeats(row_keys_view(old(pending)@)),
    ensures
        no_repeats(row_keys_view(final(pending)@)),
        no_repeats(row_keys_view(r@)),
        keys@.len() == 0 ==> row_keys_view(final(pending)@) == row_keys_view(old(pending)@) && r@.len() == 0,
        keys@.len() > 0 && job_running ==> r@.len() == 0 && row_keys_view(final(pending)@).to_set()
            == row_keys_view(old(pending)@).to_set() + row_keys_view(keys@).to_set(),
        keys@.len() > 0 && !job_running ==> final(pending)@.len() == 0 && row_keys_view(r@).to_set()
            == row_keys_view(old(pending)@).to_set() + row_keys_view(keys@).to_set(),
{
    if keys.len() == 0 {
        return Vec::new();
    }
    let ghost start = row_keys_view(pending@).to_set();
    let ghost all = row_keys_view(keys@);
    let mut rest = keys;
    assert(all.take(0).to_set() =~= Set::<(AssetType, Seq<char>)>::empty());
    // Take the keys off the back so each can be moved rather than copied.
    let mut taken: Vec<crate::asset::RowKey> = Vec::new();
    while rest.len() > 0
        invariant
            no_repeats(row_keys_view(pending@)),
            row_keys_view(rest@) + row_keys_view(taken@).reverse() == all,
            row_keys_view(pending@).to_set() == start + row_keys_view(taken@).to_set(),
        decreases rest@.len(),
    {
        let ghost rv = row_keys_view(rest@);
        let ghost tv = row_keys_view(taken@);
        let k = rest.pop().unwrap();
        let ghost kv = (k.asset_type, k.slug@);
        let ghost p0 = row_keys_view(pending@).to_set();
        add_key(pending, crate::asset::RowKey { asset_type: k.asset_type, slug: owned(k.slug.as_str()) });
        taken.push(k);
        proof {
            assert(row_keys_view(rest@) =~= rv.drop_last());
            assert(row_keys_view(taken@) =~= tv.push(kv));
            assert(rv.last() == kv);
            assert(tv.push(kv).reverse() =~= seq![kv] + tv.reverse());
            assert(rv.drop_last() + (seq![kv] + tv.reverse()) =~= rv + tv.reverse());
            assert(tv.push(kv).to_set() =~= tv.to_set().insert(kv)) by {
                assert forall|x| #[trigger] tv.push(kv).to_set().contains(x) == tv.to_set().insert(kv).contains(x) by {
                    if tv.push(kv).contains(x) {
                        let j = choose|j: int| 0 <= j < tv.push(kv).len() && tv.push(kv)[j] == x;
                        if j < tv.len() {
                            assert(tv[j] == x);
                        }
                    }
                    if tv.contains(x) {
                        let j = choose|j: int| 0 <= j < tv.len() && tv[j] == x;
                        assert(tv.push(kv)[j] == x);
                    }
                    if x == kv {
                        assert(tv.push(kv)[tv.len() as int] == kv);
                    }
                }
            }
            assert(row_keys_view(pending@).to_set() =~= start + row_keys_view(taken@).to_set());
        }
    }
    proof {
        let tv = row_keys_view(taken@);
        assert(row_keys_view(rest@) =~= Seq::<(AssetType, Seq<char>)>::empty());
        assert(tv.reverse() =~= all);
        assert(tv.to_set() =~= all.to_set()) by {
            assert forall|x| #[trigger] tv.to_set().contains(x) == all.to_set().contains(x) by {
                if tv.contains(x) {
                    let j = choose|j: int| 0 <= j < tv.len() && tv[j] == x;
                    assert(all[tv.len() - 1 - j] == x);
                }
                if all.contains(x) {
                    let j = choose|j: int| 0 <= j < all.len() && all[j] == x;
                    assert(tv[tv.len() - 1 - j] == x);
                }
            }
        }
    }
    if job_running {
        return Vec::new();
    }
    let mut out: Vec<crate::asset::RowKey> = Vec::new();
    std::mem::swap(&mut out, pending);
    out
}

// ---------------------------------------------------------------------------------------
// A row's messages
// ---------------------------------------------------------------------------------------

pub open spec fn warning_view(text: Seq<char>, link: Option<Seq<char>>, action: Option<ActionView>) -> RowMsgView {
    RowMsgView { kind: MsgKind::Warning, text, link, action, dismiss_key: None }
}

/// Every message a row has before dismissals and errors thin them, in this order: an
/// invalid slug, offering the repaired slug as the new title when there is one that
/// differs; a missing prod folder; a published asset with the same slug; local files of
/// an asset that has passed review; then the validation findings.
pub open spec fn row_messages_spec(
    slug: Seq<char>,
    fixed_slug: Seq<char>,
    exists_on_prod: bool,
    exists_local: bool,
    warn_published: bool,
    passed_review: bool,
    findings: Seq<RowMsgView>,
) -> Seq<RowMsgView> {
    let slug_msgs = if crate::slug::problems(slug).len() > 0 {
        let text = crate::slug::message_text(slug);
        if fixed_slug.len() > 0 && fixed_slug != slug {
            seq![RowMsgView {
                kind: MsgKind::Error,
                text: text + " \u{b7}"@,
                link: None,
                action: Some(ActionView::RenameTitle(fixed_slug)),
                dismiss_key: None,
            }]
        } else {
            seq![RowMsgView { kind: MsgKind::Error, text, link: None, action: None, dismiss_key: None }]
        }
    } else {
        Seq::empty()
    };
    let prod_msgs = if !exists_on_prod {
        seq![warning_view("No prod folder."@, None, Some(ActionView::CreateProdFolder))]
    } else {
        Seq::empty()
    };
    let published_msgs = if warn_published {
        seq![warning_view("Published asset with this slug found"@, Some("https://polyhaven.com/a/"@ + slug), None)]
    } else {
        Seq::empty()
    };
    let review_msgs = if exists_local && passed_review {
        seq![RowMsgView {
            kind: MsgKind::Info,
            text: "Passed review;"@,
            link: None,
            action: Some(ActionView::DeleteLocalFiles),
            dismiss_key: None,
        }]
    } else {
        Seq::empty()
    };
    slug_msgs + prod_msgs + published_msgs + review_msgs + findings
}

/// The messages a row shows. `fixed_slug` is the slug repaired for use as a new title and
/// `passed_review` whether the asset's status is past review; both are worked out by the
/// caller, as are the validation findings, already as messages.
pub fn row_messages(
    slug: &str,
    fixed_slug: &str,
    exists_on_prod: bool,
    exists_local: bool,
    status: &Option<AssetStatus>,
    published: &crate::polyhaven::PublishedAssets,
    passed_review: bool,
    findings: &Vec<RowMsg>,
    dismissed: &Vec<String>,
) -> (r: Vec<RowMsg>)
    ensures
        msgs_view(r@) == visible_messages(
            row_messages_spec(
                slug@,
                fixed_slug@,
                exists_on_prod,
                exists_local,
                crate::polyhaven::slug_texts(published.slugs@).contains(slug@) && match status {
                    Some(s) => s.group != StatusGroup::Complete,
                    None => true,
                },
                passed_review,
                msgs_view(findings@),
            ),
            texts(dismissed@),
        ),
{
    let mut msgs: Vec<RowMsg> = Vec::new();
    match crate::slug::message(slug) {
        Some(text) => {
            let a = chars_of(fixed_slug);
            let b = chars_of(slug);
            if fixed_slug.unicode_len() > 0 && !seq_eq(&a, &b) {
                let mut t = chars_of(text.as_str());
                extend_str(&mut t, " \u{b7}");
                msgs.push(RowMsg {
                    kind: MsgKind::Error,
                    text: string_of(&t),
                    link: None,
                    action: Some(RowMsgAction::RenameTitle(owned(fixed_slug))),
                    dismiss_key: None,
                });
            } else {
                msgs.push(RowMsg { kind: MsgKind::Error, text, link: None, action: None, dismiss_key: None });
            }
        },
        None => {},
    }
    if !exists_on_prod {
        msgs.push(RowMsg {
            kind: MsgKind::Warning,
            text: owned("No prod folder."),
            link: None,
            action: Some(RowMsgAction::CreateProdFolder),
            dismiss_key: None,
        });
    }
    if should_warn_published_slug(published, slug, status) {
        let mut l = chars_of("https://polyhaven.com/a/");
        extend_str(&mut l, slug);
        msgs.push(RowMsg {
            kind: MsgKind::Warning,
            text: owned("Published asset with this slug found"),
            link: Some(string_of(&l)),
            action: None,
            dismiss_key: None,
        });
    }
    if exists_local && passed_review {
        msgs.push(RowMsg {
            kind: MsgKind::Info,
            text: owned("Passed review;"),
            link: None,
            action: Some(RowMsgAction::DeleteLocalFiles),
            dismiss_key: None,
        });
    }
    let ghost head = msgs_view(msgs@);
    let mut i: usize = 0;
    while i < findings.len()
        invariant
            i <= findings.len(),
            msgs_view(msgs@) == head + msgs_view(findings@).take(i as int),
        decreases findings.len() - i,
    {
        let ghost prev = msgs@;
        msgs.push(findings[i].duplicate());
        assert(msgs_view(msgs@) =~= msgs_view(prev).push(msg_view(findings@[i as int])));
        assert(msgs_view(findings@).take(i + 1) =~= msgs_view(findings@).take(i as int).push(msg_view(findings@[i as int])));
        i += 1;
    }
    assert(msgs_view(findings@).take(findings@.len() as int) =~= msgs_view(findings@));
    assert(msgs_view(msgs@) =~= row_messages_spec(
        slug@,
        fixed_slug@,
        exists_on_prod,
        exists_local,
        crate::polyhaven::slug_texts(published.slugs@).contains(slug@) && match status {
            Some(s) => s.group != StatusGroup::Complete,
            None => true,
        },
        passed_review,
        msgs_view(findings@),
    ));
    visible_row_messages(msgs.as_slice(), dismissed.as_slice())
}

// ---------------------------------------------------------------------------------------
// What sorting the rows promises
// ---------------------------------------------------------------------------------------

/// Rows in non-decreasing `row_key` order.
pub open spec fn rows_sorted(s: Seq<RowView>, options: Seq<StatusOption>) -> bool {
    forall|i: int, j: int| 0 <= i < j < s.len() ==> !key_lt(#[trigger] row_key(s[j], options), #[trigger] row_key(s[i], options))
}

proof fn lemma_key_facts(a: (nat, nat, Seq<char>), b: (nat, nat, Seq<char>), c: (nat, nat, Seq<char>))
    ensures
        !key_lt(a, a),
        key_lt(a, b) ==> !key_lt(b, a),
        !key_lt(b, a) && !key_lt(c, b) ==> !key_lt(c, a),
        key_lt(a, b) && !key_lt(c, b) ==> key_lt(a, c),
{
    crate::text::lemma_lex_irreflexive(a.2);
    crate::text::lemma_lex_asymmetric(a.2, b.2);
    crate::text::lemma_lex_total(a.2, b.2);
    crate::text::lemma_lex_total(b.2, c.2);
    crate::text::lemma_lex_total(a.2, c.2);
    crate::text::lemma_lex_transitive(a.2, b.2, c.2);
    crate::text::lemma_lex_transitive(c.2, b.2, a.2);
    crate::text::lemma_lex_transitive(c.2, a.2, b.2);
    crate::text::lemma_lex_transitive(b.2, c.2, a.2);
    crate::text::lemma_lex_transitive(a.2, c.2, b.2);
    crate::text::lemma_lex_transitive(b.2, a.2, c.2);
    crate::text::lemma_lex_asymmetric(c.2, a.2);
    crate::text::lemma_lex_asymmetric(b.2, c.2);
    crate::text::lemma_lex_irreflexive(b.2);
    crate::text::lemma_lex_irreflexive(c.2);
}

proof fn lemma_row_pos_bounds(s: Seq<RowView>, k: (nat, nat, Seq<char>), options: Seq<StatusOption>)
    ensures
        0 <= row_insert_pos(s, k, options) <= s.len(),
        forall|m: int| 0 <= m < row_insert_pos(s, k, options) ==> !key_lt(k, #[trigger] row_key(s[m], options)),
        row_insert_pos(s, k, options) < s.len() ==> key_lt(k, row_key(s[row_insert_pos(s, k, options)], options)),
    decreases s.len(),
{
    if s.len() > 0 && !key_lt(k, row_key(s[0], options)) {
        let t = s.drop_first();
        lemma_row_pos_bounds(t, k, options);
        assert forall|m: int| 0 <= m < row_insert_pos(s, k, options) implies !key_lt(k, #[trigger] row_key(s[m], options)) by {
            if m > 0 {
                assert(s[m] == t[m - 1]);
            }
        }
        if row_insert_pos(s, k, options) < s.len() {
            assert(s[row_insert_pos(s, k, options)] == t[row_insert_pos(t, k, options)]);
        }
    }
}

/// The rows come out ordered by asset type, then status order, then lower-cased slug.
pub proof fn law_rows_sorted_by_key(s: Seq<RowView>, options: Seq<StatusOption>)
    ensures
        rows_sorted(sorted_rows(s, options), options),
    decreases s.len(),
{
    if s.len() > 0 {
        let t = sorted_rows(s.drop_last(), options);
        law_rows_sorted_by_key(s.drop_last(), options);
        let x = s.last();
        let k = row_key(x, options);
        let p = row_insert_pos(t, k, options);
        lemma_row_pos_bounds(t, k, options);
        let r = t.insert(p, x);
        assert(r == sorted_rows(s, options));
        assert forall|i: int, j: int| 0 <= i < j < r.len() implies !key_lt(
            #[trigger] row_key(r[j], options),
            #[trigger] row_key(r[i], options),
        ) by {
            if j < p {
                assert(r[i] == t[i] && r[j] == t[j]);
            } else if j == p {
                assert(r[i] == t[i] && r[j] == x);
            } else if i < p {
                assert(r[i] == t[i] && r[j] == t[j - 1]);
                let ki = row_key(t[i], options);
                let kp = row_key(t[p], options);
                let kj = row_key(t[j - 1], options);
                lemma_key_facts(k, kp, kj);
                lemma_key_facts(kp, kj, kj);
                lemma_key_facts(ki, k, kj);
                lemma_key_facts(kj, ki, k);
                lemma_key_facts(k, kj, ki);
                if j - 1 > p {
                    assert(!key_lt(kj, kp));
                }
            } else if i == p {
                assert(r[i] == x && r[j] == t[j - 1]);
                let kp = row_key(t[p], options);
                let kj = row_key(t[j - 1], options);
                lemma_key_facts(k, kp, kj);
                lemma_key_facts(kj, k, kp);
                if j - 1 > p {
                    assert(!key_lt(kj, kp));
                }
            } else {
                assert(r[i] == t[i - 1] && r[j] == t[j - 1]);
            }
        }
    }
}

/// Sorting the rows neither drops nor adds one.
pub proof fn law_rows_sort_is_a_permutation(s: Seq<RowView>, options: Seq<StatusOption>)
    ensures
        sorted_rows(s, options).to_multiset() == s.to_multiset(),
    decreases s.len(),
{
    if s.len() > 0 {
        law_rows_sort_is_a_permutation(s.drop_last(), options);
        let t = sorted_rows(s.drop_last(), options);
        lemma_row_pos_bounds(t, row_key(s.last(), options), options);
        vstd::seq_lib::to_multiset_insert(t, row_insert_pos(t, row_key(s.last(), options), options), s.last());
        vstd::seq_lib::to_multiset_build(s.drop_last(), s.last());
        assert(s.drop_last().push(s.last()) =~= s);
    }
}

/// What enables a row's buttons, over all inputs: a pull needs the prod folder and a push
/// the local one, and either needs something to copy when a preview has been made. A
/// pull does not look at the local folder, nor a push at the prod folder.
pub proof fn law_each_action_needs_only_its_source(
    has_prod_folder: bool,
    has_local_folder: bool,
    other_folder: bool,
    preview: Option<ActionPreview>,
)
    ensures
        availability_spec(RowAction::Pull, has_prod_folder, has_local_folder, preview).0 == (has_prod_folder && match preview {
            Some(p) => p.file_count > 0,
            None => true,
        }),
        availability_spec(RowAction::Push, has_prod_folder, has_local_folder, preview).0 == (has_local_folder && match preview {
            Some(p) => p.file_count > 0,
            None => true,
        }),
        availability_spec(RowAction::Pull, has_prod_folder, has_local_folder, preview)
            == availability_spec(RowAction::Pull, has_prod_folder, other_folder, preview),
        availability_spec(RowAction::Push, has_prod_folder, has_local_folder, preview)
            == availability_spec(RowAction::Push, other_folder, has_local_folder, preview),
        availability_spec(RowAction::Pull, has_prod_folder, has_local_folder, preview).1 == if !has_prod_folder {
            "No prod folder"@
        } else if availability_spec(RowAction::Pull, has_prod_folder, has_local_folder, preview).0 {
            "Pull from Prod"@
        } else {
            "Nothing new to pull"@
        },
        availability_spec(RowAction::Push, has_prod_folder, has_local_folder, preview).1 == if !has_local_folder {
            "Local folder missing"@
        } else if availability_spec(RowAction::Push, has_prod_folder, has_local_folder, preview).0 {
            "Push to Prod"@
        } else {
            "Nothing new to push"@
        },
{
}

} // verus!
