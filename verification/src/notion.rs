//! Assets and statuses as the PHASE asset API describes them.
use vstd::prelude::*;
use crate::text::{lex_less, lex_lt, str_eq, to_lowercase, trim, trim_str, string_of, unicode_lower};

verus! {

/// The groups a status belongs to.
#[derive(Debug, Clone, Copy, PartialEq, Eq, Hash, Structural)]
pub enum StatusGroup {
    ToDo,
    InProgress,
    Complete,
}

pub open spec fn status_group_label(g: StatusGroup) -> Seq<char> {
    match g {
        StatusGroup::ToDo => "To-do"@,
        StatusGroup::InProgress => "In progress"@,
        StatusGroup::Complete => "Complete"@,
    }
}

pub open spec fn status_group_order(g: StatusGroup) -> nat {
    match g {
        StatusGroup::ToDo => 0,
        StatusGroup::InProgress => 1,
        StatusGroup::Complete => 2,
    }
}

/// The group a Notion status group name stands for, once trimmed and lower-cased.
pub open spec fn group_for_name(n: Seq<char>) -> Option<StatusGroup> {
    if n == "to-do"@ || n == "to do"@ || n == "todo"@ || n == "not started"@ {
        Some(StatusGroup::ToDo)
    } else if n == "in progress"@ || n == "doing"@ {
        Some(StatusGroup::InProgress)
    } else if n == "complete"@ || n == "completed"@ || n == "done"@ {
        Some(StatusGroup::Complete)
    } else {
        None
    }
}

impl StatusGroup {
    /// Every group, in display order.
    pub fn all() -> (r: Vec<StatusGroup>)
        ensures
            r@ == seq![StatusGroup::ToDo, StatusGroup::InProgress, StatusGroup::Complete],
    {
        let mut v: Vec<StatusGroup> = Vec::new();
        v.push(StatusGroup::ToDo);
        v.push(StatusGroup::InProgress);
        v.push(StatusGroup::Complete);
        v
    }

    /// The status filter of a first start: work in progress only.
    pub fn default_filter() -> (r: Vec<StatusGroup>)
        ensures
            r@ == seq![StatusGroup::InProgress],
    {
        let mut v: Vec<StatusGroup> = Vec::new();
        v.push(StatusGroup::InProgress);
        v
    }

    pub fn label(self) -> (r: &'static str)
        ensures
            r@ == status_group_label(self),
    {
        match self {
            StatusGroup::ToDo => "To-do",
            StatusGroup::InProgress => "In progress",
            StatusGroup::Complete => "Complete",
        }
    }

    pub fn order(self) -> (r: usize)
        ensures
            r == status_group_order(self),
    {
        match self {
            StatusGroup::ToDo => 0,
            StatusGroup::InProgress => 1,
            StatusGroup::Complete => 2,
        }
    }

    /// The group a Notion status group is named for, ignoring surrounding whitespace and
    /// case.
    pub fn from_notion_group(name: &str) -> (r: Option<StatusGroup>)
        ensures
            r == group_for_name(unicode_lower(trim(name@))),
    {
        let t = trim_str(name);
        let ts = string_of(&t);
        let l = to_lowercase(ts.as_str());
        let n = l.as_str();
        if str_eq(n, "to-do") || str_eq(n, "to do") || str_eq(n, "todo") || str_eq(n, "not started") {
            Some(StatusGroup::ToDo)
        } else if str_eq(n, "in progress") || str_eq(n, "doing") {
            Some(StatusGroup::InProgress)
        } else if str_eq(n, "complete") || str_eq(n, "completed") || str_eq(n, "done") {
            Some(StatusGroup::Complete)
        } else {
            None
        }
    }
}

/// A person credited on an asset.
#[derive(Debug, Clone)]
pub struct AuthorProfile {
    pub id: String,
    pub name: String,
    pub avatar_url: Option<String>,
}

/// An asset's current workflow status.
#[derive(Debug, Clone)]
pub struct AssetStatus {
    pub id: String,
    pub name: String,
    pub color: String,
    pub group: StatusGroup,
    pub sort_order: usize,
}

/// One status the workflow offers.
#[derive(Debug, Clone)]
pub struct StatusOption {
    pub id: String,
    pub name: String,
    pub color: String,
    pub group: StatusGroup,
    pub sort_order: usize,
}

/// One asset of the asset list.
#[derive(Debug, Clone)]
pub struct Asset {
    pub page_id: String,
    pub slug: String,
    pub author: String,
    pub authors: Vec<String>,
    pub author_profiles: Vec<AuthorProfile>,
    pub url: String,
    pub status: Option<AssetStatus>,
}

/// What the asset API returns for one asset type.
#[derive(Debug, Clone)]
pub struct AssetList {
    pub assets: Vec<Asset>,
    pub statuses: Vec<StatusOption>,
}

/// Where the asset list of one type stands.
#[derive(Debug)]
pub enum AssetListState {
    Loading,
    Loaded(AssetList),
    Error(String),
}

// ---------------------------------------------------------------------------------------
// Display order
// ---------------------------------------------------------------------------------------

/// The key assets are listed by: the slug, lower-cased.
pub open spec fn slug_key(a: Asset) -> Seq<char> {
    unicode_lower(a.slug@)
}

/// Where a stable insertion puts an asset with key `k` into `s`: before the first entry
/// whose key is greater.
pub open spec fn slug_insert_pos(s: Seq<Asset>, k: Seq<char>) -> int
    decreases s.len(),
{
    if s.len() == 0 {
        0
    } else if lex_lt(k, slug_key(s[0])) {
        0
    } else {
        1 + slug_insert_pos(s.drop_first(), k)
    }
}

/// `s` stably sorted by `slug_key`: what `sort_by` comparing the lower-cased slugs gives.
pub open spec fn sorted_by_slug(s: Seq<Asset>) -> Seq<Asset>
    decreases s.len(),
{
    if s.len() == 0 {
        s
    } else {
        let t = sorted_by_slug(s.drop_last());
        t.insert(slug_insert_pos(t, slug_key(s.last())), s.last())
    }
}

/// Where a stable insertion puts a status with order `k` into `s`.
pub open spec fn order_insert_pos(s: Seq<StatusOption>, k: nat) -> int
    decreases s.len(),
{
    if s.len() == 0 {
        0
    } else if k < s[0].sort_order {
        0
    } else {
        1 + order_insert_pos(s.drop_first(), k)
    }
}

/// `s` stably sorted by `sort_order`: what `sort_by_key` gives.
pub open spec fn sorted_by_order(s: Seq<StatusOption>) -> Seq<StatusOption>
    decreases s.len(),
{
    if s.len() == 0 {
        s
    } else {
        let t = sorted_by_order(s.drop_last());
        t.insert(order_insert_pos(t, s.last().sort_order as nat), s.last())
    }
}

proof fn lemma_slug_pos_unique(s: Seq<Asset>, k: Seq<char>, j: int)
    requires
        0 <= j <= s.len(),
        forall|m: int| 0 <= m < j ==> !lex_lt(k, #[trigger] slug_key(s[m])),
        j == s.len() || lex_lt(k, slug_key(s[j])),
    ensures
        slug_insert_pos(s, k) == j,
    decreases s.len(),
{
    if s.len() > 0 && j > 0 {
        let t = s.drop_first();
        assert forall|m: int| 0 <= m < j - 1 implies !lex_lt(k, #[trigger] slug_key(t[m])) by {
            assert(t[m] == s[m + 1]);
        }
        if j < s.len() {
            assert(t[j - 1] == s[j]);
        }
        assert(!lex_lt(k, slug_key(s[0])));
        lemma_slug_pos_unique(t, k, j - 1);
    }
}

proof fn lemma_order_pos_unique(s: Seq<StatusOption>, k: nat, j: int)
    requires
        0 <= j <= s.len(),
        forall|m: int| 0 <= m < j ==> !(k < #[trigger] s[m].sort_order),
        j == s.len() || k < s[j].sort_order,
    ensures
        order_insert_pos(s, k) == j,
    decreases s.len(),
{
    if s.len() > 0 && j > 0 {
        let t = s.drop_first();
        assert forall|m: int| 0 <= m < j - 1 implies !(k < #[trigger] t[m].sort_order) by {
            assert(t[m] == s[m + 1]);
        }
        if j < s.len() {
            assert(t[j - 1] == s[j]);
        }
        lemma_order_pos_unique(t, k, j - 1);
    }
}

/// Sorts `assets` by lower-cased slug, keeping assets with equal keys in the order given.
pub fn sort_assets_by_slug(assets: &mut Vec<Asset>)
    ensures
        final(assets)@ == sorted_by_slug(old(assets)@),
{
    let ghost orig = assets@;
    let n = assets.len();
    let mut keys: Vec<Vec<char>> = Vec::new();
    let mut i: usize = 0;
    while i < n
        invariant
            n == assets.len(),
            assets@ == orig,
            i <= n,
            keys@.len() == i,
            forall|m: int| 0 <= m < i ==> #[trigger] keys@[m]@ == slug_key(assets@[m]),
        decreases n - i,
    {
        let l = to_lowercase(assets[i].slug.as_str());
        keys.push(crate::text::chars_of(l.as_str()));
        i += 1;
    }
    i = 0;
    assert(assets@.take(0) =~= sorted_by_slug(orig.take(0)));
    while i < n
        invariant
            n == assets.len() == keys@.len() == orig.len(),
            i <= n,
            assets@.take(i as int) == sorted_by_slug(orig.take(i as int)),
            assets@.skip(i as int) == orig.skip(i as int),
            forall|m: int| 0 <= m < n ==> #[trigger] keys@[m]@ == slug_key(assets@[m]),
        decreases n - i,
    {
        let ghost before = assets@;
        let ghost before_keys = keys@;
        let ghost t = before.take(i as int);
        proof {
            assert(orig.take(i + 1).drop_last() =~= orig.take(i as int));
            assert(orig.skip(i as int)[0] == orig[i as int]);
            assert(before.skip(i as int)[0] == before[i as int]);
            assert(orig.take(i + 1).last() == orig[i as int]);
        }
        let mut j: usize = 0;
        while j < i && !lex_less(&keys[i], &keys[j])
            invariant
                j <= i < n,
                n == keys@.len(),
                forall|m: int| 0 <= m < j ==> !lex_lt(keys@[i as int]@, #[trigger] keys@[m]@),
            decreases i - j,
        {
            j += 1;
        }
        proof {
            assert forall|m: int| 0 <= m < j implies !lex_lt(
                slug_key(before[i as int]),
                #[trigger] slug_key(t[m]),
            ) by {
                assert(t[m] == before[m]);
                assert(keys@[m]@ == slug_key(before[m]));
            }
            if j < i {
                assert(t[j as int] == before[j as int]);
                assert(keys@[j as int]@ == slug_key(before[j as int]));
            }
            lemma_slug_pos_unique(t, slug_key(before[i as int]), j as int);
        }
        let a = assets.remove(i);
        let k = keys.remove(i);
        assets.insert(j, a);
        keys.insert(j, k);
        proof {
            assert(assets@.take(i + 1) =~= t.insert(j as int, before[i as int]));
            assert(assets@.skip(i + 1) =~= before.skip(i + 1));
            assert(before.skip(i + 1) =~= orig.skip(i + 1)) by {
                assert forall|m: int| 0 <= m < n - i - 1 implies #[trigger] before.skip(i + 1)[m]
                    == orig.skip(i + 1)[m] by {
                    assert(before.skip(i as int)[m + 1] == orig.skip(i as int)[m + 1]);
                }
            }
            assert forall|m: int| 0 <= m < n implies #[trigger] keys@[m]@ == slug_key(assets@[m]) by {
                if m < j {
                    assert(keys@[m] == before_keys[m] && assets@[m] == before[m]);
                } else if m == j {
                } else if m <= i {
                    assert(keys@[m] == before_keys[m - 1] && assets@[m] == before[m - 1]);
                } else {
                    assert(keys@[m] == before_keys[m] && assets@[m] == before[m]);
                }
            }
        }
        i += 1;
    }
    assert(assets@ =~= assets@.take(n as int));
    assert(orig =~= orig.take(n as int));
}

/// Sorts `statuses` by `sort_order`, keeping statuses with equal orders in the order given.
pub fn sort_statuses_by_order(statuses: &mut Vec<StatusOption>)
    ensures
        final(statuses)@ == sorted_by_order(old(statuses)@),
{
    let ghost orig = statuses@;
    let n = statuses.len();
    let mut i: usize = 0;
    assert(statuses@.take(0) =~= sorted_by_order(orig.take(0)));
    while i < n
        invariant
            n == statuses.len() == orig.len(),
            i <= n,
            statuses@.take(i as int) == sorted_by_order(orig.take(i as int)),
            statuses@.skip(i as int) == orig.skip(i as int),
        decreases n - i,
    {
        let ghost before = statuses@;
        let ghost t = before.take(i as int);
        proof {
            assert(orig.take(i + 1).drop_last() =~= orig.take(i as int));
            assert(orig.skip(i as int)[0] == orig[i as int]);
            assert(before.skip(i as int)[0] == before[i as int]);
            assert(orig.take(i + 1).last() == orig[i as int]);
        }
        let k = statuses[i].sort_order;
        let mut j: usize = 0;
        while j < i && !(k < statuses[j].sort_order)
            invariant
                j <= i < n,
                n == statuses@.len(),
                statuses@ == before,
                k == before[i as int].sort_order,
                forall|m: int| 0 <= m < j ==> !(k < #[trigger] before[m].sort_order),
            decreases i - j,
        {
            j += 1;
        }
        proof {
            assert forall|m: int| 0 <= m < j implies !((k as nat) < #[trigger] t[m].sort_order) by {
                assert(t[m] == before[m]);
            }
            if j < i {
                assert(t[j as int] == before[j as int]);
            }
            lemma_order_pos_unique(t, k as nat, j as int);
        }
        let a = statuses.remove(i);
        statuses.insert(j, a);
        proof {
            assert(statuses@.take(i + 1) =~= t.insert(j as int, before[i as int]));
            assert(statuses@.skip(i + 1) =~= before.skip(i + 1));
            assert(before.skip(i + 1) =~= orig.skip(i + 1)) by {
                assert forall|m: int| 0 <= m < n - i - 1 implies #[trigger] before.skip(i + 1)[m]
                    == orig.skip(i + 1)[m] by {
                    assert(before.skip(i as int)[m + 1] == orig.skip(i as int)[m + 1]);
                }
            }
        }
        i += 1;
    }
    assert(statuses@ =~= statuses@.take(n as int));
    assert(orig =~= orig.take(n as int));
}

/// Puts an asset list in display order: assets by lower-cased slug, statuses by their
/// sort order, both stably.
pub fn sort_for_display(list: &mut AssetList)
    ensures
        final(list).assets@ == sorted_by_slug(old(list).assets@),
        final(list).statuses@ == sorted_by_order(old(list).statuses@),
{
    sort_assets_by_slug(&mut list.assets);
    sort_statuses_by_order(&mut list.statuses);
}

// ---------------------------------------------------------------------------------------
// Avatar cache
// ---------------------------------------------------------------------------------------

/// What `blake3::hash(text.as_bytes()).to_hex()` gives for a text: the BLAKE3 digest of
/// its UTF-8 bytes in lower-case hexadecimal.
pub uninterp spec fn blake3_hex_of(text: Seq<char>) -> Seq<char>;

/// `blake3::hash` of a text's UTF-8 bytes, written out by `Hash::to_hex`: 32 bytes as 64
/// characters from `0123456789abcdef`.
#[verifier::external_body]
fn blake3_hex(text: &str) -> (r: String)
    ensures
        r@ == blake3_hex_of(text@),
        r@.len() == 64,
{
    blake3::hash(text.as_bytes()).to_hex().to_string()
}

/// The text an avatar's cache name is hashed from: `{id}|{avatar url}`, the url empty when
/// there is none.
pub open spec fn avatar_source(author: AuthorProfile) -> Seq<char> {
    author.id@ + "|"@ + match author.avatar_url {
        Some(u) => u@,
        None => Seq::<char>::empty(),
    }
}

/// Name of an author's cached avatar, which changes whenever the avatar's url does.
pub fn author_avatar_cache_key(author: &AuthorProfile) -> (r: String)
    ensures
        r@ == blake3_hex_of(avatar_source(*author)),
{
    let mut src: Vec<char> = crate::text::chars_of(author.id.as_str());
    crate::text::extend_str(&mut src, "|");
    match &author.avatar_url {
        Some(u) => crate::text::extend_str(&mut src, u.as_str()),
        None => {},
    }
    proof {
        reveal_strlit("|");
        assert(src@ =~= avatar_source(*author));
    }
    let text = string_of(&src);
    blake3_hex(text.as_str())
}

/// Where an author's avatar is cached under `cache_dir`: `avatars/{key}.webp`, or nothing
/// when the author has no avatar.
pub fn author_avatar_cache_path(author: &AuthorProfile, cache_dir: &str) -> (r: Option<String>)
    ensures
        author.avatar_url is None ==> r is None,
        author.avatar_url is Some ==> r is Some && r->0@ == crate::ingest::path_join(
            crate::ingest::path_join(cache_dir@, "avatars"@),
            blake3_hex_of(avatar_source(*author)) + ".webp"@,
        ),
{
    if author.avatar_url.is_none() {
        return None;
    }
    let root = crate::ingest::path_join_str(cache_dir, "avatars");
    let mut name = crate::text::chars_of(author_avatar_cache_key(author).as_str());
    crate::text::extend_str(&mut name, ".webp");
    let file = string_of(&name);
    Some(crate::ingest::path_join_str(root.as_str(), file.as_str()))
}

// ---------------------------------------------------------------------------------------
// What the display order promises
// ---------------------------------------------------------------------------------------

/// No asset is listed before one whose key is smaller.
pub open spec fn slug_sorted(s: Seq<Asset>) -> bool {
    forall|i: int, j: int| 0 <= i < j < s.len() ==> !lex_lt(#[trigger] slug_key(s[j]), #[trigger] slug_key(s[i]))
}

proof fn lemma_slug_pos_bounds(s: Seq<Asset>, k: Seq<char>)
    ensures
        0 <= slug_insert_pos(s, k) <= s.len(),
        forall|m: int| 0 <= m < slug_insert_pos(s, k) ==> !lex_lt(k, #[trigger] slug_key(s[m])),
        slug_insert_pos(s, k) < s.len() ==> lex_lt(k, slug_key(s[slug_insert_pos(s, k)])),
    decreases s.len(),
{
    if s.len() > 0 && !lex_lt(k, slug_key(s[0])) {
        let t = s.drop_first();
        lemma_slug_pos_bounds(t, k);
        assert forall|m: int| 0 <= m < slug_insert_pos(s, k) implies !lex_lt(k, #[trigger] slug_key(s[m])) by {
            if m > 0 {
                assert(s[m] == t[m - 1]);
            }
        }
        if slug_insert_pos(s, k) < s.len() {
            assert(s[slug_insert_pos(s, k)] == t[slug_insert_pos(t, k)]);
        }
    }
}

/// `x <= y` and `y <= z` give `x <= z` for the key order.
proof fn lemma_lex_le_trans(x: Seq<char>, y: Seq<char>, z: Seq<char>)
    requires
        !lex_lt(y, x),
        !lex_lt(z, y),
    ensures
        !lex_lt(z, x),
{
    crate::text::lemma_lex_total(x, y);
    crate::text::lemma_lex_total(y, z);
    crate::text::lemma_lex_transitive(z, x, y);
    crate::text::lemma_lex_transitive(z, y, x);
    crate::text::lemma_lex_irreflexive(x);
    if lex_lt(z, x) {
        if x == y {
        } else {
            assert(lex_lt(x, y));
            crate::text::lemma_lex_transitive(z, x, y);
        }
    }
}

proof fn lemma_lex_lt_le(x: Seq<char>, y: Seq<char>, z: Seq<char>)
    requires
        lex_lt(x, y),
        !lex_lt(z, y),
    ensures
        lex_lt(x, z),
{
    crate::text::lemma_lex_total(y, z);
    if y != z {
        assert(lex_lt(y, z));
        crate::text::lemma_lex_transitive(x, y, z);
    }
}

/// The assets come out ordered by lower-cased slug.
pub proof fn law_assets_sorted_by_slug(s: Seq<Asset>)
    ensures
        slug_sorted(sorted_by_slug(s)),
    decreases s.len(),
{
    if s.len() > 0 {
        let t = sorted_by_slug(s.drop_last());
        law_assets_sorted_by_slug(s.drop_last());
        let x = s.last();
        let k = slug_key(x);
        let p = slug_insert_pos(t, k);
        lemma_slug_pos_bounds(t, k);
        let r = t.insert(p, x);
        assert(r == sorted_by_slug(s));
        assert forall|i: int, j: int| 0 <= i < j < r.len() implies !lex_lt(
            #[trigger] slug_key(r[j]),
            #[trigger] slug_key(r[i]),
        ) by {
            if j < p {
                assert(r[i] == t[i] && r[j] == t[j]);
            } else if j == p {
                assert(r[i] == t[i] && r[j] == x);
            } else if i < p {
                assert(r[i] == t[i] && r[j] == t[j - 1]);
                if j - 1 == p {
                    crate::text::lemma_lex_irreflexive(slug_key(t[p]));
                } else {
                    assert(!lex_lt(slug_key(t[j - 1]), slug_key(t[p])));
                }
                lemma_lex_lt_le(k, slug_key(t[p]), slug_key(t[j - 1]));
                crate::text::lemma_lex_asymmetric(k, slug_key(t[j - 1]));
                assert(!lex_lt(k, slug_key(t[i])));
                lemma_lex_le_trans(slug_key(t[i]), k, slug_key(t[j - 1]));
            } else if i == p {
                assert(r[i] == x && r[j] == t[j - 1]);
                if j - 1 > p {
                    assert(!lex_lt(slug_key(t[j - 1]), slug_key(t[p])));
                    lemma_lex_lt_le(k, slug_key(t[p]), slug_key(t[j - 1]));
                }
                crate::text::lemma_lex_asymmetric(k, slug_key(t[j - 1]));
            } else {
                assert(r[i] == t[i - 1] && r[j] == t[j - 1]);
            }
        }
    }
}

/// The display order neither drops nor adds an asset.
pub proof fn law_assets_sort_is_a_permutation(s: Seq<Asset>)
    ensures
        sorted_by_slug(s).to_multiset() == s.to_multiset(),
    decreases s.len(),
{
    if s.len() > 0 {
        law_assets_sort_is_a_permutation(s.drop_last());
        let t = sorted_by_slug(s.drop_last());
        lemma_slug_pos_bounds(t, slug_key(s.last()));
        vstd::seq_lib::to_multiset_insert(t, slug_insert_pos(t, slug_key(s.last())), s.last());
        vstd::seq_lib::to_multiset_build(s.drop_last(), s.last());
        assert(s.drop_last().push(s.last()) =~= s);
    }
}

/// Statuses in non-decreasing `sort_order`.
pub open spec fn order_sorted(s: Seq<StatusOption>) -> bool {
    forall|i: int, j: int| 0 <= i < j < s.len() ==> (#[trigger] s[i]).sort_order <= (#[trigger] s[j]).sort_order
}

proof fn lemma_order_pos_bounds(s: Seq<StatusOption>, k: nat)
    ensures
        0 <= order_insert_pos(s, k) <= s.len(),
        forall|m: int| 0 <= m < order_insert_pos(s, k) ==> (#[trigger] s[m]).sort_order <= k,
        order_insert_pos(s, k) < s.len() ==> k < s[order_insert_pos(s, k)].sort_order,
    decreases s.len(),
{
    if s.len() > 0 && !(k < s[0].sort_order) {
        let t = s.drop_first();
        lemma_order_pos_bounds(t, k);
        assert forall|m: int| 0 <= m < order_insert_pos(s, k) implies (#[trigger] s[m]).sort_order <= k by {
            if m > 0 {
                assert(s[m] == t[m - 1]);
            }
        }
        if order_insert_pos(s, k) < s.len() {
            assert(s[order_insert_pos(s, k)] == t[order_insert_pos(t, k)]);
        }
    }
}

/// The statuses come out ordered by `sort_order`.
pub proof fn law_statuses_sorted_by_order(s: Seq<StatusOption>)
    ensures
        order_sorted(sorted_by_order(s)),
    decreases s.len(),
{
    if s.len() > 0 {
        let t = sorted_by_order(s.drop_last());
        law_statuses_sorted_by_order(s.drop_last());
        let x = s.last();
        let k = x.sort_order as nat;
        let p = order_insert_pos(t, k);
        lemma_order_pos_bounds(t, k);
        let r = t.insert(p, x);
        assert(r == sorted_by_order(s));
        assert forall|i: int, j: int| 0 <= i < j < r.len() implies (#[trigger] r[i]).sort_order <= (#[trigger] r[j]).sort_order by {
            if j < p {
                assert(r[i] == t[i] && r[j] == t[j]);
            } else if j == p {
                assert(r[i] == t[i] && r[j] == x);
            } else if i < p {
                assert(r[i] == t[i] && r[j] == t[j - 1]);
                assert(t[i].sort_order <= t[p].sort_order);
                assert(t[p].sort_order <= t[j - 1].sort_order);
            } else if i == p {
                assert(r[i] == x && r[j] == t[j - 1]);
                assert(t[p].sort_order <= t[j - 1].sort_order);
            } else {
                assert(r[i] == t[i - 1] && r[j] == t[j - 1]);
            }
        }
    }
}

/// Sorting the statuses neither drops nor adds one.
pub proof fn law_statuses_sort_is_a_permutation(s: Seq<StatusOption>)
    ensures
        sorted_by_order(s).to_multiset() == s.to_multiset(),
    decreases s.len(),
{
    if s.len() > 0 {
        law_statuses_sort_is_a_permutation(s.drop_last());
        let t = sorted_by_order(s.drop_last());
        lemma_order_pos_bounds(t, s.last().sort_order as nat);
        vstd::seq_lib::to_multiset_insert(t, order_insert_pos(t, s.last().sort_order as nat), s.last());
        vstd::seq_lib::to_multiset_build(s.drop_last(), s.last());
        assert(s.drop_last().push(s.last()) =~= s);
    }
}

} // verus!
