//! Authors as the asset list credits them: a comma-separated field naming one or more
//! people, and the author filter built from it.
use vstd::prelude::*;
use crate::asset::{asset_type_label, AssetType};
use crate::text::{
    chars_of, lex_less, lex_lt, owned, seq_eq, split_on, split_vec, string_of, trim, trim_vec,
    views, words, words_vec,
};

verus! {

// ---------------------------------------------------------------------------------------
// Names in an author field
// ---------------------------------------------------------------------------------------

/// The non-empty pieces among `parts`, each trimmed.
pub open spec fn trimmed_nonempty(parts: Seq<Seq<char>>) -> Seq<Seq<char>>
    decreases parts.len(),
{
    if parts.len() == 0 {
        Seq::empty()
    } else {
        let prev = trimmed_nonempty(parts.drop_last());
        let t = trim(parts.last());
        if t.len() > 0 {
            prev.push(t)
        } else {
            prev
        }
    }
}

/// The people an author field names: its comma-separated pieces, trimmed, empty ones left
/// out.
pub open spec fn author_names(field: Seq<char>) -> Seq<Seq<char>> {
    trimmed_nonempty(split_on(field, ','))
}

pub fn names_vec(field: &[char]) -> (r: Vec<Vec<char>>)
    ensures
        views(r@) == author_names(field@),
{
    let parts = split_vec(field, ',');
    let mut out: Vec<Vec<char>> = Vec::new();
    let mut i: usize = 0;
    while i < parts.len()
        invariant
            i <= parts.len(),
            views(parts@) == split_on(field@, ','),
            views(out@) == trimmed_nonempty(views(parts@).take(i as int)),
        decreases parts.len() - i,
    {
        let ghost pre = views(parts@).take(i as int);
        assert(views(parts@).take(i + 1).drop_last() =~= pre);
        assert(views(parts@).take(i + 1).last() == parts@[i as int]@);
        let t = trim_vec(&parts[i]);
        if t.len() > 0 {
            out.push(t);
        }
        i += 1;
        assert(views(out@) =~= trimmed_nonempty(views(parts@).take(i as int)));
    }
    assert(views(parts@).take(parts.len() as int) =~= views(parts@));
    out
}

/// The people an author field names, in the order it names them.
pub fn names(author: &str) -> (r: Vec<String>)
    ensures
        r@.len() == author_names(author@).len(),
        forall|i: int| 0 <= i < r@.len() ==> #[trigger] r@[i]@ == author_names(author@)[i],
{
    let s = chars_of(author);
    let v = names_vec(&s);
    let mut out: Vec<String> = Vec::new();
    let mut i: usize = 0;
    while i < v.len()
        invariant
            i <= v.len(),
            views(v@) == author_names(author@),
            out@.len() == i,
            forall|k: int| 0 <= k < i ==> #[trigger] out@[k]@ == v@[k]@,
        decreases v.len() - i,
    {
        out.push(string_of(&v[i]));
        i += 1;
    }
    proof {
        assert forall|k: int| 0 <= k < out@.len() implies #[trigger] out@[k]@ == author_names(author@)[k] by {
            assert(views(v@)[k] == v@[k]@);
        }
    }
    out
}

/// Whether an author field names someone the filter selects; an empty filter selects
/// everyone.
pub open spec fn matches_filter(field: Seq<char>, filters: Seq<Seq<char>>) -> bool {
    filters.len() == 0 || exists|i: int, j: int|
        0 <= i < author_names(field).len() && 0 <= j < filters.len() && #[trigger] filters[j]
            == #[trigger] author_names(field)[i]
}

pub open spec fn texts(v: Seq<String>) -> Seq<Seq<char>> {
    v.map_values(|s: String| s@)
}

fn contains_text(filters: &[String], name: &[char]) -> (r: bool)
    ensures
        r == exists|j: int| 0 <= j < filters@.len() && #[trigger] filters@[j]@ == name@,
{
    let mut j: usize = 0;
    while j < filters.len()
        invariant
            j <= filters.len(),
            forall|m: int| 0 <= m < j ==> #[trigger] filters@[m]@ != name@,
        decreases filters.len() - j,
    {
        let f = chars_of(filters[j].as_str());
        if seq_eq(&f, name) {
            return true;
        }
        j += 1;
    }
    false
}

/// Whether the author field names anyone the filter selects (everyone, when it is empty).
pub fn contains_any(author: &str, filters: &[String]) -> (r: bool)
    ensures
        r == matches_filter(author@, texts(filters@)),
{
    if filters.len() == 0 {
        return true;
    }
    let s = chars_of(author);
    let ns = names_vec(&s);
    let mut i: usize = 0;
    while i < ns.len()
        invariant
            i <= ns.len(),
            filters@.len() > 0,
            views(ns@) == author_names(author@),
            forall|a: int, j: int|
                0 <= a < i && 0 <= j < filters@.len() ==> #[trigger] filters@[j]@ != #[trigger] ns@[a]@,
        decreases ns.len() - i,
    {
        if contains_text(filters, &ns[i]) {
            proof {
                let j = choose|j: int| 0 <= j < filters@.len() && #[trigger] filters@[j]@ == ns@[i as int]@;
                assert(texts(filters@)[j] == author_names(author@)[i as int]);
            }
            return true;
        }
        i += 1;
    }
    proof {
        if matches_filter(author@, texts(filters@)) {
            let (a, j) = choose|a: int, j: int|
                0 <= a < author_names(author@).len() && 0 <= j < texts(filters@).len() && #[trigger] texts(filters@)[j]
                    == #[trigger] author_names(author@)[a];
            assert(views(ns@)[a] == ns@[a]@);
            assert(texts(filters@)[j] == filters@[j]@);
        }
    }
    false
}

// ---------------------------------------------------------------------------------------
// Short names
// ---------------------------------------------------------------------------------------

/// A person's first name: the first word of the full name, or the whole name when it
/// has no word.
pub open spec fn first_name_of(full: Seq<char>) -> Seq<char> {
    if words(full).len() > 0 {
        words(full)[0]
    } else {
        full
    }
}

pub fn first_name(full: &str) -> (r: String)
    ensures
        r@ == first_name_of(full@),
{
    let s = chars_of(full);
    let w = words_vec(&s);
    if w.len() > 0 {
        assert(views(w@)[0] == w@[0]@);
        string_of(&w[0])
    } else {
        owned(full)
    }
}

/// How an author is shown in a short list: by first name, or by full name when another
/// of `authors` shares that first name.
pub open spec fn display_name(authors: Seq<Seq<char>>, full: Seq<char>) -> Seq<char> {
    if exists|j: int|
        0 <= j < authors.len() && #[trigger] authors[j] != full && first_name_of(authors[j])
            == first_name_of(full) {
        full
    } else {
        first_name_of(full)
    }
}

/// Each author of `authors`, in order, with the name a short list shows for them. Two
/// different authors who share a first name are both shown in full; everyone else by
/// first name.
pub fn abbreviate_names(authors: &[String]) -> (r: Vec<(String, String)>)
    ensures
        r@.len() == authors@.len(),
        forall|k: int|
            0 <= k < authors@.len() ==> {
                &&& (#[trigger] r@[k]).0@ == authors@[k]@
                &&& r@[k].1@ == display_name(texts(authors@), authors@[k]@)
            },
{
    let mut firsts: Vec<String> = Vec::new();
    let mut i: usize = 0;
    while i < authors.len()
        invariant
            i <= authors.len(),
            firsts@.len() == i,
            forall|k: int| 0 <= k < i ==> #[trigger] firsts@[k]@ == first_name_of(authors@[k]@),
        decreases authors.len() - i,
    {
        firsts.push(first_name(authors[i].as_str()));
        i += 1;
    }
    let mut out: Vec<(String, String)> = Vec::new();
    let mut k: usize = 0;
    while k < authors.len()
        invariant
            k <= authors.len(),
            firsts@.len() == authors@.len(),
            forall|m: int| 0 <= m < authors@.len() ==> #[trigger] firsts@[m]@ == first_name_of(authors@[m]@),
            out@.len() == k,
            forall|m: int|
                0 <= m < k ==> {
                    &&& (#[trigger] out@[m]).0@ == authors@[m]@
                    &&& out@[m].1@ == display_name(texts(authors@), authors@[m]@)
                },
        decreases authors.len() - k,
    {
        let full = chars_of(authors[k].as_str());
        let first = chars_of(firsts[k].as_str());
        let mut shared = false;
        let mut j: usize = 0;
        while j < authors.len()
            invariant
                j <= authors.len(),
                k < authors.len(),
                firsts@.len() == authors@.len(),
                forall|m: int| 0 <= m < authors@.len() ==> #[trigger] firsts@[m]@ == first_name_of(authors@[m]@),
                full@ == authors@[k as int]@,
                first@ == first_name_of(full@),
                shared == exists|m: int|
                    0 <= m < j && #[trigger] authors@[m]@ != full@ && first_name_of(authors@[m]@)
                        == first_name_of(full@),
            decreases authors.len() - j,
        {
            let other = chars_of(authors[j].as_str());
            let other_first = chars_of(firsts[j].as_str());
            if !seq_eq(&other, &full) && seq_eq(&other_first, &first) {
                shared = true;
            }
            j += 1;
        }
        proof {
            let ts = texts(authors@);
            assert(shared == exists|m: int|
                0 <= m < ts.len() && #[trigger] ts[m] != full@ && first_name_of(ts[m]) == first_name_of(full@)) by {
                if shared {
                    let m = choose|m: int|
                        0 <= m < authors@.len() && #[trigger] authors@[m]@ != full@ && first_name_of(authors@[m]@)
                            == first_name_of(full@);
                    assert(ts[m] == authors@[m]@);
                }
                if exists|m: int|
                    0 <= m < ts.len() && #[trigger] ts[m] != full@ && first_name_of(ts[m]) == first_name_of(full@) {
                    let m = choose|m: int|
                        0 <= m < ts.len() && #[trigger] ts[m] != full@ && first_name_of(ts[m]) == first_name_of(full@);
                    assert(ts[m] == authors@[m]@);
                }
            }
        }
        let display = if shared {
            string_of(&full)
        } else {
            string_of(&first)
        };
        out.push((string_of(&full), display));
        k += 1;
    }
    out
}

// ---------------------------------------------------------------------------------------
// Ordered text lists
// ---------------------------------------------------------------------------------------

/// Strictly increasing: sorted, and nothing twice.
pub open spec fn strictly_sorted(s: Seq<Seq<char>>) -> bool {
    forall|i: int, j: int| 0 <= i < j < s.len() ==> lex_lt(#[trigger] s[i], #[trigger] s[j])
}

/// Never decreasing.
pub open spec fn sorted_texts(s: Seq<Seq<char>>) -> bool {
    forall|i: int, j: int| 0 <= i < j < s.len() ==> !lex_lt(#[trigger] s[j], #[trigger] s[i])
}

/// Adds `x` to a strictly sorted list unless it is there already.
fn insert_unique(v: &mut Vec<Vec<char>>, x: Vec<char>)
    requires
        strictly_sorted(views(old(v)@)),
    ensures
        strictly_sorted(views(final(v)@)),
        forall|t: Seq<char>| views(final(v)@).contains(t) <==> (views(old(v)@).contains(t) || t == x@),
{
    let ghost before = views(v@);
    let mut j: usize = 0;
    while j < v.len() && lex_less(&v[j], &x)
        invariant
            j <= v.len(),
            views(v@) == before,
            forall|m: int| 0 <= m < j ==> lex_lt(#[trigger] before[m], x@),
        decreases v.len() - j,
    {
        assert(before[j as int] == v@[j as int]@);
        j += 1;
    }
    if j < v.len() && seq_eq(&v[j], &x) {
        assert(before[j as int] == x@);
        return;
    }
    proof {
        if j < v.len() {
            assert(before[j as int] == v@[j as int]@);
            crate::text::lemma_lex_total(before[j as int], x@);
        }
    }
    let ghost xv = x@;
    v.insert(j, x);
    proof {
        let after = views(v@);
        assert(after =~= before.insert(j as int, xv));
        assert forall|a: int, b: int| 0 <= a < b < after.len() implies lex_lt(#[trigger] after[a], #[trigger] after[b]) by {
            if b < j {
            } else if b == j {
            } else if a < j {
                if b - 1 > j {
                    assert(lex_lt(before[j as int], before[b - 1]));
                    crate::text::lemma_lex_transitive(xv, before[j as int], before[b - 1]);
                }
                crate::text::lemma_lex_transitive(before[a], xv, before[b - 1]);
            } else if a == j {
                if b - 1 > j {
                    assert(lex_lt(before[j as int], before[b - 1]));
                    crate::text::lemma_lex_transitive(xv, before[j as int], before[b - 1]);
                }
            } else {
            }
        }
        assert forall|t: Seq<char>| after.contains(t) <==> (before.contains(t) || t == xv) by {
            if after.contains(t) {
                let m = choose|m: int| 0 <= m < after.len() && after[m] == t;
                if m < j {
                    assert(before[m] == t);
                } else if m > j {
                    assert(before[m - 1] == t);
                }
            }
            if before.contains(t) {
                let m = choose|m: int| 0 <= m < before.len() && before[m] == t;
                if m < j {
                    assert(after[m] == t);
                } else {
                    assert(after[m + 1] == t);
                }
            }
            if t == xv {
                assert(after[j as int] == t);
            }
        }
    }
}

/// Every person named by any of the author fields.
pub open spec fn named_by_any(authors: Seq<Seq<char>>, t: Seq<char>) -> bool {
    exists|i: int| 0 <= i < authors.len() && #[trigger] author_names(authors[i]).contains(t)
}

fn text_list(v: &Vec<Vec<char>>) -> (r: Vec<String>)
    ensures
        texts(r@) == views(v@),
{
    let mut out: Vec<String> = Vec::new();
    let mut i: usize = 0;
    while i < v.len()
        invariant
            i <= v.len(),
            out@.len() == i,
            texts(out@) == views(v@).take(i as int),
        decreases v.len() - i,
    {
        let t = string_of(&v[i]);
        out.push(t);
        assert(texts(out@)[i as int] == views(v@)[i as int]);
        i += 1;
        assert(texts(out@) =~= views(v@).take(i as int));
    }
    assert(views(v@).take(v.len() as int) =~= views(v@));
    out
}

/// Adds every person named by `authors` to a strictly sorted list.
fn add_named(out: &mut Vec<Vec<char>>, authors: &[String])
    requires
        strictly_sorted(views(old(out)@)),
    ensures
        strictly_sorted(views(final(out)@)),
        forall|t: Seq<char>|
            views(final(out)@).contains(t) <==> (views(old(out)@).contains(t) || named_by_any(
                texts(authors@),
                t,
            )),
{
    let ghost start = views(out@);
    let mut i: usize = 0;
    while i < authors.len()
        invariant
            i <= authors.len(),
            strictly_sorted(views(out@)),
            forall|t: Seq<char>|
                #[trigger] views(out@).contains(t) <==> (start.contains(t) || named_by_any(
                    texts(authors@).take(i as int),
                    t,
                )),
        decreases authors.len() - i,
    {
        let s = chars_of(authors[i].as_str());
        let ns = names_vec(&s);
        let ghost mid = views(out@);
        let mut k: usize = 0;
        while k < ns.len()
            invariant
                k <= ns.len(),
                strictly_sorted(views(out@)),
                forall|t: Seq<char>|
                    #[trigger] views(out@).contains(t) <==> (mid.contains(t) || views(ns@).take(
                        k as int,
                    ).contains(t)),
            decreases ns.len() - k,
        {
            let ghost cur = views(out@);
            let x = crate::ingest::slice_to(&ns[k], ns[k].len());
            let ghost xv = x@;
            assert(xv =~= ns@[k as int]@);
            insert_unique(out, x);
            proof {
                let a = views(ns@).take(k as int);
                let b = views(ns@).take(k + 1);
                assert(b =~= a.push(xv));
                assert forall|t: Seq<char>|
                    views(out@).contains(t) <==> (mid.contains(t) || b.contains(t)) by {
                    assert(views(out@).contains(t) <==> (cur.contains(t) || t == xv));
                    assert(cur.contains(t) <==> (mid.contains(t) || a.contains(t)));
                    if a.contains(t) {
                        let m = choose|m: int| 0 <= m < a.len() && a[m] == t;
                        assert(b[m] == t);
                    }
                    if b.contains(t) {
                        let m = choose|m: int| 0 <= m < b.len() && b[m] == t;
                        if m < k {
                            assert(a[m] == t);
                        }
                    }
                    if t == xv {
                        assert(b[k as int] == t);
                    }
                }
            }
            k += 1;
        }
        proof {
            assert(views(ns@).take(ns.len() as int) =~= views(ns@));
            let ta = texts(authors@);
            assert forall|t: Seq<char>|
                views(out@).contains(t) <==> (start.contains(t) || named_by_any(ta.take(i + 1), t)) by {
                assert(ta.take(i + 1)[i as int] == authors@[i as int]@);
                if named_by_any(ta.take(i + 1), t) {
                    let m = choose|m: int|
                        0 <= m < ta.take(i + 1).len() && #[trigger] author_names(ta.take(i + 1)[m]).contains(t);
                    if m < i {
                        assert(ta.take(i as int)[m] == ta.take(i + 1)[m]);
                        assert(named_by_any(ta.take(i as int), t));
                    }
                }
                if named_by_any(ta.take(i as int), t) {
                    let m = choose|m: int|
                        0 <= m < ta.take(i as int).len() && #[trigger] author_names(ta.take(i as int)[m]).contains(t);
                    assert(ta.take(i as int)[m] == ta.take(i + 1)[m]);
                    assert(named_by_any(ta.take(i + 1), t));
                }
                if views(ns@).contains(t) {
                    assert(author_names(ta.take(i + 1)[i as int]).contains(t));
                    assert(named_by_any(ta.take(i + 1), t));
                }
            }
        }
        i += 1;
    }
    assert(texts(authors@).take(authors.len() as int) =~= texts(authors@));
}

/// The author filter's options: every person the author fields name, once each, in order.
pub fn filter_options(authors: &[String]) -> (r: Vec<String>)
    ensures
        strictly_sorted(texts(r@)),
        forall|t: Seq<char>| texts(r@).contains(t) <==> named_by_any(texts(authors@), t),
{
    let mut out: Vec<Vec<char>> = Vec::new();
    add_named(&mut out, authors);
    text_list(&out)
}

/// Sorts texts into lexicographic order: `<[String]>::sort`.
pub fn sort_texts(v: &mut Vec<String>)
    ensures
        sorted_texts(texts(final(v)@)),
        texts(final(v)@).to_multiset() == texts(old(v)@).to_multiset(),
{
    let ghost orig = texts(v@);
    let n = v.len();
    let mut keys: Vec<Vec<char>> = Vec::new();
    let mut i: usize = 0;
    while i < n
        invariant
            n == v@.len(),
            texts(v@) == orig,
            i <= n,
            keys@.len() == i,
            forall|m: int| 0 <= m < i ==> #[trigger] keys@[m]@ == v@[m]@,
        decreases n - i,
    {
        keys.push(chars_of(v[i].as_str()));
        i += 1;
    }
    i = 0;
    while i < n
        invariant
            n == v@.len() == keys@.len(),
            i <= n,
            sorted_texts(texts(v@).take(i as int)),
            texts(v@).to_multiset() == orig.to_multiset(),
            forall|m: int| 0 <= m < n ==> #[trigger] keys@[m]@ == v@[m]@,
        decreases n - i,
    {
        let ghost before = texts(v@);
        let ghost before_keys = views(keys@);
        let mut j: usize = 0;
        while j < i && !lex_less(&keys[i], &keys[j])
            invariant
                j <= i < n,
                n == keys@.len(),
                forall|m: int| 0 <= m < j ==> !lex_lt(keys@[i as int]@, #[trigger] keys@[m]@),
            decreases i - j,
        {
            j += 1;
        }
        let ghost x = before[i as int];
        proof {
            assert(keys@[i as int]@ == x);
            if j < i {
                assert(keys@[j as int]@ == before[j as int]);
            }
        }
        let a = v.remove(i);
        let k = keys.remove(i);
        v.insert(j, a);
        keys.insert(j, k);
        proof {
            let after = texts(v@);
            assert(after =~= before.remove(i as int).insert(j as int, x));
            vstd::seq_lib::to_multiset_remove(before, i as int);
            vstd::seq_lib::to_multiset_insert(before.remove(i as int), j as int, x);
            assert(before.to_multiset().remove(x).insert(x) =~= before.to_multiset()) by {
                assert(before.to_multiset().count(x) > 0) by {
                    vstd::seq_lib::to_multiset_contains(before, x);
                    assert(before.contains(x)) by {
                        assert(before[i as int] == x);
                    }
                }
            }
            assert forall|m: int| 0 <= m < n implies #[trigger] keys@[m]@ == v@[m]@ by {
                if m < j {
                    assert(keys@[m]@ == before_keys[m] && v@[m]@ == before[m]);
                } else if m == j {
                } else if m <= i {
                    assert(keys@[m]@ == before_keys[m - 1] && v@[m]@ == before[m - 1]);
                } else {
                    assert(keys@[m]@ == before_keys[m] && v@[m]@ == before[m]);
                }
            }
            let t = before.take(i as int);
            assert forall|a: int, b: int| 0 <= a < b < i + 1 implies !lex_lt(
                #[trigger] after.take(i + 1)[b],
                #[trigger] after.take(i + 1)[a],
            ) by {
                assert(after.take(i + 1)[a] == after[a]);
                assert(after.take(i + 1)[b] == after[b]);
                if b < j {
                    assert(after[a] == t[a] && after[b] == t[b]);
                } else if b == j {
                    assert(after[a] == t[a] && after[b] == x);
                    assert(keys@[a]@ == before[a]);
                } else if a < j {
                    assert(after[a] == t[a] && after[b] == t[b - 1]);
                    assert(keys@[a]@ == before[a]);
                    assert(!lex_lt(x, t[a]));
                    if b - 1 == j {
                        assert(lex_lt(x, t[j as int]));
                        crate::text::lemma_lex_asymmetric(x, t[j as int]);
                    } else {
                        assert(!lex_lt(t[b - 1], t[j as int]));
                        crate::text::lemma_lex_total(t[j as int], t[b - 1]);
                        crate::text::lemma_lex_transitive(x, t[j as int], t[b - 1]);
                        crate::text::lemma_lex_asymmetric(x, t[b - 1]);
                    }
                    lemma_le_trans(t[a], x, t[b - 1]);
                } else if a == j {
                    assert(after[a] == x && after[b] == t[b - 1]);
                    if b - 1 == j {
                        crate::text::lemma_lex_asymmetric(x, t[j as int]);
                    } else {
                        assert(!lex_lt(t[b - 1], t[j as int]));
                        crate::text::lemma_lex_total(t[j as int], t[b - 1]);
                        crate::text::lemma_lex_transitive(x, t[j as int], t[b - 1]);
                        crate::text::lemma_lex_asymmetric(x, t[b - 1]);
                    }
                } else {
                    assert(after[a] == t[a - 1] && after[b] == t[b - 1]);
                }
            }
        }
        i += 1;
    }
    assert(texts(v@).take(n as int) =~= texts(v@));
}

/// `x <= y` and `y <= z` give `x <= z`.
pub proof fn lemma_le_trans(x: Seq<char>, y: Seq<char>, z: Seq<char>)
    requires
        !lex_lt(y, x),
        !lex_lt(z, y),
    ensures
        !lex_lt(z, x),
{
    crate::text::lemma_lex_total(x, y);
    crate::text::lemma_lex_total(y, z);
    crate::text::lemma_lex_irreflexive(x);
    if lex_lt(z, x) {
        if x != y {
            crate::text::lemma_lex_transitive(z, x, y);
        }
    }
}

// ---------------------------------------------------------------------------------------
// The author filter
// ---------------------------------------------------------------------------------------

/// A click on an author in the filter list. Out of range, nothing changes; a plain click
/// selects only that author; a shift-click adds the author, keeping the selection sorted.
pub fn select_author_filters(
    selected: Vec<String>,
    authors: &[String],
    clicked_index: usize,
    shift: bool,
) -> (r: Vec<String>)
    ensures
        clicked_index >= authors@.len() ==> r@ == selected@,
        clicked_index < authors@.len() && !shift ==> texts(r@) == seq![authors@[clicked_index as int]@],
        clicked_index < authors@.len() && shift && texts(selected@).contains(
            authors@[clicked_index as int]@,
        ) ==> r@ == selected@,
        clicked_index < authors@.len() && shift && !texts(selected@).contains(
            authors@[clicked_index as int]@,
        ) ==> sorted_texts(texts(r@)) && texts(r@).to_multiset() == texts(selected@).push(
            authors@[clicked_index as int]@,
        ).to_multiset(),
{
    if clicked_index >= authors.len() {
        return selected;
    }
    let clicked = chars_of(authors[clicked_index].as_str());
    if shift {
        if contains_text(&selected, &clicked) {
            proof {
                let j = choose|j: int| 0 <= j < selected@.len() && #[trigger] selected@[j]@ == clicked@;
                assert(texts(selected@)[j] == clicked@);
            }
            return selected;
        }
        proof {
            if texts(selected@).contains(clicked@) {
                let j = choose|j: int| 0 <= j < texts(selected@).len() && texts(selected@)[j] == clicked@;
                assert(selected@[j]@ == clicked@);
            }
        }
        let mut out = selected;
        let ghost before = texts(out@);
        out.push(string_of(&clicked));
        assert(texts(out@) =~= before.push(clicked@));
        sort_texts(&mut out);
        return out;
    }
    let mut one: Vec<String> = Vec::new();
    one.push(string_of(&clicked));
    assert(texts(one@) =~= seq![clicked@]);
    one
}

/// Drops empty filters, then sorts and de-duplicates the rest.
pub fn normalize_author_filters(filters: &mut Vec<String>)
    ensures
        strictly_sorted(texts(final(filters)@)),
        forall|t: Seq<char>|
            texts(final(filters)@).contains(t) <==> (t.len() > 0 && texts(old(filters)@).contains(t)),
{
    let ghost orig = texts(filters@);
    let mut acc: Vec<Vec<char>> = Vec::new();
    let mut i: usize = 0;
    while i < filters.len()
        invariant
            i <= filters.len(),
            texts(filters@) == orig,
            strictly_sorted(views(acc@)),
            forall|t: Seq<char>|
                #[trigger] views(acc@).contains(t) <==> (t.len() > 0 && orig.take(i as int).contains(t)),
        decreases filters.len() - i,
    {
        let ghost cur = views(acc@);
        let f = chars_of(filters[i].as_str());
        let ghost fv = f@;
        assert(orig[i as int] == fv);
        if f.len() > 0 {
            insert_unique(&mut acc, f);
        }
        proof {
            let a = orig.take(i as int);
            let b = orig.take(i + 1);
            assert(b =~= a.push(fv));
            assert forall|t: Seq<char>| #[trigger] views(acc@).contains(t) <==> (t.len() > 0 && b.contains(t)) by {
                if a.contains(t) {
                    let m = choose|m: int| 0 <= m < a.len() && a[m] == t;
                    assert(b[m] == t);
                }
                if b.contains(t) {
                    let m = choose|m: int| 0 <= m < b.len() && b[m] == t;
                    if m < i {
                        assert(a[m] == t);
                    }
                }
                if t == fv {
                    assert(b[i as int] == t);
                }
                assert(cur.contains(t) <==> (t.len() > 0 && a.contains(t)));
            }
        }
        i += 1;
    }
    assert(orig.take(filters.len() as int) =~= orig);
    *filters = text_list(&acc);
}

/// The options of the author filter: see `filter_options`.
pub fn author_filter_options(authors: &[String]) -> (r: Vec<String>)
    ensures
        strictly_sorted(texts(r@)),
        forall|t: Seq<char>| texts(r@).contains(t) <==> named_by_any(texts(authors@), t),
{
    filter_options(authors)
}

/// The options of the author filter, keeping every current selection among them even when
/// no listed asset names that author any more.
pub fn author_filter_options_with_current(authors: &[String], current: &[String]) -> (r: Vec<String>)
    ensures
        strictly_sorted(texts(r@)),
        forall|t: Seq<char>|
            texts(r@).contains(t) <==> (named_by_any(texts(authors@), t) || texts(current@).contains(t)),
{
    let mut acc: Vec<Vec<char>> = Vec::new();
    add_named(&mut acc, authors);
    let ghost named = views(acc@);
    let mut i: usize = 0;
    while i < current.len()
        invariant
            i <= current.len(),
            strictly_sorted(views(acc@)),
            forall|t: Seq<char>| named.contains(t) <==> named_by_any(texts(authors@), t),
            forall|t: Seq<char>|
                #[trigger] views(acc@).contains(t) <==> (named.contains(t) || texts(current@).take(
                    i as int,
                ).contains(t)),
        decreases current.len() - i,
    {
        let ghost cur = views(acc@);
        let c = chars_of(current[i].as_str());
        let ghost cv = c@;
        insert_unique(&mut acc, c);
        proof {
            let a = texts(current@).take(i as int);
            let b = texts(current@).take(i + 1);
            assert(b =~= a.push(cv));
            assert forall|t: Seq<char>| #[trigger] views(acc@).contains(t) <==> (named.contains(t) || b.contains(t)) by {
                if a.contains(t) {
                    let m = choose|m: int| 0 <= m < a.len() && a[m] == t;
                    assert(b[m] == t);
                }
                if b.contains(t) {
                    let m = choose|m: int| 0 <= m < b.len() && b[m] == t;
                    if m < i {
                        assert(a[m] == t);
                    }
                }
                if t == cv {
                    assert(b[i as int] == t);
                }
                assert(cur.contains(t) <==> (named.contains(t) || a.contains(t)));
            }
        }
        i += 1;
    }
    assert(texts(current@).take(current.len() as int) =~= texts(current@));
    text_list(&acc)
}

/// The short name `abbrev` gives `name`, or `name` itself when it gives none.
pub open spec fn abbreviation(abbrev: Seq<(Seq<char>, Seq<char>)>, name: Seq<char>) -> Seq<char>
    decreases abbrev.len(),
{
    if abbrev.len() == 0 {
        name
    } else if abbrev[0].0 == name {
        abbrev[0].1
    } else {
        abbreviation(abbrev.drop_first(), name)
    }
}

pub open spec fn pair_texts(v: Seq<(String, String)>) -> Seq<(Seq<char>, Seq<char>)> {
    v.map_values(|p: (String, String)| (p.0@, p.1@))
}

fn abbreviated(abbrev: &[(String, String)], name: &str) -> (r: Vec<char>)
    ensures
        r@ == abbreviation(pair_texts(abbrev@), name@),
{
    let n = chars_of(name);
    let mut i: usize = 0;
    assert(pair_texts(abbrev@).skip(0) =~= pair_texts(abbrev@));
    while i < abbrev.len()
        invariant
            i <= abbrev.len(),
            n@ == name@,
            abbreviation(pair_texts(abbrev@), name@) == abbreviation(pair_texts(abbrev@).skip(i as int), name@),
        decreases abbrev.len() - i,
    {
        let k = chars_of(abbrev[i].0.as_str());
        let ghost rest = pair_texts(abbrev@).skip(i as int);
        assert(rest[0] == (abbrev@[i as int].0@, abbrev@[i as int].1@));
        if seq_eq(&k, &n) {
            return chars_of(abbrev[i].1.as_str());
        }
        assert(rest.drop_first() =~= pair_texts(abbrev@).skip(i + 1));
        i += 1;
    }
    n
}

/// The label the closed author filter shows for a selection.
pub open spec fn filter_label(selected: Seq<Seq<char>>) -> Seq<char> {
    if selected.len() == 0 {
        "All authors"@
    } else if selected.len() == 1 {
        selected[0]
    } else if selected.len() == 2 {
        selected[0] + ", "@ + selected[1]
    } else {
        crate::text::dec(selected.len()) + " authors"@
    }
}

pub fn author_filter_display(selected: &[String]) -> (r: String)
    ensures
        r@ == filter_label(texts(selected@)),
{
    let n = selected.len();
    if n == 0 {
        owned("All authors")
    } else if n == 1 {
        owned(selected[0].as_str())
    } else if n == 2 {
        let mut v = chars_of(selected[0].as_str());
        crate::text::extend_str(&mut v, ", ");
        crate::text::extend_str(&mut v, selected[1].as_str());
        string_of(&v)
    } else {
        let mut v = crate::text::dec_usize(n);
        crate::text::extend_str(&mut v, " authors");
        string_of(&v)
    }
}

/// The label the closed author filter shows, with each of one or two selected authors
/// under the short name `abbrev` gives them.
pub fn author_filter_display_abbrev(selected: &[String], abbrev: &[(String, String)]) -> (r: String)
    ensures
        r@ == filter_label(
            if selected@.len() <= 2 {
                texts(selected@).map_values(|s: Seq<char>| abbreviation(pair_texts(abbrev@), s))
            } else {
                texts(selected@)
            },
        ),
{
    let n = selected.len();
    let ghost shown = texts(selected@).map_values(|s: Seq<char>| abbreviation(pair_texts(abbrev@), s));
    if n == 0 {
        owned("All authors")
    } else if n == 1 {
        let a = abbreviated(abbrev, selected[0].as_str());
        assert(shown[0] == a@);
        string_of(&a)
    } else if n == 2 {
        let mut v = abbreviated(abbrev, selected[0].as_str());
        crate::text::extend_str(&mut v, ", ");
        let b = abbreviated(abbrev, selected[1].as_str());
        crate::text::extend(&mut v, &b);
        assert(shown[0] == abbreviation(pair_texts(abbrev@), selected@[0]@));
        assert(shown[1] == b@);
        string_of(&v)
    } else {
        let mut v = crate::text::dec_usize(n);
        crate::text::extend_str(&mut v, " authors");
        string_of(&v)
    }
}

/// The author field an asset is filtered and shown by: its author profiles' names, else its
/// list of authors, joined with ", "; else its single author field.
pub open spec fn author_source(asset: crate::notion::Asset) -> Seq<char> {
    if asset.author_profiles@.len() > 0 {
        crate::text::join(profile_names(asset.author_profiles@), ", "@)
    } else if asset.authors@.len() > 0 {
        crate::text::join(texts(asset.authors@), ", "@)
    } else {
        asset.author@
    }
}

pub open spec fn profile_names(ps: Seq<crate::notion::AuthorProfile>) -> Seq<Seq<char>> {
    ps.map_values(|p: crate::notion::AuthorProfile| p.name@)
}

pub fn asset_author_source(asset: &crate::notion::Asset) -> (r: String)
    ensures
        r@ == author_source(*asset),
{
    let sep = chars_of(", ");
    if asset.author_profiles.len() > 0 {
        let mut parts: Vec<Vec<char>> = Vec::new();
        let mut i: usize = 0;
        while i < asset.author_profiles.len()
            invariant
                i <= asset.author_profiles@.len(),
                parts@.len() == i,
                views(parts@) == profile_names(asset.author_profiles@.take(i as int)),
            decreases asset.author_profiles@.len() - i,
        {
            let ghost old_parts = views(parts@);
            let nm = chars_of(asset.author_profiles[i].name.as_str());
            parts.push(nm);
            proof {
                let pn = profile_names(asset.author_profiles@.take(i + 1));
                assert(asset.author_profiles@.take(i + 1)[i as int] == asset.author_profiles@[i as int]);
                assert(pn[i as int] == asset.author_profiles@[i as int].name@);
                assert(views(parts@)[i as int] == parts@[i as int]@);
                assert forall|m: int| 0 <= m < i implies #[trigger] pn[m] == old_parts[m] by {
                    assert(asset.author_profiles@.take(i + 1)[m] == asset.author_profiles@.take(i as int)[m]);
                }
            }
            i += 1;
            assert(views(parts@) =~= profile_names(asset.author_profiles@.take(i as int)));
        }
        assert(asset.author_profiles@.take(i as int) =~= asset.author_profiles@);
        let j = crate::text::join_vec(&parts, &sep);
        string_of(&j)
    } else if asset.authors.len() > 0 {
        let mut parts: Vec<Vec<char>> = Vec::new();
        let mut i: usize = 0;
        while i < asset.authors.len()
            invariant
                i <= asset.authors@.len(),
                parts@.len() == i,
                views(parts@) == texts(asset.authors@).take(i as int),
            decreases asset.authors@.len() - i,
        {
            parts.push(chars_of(asset.authors[i].as_str()));
            i += 1;
            assert(views(parts@) =~= texts(asset.authors@).take(i as int));
        }
        assert(texts(asset.authors@).take(i as int) =~= texts(asset.authors@));
        let j = crate::text::join_vec(&parts, &sep);
        string_of(&j)
    } else {
        owned(asset.author.as_str())
    }
}


// ---------------------------------------------------------------------------------------
// Author filters saved per asset type
// ---------------------------------------------------------------------------------------

/// The filters saved under `label`: those of the first entry with that label, none when no
/// entry has it.
pub open spec fn saved_for(saved: Seq<(String, Vec<String>)>, label: Seq<char>) -> Seq<Seq<char>>
    decreases saved.len(),
{
    if saved.len() == 0 {
        Seq::empty()
    } else if saved[0].0@ == label {
        texts(saved[0].1@)
    } else {
        saved_for(saved.drop_first(), label)
    }
}

/// The filters saved for each of `types`, one after another.
pub open spec fn saved_for_types(saved: Seq<(String, Vec<String>)>, types: Seq<AssetType>) -> Seq<Seq<char>>
    decreases types.len(),
{
    if types.len() == 0 {
        Seq::empty()
    } else {
        saved_for_types(saved, types.drop_last()) + saved_for(saved, asset_type_label(types.last()))
    }
}

proof fn lemma_saved_for_first(saved: Seq<(String, Vec<String>)>, label: Seq<char>, i: int)
    requires
        0 <= i < saved.len(),
        saved[i].0@ == label,
        forall|j: int| 0 <= j < i ==> saved[j].0@ != label,
    ensures
        saved_for(saved, label) == texts(saved[i].1@),
    decreases i,
{
    if i > 0 {
        lemma_saved_for_first(saved.drop_first(), label, i - 1);
    }
}

proof fn lemma_saved_for_none(saved: Seq<(String, Vec<String>)>, label: Seq<char>)
    requires
        forall|j: int| 0 <= j < saved.len() ==> saved[j].0@ != label,
    ensures
        saved_for(saved, label) == Seq::<Seq<char>>::empty(),
    decreases saved.len(),
{
    if saved.len() > 0 {
        lemma_saved_for_none(saved.drop_first(), label);
    }
}

fn find_saved(saved: &[(String, Vec<String>)], label: &str) -> (r: Option<usize>)
    ensures
        match r {
            Some(i) => i < saved@.len() && saved@[i as int].0@ == label@ && forall|j: int|
                0 <= j < i ==> saved@[j].0@ != label@,
            None => forall|j: int| 0 <= j < saved@.len() ==> saved@[j].0@ != label@,
        },
{
    let l = chars_of(label);
    let mut i: usize = 0;
    while i < saved.len()
        invariant
            i <= saved@.len(),
            l@ == label@,
            forall|j: int| 0 <= j < i ==> saved@[j].0@ != label@,
        decreases saved@.len() - i,
    {
        let k = chars_of(saved[i].0.as_str());
        if seq_eq(&k, &l) {
            return Some(i);
        }
        i += 1;
    }
    None
}

/// Appends copies of `more` to `out`.
fn append_texts(out: &mut Vec<String>, more: &[String])
    ensures
        texts(final(out)@) == texts(old(out)@) + texts(more@),
{
    let ghost start = texts(out@);
    let mut m: usize = 0;
    while m < more.len()
        invariant
            m <= more@.len(),
            texts(out@) == start + texts(more@).take(m as int),
        decreases more@.len() - m,
    {
        let ghost prev = texts(out@);
        out.push(owned(more[m].as_str()));
        assert(texts(out@) =~= prev.push(more@[m as int]@));
        assert(texts(more@).take(m + 1) =~= texts(more@).take(m as int).push(more@[m as int]@));
        m += 1;
        assert(texts(out@) =~= start + texts(more@).take(m as int));
    }
    assert(texts(more@).take(more@.len() as int) =~= texts(more@));
}

/// The author filters a selection of asset types starts with: everything saved for any of
/// them, without empty entries, sorted and each once.
pub fn author_filters_for_types(saved_by_type: &[(String, Vec<String>)], selected_types: &[AssetType]) -> (r: Vec<String>)
    ensures
        strictly_sorted(texts(r@)),
        forall|t: Seq<char>|
            texts(r@).contains(t) <==> (t.len() > 0 && saved_for_types(saved_by_type@, selected_types@).contains(t)),
{
    let mut all: Vec<String> = Vec::new();
    let mut k: usize = 0;
    while k < selected_types.len()
        invariant
            k <= selected_types@.len(),
            texts(all@) == saved_for_types(saved_by_type@, selected_types@.take(k as int)),
        decreases selected_types@.len() - k,
    {
        let t = selected_types[k];
        let ghost label = asset_type_label(t);
        assert(selected_types@.take(k + 1).drop_last() =~= selected_types@.take(k as int));
        match find_saved(saved_by_type, t.label()) {
            Some(i) => {
                proof {
                    lemma_saved_for_first(saved_by_type@, label, i as int);
                }
                append_texts(&mut all, &saved_by_type[i].1);
            },
            None => {
                proof {
                    lemma_saved_for_none(saved_by_type@, label);
                }
                assert(texts(all@) =~= texts(all@) + Seq::<Seq<char>>::empty());
            },
        }
        k += 1;
    }
    assert(selected_types@.take(selected_types@.len() as int) =~= selected_types@);
    normalize_author_filters(&mut all);
    all
}

/// Where the filters of a start-up come from: the per-type filters when any were saved,
/// else the older single list, else the oldest single filter.
pub open spec fn initial_filter_source(
    saved: Seq<(String, Vec<String>)>,
    last_filters: Seq<Seq<char>>,
    last_filter: Seq<char>,
    types: Seq<AssetType>,
) -> Seq<Seq<char>> {
    if saved.len() > 0 {
        saved_for_types(saved, types)
    } else if last_filters.len() > 0 {
        last_filters
    } else if last_filter.len() > 0 {
        seq![last_filter]
    } else {
        Seq::empty()
    }
}

/// The author filters the window opens with, from what the configuration saved.
pub fn initial_author_filters(
    saved_by_type: &[(String, Vec<String>)],
    last_author_filters: &[String],
    last_author_filter: &str,
    selected_types: &[AssetType],
) -> (r: Vec<String>)
    ensures
        strictly_sorted(texts(r@)),
        forall|t: Seq<char>|
            texts(r@).contains(t) <==> (t.len() > 0 && initial_filter_source(
                saved_by_type@,
                texts(last_author_filters@),
                last_author_filter@,
                selected_types@,
            ).contains(t)),
{
    if saved_by_type.len() > 0 {
        return author_filters_for_types(saved_by_type, selected_types);
    }
    let mut filters: Vec<String> = Vec::new();
    if last_author_filters.len() > 0 {
        append_texts(&mut filters, last_author_filters);
        assert(texts(filters@) =~= texts(last_author_filters@));
    } else if last_author_filter.unicode_len() > 0 {
        filters.push(owned(last_author_filter));
        assert(texts(filters@) =~= seq![last_author_filter@]);
    } else {
        assert(texts(filters@) =~= Seq::<Seq<char>>::empty());
    }
    normalize_author_filters(&mut filters);
    filters
}

/// The author fields of a list's assets.
pub open spec fn sources_of(assets: Seq<crate::notion::Asset>) -> Seq<Seq<char>> {
    assets.map_values(|a: crate::notion::Asset| author_source(a))
}

/// A filter some asset of the list credits.
pub open spec fn credited_in(sources: Seq<Seq<char>>) -> spec_fn(Seq<char>) -> bool {
    |f: Seq<char>| named_by_any(sources, f)
}

/// What is saved for one asset type out of the current filters: nothing when nothing is
/// selected; all of them while the type's list is not loaded; else those the list
/// credits, in order.
pub open spec fn kept_for_type(filters: Seq<Seq<char>>, list: Option<crate::notion::AssetList>) -> Seq<Seq<char>> {
    if filters.len() == 0 {
        Seq::empty()
    } else {
        match list {
            None => filters,
            Some(l) => filters.filter(credited_in(sources_of(l.assets@))),
        }
    }
}

/// The filters to save for one asset type, given its list when it is loaded.
pub fn author_filters_for_type(author_filters: &[String], list: Option<&crate::notion::AssetList>) -> (r: Vec<String>)
    ensures
        texts(r@) == kept_for_type(
            texts(author_filters@),
            match list {
                Some(l) => Some(*l),
                None => None,
            },
        ),
{
    let mut out: Vec<String> = Vec::new();
    if author_filters.len() == 0 {
        assert(texts(out@) =~= Seq::<Seq<char>>::empty());
        return out;
    }
    let l = match list {
        None => {
            append_texts(&mut out, author_filters);
            assert(texts(out@) =~= texts(author_filters@));
            return out;
        },
        Some(l) => l,
    };
    let mut sources: Vec<String> = Vec::new();
    let mut i: usize = 0;
    while i < l.assets.len()
        invariant
            i <= l.assets@.len(),
            texts(sources@) == sources_of(l.assets@.take(i as int)),
        decreases l.assets@.len() - i,
    {
        let ghost prev = texts(sources@);
        sources.push(asset_author_source(&l.assets[i]));
        assert(texts(sources@) =~= prev.push(author_source(l.assets@[i as int])));
        assert(sources_of(l.assets@.take(i + 1)) =~= sources_of(l.assets@.take(i as int)).push(
            author_source(l.assets@[i as int]),
        ));
        i += 1;
    }
    assert(l.assets@.take(l.assets@.len() as int) =~= l.assets@);
    let available = filter_options(&sources);
    let ghost pred = credited_in(sources_of(l.assets@));
    let ghost fs = texts(author_filters@);
    let mut j: usize = 0;
    while j < author_filters.len()
        invariant
            j <= author_filters@.len(),
            fs == texts(author_filters@),
            pred == credited_in(sources_of(l.assets@)),
            texts(sources@) == sources_of(l.assets@),
            forall|t: Seq<char>| texts(available@).contains(t) <==> named_by_any(texts(sources@), t),
            texts(out@) == fs.take(j as int).filter(pred),
        decreases author_filters@.len() - j,
    {
        proof {
            assert(fs.take(j + 1) =~= fs.take(j as int).push(fs[j as int]));
            fs.take(j as int).lemma_filter_push(fs[j as int], pred);
        }
        let f = chars_of(author_filters[j].as_str());
        if contains_text(&available, &f) {
            proof {
                let m = choose|m: int| 0 <= m < available@.len() && #[trigger] available@[m]@ == f@;
                assert(texts(available@)[m] == f@);
                assert(texts(available@).contains(f@));
            }
            let ghost before = texts(out@);
            out.push(owned(author_filters[j].as_str()));
            assert(texts(out@) =~= before.push(fs[j as int]));
        } else {
            proof {
                if texts(available@).contains(f@) {
                    let m = choose|m: int| 0 <= m < texts(available@).len() && texts(available@)[m] == f@;
                    assert(available@[m]@ == f@);
                }
            }
        }
        j += 1;
    }
    assert(fs.take(author_filters@.len() as int) =~= fs);
    out
}


/// Two strictly sorted lists holding the same texts are the same list.
pub proof fn lemma_strictly_sorted_same_texts(a: Seq<Seq<char>>, b: Seq<Seq<char>>)
    requires
        strictly_sorted(a),
        strictly_sorted(b),
        forall|x: Seq<char>| a.contains(x) <==> b.contains(x),
    ensures
        a == b,
    decreases a.len(),
{
    if a.len() == 0 {
        if b.len() > 0 {
            assert(b.contains(b[0]));
        }
        assert(a =~= b);
    } else {
        assert(a.contains(a[0]));
        let k = choose|k: int| 0 <= k < b.len() && b[k] == a[0];
        assert(b.contains(b[0]));
        let m = choose|m: int| 0 <= m < a.len() && a[m] == b[0];
        if k > 0 && m > 0 {
            assert(lex_lt(b[0], b[k]));
            assert(lex_lt(a[0], a[m]));
            crate::text::lemma_lex_asymmetric(a[0], b[0]);
        }
        assert(a[0] == b[0]);
        let ta = a.drop_first();
        let tb = b.drop_first();
        assert forall|x: Seq<char>| ta.contains(x) <==> tb.contains(x) by {
            if ta.contains(x) {
                let i = choose|i: int| 0 <= i < ta.len() && ta[i] == x;
                assert(lex_lt(a[0], a[i + 1]));
                crate::text::lemma_lex_irreflexive(x);
                assert(a.contains(x));
                let j = choose|j: int| 0 <= j < b.len() && b[j] == x;
                assert(j != 0);
                assert(tb[j - 1] == x);
            }
            if tb.contains(x) {
                let i = choose|i: int| 0 <= i < tb.len() && tb[i] == x;
                assert(lex_lt(b[0], b[i + 1]));
                crate::text::lemma_lex_irreflexive(x);
                assert(b.contains(x));
                let j = choose|j: int| 0 <= j < a.len() && a[j] == x;
                assert(j != 0);
                assert(ta[j - 1] == x);
            }
        }
        assert forall|i: int, j: int| 0 <= i < j < ta.len() implies lex_lt(#[trigger] ta[i], #[trigger] ta[j]) by {
            assert(lex_lt(a[i + 1], a[j + 1]));
        }
        assert forall|i: int, j: int| 0 <= i < j < tb.len() implies lex_lt(#[trigger] tb[i], #[trigger] tb[j]) by {
            assert(lex_lt(b[i + 1], b[j + 1]));
        }
        lemma_strictly_sorted_same_texts(ta, tb);
        assert(a =~= seq![a[0]] + ta);
        assert(b =~= seq![b[0]] + tb);
    }
}

/// Keeping some of a strictly sorted list keeps it strictly sorted.
pub proof fn lemma_filter_strictly_sorted(s: Seq<Seq<char>>, p: spec_fn(Seq<char>) -> bool)
    requires
        strictly_sorted(s),
    ensures
        strictly_sorted(s.filter(p)),
        forall|x: Seq<char>| s.filter(p).contains(x) ==> s.contains(x),
    decreases s.len(),
{
    reveal(Seq::filter);
    if s.len() > 0 {
        let d = s.drop_last();
        assert forall|i: int, j: int| 0 <= i < j < d.len() implies lex_lt(#[trigger] d[i], #[trigger] d[j]) by {
            assert(lex_lt(s[i], s[j]));
        }
        lemma_filter_strictly_sorted(d, p);
        let f = d.filter(p);
        if p(s.last()) {
            let g = f.push(s.last());
            assert forall|i: int, j: int| 0 <= i < j < g.len() implies lex_lt(#[trigger] g[i], #[trigger] g[j]) by {
                if j == g.len() - 1 {
                    assert(g[i] == f[i]);
                    assert(f.contains(f[i]));
                    assert(d.contains(g[i]));
                    let m = choose|m: int| 0 <= m < d.len() && d[m] == g[i];
                    assert(lex_lt(s[m], s[s.len() - 1]));
                } else {
                    assert(lex_lt(f[i], f[j]));
                }
            }
            assert forall|x: Seq<char>| g.contains(x) implies s.contains(x) by {
                let i = choose|i: int| 0 <= i < g.len() && g[i] == x;
                if i < f.len() {
                    assert(g[i] == f[i]);
                    assert(f.contains(x));
                    assert(d.contains(x));
                    let m = choose|m: int| 0 <= m < d.len() && d[m] == x;
                    assert(s[m] == x);
                } else {
                    assert(s[s.len() - 1] == x);
                }
            }
        } else {
            assert forall|x: Seq<char>| f.contains(x) implies s.contains(x) by {
                assert(d.contains(x));
                let m = choose|m: int| 0 <= m < d.len() && d[m] == x;
                assert(s[m] == x);
            }
        }
    }
}

/// What is saved for an asset type is what that type starts with next time: saving the
/// current filters (kept sorted, without empty entries, as the window keeps them) under
/// the type's label, then starting with that type selected alone, gives back exactly the
/// saved filters.
pub proof fn law_saved_filters_come_back(
    filters: Seq<Seq<char>>,
    list: Option<crate::notion::AssetList>,
    t: AssetType,
    saved: Seq<(String, Vec<String>)>,
    restored: Seq<Seq<char>>,
)
    requires
        strictly_sorted(filters),
        forall|i: int| 0 <= i < filters.len() ==> (#[trigger] filters[i]).len() > 0,
        saved.len() == 1,
        saved[0].0@ == asset_type_label(t),
        texts(saved[0].1@) == kept_for_type(filters, list),
        strictly_sorted(restored),
        forall|x: Seq<char>|
            restored.contains(x) <==> (x.len() > 0 && saved_for_types(saved, seq![t]).contains(x)),
    ensures
        restored == kept_for_type(filters, list),
{
    let k = kept_for_type(filters, list);
    assert(seq![t].drop_last() =~= Seq::<AssetType>::empty());
    assert(seq![t].last() == t);
    reveal_with_fuel(saved_for_types, 2);
    assert(saved_for_types(saved, seq![t]) =~= saved_for(saved, asset_type_label(t)));
    reveal_with_fuel(saved_for, 2);
    assert(saved_for(saved, asset_type_label(t)) == texts(saved[0].1@));
    match list {
        Some(l) => {
            if filters.len() > 0 {
                lemma_filter_strictly_sorted(filters, credited_in(sources_of(l.assets@)));
            }
        },
        None => {},
    }
    assert(strictly_sorted(k));
    assert forall|x: Seq<char>| k.contains(x) implies x.len() > 0 by {
        assert(filters.contains(x));
        let i = choose|i: int| 0 <= i < filters.len() && filters[i] == x;
        assert(filters[i].len() > 0);
    }
    lemma_strictly_sorted_same_texts(restored, k);
}

} // verus!
