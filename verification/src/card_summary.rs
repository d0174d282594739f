//! The summary of a scanned card: how many files of each format it holds, and which
//! cameras took them.
use vstd::prelude::*;
use crate::exif::Header;
use crate::ingest::extension_of_spec;
use crate::scan::IngestFile;
use crate::text::{chars_of, lex_less, lex_lt, seq_eq, string_of, upper_seq, upper_vec, views};

verus! {

/// The format a file is counted under: its extension, upper-cased.
pub open spec fn format_of(f: IngestFile) -> Seq<char> {
    upper_seq(extension_of_spec(f.rel_path@))
}

/// How many of `files` are of format `e`.
pub open spec fn count_format(files: Seq<IngestFile>, e: Seq<char>) -> nat
    decreases files.len(),
{
    if files.len() == 0 {
        0
    } else {
        count_format(files.drop_last(), e) + if format_of(files.last()) == e {
            1nat
        } else {
            0nat
        }
    }
}

/// The order of the summary: the commoner format first, then alphabetically.
pub open spec fn before(a: (Seq<char>, nat), b: (Seq<char>, nat)) -> bool {
    a.1 > b.1 || (a.1 == b.1 && lex_lt(a.0, b.0))
}

pub open spec fn counts_view(v: Seq<(String, usize)>) -> Seq<(Seq<char>, nat)> {
    v.map_values(|p: (String, usize)| (p.0@, p.1 as nat))
}

pub open spec fn pairs_view(v: Seq<(Vec<char>, usize)>) -> Seq<(Seq<char>, nat)> {
    v.map_values(|p: (Vec<char>, usize)| (p.0@, p.1 as nat))
}

/// Every entry of `r` counts a format of `files`, every format of `files` has an entry,
/// and no format has two.
pub open spec fn counts_all_formats(files: Seq<IngestFile>, r: Seq<(Seq<char>, nat)>) -> bool {
    &&& forall|i: int| 0 <= i < r.len() ==> (#[trigger] r[i]).1 == count_format(files, r[i].0) && r[i].1 > 0
    &&& forall|k: int| 0 <= k < files.len() ==> #[trigger] has_format(r, format_of(files[k]))
    &&& forall|i: int, j: int| 0 <= i < j < r.len() ==> (#[trigger] r[i]).0 != (#[trigger] r[j]).0
}

/// Whether some entry of `r` counts format `e`.
pub open spec fn has_format(r: Seq<(Seq<char>, nat)>, e: Seq<char>) -> bool {
    exists|i: int| 0 <= i < r.len() && (#[trigger] r[i]).0 == e
}

pub open spec fn in_summary_order(r: Seq<(Seq<char>, nat)>) -> bool {
    forall|i: int, j: int| 0 <= i < j < r.len() ==> before(#[trigger] r[i], #[trigger] r[j])
}

proof fn lemma_count_prefix(files: Seq<IngestFile>, i: int, e: Seq<char>)
    requires
        0 <= i < files.len(),
    ensures
        count_format(files.take(i + 1), e) == count_format(files.take(i), e) + if format_of(files[i]) == e {
            1nat
        } else {
            0nat
        },
{
    assert(files.take(i + 1).drop_last() =~= files.take(i));
}

/// Counts the formats of `files`, one entry per format, in no particular order.
fn tally(files: &[IngestFile]) -> (r: Vec<(Vec<char>, usize)>)
    ensures
        counts_all_formats(files@, pairs_view(r@)),
{
    let mut out: Vec<(Vec<char>, usize)> = Vec::new();
    let mut i: usize = 0;
    while i < files.len()
        invariant
            i <= files@.len(),
            out@.len() <= i,
            counts_all_formats(files@.take(i as int), pairs_view(out@)),
            forall|e: Seq<char>|
                count_format(files@.take(i as int), e) > 0 ==> exists|m: int|
                    0 <= m < out@.len() && (#[trigger] pairs_view(out@)[m]).0 == e,
        decreases files@.len() - i,
    {
        let ghost before = pairs_view(out@);
        let ghost pre = files@.take(i as int);
        let ghost post = files@.take(i + 1);
        let ext = crate::ingest::extension_of(files[i].rel_path.as_str());
        let ec = chars_of(ext.as_str());
        let key = upper_vec(&ec);
        let ghost kv = key@;
        assert(kv == format_of(files@[i as int]));
        proof {
            assert forall|e: Seq<char>| #[trigger] count_format(post, e) == count_format(pre, e) + if format_of(files@[i as int]) == e {
                1nat
            } else {
                0nat
            } by {
                lemma_count_prefix(files@, i as int, e);
            }
        }
        let mut j: usize = 0;
        while j < out.len() && !seq_eq(&out[j].0, &key)
            invariant
                j <= out@.len(),
                forall|m: int| 0 <= m < j ==> (#[trigger] out@[m]).0@ != key@,
            decreases out@.len() - j,
        {
            j += 1;
        }
        if j < out.len() {
            assert(out@[j as int].0@ == kv);
            assert(count_format(pre, kv) < i + 1) by {
                lemma_count_bound(pre, kv);
            }
            let c = out[j].1;
            assert(before[j as int] == (out@[j as int].0@, c as nat));
            assert(c == count_format(pre, kv));
            let k2 = crate::ingest::slice_to(&out[j].0, out[j].0.len());
            assert(k2@ =~= kv);
            let pair = (k2, c + 1);
            out.set(j, pair);
            proof {
                let after = pairs_view(out@);
                assert(after =~= before.update(j as int, (kv, (c + 1) as nat)));
                assert forall|m: int| 0 <= m < after.len() implies (#[trigger] after[m]).1 == count_format(post, after[m].0) && after[m].1 > 0 by {
                    if m != j {
                        assert(after[m] == before[m]);
                        assert(before[m].0 != kv);
                    }
                }
                assert forall|k: int| 0 <= k < post.len() implies #[trigger] has_format(after, format_of(post[k])) by {
                    if k < i {
                        assert(post[k] == pre[k]);
                        assert(has_format(before, format_of(pre[k])));
                        let m = choose|m: int| 0 <= m < before.len() && (#[trigger] before[m]).0 == format_of(pre[k]);
                        assert(after[m].0 == before[m].0);
                    } else {
                        assert(after[j as int].0 == kv);
                    }
                }
                assert forall|e: Seq<char>| count_format(post, e) > 0 implies exists|m: int| 0 <= m < after.len() && (#[trigger] after[m]).0 == e by {
                    if count_format(pre, e) > 0 {
                        let m = choose|m: int| 0 <= m < before.len() && (#[trigger] before[m]).0 == e;
                        assert(after[m].0 == before[m].0);
                    } else {
                        assert(e == kv);
                        assert(after[j as int].0 == kv);
                    }
                }
            }
        } else {
            proof {
                assert(count_format(pre, kv) == 0) by {
                    if count_format(pre, kv) > 0 {
                        let m = choose|m: int| 0 <= m < before.len() && (#[trigger] before[m]).0 == kv;
                        assert(out@[m].0@ == kv);
                    }
                }
            }
            out.push((key, 1));
            proof {
                let after = pairs_view(out@);
                assert(after =~= before.push((kv, 1nat)));
                assert forall|m: int| 0 <= m < after.len() implies (#[trigger] after[m]).1 == count_format(post, after[m].0) && after[m].1 > 0 by {
                    if m < before.len() {
                        assert(after[m] == before[m]);
                        assert(before[m].0 != kv);
                    }
                }
                assert forall|k: int| 0 <= k < post.len() implies #[trigger] has_format(after, format_of(post[k])) by {
                    if k < i {
                        assert(post[k] == pre[k]);
                        assert(has_format(before, format_of(pre[k])));
                        let m = choose|m: int| 0 <= m < before.len() && (#[trigger] before[m]).0 == format_of(pre[k]);
                        assert(after[m].0 == before[m].0);
                    } else {
                        assert(after[before.len() as int].0 == kv);
                    }
                }
                assert forall|e: Seq<char>| count_format(post, e) > 0 implies exists|m: int| 0 <= m < after.len() && (#[trigger] after[m]).0 == e by {
                    if count_format(pre, e) > 0 {
                        let m = choose|m: int| 0 <= m < before.len() && (#[trigger] before[m]).0 == e;
                        assert(after[m].0 == before[m].0);
                    } else {
                        assert(e == kv);
                        assert(after[before.len() as int].0 == kv);
                    }
                }
                assert forall|a: int, b: int| 0 <= a < b < after.len() implies (#[trigger] after[a]).0 != (#[trigger] after[b]).0 by {
                    if b == before.len() {
                        assert(after[a] == before[a]);
                    } else {
                        assert(after[a] == before[a] && after[b] == before[b]);
                    }
                }
            }
        }
        i += 1;
    }
    assert(files@.take(files@.len() as int) =~= files@);
    out
}

proof fn lemma_count_bound(files: Seq<IngestFile>, e: Seq<char>)
    ensures
        count_format(files, e) <= files.len(),
    decreases files.len(),
{
    if files.len() > 0 {
        lemma_count_bound(files.drop_last(), e);
    }
}

proof fn lemma_before_trans(a: (Seq<char>, nat), b: (Seq<char>, nat), c: (Seq<char>, nat))
    requires
        before(a, b),
        before(b, c),
    ensures
        before(a, c),
{
    crate::text::lemma_lex_transitive(a.0, b.0, c.0);
}

proof fn lemma_before_total(a: (Seq<char>, nat), b: (Seq<char>, nat))
    requires
        a.0 != b.0,
    ensures
        before(a, b) || before(b, a),
{
    crate::text::lemma_lex_total(a.0, b.0);
}

proof fn lemma_before_irreflexive(a: (Seq<char>, nat))
    ensures
        !before(a, a),
{
    crate::text::lemma_lex_irreflexive(a.0);
}

fn before_exec(a: &(Vec<char>, usize), b: &(Vec<char>, usize)) -> (r: bool)
    ensures
        r == before((a.0@, a.1 as nat), (b.0@, b.1 as nat)),
{
    a.1 > b.1 || (a.1 == b.1 && lex_less(&a.0, &b.0))
}

/// Counts the formats of `files`: one entry per format, the commonest first and formats
/// equally common in alphabetical order.
pub fn count_formats(files: &[IngestFile]) -> (r: Vec<(String, usize)>)
    ensures
        counts_all_formats(files@, counts_view(r@)),
        in_summary_order(counts_view(r@)),
{
    let t = tally(files);
    let ghost tv = pairs_view(t@);
    let mut out: Vec<(Vec<char>, usize)> = Vec::new();
    let mut k: usize = 0;
    while k < t.len()
        invariant
            k <= t@.len(),
            tv == pairs_view(t@),
            counts_all_formats(files@, tv),
            in_summary_order(pairs_view(out@)),
            forall|q: (Seq<char>, nat)| #[trigger] pairs_view(out@).contains(q) <==> tv.take(k as int).contains(q),
        decreases t@.len() - k,
    {
        let ghost cur = pairs_view(out@);
        let ghost x = tv[k as int];
        assert(x == (t@[k as int].0@, t@[k as int].1 as nat));
        proof {
            assert forall|m: int| 0 <= m < cur.len() implies (#[trigger] cur[m]).0 != x.0 by {
                assert(cur.contains(cur[m]));
                assert(tv.take(k as int).contains(cur[m]));
                let i = choose|i: int| 0 <= i < tv.take(k as int).len() && tv.take(k as int)[i] == cur[m];
                assert(tv[i] == cur[m]);
            }
        }
        let mut j: usize = 0;
        while j < out.len() && !before_exec(&t[k], &out[j])
            invariant
                j <= out@.len(),
                k < t@.len(),
                cur == pairs_view(out@),
                x == (t@[k as int].0@, t@[k as int].1 as nat),
                forall|m: int| 0 <= m < j ==> !before(x, #[trigger] cur[m]),
            decreases out@.len() - j,
        {
            assert(cur[j as int] == (out@[j as int].0@, out@[j as int].1 as nat));
            j += 1;
        }
        proof {
            if j < out.len() {
                assert(cur[j as int] == (out@[j as int].0@, out@[j as int].1 as nat));
            }
        }
        let key = crate::ingest::slice_to(&t[k].0, t[k].0.len());
        assert(key@ =~= x.0);
        out.insert(j, (key, t[k].1));
        proof {
            let after = pairs_view(out@);
            assert(after =~= cur.insert(j as int, x));
            assert forall|a: int, b: int| 0 <= a < b < after.len() implies before(#[trigger] after[a], #[trigger] after[b]) by {
                if b < j {
                    assert(after[a] == cur[a] && after[b] == cur[b]);
                } else if b == j {
                    assert(after[a] == cur[a] && after[b] == x);
                    assert(!before(x, cur[a]));
                    lemma_before_total(x, cur[a]);
                } else if a < j {
                    assert(after[a] == cur[a] && after[b] == cur[b - 1]);
                } else if a == j {
                    assert(after[a] == x && after[b] == cur[b - 1]);
                    if b - 1 > j {
                        lemma_before_trans(x, cur[j as int], cur[b - 1]);
                    }
                } else {
                    assert(after[a] == cur[a - 1] && after[b] == cur[b - 1]);
                }
            }
            let pre = tv.take(k as int);
            let post = tv.take(k + 1);
            assert(post =~= pre.push(x));
            assert forall|q: (Seq<char>, nat)| #[trigger] after.contains(q) <==> post.contains(q) by {
                if after.contains(q) {
                    let m = choose|m: int| 0 <= m < after.len() && after[m] == q;
                    if m < j {
                        assert(cur[m] == q);
                        assert(cur.contains(q));
                    } else if m > j {
                        assert(cur[m - 1] == q);
                        assert(cur.contains(q));
                    }
                    if q != x {
                        assert(pre.contains(q));
                        let i = choose|i: int| 0 <= i < pre.len() && pre[i] == q;
                        assert(post[i] == q);
                    } else {
                        assert(post[k as int] == q);
                    }
                }
                if post.contains(q) {
                    let i = choose|i: int| 0 <= i < post.len() && post[i] == q;
                    if i < k {
                        assert(pre[i] == q);
                        assert(pre.contains(q));
                        assert(cur.contains(q));
                        let m = choose|m: int| 0 <= m < cur.len() && cur[m] == q;
                        if m < j {
                            assert(after[m] == q);
                        } else {
                            assert(after[m + 1] == q);
                        }
                    } else {
                        assert(after[j as int] == q);
                    }
                }
            }
        }
        k += 1;
    }
    let mut r: Vec<(String, usize)> = Vec::new();
    let mut m: usize = 0;
    while m < out.len()
        invariant
            m <= out@.len(),
            r@.len() == m,
            counts_view(r@) == pairs_view(out@).take(m as int),
        decreases out@.len() - m,
    {
        let s = string_of(&out[m].0);
        r.push((s, out[m].1));
        assert(counts_view(r@)[m as int] == pairs_view(out@)[m as int]);
        m += 1;
        assert(counts_view(r@) =~= pairs_view(out@).take(m as int));
    }
    proof {
        let ov = pairs_view(out@);
        assert(ov.take(out@.len() as int) =~= ov);
        assert(tv.take(t@.len() as int) =~= tv);
        assert forall|q: (Seq<char>, nat)| #[trigger] ov.contains(q) <==> tv.contains(q) by {
            assert(ov.contains(q) <==> tv.take(k as int).contains(q));
        }
        assert forall|i: int| 0 <= i < ov.len() implies (#[trigger] ov[i]).1 == count_format(files@, ov[i].0) && ov[i].1 > 0 by {
            assert(ov.contains(ov[i]));
            assert(tv.contains(ov[i]));
            let a = choose|a: int| 0 <= a < tv.len() && tv[a] == ov[i];
        }
        assert forall|f: int| 0 <= f < files@.len() implies #[trigger] has_format(ov, format_of(files@[f])) by {
            assert(has_format(tv, format_of(files@[f])));
            let a = choose|a: int| 0 <= a < tv.len() && (#[trigger] tv[a]).0 == format_of(files@[f]);
            assert(tv.contains(tv[a]));
            assert(ov.contains(tv[a]));
            let i = choose|i: int| 0 <= i < ov.len() && ov[i] == tv[a];
            assert(ov[i].0 == format_of(files@[f]));
        }
        assert forall|a: int, b: int| 0 <= a < b < ov.len() implies (#[trigger] ov[a]).0 != (#[trigger] ov[b]).0 by {
            assert(before(ov[a], ov[b]));
            if ov[a].0 == ov[b].0 {
                assert(ov.contains(ov[a]) && ov.contains(ov[b]));
                assert(tv.contains(ov[a]) && tv.contains(ov[b]));
                let ia = choose|i: int| 0 <= i < tv.len() && tv[i] == ov[a];
                let ib = choose|i: int| 0 <= i < tv.len() && tv[i] == ov[b];
                if ia != ib {
                    if ia < ib {
                        assert(tv[ia].0 != tv[ib].0);
                    } else {
                        assert(tv[ib].0 != tv[ia].0);
                    }
                }
                lemma_before_irreflexive(ov[a]);
            }
        }
        assert(counts_view(r@) == ov);
        assert(counts_all_formats(files@, ov));
    }
    r
}

pub open spec fn cameras_of(headers: Seq<Header>) -> Seq<Seq<char>>
    decreases headers.len(),
{
    if headers.len() == 0 {
        Seq::empty()
    } else {
        let prev = cameras_of(headers.drop_last());
        match crate::exif::camera_of(headers.last()@) {
            Some(c) => if prev.contains(c) {
                prev
            } else {
                prev.push(c)
            },
            None => prev,
        }
    }
}

/// The cameras the headers of a card's sample files name, each once, in the order first
/// named.
pub fn detect_cameras(headers: &[Header]) -> (r: Vec<String>)
    ensures
        views_of(r@) == cameras_of(headers@),
{
    let mut out: Vec<Vec<char>> = Vec::new();
    let mut i: usize = 0;
    while i < headers.len()
        invariant
            i <= headers@.len(),
            views(out@) == cameras_of(headers@.take(i as int)),
        decreases headers@.len() - i,
    {
        assert(headers@.take(i + 1).drop_last() =~= headers@.take(i as int));
        assert(headers@.take(i + 1).last() == headers@[i as int]);
        let cam = headers[i].camera();
        assert(match crate::exif::camera_of(headers@[i as int]@) {
            Some(t) => cam is Some && cam->0@ == t,
            None => cam is None,
        });
        match cam {
            Some(c) => {
                let cv = chars_of(c.as_str());
                let mut found = false;
                let mut k: usize = 0;
                while k < out.len()
                    invariant
                        k <= out@.len(),
                        found == exists|m: int| 0 <= m < k && (#[trigger] out@[m])@ == cv@,
                    decreases out@.len() - k,
                {
                    if seq_eq(&out[k], &cv) {
                        found = true;
                    }
                    k += 1;
                }
                proof {
                    let v = views(out@);
                    if found {
                        let m = choose|m: int| 0 <= m < out@.len() && (#[trigger] out@[m])@ == cv@;
                        assert(v[m] == cv@);
                    }
                    if v.contains(cv@) {
                        let m = choose|m: int| 0 <= m < v.len() && v[m] == cv@;
                        assert(out@[m]@ == cv@);
                    }
                }
                if !found {
                    let ghost before = views(out@);
                    out.push(cv);
                    assert(views(out@) =~= before.push(c@));
                }
            },
            None => {},
        }
        i += 1;
    }
    assert(headers@.take(headers@.len() as int) =~= headers@);
    let mut r: Vec<String> = Vec::new();
    let mut m: usize = 0;
    while m < out.len()
        invariant
            m <= out@.len(),
            r@.len() == m,
            views_of(r@) == views(out@).take(m as int),
        decreases out@.len() - m,
    {
        r.push(string_of(&out[m]));
        assert(views_of(r@)[m as int] == views(out@)[m as int]);
        m += 1;
        assert(views_of(r@) =~= views(out@).take(m as int));
    }
    assert(views(out@).take(out@.len() as int) =~= views(out@));
    r
}

pub open spec fn views_of(v: Seq<String>) -> Seq<Seq<char>> {
    v.map_values(|s: String| s@)
}

} // verus!
