//! The asset-type selector: which libraries the table shows.
use vstd::prelude::*;
use crate::asset::{asset_type_from_label, asset_type_label, AssetType};
use crate::text::owned;

verus! {

/// The labels of `types`, in order.
pub fn labels(types: &[AssetType]) -> (r: Vec<String>)
    ensures
        r@.len() == types@.len(),
        forall|i: int| 0 <= i < types@.len() ==> #[trigger] r@[i]@ == asset_type_label(types@[i]),
{
    let mut out: Vec<String> = Vec::new();
    let mut i: usize = 0;
    while i < types.len()
        invariant
            i <= types.len(),
            out@.len() == i,
            forall|k: int| 0 <= k < i ==> #[trigger] out@[k]@ == asset_type_label(types@[k]),
        decreases types.len() - i,
    {
        out.push(owned(types[i].label()));
        i += 1;
    }
    out
}

/// The asset types named by `labels`, in order, skipping unknown labels.
pub open spec fn parsed_types(labels: Seq<Seq<char>>) -> Seq<AssetType>
    decreases labels.len(),
{
    if labels.len() == 0 {
        Seq::empty()
    } else {
        let prev = parsed_types(labels.drop_last());
        match asset_type_from_label(labels.last()) {
            Some(t) => prev.push(t),
            None => prev,
        }
    }
}

pub open spec fn label_views(labels: Seq<String>) -> Seq<Seq<char>> {
    labels.map_values(|s: String| s@)
}

/// The selection saved as `labels`; HDRIs alone when none of them names a type.
pub open spec fn from_labels_spec(labels: Seq<Seq<char>>) -> Seq<AssetType> {
    if parsed_types(labels).len() == 0 {
        seq![AssetType::Hdris]
    } else {
        parsed_types(labels)
    }
}

pub fn from_labels(labels: &[String]) -> (r: Vec<AssetType>)
    ensures
        r@ == from_labels_spec(label_views(labels@)),
        r@.len() >= 1,
{
    let mut out: Vec<AssetType> = Vec::new();
    let mut i: usize = 0;
    while i < labels.len()
        invariant
            i <= labels.len(),
            out@ == parsed_types(label_views(labels@).take(i as int)),
        decreases labels.len() - i,
    {
        assert(label_views(labels@).take(i + 1).drop_last() =~= label_views(labels@).take(i as int));
        match AssetType::from_label(labels[i].as_str()) {
            Some(t) => out.push(t),
            None => {},
        }
        i += 1;
    }
    assert(label_views(labels@).take(labels.len() as int) =~= label_views(labels@));
    if out.len() == 0 {
        let mut one: Vec<AssetType> = Vec::new();
        one.push(AssetType::Hdris);
        one
    } else {
        out
    }
}

/// The entries of `s` equal to `t`, in order.
pub open spec fn only(s: Seq<AssetType>, t: AssetType) -> Seq<AssetType> {
    s.filter(is_type(t))
}

pub open spec fn is_type(t: AssetType) -> spec_fn(AssetType) -> bool {
    |x: AssetType| x == t
}

pub open spec fn not_type(t: AssetType) -> spec_fn(AssetType) -> bool {
    |x: AssetType| x != t
}

/// The entries of `s` other than `t`, in order.
pub open spec fn without(s: Seq<AssetType>, t: AssetType) -> Seq<AssetType> {
    s.filter(not_type(t))
}

/// `s` in display order: a stable sort by `AssetType::order`, which is one-to-one, so it
/// puts every HDRIs entry first and every Textures entry after, each in its own order.
pub open spec fn in_display_order(s: Seq<AssetType>) -> Seq<AssetType> {
    only(s, AssetType::Hdris) + only(s, AssetType::Textures)
}

/// A click on a type button. A plain click selects only that type; a shift-click toggles
/// it, keeping at least one type selected and the selection in display order.
pub open spec fn select_spec(selected: Seq<AssetType>, clicked: AssetType, additive: bool) -> Seq<AssetType> {
    if !additive {
        seq![clicked]
    } else if selected.contains(clicked) {
        if without(selected, clicked).len() == 0 {
            seq![clicked]
        } else {
            without(selected, clicked)
        }
    } else {
        in_display_order(selected.push(clicked))
    }
}

fn keep_only(v: &Vec<AssetType>, t: AssetType) -> (r: Vec<AssetType>)
    ensures
        r@ == only(v@, t),
{
    let ghost pred = is_type(t);
    let mut out: Vec<AssetType> = Vec::new();
    let mut i: usize = 0;
    while i < v.len()
        invariant
            i <= v.len(),
            pred == is_type(t),
            out@ == v@.take(i as int).filter(pred),
        decreases v.len() - i,
    {
        proof {
            assert(v@.take(i + 1) =~= v@.take(i as int).push(v@[i as int]));
            v@.take(i as int).lemma_filter_push(v@[i as int], pred);
        }
        if v[i] == t {
            out.push(v[i]);
        }
        i += 1;
    }
    assert(v@.take(v.len() as int) =~= v@);
    out
}

fn drop_all(v: &Vec<AssetType>, t: AssetType) -> (r: Vec<AssetType>)
    ensures
        r@ == without(v@, t),
{
    let ghost pred = not_type(t);
    let mut out: Vec<AssetType> = Vec::new();
    let mut i: usize = 0;
    while i < v.len()
        invariant
            i <= v.len(),
            pred == not_type(t),
            out@ == v@.take(i as int).filter(pred),
        decreases v.len() - i,
    {
        proof {
            assert(v@.take(i + 1) =~= v@.take(i as int).push(v@[i as int]));
            v@.take(i as int).lemma_filter_push(v@[i as int], pred);
        }
        if v[i] != t {
            out.push(v[i]);
        }
        i += 1;
    }
    assert(v@.take(v.len() as int) =~= v@);
    out
}

fn contains_type(v: &Vec<AssetType>, t: AssetType) -> (r: bool)
    ensures
        r == v@.contains(t),
{
    let mut i: usize = 0;
    while i < v.len()
        invariant
            i <= v.len(),
            forall|k: int| 0 <= k < i ==> v@[k] != t,
        decreases v.len() - i,
    {
        if v[i] == t {
            assert(v@[i as int] == t);
            return true;
        }
        i += 1;
    }
    false
}

pub fn select(selected: Vec<AssetType>, clicked: AssetType, additive: bool) -> (r: Vec<AssetType>)
    ensures
        r@ == select_spec(selected@, clicked, additive),
        r@.len() >= 1,
{
    let mut one: Vec<AssetType> = Vec::new();
    one.push(clicked);
    if !additive {
        return one;
    }
    if contains_type(&selected, clicked) {
        let rest = drop_all(&selected, clicked);
        if rest.len() == 0 {
            one
        } else {
            rest
        }
    } else {
        let mut all = selected;
        all.push(clicked);
        let mut front = keep_only(&all, AssetType::Hdris);
        let mut back = keep_only(&all, AssetType::Textures);
        front.append(&mut back);
        proof {
            assert(all@[all@.len() - 1] == clicked);
            lemma_display_order_nonempty(all@, clicked);
        }
        front
    }
}

proof fn lemma_display_order_nonempty(s: Seq<AssetType>, t: AssetType)
    requires
        s.contains(t),
    ensures
        in_display_order(s).len() >= 1,
{
    let i = choose|i: int| 0 <= i < s.len() && s[i] == t;
    match t {
        AssetType::Hdris => {
            s.lemma_filter_contains(is_type(AssetType::Hdris), i);
        },
        AssetType::Textures => {
            s.lemma_filter_contains(is_type(AssetType::Textures), i);
        },
    }
}

proof fn lemma_filter_pair(a: AssetType, b: AssetType, p: spec_fn(AssetType) -> bool)
    ensures
        seq![a, b].filter(p) == (if p(a) {
            seq![a]
        } else {
            Seq::<AssetType>::empty()
        }) + (if p(b) {
            seq![b]
        } else {
            Seq::<AssetType>::empty()
        }),
{
    let e = Seq::<AssetType>::empty();
    assert(e.filter(p) =~= e) by {
        reveal(Seq::filter);
    }
    assert(seq![a] =~= e.push(a));
    assert(seq![a, b] =~= seq![a].push(b));
    e.lemma_filter_push(a, p);
    seq![a].lemma_filter_push(b, p);
    if p(a) {
        if p(b) {
            assert(seq![a, b].filter(p) =~= seq![a] + seq![b]);
        } else {
            assert(seq![a, b].filter(p) =~= seq![a] + e);
        }
    } else {
        if p(b) {
            assert(seq![a, b].filter(p) =~= e + seq![b]);
        } else {
            assert(seq![a, b].filter(p) =~= e + e);
        }
    }
}

proof fn lemma_single_other(selected: Seq<AssetType>, clicked: AssetType)
    requires
        selected.len() >= 1,
        selected.no_duplicates(),
        !selected.contains(clicked),
    ensures
        selected =~= seq![if clicked == AssetType::Hdris { AssetType::Textures } else { AssetType::Hdris }],
{
    assert(selected[0] != clicked);
    if selected.len() >= 2 {
        assert(selected[1] != clicked);
        assert(selected[0] != selected[1]);
    }
}

/// What a second shift-click on `clicked` does to the selection that holds both types.
proof fn lemma_remove_from_both(clicked: AssetType)
    ensures
        select_spec(seq![AssetType::Hdris, AssetType::Textures], clicked, true) =~= seq![
            if clicked == AssetType::Hdris { AssetType::Textures } else { AssetType::Hdris },
        ],
{
    let both = seq![AssetType::Hdris, AssetType::Textures];
    assert(both.contains(clicked)) by {
        if clicked == AssetType::Hdris {
            assert(both[0] == clicked);
        } else {
            assert(both[1] == clicked);
        }
    }
    lemma_filter_pair(AssetType::Hdris, AssetType::Textures, not_type(clicked));
}

/// What a shift-click on `clicked` does to the selection that holds only `other`.
proof fn lemma_add_to_single(clicked: AssetType, other: AssetType)
    requires
        other != clicked,
    ensures
        select_spec(seq![other], clicked, true) =~= seq![AssetType::Hdris, AssetType::Textures],
{
    let single = seq![other];
    let pair = seq![other, clicked];
    assert(!single.contains(clicked)) by {
        if single.contains(clicked) {
            let k = choose|k: int| 0 <= k < single.len() && single[k] == clicked;
            assert(k == 0);
        }
    }
    assert(single.push(clicked) =~= pair);
    assert(select_spec(single, clicked, true) == in_display_order(pair));
    lemma_display_order_of_pair(other, clicked);
}

proof fn lemma_display_order_of_pair(a: AssetType, b: AssetType)
    requires
        a != b,
    ensures
        in_display_order(seq![a, b]) =~= seq![AssetType::Hdris, AssetType::Textures],
{
    if a == AssetType::Hdris {
        lemma_filter_pair(AssetType::Hdris, AssetType::Textures, is_type(AssetType::Hdris));
        lemma_filter_pair(AssetType::Hdris, AssetType::Textures, is_type(AssetType::Textures));
    } else {
        lemma_filter_pair(AssetType::Textures, AssetType::Hdris, is_type(AssetType::Hdris));
        lemma_filter_pair(AssetType::Textures, AssetType::Hdris, is_type(AssetType::Textures));
    }
}

/// A shift-click on a type that is not selected, then a second shift-click on it, gives
/// back the selection it started from, when that selection is not empty and holds each
/// type at most once.
pub proof fn law_shift_click_twice_restores(selected: Seq<AssetType>, clicked: AssetType)
    requires
        selected.len() >= 1,
        selected.no_duplicates(),
        !selected.contains(clicked),
    ensures
        select_spec(select_spec(selected, clicked, true), clicked, true) == selected,
{
    lemma_single_other(selected, clicked);
    lemma_add_to_single(clicked, selected[0]);
    lemma_remove_from_both(clicked);
}

} // verus!
