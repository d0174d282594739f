//! The status-group selector: which workflow groups the table shows.
use vstd::prelude::*;
use crate::notion::StatusGroup;

verus! {

pub open spec fn is_group(g: StatusGroup) -> spec_fn(StatusGroup) -> bool {
    |x: StatusGroup| x == g
}

pub open spec fn not_group(g: StatusGroup) -> spec_fn(StatusGroup) -> bool {
    |x: StatusGroup| x != g
}

/// The entries of `s` equal to `g`, in order.
pub open spec fn only(s: Seq<StatusGroup>, g: StatusGroup) -> Seq<StatusGroup> {
    s.filter(is_group(g))
}

/// The entries of `s` other than `g`, in order.
pub open spec fn without(s: Seq<StatusGroup>, g: StatusGroup) -> Seq<StatusGroup> {
    s.filter(not_group(g))
}

/// `s` in display order: a stable sort by `StatusGroup::order`, which is one-to-one, so
/// it puts the to-do entries first, then those in progress, then the complete ones.
pub open spec fn in_display_order(s: Seq<StatusGroup>) -> Seq<StatusGroup> {
    only(s, StatusGroup::ToDo) + only(s, StatusGroup::InProgress) + only(s, StatusGroup::Complete)
}

/// A click on a status-group button. A plain click selects only that group; a
/// shift-click toggles it, keeping at least one group selected and the selection in
/// display order.
pub open spec fn select_spec(selected: Seq<StatusGroup>, clicked: StatusGroup, additive: bool) -> Seq<StatusGroup> {
    if !additive {
        seq![clicked]
    } else if selected.contains(clicked) {
        if without(selected, clicked).len() == 0 {
            seq![clicked]
        } else {
            without(selected, clicked)
        }
    } else {
        in_display_order(selected.push(clicked))
    }
}

fn keep_only(v: &Vec<StatusGroup>, g: StatusGroup) -> (r: Vec<StatusGroup>)
    ensures
        r@ == only(v@, g),
{
    let ghost pred = is_group(g);
    let mut out: Vec<StatusGroup> = Vec::new();
    let mut i: usize = 0;
    while i < v.len()
        invariant
            i <= v.len(),
            pred == is_group(g),
            out@ == v@.take(i as int).filter(pred),
        decreases v.len() - i,
    {
        proof {
            assert(v@.take(i + 1) =~= v@.take(i as int).push(v@[i as int]));
            v@.take(i as int).lemma_filter_push(v@[i as int], pred);
        }
        if v[i] == g {
            out.push(v[i]);
        }
        i += 1;
    }
    assert(v@.take(v.len() as int) =~= v@);
    out
}

fn drop_all(v: &Vec<StatusGroup>, g: StatusGroup) -> (r: Vec<StatusGroup>)
    ensures
        r@ == without(v@, g),
{
    let ghost pred = not_group(g);
    let mut out: Vec<StatusGroup> = Vec::new();
    let mut i: usize = 0;
    while i < v.len()
        invariant
            i <= v.len(),
            pred == not_group(g),
            out@ == v@.take(i as int).filter(pred),
        decreases v.len() - i,
    {
        proof {
            assert(v@.take(i + 1) =~= v@.take(i as int).push(v@[i as int]));
            v@.take(i as int).lemma_filter_push(v@[i as int], pred);
        }
        if v[i] != g {
            out.push(v[i]);
        }
        i += 1;
    }
    assert(v@.take(v.len() as int) =~= v@);
    out
}

fn contains_group(v: &Vec<StatusGroup>, g: StatusGroup) -> (r: bool)
    ensures
        r == v@.contains(g),
{
    let mut i: usize = 0;
    while i < v.len()
        invariant
            i <= v.len(),
            forall|k: int| 0 <= k < i ==> v@[k] != g,
        decreases v.len() - i,
    {
        if v[i] == g {
            assert(v@[i as int] == g);
            return true;
        }
        i += 1;
    }
    false
}

proof fn lemma_display_order_nonempty(s: Seq<StatusGroup>, g: StatusGroup)
    requires
        s.contains(g),
    ensures
        in_display_order(s).len() >= 1,
{
    let i = choose|i: int| 0 <= i < s.len() && s[i] == g;
    s.lemma_filter_contains(is_group(g), i);
}

pub fn select(selected: Vec<StatusGroup>, clicked: StatusGroup, additive: bool) -> (r: Vec<StatusGroup>)
    ensures
        r@ == select_spec(selected@, clicked, additive),
        r@.len() >= 1,
{
    let mut one: Vec<StatusGroup> = Vec::new();
    one.push(clicked);
    if !additive {
        return one;
    }
    if contains_group(&selected, clicked) {
        let rest = drop_all(&selected, clicked);
        if rest.len() == 0 {
            one
        } else {
            rest
        }
    } else {
        let mut all = selected;
        all.push(clicked);
        let mut out = keep_only(&all, StatusGroup::ToDo);
        let mut mid = keep_only(&all, StatusGroup::InProgress);
        let mut last = keep_only(&all, StatusGroup::Complete);
        out.append(&mut mid);
        out.append(&mut last);
        proof {
            assert(all@[all@.len() - 1] == clicked);
            lemma_display_order_nonempty(all@, clicked);
        }
        out
    }
}

/// Filtering a sequence whose entries all pass leaves it as it is.
proof fn lemma_filter_keeps_all(s: Seq<StatusGroup>, p: spec_fn(StatusGroup) -> bool)
    requires
        forall|i: int| 0 <= i < s.len() ==> p(#[trigger] s[i]),
    ensures
        s.filter(p) == s,
    decreases s.len(),
{
    reveal(Seq::filter);
    if s.len() > 0 {
        lemma_filter_keeps_all(s.drop_last(), p);
        assert(s.drop_last().push(s.last()) =~= s);
    }
}

/// Removing `c` from the entries equal to `g` of `s` pushed with `c` gives the entries
/// equal to `g` of `s`, when `s` does not hold `c`.
proof fn lemma_remove_pushed(s: Seq<StatusGroup>, c: StatusGroup, g: StatusGroup)
    requires
        !s.contains(c),
    ensures
        without(only(s.push(c), g), c) == only(s, g),
{
    s.lemma_filter_push(c, is_group(g));
    let o = only(s, g);
    assert forall|i: int| 0 <= i < o.len() implies (#[trigger] o[i]) != c by {
        s.lemma_filter_pred(is_group(g), i);
        if o[i] == c {
            s.lemma_filter_contains_rev(is_group(g), c);
            assert(o.contains(c));
        }
    }
    if g == c {
        o.lemma_filter_push(c, not_group(c));
    }
    lemma_filter_keeps_all(o, not_group(c));
    if g == c {
        assert(o.len() == 0) by {
            if o.len() > 0 {
                s.lemma_filter_pred(is_group(g), 0);
                assert(o[0] == g);
            }
        }
    }
}

proof fn lemma_pushed_in_display_order(selected: Seq<StatusGroup>, clicked: StatusGroup)
    ensures
        in_display_order(selected.push(clicked)).contains(clicked),
{
    let all = selected.push(clicked);
    let a = only(all, StatusGroup::ToDo);
    let b = only(all, StatusGroup::InProgress);
    let once = in_display_order(all);
    assert(all[all.len() - 1] == clicked);
    all.lemma_filter_contains(is_group(clicked), all.len() - 1);
    let o = only(all, clicked);
    let k = choose|k: int| 0 <= k < o.len() && o[k] == clicked;
    if clicked == StatusGroup::ToDo {
        assert(once[k] == clicked);
    } else if clicked == StatusGroup::InProgress {
        assert(once[a.len() + k] == clicked);
    } else {
        assert(once[a.len() + b.len() + k] == clicked);
    }
}

proof fn lemma_remove_from_display_order(selected: Seq<StatusGroup>, clicked: StatusGroup)
    requires
        !selected.contains(clicked),
    ensures
        without(in_display_order(selected.push(clicked)), clicked) == in_display_order(selected),
{
    let all = selected.push(clicked);
    let a = only(all, StatusGroup::ToDo);
    let b = only(all, StatusGroup::InProgress);
    let c = only(all, StatusGroup::Complete);
    Seq::filter_distributes_over_add(a + b, c, not_group(clicked));
    Seq::filter_distributes_over_add(a, b, not_group(clicked));
    lemma_remove_pushed(selected, clicked, StatusGroup::ToDo);
    lemma_remove_pushed(selected, clicked, StatusGroup::InProgress);
    lemma_remove_pushed(selected, clicked, StatusGroup::Complete);
}

/// A shift-click on a group that is not selected, then a second shift-click on it, gives
/// back the selection it started from, when that selection is not empty and in display
/// order.
pub proof fn law_shift_click_twice_restores(selected: Seq<StatusGroup>, clicked: StatusGroup)
    requires
        selected.len() >= 1,
        in_display_order(selected) == selected,
        !selected.contains(clicked),
    ensures
        select_spec(select_spec(selected, clicked, true), clicked, true) == selected,
{
    let once = in_display_order(selected.push(clicked));
    assert(select_spec(selected, clicked, true) == once);
    lemma_pushed_in_display_order(selected, clicked);
    lemma_remove_from_display_order(selected, clicked);
    assert(without(once, clicked) == selected);
}

} // verus!
