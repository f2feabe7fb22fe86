//! Grouping of points by cluster label; noise points are dropped.
use std::collections::HashMap;

use vstd::prelude::*;

verus! {

/// Indices among the first `upto` points whose label is `c`, ascending.
pub open spec fn members_upto(labels: Seq<Option<usize>>, c: usize, upto: int) -> Seq<usize>
    decreases upto,
{
    if upto <= 0 {
        Seq::empty()
    } else if labels[upto - 1] == Some(c) {
        members_upto(labels, c, upto - 1).push((upto - 1) as usize)
    } else {
        members_upto(labels, c, upto - 1)
    }
}

/// Indices of all points labelled `c`, ascending.
pub open spec fn members(labels: Seq<Option<usize>>, c: usize) -> Seq<usize> {
    members_upto(labels, c, labels.len() as int)
}

/// Some point carries label `c`.
pub open spec fn is_cluster(labels: Seq<Option<usize>>, c: usize) -> bool {
    exists|i: int| 0 <= i < labels.len() && labels[i] == Some(c)
}

proof fn lemma_members_nonempty(labels: Seq<Option<usize>>, c: usize, i: int, upto: int)
    requires
        0 <= i < upto <= labels.len(),
        labels[i] == Some(c),
    ensures
        members_upto(labels, c, upto).len() > 0,
    decreases upto,
{
    if upto - 1 != i {
        lemma_members_nonempty(labels, c, i, upto - 1);
    }
}

proof fn lemma_members_upto_exact(labels: Seq<Option<usize>>, c: usize, upto: int, i: int)
    requires
        0 <= upto <= labels.len(),
        labels.len() <= usize::MAX,
        0 <= i < labels.len(),
    ensures
        members_upto(labels, c, upto).contains(i as usize) <==> (i < upto && labels[i] == Some(
            c,
        )),
        forall|t: int|
            0 <= t < members_upto(labels, c, upto).len() ==> #[trigger] members_upto(
                labels,
                c,
                upto,
            )[t] < upto,
    decreases upto,
{
    if upto > 0 {
        lemma_members_upto_exact(labels, c, upto - 1, i);
        let prev = members_upto(labels, c, upto - 1);
        if labels[upto - 1] == Some(c) {
            let cur = prev.push((upto - 1) as usize);
            if i == upto - 1 {
                assert(cur[cur.len() - 1] == i as usize);
            } else if cur.contains(i as usize) {
                let t = choose|t: int| 0 <= t < cur.len() && cur[t] == i as usize;
                if t < prev.len() {
                    assert(prev[t] == i as usize);
                }
            }
            if prev.contains(i as usize) {
                let t = choose|t: int| 0 <= t < prev.len() && prev[t] == i as usize;
                assert(cur[t] == i as usize);
            }
        }
    }
}

/// Grouping loses nothing but noise: point `i` is among the members of
/// cluster `c` exactly when its label is `c`, so a labelled point is in
/// exactly one group and a noise point in none.
pub proof fn lemma_members_exact(labels: Seq<Option<usize>>, c: usize, i: int)
    requires
        labels.len() <= usize::MAX,
        0 <= i < labels.len(),
    ensures
        members(labels, c).contains(i as usize) <==> labels[i] == Some(c),
{
    lemma_members_upto_exact(labels, c, labels.len() as int, i);
}

/// Groups point indices by cluster label: the map holds each cluster id that
/// some point carries, with the indices of its points in ascending order.
/// Points without a label (noise) are left out.
pub fn group_by_cluster(labels: &Vec<Option<usize>>) -> (r: HashMap<usize, Vec<usize>>)
    ensures
        forall|c: usize| #[trigger] r@.contains_key(c) <==> is_cluster(labels@, c),
        forall|c: usize| #[trigger] r@.contains_key(c) ==> r@[c]@ == members(labels@, c),
{
    broadcast use vstd::std_specs::hash::group_hash_axioms;

    let list = cluster_list(labels);
    let mut map: HashMap<usize, Vec<usize>> = HashMap::new();
    for t in 0..list.len()
        invariant
            forall|a: int, b: int| 0 <= a < b < list.len() ==> list@[a].0 != list@[b].0,
            forall|a: int| 0 <= a < list.len() ==> is_cluster(labels@, #[trigger] list@[a].0),
            forall|a: int|
                0 <= a < list.len() ==> (#[trigger] list@[a]).1@ == members(labels@, list@[a].0),
            forall|c: usize|
                #[trigger] map@.contains_key(c) <==> exists|a: int| 0 <= a < t && list@[a].0 == c,
            forall|c: usize| #[trigger] map@.contains_key(c) ==> map@[c]@ == members(labels@, c),
    {
        let (c, m) = &list[t];
        let copy = m.clone();
        assert(copy@ =~= m@);
        map.insert(*c, copy);
        assert forall|e: usize| #[trigger] map@.contains_key(e) <==> exists|a: int|
            0 <= a < t + 1 && list@[a].0 == e by {
            if map@.contains_key(e) && e != *c {
                assert(exists|a: int| 0 <= a < t && list@[a].0 == e);
            }
            if e == *c {
                assert(list@[t as int].0 == e);
            }
        }
    }
    assert forall|c: usize| #[trigger] map@.contains_key(c) <==> is_cluster(labels@, c) by {
        if is_cluster(labels@, c) {
            let i = choose|i: int| 0 <= i < labels.len() && labels@[i] == Some(c);
            assert(labels@[i] is Some);
            let a = choose|a: int| 0 <= a < list.len() && (#[trigger] list@[a]).0 == labels@[i]->0;
            assert(list@[a].0 == c);
        }
        if map@.contains_key(c) {
            let a = choose|a: int| 0 <= a < list.len() && list@[a].0 == c;
            assert(is_cluster(labels@, list@[a].0));
        }
    }
    map
}

/// Labels as a density clusterer reports them (a negative label marks
/// noise) turned into optional cluster ids.
pub fn labels_from_raw(raw: &Vec<i32>) -> (r: Vec<Option<usize>>)
    ensures
        r.len() == raw.len(),
        forall|i: int|
            0 <= i < raw.len() ==> #[trigger] r@[i] == if raw@[i] >= 0 {
                Some(raw@[i] as usize)
            } else {
                None
            },
{
    let mut r: Vec<Option<usize>> = Vec::new();
    for i in 0..raw.len()
        invariant
            r.len() == i,
            forall|t: int|
                0 <= t < i ==> #[trigger] r@[t] == if raw@[t] >= 0 {
                    Some(raw@[t] as usize)
                } else {
                    None
                },
    {
        if raw[i] >= 0 {
            r.push(Some(raw[i] as usize));
        } else {
            r.push(None);
        }
    }
    r
}

/// Indices of the points labelled `c`, ascending.
fn members_of(labels: &Vec<Option<usize>>, c: usize) -> (r: Vec<usize>)
    ensures
        r@ == members(labels@, c),
{
    let mut r: Vec<usize> = Vec::new();
    for i in 0..labels.len()
        invariant
            r@ == members_upto(labels@, c, i as int),
    {
        if labels[i] == Some(c) {
            r.push(i);
        }
    }
    r
}

/// Point indices by cluster label, as a list: one entry per cluster id
/// that some point carries, in order of first appearance.
fn cluster_list(labels: &Vec<Option<usize>>) -> (r: Vec<(usize, Vec<usize>)>)
    ensures
        forall|t: int, u: int| 0 <= t < u < r.len() ==> r@[t].0 != r@[u].0,
        forall|t: int| 0 <= t < r.len() ==> is_cluster(labels@, #[trigger] r@[t].0),
        forall|i: int|
            0 <= i < labels.len() && labels@[i] is Some ==> exists|t: int|
                0 <= t < r.len() && (#[trigger] r@[t]).0 == labels@[i]->0,
        forall|t: int|
            0 <= t < r.len() ==> (#[trigger] r@[t]).1@ == members(labels@, r@[t].0) && r@[t].1.len()
                > 0,
{
    let mut ids: Vec<usize> = Vec::new();
    for i in 0..labels.len()
        invariant
            forall|t: int, u: int| 0 <= t < u < ids.len() ==> ids@[t] != ids@[u],
            forall|t: int| 0 <= t < ids.len() ==> is_cluster(labels@, #[trigger] ids@[t]),
            forall|k: int|
                0 <= k < i && labels@[k] is Some ==> exists|t: int|
                    0 <= t < ids.len() && #[trigger] ids@[t] == labels@[k]->0,
    {
        let ghost before = ids@;
        if let Some(c) = labels[i] {
            let mut found = false;
            for t in 0..ids.len()
                invariant
                    found <==> exists|u: int| 0 <= u < t && ids@[u] == c,
            {
                if ids[t] == c {
                    found = true;
                }
            }
            if !found {
                ids.push(c);
                assert(ids@[ids.len() - 1] == labels@[i as int]->0);
            }
            assert forall|k: int|
                0 <= k < i + 1 && labels@[k] is Some implies exists|t: int|
                    0 <= t < ids.len() && #[trigger] ids@[t] == labels@[k]->0 by {
                if k < i {
                    let t = choose|t: int| 0 <= t < before.len() && #[trigger] before[t] == labels@[k]->0;
                    assert(ids@[t] == before[t]);
                } else if found {
                    let u = choose|u: int| 0 <= u < ids.len() && ids@[u] == c;
                    assert(ids@[u] == labels@[k]->0);
                } else {
                    assert(ids@[ids.len() - 1] == labels@[k]->0);
                }
            }
        }
    }
    let mut r: Vec<(usize, Vec<usize>)> = Vec::new();
    for t in 0..ids.len()
        invariant
            r.len() == t,
            forall|s: int| 0 <= s < t ==> (#[trigger] r@[s]).0 == ids@[s],
            forall|t: int| 0 <= t < ids.len() ==> is_cluster(labels@, #[trigger] ids@[t]),
            forall|s: int|
                0 <= s < t ==> (#[trigger] r@[s]).1@ == members(labels@, r@[s].0) && r@[s].1.len()
                    > 0,
    {
        let c = ids[t];
        let m = members_of(labels, c);
        proof {
            assert(is_cluster(labels@, c));
            let i = choose|i: int| 0 <= i < labels.len() && labels@[i] == Some(c);
            lemma_members_nonempty(labels@, c, i, labels.len() as int);
        }
        r.push((c, m));
    }
    assert forall|i: int| 0 <= i < labels.len() && labels@[i] is Some implies exists|t: int|
        0 <= t < r.len() && (#[trigger] r@[t]).0 == labels@[i]->0 by {
        let t = choose|t: int| 0 <= t < ids.len() && #[trigger] ids@[t] == labels@[i]->0;
        assert(r@[t].0 == ids@[t]);
    }
    r
}

/// The groups of the first `upto` that hold at least `min_size` members.
pub open spec fn kept_upto(groups: Seq<(usize, Seq<usize>)>, min_size: nat, upto: int) -> Seq<
    (usize, Seq<usize>),
>
    decreases upto,
{
    if upto <= 0 {
        Seq::empty()
    } else if groups[upto - 1].1.len() >= min_size {
        kept_upto(groups, min_size, upto - 1).push(groups[upto - 1])
    } else {
        kept_upto(groups, min_size, upto - 1)
    }
}

/// The members of the first `upto` groups that hold fewer than `min_size`,
/// in order.
pub open spec fn misc_upto(groups: Seq<(usize, Seq<usize>)>, min_size: nat, upto: int) -> Seq<usize>
    decreases upto,
{
    if upto <= 0 {
        Seq::empty()
    } else if groups[upto - 1].1.len() >= min_size {
        misc_upto(groups, min_size, upto - 1)
    } else {
        misc_upto(groups, min_size, upto - 1) + groups[upto - 1].1
    }
}

/// The groups as sequences.
pub open spec fn groups_view(groups: Seq<(usize, Vec<usize>)>) -> Seq<(usize, Seq<usize>)> {
    groups.map_values(|g: (usize, Vec<usize>)| (g.0, g.1@))
}

/// Splits groups into those with at least `min_size` members, which keep
/// their own label, and one catch-all list with the members of the smaller
/// ones, in order.
pub fn split_small_groups(groups: &Vec<(usize, Vec<usize>)>, min_size: usize) -> (r: (
    Vec<(usize, Vec<usize>)>,
    Vec<usize>,
))
    ensures
        groups_view(r.0@) == kept_upto(groups_view(groups@), min_size as nat, groups.len() as int),
        r.1@ == misc_upto(groups_view(groups@), min_size as nat, groups.len() as int),
{
    let ghost gv = groups_view(groups@);
    let mut kept: Vec<(usize, Vec<usize>)> = Vec::new();
    let mut misc: Vec<usize> = Vec::new();
    for t in 0..groups.len()
        invariant
            gv == groups_view(groups@),
            groups_view(kept@) == kept_upto(gv, min_size as nat, t as int),
            misc@ == misc_upto(gv, min_size as nat, t as int),
    {
        let (id, members) = &groups[t];
        assert(gv[t as int] == (*id, members@));
        if members.len() >= min_size {
            let copy = members.clone();
            assert(copy@ =~= members@);
            let ghost before = kept@;
            kept.push((*id, copy));
            assert(groups_view(kept@) =~= groups_view(before).push(gv[t as int]));
        } else {
            let ghost before = misc@;
            for q in 0..members.len()
                invariant
                    misc@ == before + members@.take(q as int),
            {
                misc.push(members[q]);
                assert(members@.take(q + 1) =~= members@.take(q as int).push(members@[q as int]));
            }
            assert(members@.take(members.len() as int) =~= members@);
        }
    }
    (kept, misc)
}

} // verus!
