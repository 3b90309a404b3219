//! Grouping and ranking: sums a chosen counter per backing-object label,
//! computes the grand total, and orders the groups by descending summed
//! value with ties broken by ascending label.

use vstd::prelude::*;
use vstd::arithmetic::div_mod::*;
use crate::detail::{counter_value, DetailedMemoryRegion, DetailedRegionModel};
use crate::process::{regions_model, Process};
use crate::region::label_of_path;
use crate::text::{lemma_lex_total, lemma_lex_trans, lex_leq, str_eq, str_leq};

verus! {

/// Label under which a region is grouped.
pub open spec fn region_label(r: DetailedRegionModel) -> Seq<char> {
    label_of_path(r.region.path_name)
}

/// The mathematical shape of a group list.
pub open spec fn groups_model(v: Seq<(String, u64)>) -> Seq<(Seq<char>, u64)> {
    v.map_values(|p: (String, u64)| (p.0@, p.1))
}

/// A sum capped at the largest `u64` value.
pub open spec fn clamp(n: int) -> int {
    if n > u64::MAX as int {
        u64::MAX as int
    } else {
        n
    }
}

/// Sum of the named counter over the first `i` regions.
pub open spec fn sum_all(rs: Seq<DetailedRegionModel>, key: Seq<char>, i: int) -> int
    decreases i,
{
    if i <= 0 {
        0
    } else {
        sum_all(rs, key, i - 1) + counter_value(rs[i - 1].counters, key)
    }
}

/// Sum of the named counter over the first `i` regions that carry `label`.
pub open spec fn sum_label(
    rs: Seq<DetailedRegionModel>,
    key: Seq<char>,
    label: Seq<char>,
    i: int,
) -> int
    decreases i,
{
    if i <= 0 {
        0
    } else {
        sum_label(rs, key, label, i - 1) + if region_label(rs[i - 1]) == label {
            counter_value(rs[i - 1].counters, key) as int
        } else {
            0
        }
    }
}

/// Sum of the values of a group list.
pub open spec fn sum_pairs(g: Seq<(Seq<char>, u64)>) -> int
    decreases g.len(),
{
    if g.len() == 0 {
        0
    } else {
        sum_pairs(g.drop_last()) + g.last().1
    }
}

/// Some group carries the label.
pub open spec fn has_label(g: Seq<(Seq<char>, u64)>, l: Seq<char>) -> bool {
    exists|a: int| 0 <= a < g.len() && (#[trigger] g[a]).0 == l
}

/// Some region among the first `i` carries the label.
pub open spec fn label_used_to(rs: Seq<DetailedRegionModel>, l: Seq<char>, i: int) -> bool {
    exists|j: int| 0 <= j < i && region_label(#[trigger] rs[j]) == l
}

/// The grouping facts over the first `i` regions: labels are pairwise
/// distinct, each group's value is the clamped sum of its label's counters,
/// every region's label has a group, and every group's label has a region.
pub open spec fn groups_ok_to(
    g: Seq<(Seq<char>, u64)>,
    rs: Seq<DetailedRegionModel>,
    key: Seq<char>,
    i: int,
) -> bool {
    &&& forall|a: int, b: int|
        0 <= a < b < g.len() ==> (#[trigger] g[a]).0 != (#[trigger] g[b]).0
    &&& forall|a: int|
        0 <= a < g.len() ==> (#[trigger] g[a]).1 as int == clamp(sum_label(rs, key, g[a].0, i))
    &&& forall|j: int| 0 <= j < i ==> has_label(g, region_label(#[trigger] rs[j]))
    &&& forall|a: int| 0 <= a < g.len() ==> label_used_to(rs, (#[trigger] g[a]).0, i)
}

/// Ranking order: the larger summed value first, ties by ascending label.
pub open spec fn pair_le(a: (Seq<char>, u64), b: (Seq<char>, u64)) -> bool {
    a.1 > b.1 || (a.1 == b.1 && lex_leq(a.0, b.0))
}

pub open spec fn sorted_ranked(g: Seq<(Seq<char>, u64)>) -> bool {
    forall|x: int, y: int| 0 <= x < y < g.len() ==> pair_le(#[trigger] g[x], #[trigger] g[y])
}

/// Everything the ranked output promises: correct grouping over all the
/// regions, ranked order, and a grand total that regrouping preserves.
pub open spec fn ranked_ok(
    g: Seq<(Seq<char>, u64)>,
    rs: Seq<DetailedRegionModel>,
    key: Seq<char>,
) -> bool {
    &&& groups_ok_to(g, rs, key, rs.len() as int)
    &&& sorted_ranked(g)
    &&& sum_pairs(g) <= sum_all(rs, key, rs.len() as int)
    &&& clamp(sum_pairs(g)) == clamp(sum_all(rs, key, rs.len() as int))
}

/// Counter sums are non-negative and a label's share never exceeds the
/// whole.
proof fn lemma_sum_label_bounds(rs: Seq<DetailedRegionModel>, key: Seq<char>, l: Seq<char>, i: int)
    ensures
        0 <= sum_label(rs, key, l, i) <= sum_all(rs, key, i),
    decreases i,
{
    if i > 0 {
        lemma_sum_label_bounds(rs, key, l, i - 1);
    }
}

proof fn lemma_sum_pairs_nonneg(g: Seq<(Seq<char>, u64)>)
    ensures
        sum_pairs(g) >= 0,
    decreases g.len(),
{
    if g.len() > 0 {
        lemma_sum_pairs_nonneg(g.drop_last());
    }
}

proof fn lemma_element_le_sum_pairs(g: Seq<(Seq<char>, u64)>, a: int)
    requires
        0 <= a < g.len(),
    ensures
        g[a].1 as int <= sum_pairs(g),
    decreases g.len(),
{
    if a == g.len() - 1 {
        lemma_sum_pairs_nonneg(g.drop_last());
    } else {
        lemma_element_le_sum_pairs(g.drop_last(), a);
        assert(g.drop_last()[a] == g[a]);
    }
}

proof fn lemma_sum_pairs_concat(x: Seq<(Seq<char>, u64)>, y: Seq<(Seq<char>, u64)>)
    ensures
        sum_pairs(x + y) == sum_pairs(x) + sum_pairs(y),
    decreases y.len(),
{
    if y.len() == 0 {
        assert(x + y =~= x);
    } else {
        assert((x + y).drop_last() =~= x + y.drop_last());
        assert((x + y).last() == y.last());
        lemma_sum_pairs_concat(x, y.drop_last());
    }
}

proof fn lemma_sum_pairs_single(p: (Seq<char>, u64))
    ensures
        sum_pairs(seq![p]) == p.1,
{
    assert(seq![p].drop_last() =~= Seq::<(Seq<char>, u64)>::empty());
    assert(sum_pairs(Seq::<(Seq<char>, u64)>::empty()) == 0);
}

proof fn lemma_sum_pairs_update(g: Seq<(Seq<char>, u64)>, a: int, p: (Seq<char>, u64))
    requires
        0 <= a < g.len(),
    ensures
        sum_pairs(g.update(a, p)) == sum_pairs(g) - g[a].1 + p.1,
{
    assert(g =~= g.take(a) + seq![g[a]] + g.skip(a + 1));
    assert(g.update(a, p) =~= g.take(a) + seq![p] + g.skip(a + 1));
    lemma_sum_pairs_concat(g.take(a) + seq![g[a]], g.skip(a + 1));
    lemma_sum_pairs_concat(g.take(a), seq![g[a]]);
    lemma_sum_pairs_concat(g.take(a) + seq![p], g.skip(a + 1));
    lemma_sum_pairs_concat(g.take(a), seq![p]);
    lemma_sum_pairs_single(g[a]);
    lemma_sum_pairs_single(p);
}

proof fn lemma_sum_pairs_insert(g: Seq<(Seq<char>, u64)>, pos: int, p: (Seq<char>, u64))
    requires
        0 <= pos <= g.len(),
    ensures
        sum_pairs(g.insert(pos, p)) == sum_pairs(g) + p.1,
{
    assert(g =~= g.take(pos) + g.skip(pos));
    assert(g.insert(pos, p) =~= g.take(pos) + seq![p] + g.skip(pos));
    lemma_sum_pairs_concat(g.take(pos) + seq![p], g.skip(pos));
    lemma_sum_pairs_concat(g.take(pos), seq![p]);
    lemma_sum_pairs_concat(g.take(pos), g.skip(pos));
    lemma_sum_pairs_single(p);
}

/// A label never seen among the first `i` regions has zero share.
proof fn lemma_sum_label_zero(rs: Seq<DetailedRegionModel>, key: Seq<char>, l: Seq<char>, i: int)
    requires
        forall|j: int| 0 <= j < i ==> region_label(#[trigger] rs[j]) != l,
    ensures
        sum_label(rs, key, l, i) == 0,
    decreases i,
{
    if i > 0 {
        lemma_sum_label_zero(rs, key, l, i - 1);
    }
}

/// Inserting an element anywhere adds it to the sequence's multiset.
proof fn lemma_to_multiset_insert(g: Seq<(Seq<char>, u64)>, pos: int, p: (Seq<char>, u64))
    requires
        0 <= pos <= g.len(),
    ensures
        g.insert(pos, p).to_multiset() == g.to_multiset().insert(p),
{
    broadcast use vstd::seq_lib::group_to_multiset_ensures;
    broadcast use vstd::multiset::group_multiset_axioms;

    assert(g.insert(pos, p) =~= g.take(pos) + seq![p] + g.skip(pos));
    assert(g.push(p) =~= g.take(pos) + g.skip(pos) + seq![p]);
    assert(g =~= g.take(pos) + g.skip(pos));
    vstd::seq_lib::lemma_multiset_commutative(g.take(pos) + seq![p], g.skip(pos));
    vstd::seq_lib::lemma_multiset_commutative(g.take(pos), seq![p]);
    vstd::seq_lib::lemma_multiset_commutative(g.take(pos) + g.skip(pos), seq![p]);
    vstd::seq_lib::lemma_multiset_commutative(g.take(pos), g.skip(pos));
    assert(g.insert(pos, p).to_multiset() =~= g.push(p).to_multiset());
    assert(g.push(p).to_multiset() =~= g.to_multiset().insert(p));
}

/// Saturating addition: every counter accumulation uses it, so a sum that
/// cannot fit reports the largest value instead of failing.
pub fn sat_add(a: u64, b: u64) -> (r: u64)
    ensures
        r as int == clamp(a as int + b as int),
{
    if a > u64::MAX - b {
        u64::MAX
    } else {
        a + b
    }
}

/// First group carrying the label, if any.
fn find_label(g: &Vec<(String, u64)>, label: &str) -> (r: Option<usize>)
    ensures
        match r {
            Some(a) => a < g@.len() && groups_model(g@)[a as int].0 == label@,
            None => forall|x: int|
                0 <= x < g@.len() ==> (#[trigger] groups_model(g@)[x]).0 != label@,
        },
{
    let n = g.len();
    let mut a: usize = 0;
    while a < n
        invariant
            a <= n,
            n == g@.len(),
            forall|x: int| 0 <= x < a ==> (#[trigger] groups_model(g@)[x]).0 != label@,
        decreases n - a,
    {
        if str_eq(g[a].0.as_str(), label) {
            return Some(a);
        }
        a = a + 1;
    }
    None
}

/// The label under which one region is grouped.
fn region_label_exec(region: &DetailedMemoryRegion) -> (r: String)
    ensures
        r@ == region_label(region@),
{
    match &region.region.path_name {
        Some(p) => p.label(),
        None => String::from_str("[anonymous]"),
    }
}

/// Linear facts about one accumulation step that replaces a group value.
proof fn lemma_total_step_update(sp: int, sa: int, t: int, v: int)
    requires
        0 <= v,
        0 <= t,
        clamp(t) <= sp,
        sp <= sa,
        clamp(sp) == clamp(sa),
        t <= sa,
    ensures
        sp - clamp(t) + clamp(t + v) <= sa + v,
        clamp(sp - clamp(t) + clamp(t + v)) == clamp(sa + v),
{
}

/// Linear facts about one accumulation step that opens a new group.
proof fn lemma_total_step_push(sp: int, sa: int, v: int)
    requires
        0 <= v,
        0 <= sp,
        sp <= sa,
        clamp(sp) == clamp(sa),
    ensures
        sp + v <= sa + v,
        clamp(sp + v) == clamp(sa + v),
{
}

/// Groups the regions by label and sums the named counter per group, in
/// first-appearance order.
#[verifier::rlimit(60)]
fn accumulate_groups(regions: &Vec<DetailedMemoryRegion>, key: &str) -> (g: Vec<(String, u64)>)
    ensures
        ({
            let gm = groups_model(g@);
            let rs = regions_model(regions@);
            &&& groups_ok_to(gm, rs, key@, rs.len() as int)
            &&& sum_pairs(gm) <= sum_all(rs, key@, rs.len() as int)
            &&& clamp(sum_pairs(gm)) == clamp(sum_all(rs, key@, rs.len() as int))
        }),
{
    let ghost rs = regions_model(regions@);
    let mut g: Vec<(String, u64)> = Vec::new();
    let n = regions.len();
    let mut i: usize = 0;
    proof {
        assert(groups_model(g@) =~= Seq::<(Seq<char>, u64)>::empty());
    }
    while i < n
        invariant
            i <= n,
            n == regions.len(),
            rs == regions_model(regions@),
            rs.len() == n,
            groups_ok_to(groups_model(g@), rs, key@, i as int),
            sum_pairs(groups_model(g@)) <= sum_all(rs, key@, i as int),
            clamp(sum_pairs(groups_model(g@))) == clamp(sum_all(rs, key@, i as int)),
        decreases n - i,
    {
        let ghost gm = groups_model(g@);
        let ghost sp = sum_pairs(gm);
        let ghost sa = sum_all(rs, key@, i as int);
        proof {
            assert(rs[i as int] == regions@[i as int]@);
        }
        let region = &regions[i];
        let v = region.counter(key);
        let label = region_label_exec(region);
        let ghost lab = label@;
        match find_label(&g, label.as_str()) {
            Some(a) => {
                let ghost t = sum_label(rs, key@, lab, i as int);
                let cur = g[a].1;
                let w = sat_add(cur, v);
                let keep = g[a].0.clone();
                g[a] = (keep, w);
                proof {
                    assert(groups_model(g@) =~= gm.update(a as int, (lab, w)));
                    lemma_sum_pairs_update(gm, a as int, (lab, w));
                    lemma_element_le_sum_pairs(gm, a as int);
                    lemma_sum_label_bounds(rs, key@, lab, i as int);
                    lemma_total_step_update(sp, sa, t, v as int);
                    let gm2 = groups_model(g@);
                    assert forall|x: int| 0 <= x < gm2.len() implies (#[trigger] gm2[x]).1 as int
                        == clamp(sum_label(rs, key@, gm2[x].0, i as int + 1)) by {
                        if x == a {
                            assert(sum_label(rs, key@, lab, i as int + 1) == t + v);
                        } else {
                            assert(gm2[x] == gm[x]);
                            assert(gm[x].0 != lab);
                            assert(sum_label(rs, key@, gm2[x].0, i as int + 1) == sum_label(
                                rs,
                                key@,
                                gm2[x].0,
                                i as int,
                            ));
                        }
                    }
                    assert forall|j: int| 0 <= j < i as int + 1 implies has_label(
                        groups_model(g@),
                        region_label(rs[j]),
                    ) by {
                        let gm2 = groups_model(g@);
                        if j < i as int {
                            let b = choose|b: int|
                                0 <= b < gm.len() && (#[trigger] gm[b]).0 == region_label(rs[j]);
                            assert(gm2[b].0 == region_label(rs[j]));
                        } else {
                            assert(gm2[a as int].0 == region_label(rs[j]));
                        }
                    }
                    assert(sum_all(rs, key@, i as int + 1) == sa + v);
                }
            },
            None => {
                g.push((label, v));
                proof {
                    assert(groups_model(g@) =~= gm.push((lab, v)));
                    assert(gm.push((lab, v)).drop_last() =~= gm);
                    assert(forall|j: int|
                        0 <= j < i as int ==> region_label(#[trigger] rs[j]) != lab);
                    lemma_sum_label_zero(rs, key@, lab, i as int);
                    lemma_sum_pairs_nonneg(gm);
                    lemma_total_step_push(sp, sa, v as int);
                    let gm2 = groups_model(g@);
                    assert forall|x: int| 0 <= x < gm2.len() implies (#[trigger] gm2[x]).1 as int
                        == clamp(sum_label(rs, key@, gm2[x].0, i as int + 1)) by {
                        if x == gm.len() as int {
                            assert(sum_label(rs, key@, lab, i as int + 1) == 0 + v);
                        } else {
                            assert(gm2[x] == gm[x]);
                            assert(gm[x].0 != lab);
                            assert(sum_label(rs, key@, gm2[x].0, i as int + 1) == sum_label(
                                rs,
                                key@,
                                gm2[x].0,
                                i as int,
                            ));
                        }
                    }
                    assert forall|j: int| 0 <= j < i as int + 1 implies has_label(
                        groups_model(g@),
                        region_label(rs[j]),
                    ) by {
                        let gm2 = groups_model(g@);
                        if j < i as int {
                            let b = choose|b: int|
                                0 <= b < gm.len() && (#[trigger] gm[b]).0 == region_label(rs[j]);
                            assert(gm2[b].0 == region_label(rs[j]));
                        } else {
                            assert(gm2[gm.len() as int].0 == region_label(rs[j]));
                        }
                    }
                    assert(sum_all(rs, key@, i as int + 1) == sa + v);
                }
            },
        }
        i = i + 1;
    }
    g
}

/// Executable ranking comparison matching `pair_le`.
fn pair_le_exec(a: &(String, u64), b: &(String, u64)) -> (r: bool)
    ensures
        r == pair_le((a.0@, a.1), (b.0@, b.1)),
{
    a.1 > b.1 || (a.1 == b.1 && str_leq(a.0.as_str(), b.0.as_str()))
}

/// `pair_le` is total.
proof fn lemma_pair_le_total(a: (Seq<char>, u64), b: (Seq<char>, u64))
    ensures
        pair_le(a, b) || pair_le(b, a),
{
    lemma_lex_total(a.0, b.0);
}

/// `pair_le` is transitive.
proof fn lemma_pair_le_trans(a: (Seq<char>, u64), b: (Seq<char>, u64), c: (Seq<char>, u64))
    requires
        pair_le(a, b),
        pair_le(b, c),
    ensures
        pair_le(a, c),
{
    if a.1 == b.1 && b.1 == c.1 {
        lemma_lex_trans(a.0, b.0, c.0);
    }
}

/// Sorts groups by descending value, ties by ascending label.  The result
/// holds the same entries (as a multiset) and the same total.
#[verifier::rlimit(60)]
fn sort_groups(groups: Vec<(String, u64)>) -> (out: Vec<(String, u64)>)
    ensures
        groups_model(out@).to_multiset() == groups_model(groups@).to_multiset(),
        sorted_ranked(groups_model(out@)),
        sum_pairs(groups_model(out@)) == sum_pairs(groups_model(groups@)),
{
    broadcast use vstd::seq_lib::group_to_multiset_ensures;

    let n = groups.len();
    let mut out: Vec<(String, u64)> = Vec::new();
    let mut i: usize = 0;
    proof {
        assert(groups_model(out@) =~= groups_model(groups@.take(0)));
    }
    while i < n
        invariant
            i <= n,
            n == groups.len(),
            groups_model(out@).to_multiset() == groups_model(groups@.take(i as int)).to_multiset(),
            sum_pairs(groups_model(out@)) == sum_pairs(groups_model(groups@.take(i as int))),
            sorted_ranked(groups_model(out@)),
        decreases n - i,
    {
        broadcast use vstd::seq_lib::group_to_multiset_ensures;

        let ghost om = groups_model(out@);
        let p = &groups[i];
        let pair = (p.0.clone(), p.1);
        let ghost pm = (groups@[i as int].0@, groups@[i as int].1);
        let m = out.len();
        let mut pos: usize = 0;
        while pos < m && pair_le_exec(&out[pos], &pair)
            invariant
                pos <= m,
                m == out.len(),
                (pair.0@, pair.1) == pm,
                forall|x: int| 0 <= x < pos ==> pair_le(#[trigger] groups_model(out@)[x], pm),
            decreases m - pos,
        {
            pos = pos + 1;
        }
        proof {
            if pos < m {
                lemma_pair_le_total(groups_model(out@)[pos as int], pm);
            }
        }
        out.insert(pos, pair);
        proof {
            assert(groups_model(out@) =~= om.insert(pos as int, pm));
            lemma_to_multiset_insert(om, pos as int, pm);
            lemma_sum_pairs_insert(om, pos as int, pm);
            assert(groups_model(groups@.take(i as int + 1)) =~= groups_model(
                groups@.take(i as int),
            ).push(pm));
            lemma_sum_pairs_concat(groups_model(groups@.take(i as int)), seq![pm]);
            assert(groups_model(groups@.take(i as int)).push(pm) =~= groups_model(
                groups@.take(i as int),
            ) + seq![pm]);
            lemma_sum_pairs_single(pm);
            let om2 = groups_model(out@);
            assert forall|x: int, y: int| 0 <= x < y < om2.len() implies pair_le(
                #[trigger] om2[x],
                #[trigger] om2[y],
            ) by {
                if y == pos as int {
                    assert(om2[x] == om[x]);
                } else if x == pos as int {
                    assert(om2[y] == om[y - 1]);
                    if y - 1 > pos as int {
                        lemma_pair_le_trans(pm, om[pos as int], om[y - 1]);
                    }
                } else if x < pos as int && y > pos as int {
                    assert(om2[x] == om[x]);
                    assert(om2[y] == om[y - 1]);
                } else if x > pos as int {
                    assert(om2[x] == om[x - 1]);
                    assert(om2[y] == om[y - 1]);
                } else {
                    assert(om2[x] == om[x]);
                    assert(om2[y] == om[y]);
                }
            }
        }
        i = i + 1;
    }
    proof {
        assert(groups@.take(n as int) =~= groups@);
    }
    out
}

/// Grouping facts carry over to any reordering of the groups.
proof fn lemma_groups_ok_permuted(
    g1: Seq<(Seq<char>, u64)>,
    g2: Seq<(Seq<char>, u64)>,
    rs: Seq<DetailedRegionModel>,
    key: Seq<char>,
    i: int,
)
    requires
        groups_ok_to(g1, rs, key, i),
        g1.to_multiset() == g2.to_multiset(),
    ensures
        groups_ok_to(g2, rs, key, i),
{
    broadcast use vstd::seq_lib::group_to_multiset_ensures;
    broadcast use vstd::multiset::group_multiset_axioms;

    assert forall|a: int| 0 <= a < g2.len() implies ((#[trigger] g2[a]).1 as int == clamp(
        sum_label(rs, key, g2[a].0, i),
    ) && label_used_to(rs, g2[a].0, i)) by {
        assert(g2.contains(g2[a]));
        assert(g2.to_multiset().count(g2[a]) > 0);
        assert(g1.to_multiset().count(g2[a]) > 0);
        assert(g1.contains(g2[a]));
        let b = choose|b: int| 0 <= b < g1.len() && g1[b] == g2[a];
        assert(g1[b].1 as int == clamp(sum_label(rs, key, g1[b].0, i)));
    }
    assert forall|j: int| 0 <= j < i implies has_label(g2, region_label(#[trigger] rs[j])) by {
        let b = choose|b: int| 0 <= b < g1.len() && (#[trigger] g1[b]).0 == region_label(rs[j]);
        assert(g1.contains(g1[b]));
        assert(g1.to_multiset().count(g1[b]) > 0);
        assert(g2.to_multiset().count(g1[b]) > 0);
        assert(g2.contains(g1[b]));
        let a = choose|a: int| 0 <= a < g2.len() && g2[a] == g1[b];
        assert(g2[a].0 == region_label(rs[j]));
    }
    assert(g1.no_duplicates()) by {
        assert forall|x: int, y: int| 0 <= x < g1.len() && 0 <= y < g1.len() && x != y implies g1[x]
            != g1[y] by {
            if x < y {
                assert(g1[x].0 != g1[y].0);
            } else {
                assert(g1[y].0 != g1[x].0);
            }
        }
    }
    g1.lemma_multiset_has_no_duplicates();
    g2.lemma_multiset_has_no_duplicates_conv();
    assert forall|a: int, b: int| 0 <= a < b < g2.len() implies (#[trigger] g2[a]).0 != (
    #[trigger] g2[b]).0 by {
        if g2[a].0 == g2[b].0 {
            assert(g2[a] != g2[b]);
            assert(g2.contains(g2[a]));
            assert(g2.contains(g2[b]));
            assert(g2.to_multiset().count(g2[a]) > 0);
            assert(g2.to_multiset().count(g2[b]) > 0);
            assert(g1.to_multiset().count(g2[a]) > 0);
            assert(g1.to_multiset().count(g2[b]) > 0);
            assert(g1.contains(g2[a]));
            assert(g1.contains(g2[b]));
            let x = choose|x: int| 0 <= x < g1.len() && g1[x] == g2[a];
            let y = choose|y: int| 0 <= y < g1.len() && g1[y] == g2[b];
            assert(g1[x].0 == g1[y].0);
            assert(x == y);
        }
    }
}

/// Groups the regions by backing-object label, sums the named counter per
/// group, and ranks the groups by descending sum, ties by ascending label.
pub fn aggregate_totals(regions: &Vec<DetailedMemoryRegion>, key: &str) -> (g: Vec<(String, u64)>)
    ensures
        ranked_ok(groups_model(g@), regions_model(regions@), key@),
{
    let acc = accumulate_groups(regions, key);
    let ghost am = groups_model(acc@);
    let out = sort_groups(acc);
    proof {
        let rs = regions_model(regions@);
        lemma_groups_ok_permuted(am, groups_model(out@), rs, key@, rs.len() as int);
    }
    out
}

impl Process {
    /// Ranked per-label totals of the resident-set-size counter over this
    /// snapshot's regions.
    pub fn get_rss_totals(&self) -> (g: Vec<(String, u64)>)
        ensures
            ranked_ok(groups_model(g@), regions_model(self.memory_regions@), "Rss"@),
    {
        aggregate_totals(&self.memory_regions, "Rss")
    }
}

/// Sum of the ranked values, saturating; by `ranked_ok` this equals the
/// clamped sum of the chosen counter over every region, truncated or not.
pub fn grand_total(groups: &Vec<(String, u64)>) -> (t: u64)
    ensures
        t as int == clamp(sum_pairs(groups_model(groups@))),
{
    let n = groups.len();
    let mut t: u64 = 0;
    let mut i: usize = 0;
    proof {
        assert(groups_model(groups@).take(0) =~= Seq::<(Seq<char>, u64)>::empty());
    }
    while i < n
        invariant
            i <= n,
            n == groups@.len(),
            t as int == clamp(sum_pairs(groups_model(groups@).take(i as int))),
        decreases n - i,
    {
        let ghost gm = groups_model(groups@);
        let v = groups[i].1;
        proof {
            assert(gm.take(i as int + 1).drop_last() =~= gm.take(i as int));
            assert(gm.take(i as int + 1).last() == gm[i as int]);
            lemma_sum_pairs_nonneg(gm.take(i as int));
        }
        t = sat_add(t, v);
        i = i + 1;
    }
    proof {
        assert(groups_model(groups@).take(n as int) =~= groups_model(groups@));
    }
    t
}

/// The first `n` ranked groups; with fewer groups than `n`, all of them.
/// Truncation never changes the grand total's meaning: it is computed over
/// all groups before calling this.
pub fn top_n(groups: Vec<(String, u64)>, n: usize) -> (out: Vec<(String, u64)>)
    ensures
        n <= groups@.len() ==> out@ == groups@.subrange(0, n as int),
        n > groups@.len() ==> out@ == groups@,
{
    let mut out = groups;
    out.truncate(n);
    out
}

/// Share of `value` in `total`, in thousandths, rounded down.  A zero total
/// yields a zero share rather than failing.
pub fn ratio_permille(value: u64, total: u64) -> (r: u64)
    requires
        value <= total,
    ensures
        total == 0 ==> r == 0,
        total > 0 ==> r as int == (value as int * 1000) / (total as int),
        r <= 1000,
{
    if total == 0 {
        0
    } else {
        let q = ((value as u128) * 1000) / (total as u128);
        proof {
            lemma_div_is_ordered((value as int) * 1000, (total as int) * 1000, total as int);
            lemma_div_multiples_vanish(1000, total as int);
            assert((total as int) * 1000 == 1000 * (total as int));
        }
        q as u64
    }
}

/// When the true total fits the counter type, grouping loses nothing: the
/// ranked values sum exactly to the counter's total over every region.
pub proof fn lemma_sum_over_groups_exact(
    g: Seq<(Seq<char>, u64)>,
    rs: Seq<DetailedRegionModel>,
    key: Seq<char>,
)
    requires
        ranked_ok(g, rs, key),
        sum_all(rs, key, rs.len() as int) <= u64::MAX as int,
    ensures
        sum_pairs(g) == sum_all(rs, key, rs.len() as int),
{
    lemma_sum_pairs_nonneg(g);
}

/// Each ranked value is at most the grand total: every reported share lies
/// between zero and the whole.
pub proof fn lemma_group_value_le_total(g: Seq<(Seq<char>, u64)>, a: int)
    requires
        0 <= a < g.len(),
    ensures
        g[a].1 as int <= clamp(sum_pairs(g)),
{
    lemma_element_le_sum_pairs(g, a);
}

} // verus!
