//! The group-by engine and uniqueness, both defined over the total equality.
//!
//! `group_tuples` partitions row indices into groups of rows whose elements
//! are equal under the total equality adapter — so all nulls fall into one
//! group.  Groups are emitted in first-occurrence order whatever the hints,
//! so the result is identical for any worker count and for either value of
//! the `sorted` flag.

use vstd::prelude::*;

use crate::adapters::{elem_equal, tot_eq};
use crate::chunked::{flat_view, BinaryChunked};
use crate::dtype::Error;

verus! {

/// View of a vector of index vectors as a sequence of index sequences.
pub open spec fn gview(q: Seq<Vec<usize>>) -> Seq<Seq<usize>> {
    Seq::new(q.len(), |i: int| q[i]@)
}

/// Total number of indices over all groups.
pub open spec fn sum_sizes(gs: Seq<Seq<usize>>) -> int
    decreases gs.len(),
{
    if gs.len() == 0 {
        0
    } else {
        sum_sizes(gs.drop_last()) + gs.last().len()
    }
}

proof fn lemma_sum_push(gs: Seq<Seq<usize>>, w: Seq<usize>)
    ensures
        sum_sizes(gs.push(w)) == sum_sizes(gs) + w.len(),
{
    assert(gs.push(w).drop_last() =~= gs);
}

proof fn lemma_sum_update(gs: Seq<Seq<usize>>, g: int, w: Seq<usize>)
    requires
        0 <= g < gs.len(),
    ensures
        sum_sizes(gs.update(g, w)) == sum_sizes(gs) - gs[g].len() + w.len(),
    decreases gs.len(),
{
    if g == gs.len() - 1 {
        assert(gs.update(g, w).drop_last() =~= gs.drop_last());
    } else {
        assert(gs.update(g, w).drop_last() =~= gs.drop_last().update(g, w));
        lemma_sum_update(gs.drop_last(), g, w);
    }
}

/// Row `r` stands in some group of `gs`.
pub open spec fn covered(gs: Seq<Seq<usize>>, r: int) -> bool {
    exists|g: int, k: int| 0 <= g < gs.len() && 0 <= k < gs[g].len() && (#[trigger] gs[g][k]) == r
}

/// The groups `gs` partition the first `m` rows of `s` by total equality:
/// groups are non-empty, hold in-row-order indices below `m`, agree with
/// their first row's value, differ pairwise in value, stand in
/// first-occurrence order, and cover every row.
pub open spec fn groups_partition(gs: Seq<Seq<usize>>, s: Seq<Option<Seq<u8>>>, m: int) -> bool {
    &&& m <= s.len()
    &&& forall|g: int| 0 <= g < gs.len() ==> (#[trigger] gs[g]).len() > 0
    &&& forall|g: int, k: int|
        0 <= g < gs.len() && 0 <= k < gs[g].len() ==> (#[trigger] gs[g][k]) < m
    &&& forall|g: int, k: int|
        0 <= g < gs.len() && 0 <= k < gs[g].len() ==> tot_eq(
            s[#[trigger] gs[g][k] as int],
            s[gs[g][0] as int],
        )
    &&& forall|g1: int, g2: int|
        #![trigger gs[g1], gs[g2]]
        0 <= g1 < g2 < gs.len() ==> !tot_eq(s[gs[g1][0] as int], s[gs[g2][0] as int])
    &&& forall|g: int, k1: int, k2: int|
        0 <= g < gs.len() && 0 <= k1 < k2 < gs[g].len() ==> (#[trigger] gs[g][k1]) < (
        #[trigger] gs[g][k2])
    &&& forall|g1: int, g2: int|
        0 <= g1 < g2 < gs.len() ==> (#[trigger] gs[g1][0]) < (#[trigger] gs[g2][0])
    &&& forall|r: int| 0 <= r < m ==> #[trigger] covered(gs, r)
}

/// In a partition no row stands in two places: membership is unique.
pub proof fn lemma_groups_exactly_once(gs: Seq<Seq<usize>>, s: Seq<Option<Seq<u8>>>, m: int)
    requires
        groups_partition(gs, s, m),
    ensures
        forall|g1: int, k1: int, g2: int, k2: int|
            0 <= g1 < gs.len() && 0 <= k1 < gs[g1].len() && 0 <= g2 < gs.len() && 0 <= k2
                < gs[g2].len() && (#[trigger] gs[g1][k1]) == (#[trigger] gs[g2][k2]) ==> g1 == g2
                && k1 == k2,
{
    assert forall|g1: int, k1: int, g2: int, k2: int|
        0 <= g1 < gs.len() && 0 <= k1 < gs[g1].len() && 0 <= g2 < gs.len() && 0 <= k2
            < gs[g2].len() && (#[trigger] gs[g1][k1]) == (#[trigger] gs[g2][k2]) implies g1 == g2
        && k1 == k2 by {
        let r = gs[g1][k1];
        assert(tot_eq(s[r as int], s[gs[g1][0] as int]));
        assert(tot_eq(s[r as int], s[gs[g2][0] as int]));
        if g1 < g2 {
            assert(!tot_eq(s[gs[g1][0] as int], s[gs[g2][0] as int]));
            assert(false);
        }
        if g2 < g1 {
            assert(!tot_eq(s[gs[g2][0] as int], s[gs[g1][0] as int]));
            assert(false);
        }
        if k1 < k2 {
            assert(gs[g1][k1] < gs[g1][k2]);
        }
        if k2 < k1 {
            assert(gs[g1][k2] < gs[g1][k1]);
        }
    }
}

/// The result of group-by: a dense, 0-based mapping from group id to the
/// row indices of the group, in first-occurrence order.
pub struct GroupsProxy {
    pub groups: Vec<Vec<usize>>,
}

impl View for GroupsProxy {
    type V = Seq<Seq<usize>>;

    open spec fn view(&self) -> Seq<Seq<usize>> {
        gview(self.groups@)
    }
}

/// Copy of an index vector.
fn copy_indices(v: &Vec<usize>) -> (r: Vec<usize>)
    ensures
        r@ == v@,
{
    let mut r: Vec<usize> = Vec::new();
    let mut i: usize = 0;
    while i < v.len()
        invariant
            i <= v@.len(),
            r@ == v@.subrange(0, i as int),
        decreases v@.len() - i,
    {
        r.push(v[i]);
        i = i + 1;
        proof {
            assert(r@ =~= v@.subrange(0, i as int));
        }
    }
    proof {
        assert(v@.subrange(0, v@.len() as int) =~= v@);
    }
    r
}

/// Partition the rows of a flat element vector into first-occurrence groups
/// of equal elements.
pub fn group_tuples_flat(flat: &Vec<Option<Vec<u8>>>) -> (out: Vec<Vec<usize>>)
    ensures
        groups_partition(gview(out@), flat_view(flat@), flat@.len() as int),
        sum_sizes(gview(out@)) == flat@.len(),
{
    let ghost s = flat_view(flat@);
    let n: usize = flat.len();
    let mut groups: Vec<Vec<usize>> = Vec::new();
    let mut r: usize = 0;
    while r < n
        invariant
            n == flat@.len(),
            s == flat_view(flat@),
            r <= n,
            groups_partition(gview(groups@), s, r as int),
            sum_sizes(gview(groups@)) == r,
        decreases n - r,
    {
        let ghost gs = gview(groups@);
        let mut g: usize = 0;
        let mut found: bool = false;
        while g < groups.len() && !found
            invariant
                n == flat@.len(),
                s == flat_view(flat@),
                r < n,
                gs == gview(groups@),
                groups_partition(gs, s, r as int),
                g <= groups@.len(),
                !found ==> forall|g2: int|
                    0 <= g2 < g ==> !tot_eq(s[r as int], s[#[trigger] gs[g2][0] as int]),
                found ==> g < groups@.len() && tot_eq(s[r as int], s[gs[g as int][0] as int]),
            decreases groups@.len() - g, (if found { 0int } else { 1int }),
        {
            proof {
                assert(gs[g as int].len() > 0);
                assert(gs[g as int][0] < r as int);
            }
            let head: usize = groups[g][0];
            if elem_equal(&flat[r], &flat[head]) {
                found = true;
            } else {
                g = g + 1;
            }
        }
        if found {
            let mut grp = copy_indices(&groups[g]);
            grp.push(r);
            let ghost neww = grp@;
            groups.set(g, grp);
            proof {
                assert(gview(groups@) =~= gs.update(g as int, neww));
                lemma_sum_update(gs, g as int, neww);
                let gs2 = gview(groups@);
                assert forall|row: int| 0 <= row < r + 1 implies covered(gs2, row) by {
                    if row == r as int {
                        assert(gs2[g as int][gs[g as int].len() as int] == r);
                    } else {
                        assert(covered(gs, row));
                        let (g0, k0): (int, int) = choose|g0: int, k0: int|
                            0 <= g0 < gs.len() && 0 <= k0 < gs[g0].len()
                                && (#[trigger] gs[g0][k0]) == row;
                        assert(gs2[g0][k0] == row);
                    }
                }
                assert(groups_partition(gs2, s, r + 1));
            }
        } else {
            let mut grp: Vec<usize> = Vec::new();
            grp.push(r);
            let ghost neww = grp@;
            groups.push(grp);
            proof {
                assert(gview(groups@) =~= gs.push(neww));
                lemma_sum_push(gs, neww);
                let gs2 = gview(groups@);
                assert forall|row: int| 0 <= row < r + 1 implies covered(gs2, row) by {
                    if row == r as int {
                        assert(gs2[gs.len() as int][0] == r);
                    } else {
                        assert(covered(gs, row));
                        let (g0, k0): (int, int) = choose|g0: int, k0: int|
                            0 <= g0 < gs.len() && 0 <= k0 < gs[g0].len()
                                && (#[trigger] gs[g0][k0]) == row;
                        assert(gs2[g0][k0] == row);
                    }
                }
                assert(groups_partition(gs2, s, r + 1));
            }
        }
        r = r + 1;
    }
    groups
}

/// First-occurrence indices of the distinct values of `s`, in row order:
/// strictly increasing, pairwise distinct in value, and covering every row
/// with an earlier-or-equal representative.
pub open spec fn is_arg_unique(s: Seq<Option<Seq<u8>>>, u: Seq<usize>) -> bool {
    &&& forall|k: int| 0 <= k < u.len() ==> (#[trigger] u[k]) < s.len()
    &&& forall|k1: int, k2: int| 0 <= k1 < k2 < u.len() ==> (#[trigger] u[k1]) < (#[trigger] u[k2])
    &&& forall|k1: int, k2: int|
        0 <= k1 < k2 < u.len() ==> !tot_eq(s[#[trigger] u[k1] as int], s[#[trigger] u[k2] as int])
    &&& forall|row: int| 0 <= row < s.len() ==> #[trigger] has_representative(s, u, row)
}

/// Some listed first occurrence carries `row`'s value and is no later.
pub open spec fn has_representative(s: Seq<Option<Seq<u8>>>, u: Seq<usize>, row: int) -> bool {
    exists|k: int| 0 <= k < u.len() && tot_eq(s[row], s[#[trigger] u[k] as int]) && u[k] <= row
}

/// Row `t` is the first row carrying its value.
pub open spec fn first_occurrence(s: Seq<Option<Seq<u8>>>, t: int) -> bool {
    0 <= t < s.len() && forall|r: int| 0 <= r < t ==> !tot_eq(#[trigger] s[r], s[t])
}

/// A first-occurrence enumeration lists exactly the first occurrences.
proof fn lemma_listed_iff_first(s: Seq<Option<Seq<u8>>>, u: Seq<usize>)
    requires
        is_arg_unique(s, u),
    ensures
        forall|k: int| 0 <= k < u.len() ==> first_occurrence(s, (#[trigger] u[k]) as int),
        forall|t: int|
            #[trigger] first_occurrence(s, t) ==> exists|k: int|
                0 <= k < u.len() && (#[trigger] u[k]) as int == t,
{
    assert forall|k: int| 0 <= k < u.len() implies first_occurrence(
        s,
        (#[trigger] u[k]) as int,
    ) by {
        let t = u[k] as int;
        assert forall|r: int| 0 <= r < t implies !tot_eq(#[trigger] s[r], s[t]) by {
            if tot_eq(s[r], s[t]) {
                assert(has_representative(s, u, r));
                let k2 = choose|k2: int|
                    0 <= k2 < u.len() && tot_eq(s[r], s[#[trigger] u[k2] as int]) && u[k2] <= r;
                assert(u[k2] < u[k]);
                if k2 >= k {
                    if k2 > k {
                        assert(u[k] < u[k2]);
                    }
                    assert(false);
                }
                assert(!tot_eq(s[u[k2] as int], s[u[k] as int]));
                assert(false);
            }
        }
    }
    assert forall|t: int| #[trigger] first_occurrence(s, t) implies exists|k: int|
        0 <= k < u.len() && (#[trigger] u[k]) as int == t by {
        assert(has_representative(s, u, t));
        let k = choose|k: int|
            0 <= k < u.len() && tot_eq(s[t], s[#[trigger] u[k] as int]) && u[k] <= t;
        if (u[k] as int) < t {
            assert(!tot_eq(s[u[k] as int], s[t]));
            assert(false);
        }
        assert(u[k] as int == t);
    }
}

proof fn lemma_arg_unique_pointwise(s: Seq<Option<Seq<u8>>>, u1: Seq<usize>, u2: Seq<usize>, k: int)
    requires
        is_arg_unique(s, u1),
        is_arg_unique(s, u2),
        0 <= k < u1.len(),
        k < u2.len(),
        forall|k2: int| 0 <= k2 < k ==> u1[k2] == u2[k2],
    ensures
        u1[k] == u2[k],
{
    lemma_listed_iff_first(s, u1);
    lemma_listed_iff_first(s, u2);
    if u1[k] < u2[k] {
        assert(first_occurrence(s, u1[k] as int));
        let m = choose|m: int| 0 <= m < u2.len() && (#[trigger] u2[m]) as int == u1[k] as int;
        if m >= k {
            if m > k {
                assert(u2[k] < u2[m]);
            }
            assert(false);
        }
        assert(u1[m] == u2[m]);
        assert(u1[m] < u1[k]);
        assert(false);
    }
    if u2[k] < u1[k] {
        assert(first_occurrence(s, u2[k] as int));
        let m = choose|m: int| 0 <= m < u1.len() && (#[trigger] u1[m]) as int == u2[k] as int;
        if m >= k {
            if m > k {
                assert(u1[k] < u1[m]);
            }
            assert(false);
        }
        assert(u1[m] == u2[m]);
        assert(u2[m] < u2[k]);
        assert(false);
    }
}

proof fn lemma_arg_unique_prefix(s: Seq<Option<Seq<u8>>>, u1: Seq<usize>, u2: Seq<usize>, k: int)
    requires
        is_arg_unique(s, u1),
        is_arg_unique(s, u2),
        0 <= k <= u1.len(),
        k <= u2.len(),
    ensures
        forall|k2: int| 0 <= k2 < k ==> u1[k2] == u2[k2],
    decreases k,
{
    if k > 0 {
        lemma_arg_unique_prefix(s, u1, u2, k - 1);
        lemma_arg_unique_pointwise(s, u1, u2, k - 1);
    }
}

/// The first-occurrence enumeration of a column is unique: any two index
/// sequences meeting [`is_arg_unique`] are equal, so the contracts of
/// `arg_unique`, `unique` and `n_unique` each pin exactly one result —
/// including the rule that all nulls count as one distinct value.
pub proof fn lemma_arg_unique_unique(s: Seq<Option<Seq<u8>>>, u1: Seq<usize>, u2: Seq<usize>)
    requires
        is_arg_unique(s, u1),
        is_arg_unique(s, u2),
    ensures
        u1 == u2,
{
    lemma_listed_iff_first(s, u1);
    lemma_listed_iff_first(s, u2);
    let mn: int = if u1.len() <= u2.len() {
        u1.len() as int
    } else {
        u2.len() as int
    };
    lemma_arg_unique_prefix(s, u1, u2, mn);
    if u1.len() < u2.len() {
        let t = u2[u1.len() as int] as int;
        assert(first_occurrence(s, t));
        let k = choose|k: int| 0 <= k < u1.len() && (#[trigger] u1[k]) as int == t;
        assert(u1[k] == u2[k]);
        assert(u2[k] < u2[u1.len() as int]);
        assert(false);
    }
    if u2.len() < u1.len() {
        let t = u1[u2.len() as int] as int;
        assert(first_occurrence(s, t));
        let k = choose|k: int| 0 <= k < u2.len() && (#[trigger] u2[k]) as int == t;
        assert(u1[k] == u2[k]);
        assert(u1[k] < u1[u2.len() as int]);
        assert(false);
    }
    assert(u1 =~= u2);
}

/// The first row index of each group, in group order.
pub open spec fn group_heads(gs: Seq<Seq<usize>>) -> Seq<usize> {
    Seq::new(gs.len(), |g: int| gs[g][0])
}

/// The heads of a full partition are exactly the first-occurrence
/// enumeration of the column: grouping and uniqueness agree, because both
/// are defined over the one total equality.
pub proof fn lemma_group_heads_arg_unique(gs: Seq<Seq<usize>>, s: Seq<Option<Seq<u8>>>)
    requires
        groups_partition(gs, s, s.len() as int),
    ensures
        is_arg_unique(s, group_heads(gs)),
{
    let u = group_heads(gs);
    assert forall|row: int| 0 <= row < s.len() implies #[trigger] has_representative(
        s,
        u,
        row,
    ) by {
        assert(covered(gs, row));
        let (g0, k0): (int, int) = choose|g0: int, k0: int|
            0 <= g0 < gs.len() && 0 <= k0 < gs[g0].len() && (#[trigger] gs[g0][k0]) == row;
        assert(tot_eq(s[row], s[gs[g0][0] as int]));
        assert(gs[g0][0] <= gs[g0][k0]);
        assert(u[g0] == gs[g0][0]);
        assert(0 <= g0 < u.len() && tot_eq(s[row], s[u[g0] as int]) && u[g0] <= row);
    }
}

/// Grouping and uniqueness agree in cardinality: the number of groups of
/// any full partition equals the number of distinct values.
pub proof fn lemma_group_count_is_n_unique(
    gs: Seq<Seq<usize>>,
    s: Seq<Option<Seq<u8>>>,
    u: Seq<usize>,
)
    requires
        groups_partition(gs, s, s.len() as int),
        is_arg_unique(s, u),
    ensures
        gs.len() == u.len(),
{
    lemma_group_heads_arg_unique(gs, s);
    lemma_arg_unique_unique(s, group_heads(gs), u);
}

/// Extract the first-occurrence index of each group.
pub fn arg_unique_flat(flat: &Vec<Option<Vec<u8>>>) -> (u: Vec<usize>)
    ensures
        is_arg_unique(flat_view(flat@), u@),
{
    let ghost s = flat_view(flat@);
    let groups = group_tuples_flat(flat);
    let ghost gs = gview(groups@);
    let mut u: Vec<usize> = Vec::new();
    let mut g: usize = 0;
    while g < groups.len()
        invariant
            s == flat_view(flat@),
            gs == gview(groups@),
            groups_partition(gs, s, flat@.len() as int),
            g <= gs.len(),
            u@.len() == g,
            forall|k: int| 0 <= k < g ==> (#[trigger] u@[k]) == gs[k][0],
        decreases groups@.len() - g,
    {
        proof {
            assert(gs[g as int].len() > 0);
            assert(gs[g as int][0] < flat@.len() as int);
        }
        u.push(groups[g][0]);
        g = g + 1;
    }
    proof {
        assert forall|row: int| 0 <= row < s.len() implies has_representative(s, u@, row) by {
            assert(covered(gs, row));
            let (g0, k0): (int, int) = choose|g0: int, k0: int|
                0 <= g0 < gs.len() && 0 <= k0 < gs[g0].len() && (#[trigger] gs[g0][k0]) == row;
            assert(tot_eq(s[row], s[gs[g0][0] as int]));
            assert(gs[g0][0] <= gs[g0][k0]);
            assert(u@[g0] == gs[g0][0]);
            assert(0 <= g0 < u@.len() && tot_eq(s[row], s[u@[g0] as int]) && u@[g0] <= row);
        }
    }
    u
}

impl BinaryChunked {
    /// Gather each group's rows into a column of its own, one per group id:
    /// the per-group aggregation backing list construction over a grouping.
    pub fn agg_list(&self, groups: &GroupsProxy) -> (r: Vec<BinaryChunked>)
        requires
            self.wf(),
            groups_partition(groups@, self@, self@.len() as int),
        ensures
            r@.len() == groups@.len(),
            forall|g: int|
                0 <= g < r@.len() ==> (#[trigger] r@[g]).wf() && r@[g]@ == crate::sort::apply_perm(
                    self@,
                    groups@[g],
                ),
    {
        let mut out: Vec<BinaryChunked> = Vec::new();
        let mut g: usize = 0;
        while g < groups.groups.len()
            invariant
                self.wf(),
                groups_partition(groups@, self@, self@.len() as int),
                g <= groups@.len(),
                out@.len() == g,
                forall|i: int|
                    0 <= i < g ==> (#[trigger] out@[i]).wf() && out@[i]@
                        == crate::sort::apply_perm(self@, groups@[i]),
            decreases groups@.len() - g,
        {
            proof {
                assert(groups@[g as int] == groups.groups@[g as int]@);
                assert forall|k: int| 0 <= k < groups.groups@[g as int]@.len() implies (
                #[trigger] groups.groups@[g as int]@[k]) < self@.len() by {
                    assert(groups@[g as int][k] < self@.len() as int);
                }
            }
            let c = self.take_unchecked(&groups.groups[g]);
            out.push(c);
            g = g + 1;
        }
        out
    }

    /// Group rows by value under the total equality.  Both hints are
    /// accepted for interface compatibility and influence nothing: the
    /// partition and its first-occurrence order are fully determined by the
    /// contents, so any worker count yields the identical result.
    pub fn group_tuples(&self, multithreaded: bool, sorted: bool) -> (r: Result<
        GroupsProxy,
        Error,
    >)
        requires
            self.wf(),
        ensures
            r matches Ok(gp) && groups_partition(gp@, self@, self@.len() as int) && sum_sizes(gp@)
                == self@.len(),
    {
        let _ = multithreaded;
        let _ = sorted;
        let flat = self.to_flat();
        let groups = group_tuples_flat(&flat);
        Ok(GroupsProxy { groups })
    }

    /// Index of the first occurrence of each distinct value, in row order.
    pub fn arg_unique(&self) -> (r: Result<Vec<usize>, Error>)
        requires
            self.wf(),
        ensures
            r matches Ok(u) && is_arg_unique(self@, u@),
    {
        let flat = self.to_flat();
        Ok(arg_unique_flat(&flat))
    }

    /// Number of distinct values under the total equality; all nulls count
    /// as one distinct value.
    pub fn n_unique(&self) -> (r: Result<usize, Error>)
        requires
            self.wf(),
        ensures
            r matches Ok(c) && exists|u: Seq<usize>| is_arg_unique(self@, u) && c == u.len(),
    {
        let flat = self.to_flat();
        let u = arg_unique_flat(&flat);
        Ok(u.len())
    }
}

} // verus!
