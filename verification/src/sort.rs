//! The sort engine: index permutations realizing the total element order.
//!
//! `arg_sort` returns the unique permutation that orders positions by their
//! element under the configured direction and null placement, with ties kept
//! in original row order — so the sort is stable by construction.

use vstd::prelude::*;

use crate::adapters::{
    elem_le, elem_less, elem_lt, elem_equal, lemma_elem_irrefl, lemma_elem_total,
    lemma_elem_trans, opt_view, tot_eq,
};
use crate::chunked::{chunk_from_options, flat_view, copy_opt, BinaryChunked};
use crate::dtype::{DataType, Error, Field, Op, Settings};

verus! {

/// Options of a single-key sort: direction, null placement, and a hint that
/// a worker pool may be used.  The result never depends on the hint.
#[derive(Clone, Copy, PartialEq, Eq, Structural, Debug)]
pub struct SortOptions {
    pub descending: bool,
    pub nulls_last: bool,
    pub multithreaded: bool,
}

/// Strict total order on row positions: first by element under the total
/// order, ties broken by the original position.  Sorting by this order is
/// exactly a stable sort of the elements.
pub open spec fn pos_lt(s: Seq<Option<Seq<u8>>>, d: bool, nl: bool, i: int, j: int) -> bool {
    elem_lt(s[i], s[j], d, nl) || (tot_eq(s[i], s[j]) && i < j)
}

pub proof fn lemma_pos_total(s: Seq<Option<Seq<u8>>>, d: bool, nl: bool, i: int, j: int)
    requires
        0 <= i < s.len(),
        0 <= j < s.len(),
        i != j,
    ensures
        pos_lt(s, d, nl, i, j) || pos_lt(s, d, nl, j, i),
        !(pos_lt(s, d, nl, i, j) && pos_lt(s, d, nl, j, i)),
{
    lemma_elem_total(s[i], s[j], d, nl);
    lemma_elem_total(s[j], s[i], d, nl);
    lemma_elem_irrefl(s[i], d, nl);
}

pub proof fn lemma_pos_trans(s: Seq<Option<Seq<u8>>>, d: bool, nl: bool, a: int, b: int, c: int)
    requires
        pos_lt(s, d, nl, a, b),
        pos_lt(s, d, nl, b, c),
    ensures
        pos_lt(s, d, nl, a, c),
{
    if elem_lt(s[a], s[b], d, nl) && elem_lt(s[b], s[c], d, nl) {
        lemma_elem_trans(s[a], s[b], s[c], d, nl);
    }
}

/// What it means for `p` to be the argsort of `s`: one entry per row, every
/// entry in bounds, and positions emitted in strictly increasing
/// position-order — which forces `p` to be a bijection on the rows.
pub open spec fn is_arg_sort(s: Seq<Option<Seq<u8>>>, d: bool, nl: bool, p: Seq<usize>) -> bool {
    &&& p.len() == s.len()
    &&& forall|k: int| 0 <= k < p.len() ==> (#[trigger] p[k]) < s.len()
    &&& forall|k1: int, k2: int|
        0 <= k1 < k2 < p.len() ==> pos_lt(s, d, nl, p[k1] as int, p[k2] as int)
}

/// Row position `v` occurs somewhere in the index sequence `p`.
pub open spec fn appears(p: Seq<usize>, v: int) -> bool {
    exists|k: int| 0 <= k < p.len() && (#[trigger] p[k]) as int == v
}

/// An argsort permutation is a bijection on the rows: it has one entry per
/// row, its entries are pairwise distinct, and — as this lemma shows —
/// every row position occurs in it.
pub proof fn lemma_arg_sort_onto(s: Seq<Option<Seq<u8>>>, d: bool, nl: bool, p: Seq<usize>)
    requires
        is_arg_sort(s, d, nl, p),
    ensures
        forall|v: int| 0 <= v < s.len() ==> #[trigger] appears(p, v),
{
    broadcast use vstd::seq_lib::seq_to_set_is_finite;

    let n = p.len() as int;
    assert forall|k1: int, k2: int| 0 <= k1 < k2 < n implies p[k1] != p[k2] by {
        if p[k1] == p[k2] {
            assert(pos_lt(s, d, nl, p[k1] as int, p[k2] as int));
            lemma_elem_irrefl(s[p[k1] as int], d, nl);
        }
    }
    let pi = p.map_values(|x: usize| x as int);
    assert(pi.len() == n);
    assert(pi.no_duplicates()) by {
        assert forall|i: int, j: int|
            0 <= i < pi.len() && 0 <= j < pi.len() && i != j implies pi[i] != pi[j] by {
            if i < j {
                assert(p[i] != p[j]);
            } else {
                assert(p[j] != p[i]);
            }
        }
    }
    pi.unique_seq_to_set();
    assert(pi.to_set().subset_of(vstd::set_lib::set_int_range(0, n))) by {
        assert forall|a: int| pi.to_set().contains(a) implies 0 <= a < n by {
            let i = choose|i: int| 0 <= i < pi.len() && pi[i] == a;
            assert(p[i] < s.len());
        }
    }
    vstd::set_lib::lemma_int_range(0, n);
    vstd::set_lib::lemma_subset_equality(pi.to_set(), vstd::set_lib::set_int_range(0, n));
    assert forall|v: int| 0 <= v < s.len() implies #[trigger] appears(p, v) by {
        assert(vstd::set_lib::set_int_range(0, n).contains(v));
        assert(pi.to_set().contains(v));
        let k = choose|k: int| 0 <= k < pi.len() && pi[k] == v;
        assert(0 <= k < p.len() && p[k] as int == v);
    }
}

proof fn lemma_arg_sort_pointwise(
    s: Seq<Option<Seq<u8>>>,
    d: bool,
    nl: bool,
    p1: Seq<usize>,
    p2: Seq<usize>,
    k: int,
)
    requires
        is_arg_sort(s, d, nl, p1),
        is_arg_sort(s, d, nl, p2),
        0 <= k < p1.len(),
        k < p2.len(),
        forall|k2: int| 0 <= k2 < k ==> p1[k2] == p2[k2],
    ensures
        p1[k] == p2[k],
{
    lemma_arg_sort_onto(s, d, nl, p1);
    lemma_arg_sort_onto(s, d, nl, p2);
    if p1[k] != p2[k] {
        assert(appears(p1, p2[k] as int));
        let m = choose|m: int| 0 <= m < p1.len() && (#[trigger] p1[m]) as int == p2[k] as int;
        if m < k {
            assert(p1[m] == p2[m]);
            assert(pos_lt(s, d, nl, p2[m] as int, p2[k] as int));
            lemma_elem_irrefl(s[p2[k] as int], d, nl);
            assert(false);
        }
        assert(m > k);
        assert(pos_lt(s, d, nl, p1[k] as int, p1[m] as int));
        assert(appears(p2, p1[k] as int));
        let m2 = choose|m2: int| 0 <= m2 < p2.len() && (#[trigger] p2[m2]) as int == p1[k] as int;
        if m2 < k {
            assert(p1[m2] == p2[m2]);
            assert(pos_lt(s, d, nl, p1[m2] as int, p1[k] as int));
            lemma_elem_irrefl(s[p1[k] as int], d, nl);
            assert(false);
        }
        assert(m2 > k);
        assert(pos_lt(s, d, nl, p2[k] as int, p2[m2] as int));
        lemma_pos_total(s, d, nl, p1[k] as int, p2[k] as int);
        assert(false);
    }
}

proof fn lemma_arg_sort_prefix(
    s: Seq<Option<Seq<u8>>>,
    d: bool,
    nl: bool,
    p1: Seq<usize>,
    p2: Seq<usize>,
    k: int,
)
    requires
        is_arg_sort(s, d, nl, p1),
        is_arg_sort(s, d, nl, p2),
        0 <= k <= p1.len(),
        k <= p2.len(),
    ensures
        forall|k2: int| 0 <= k2 < k ==> p1[k2] == p2[k2],
    decreases k,
{
    if k > 0 {
        lemma_arg_sort_prefix(s, d, nl, p1, p2, k - 1);
        lemma_arg_sort_pointwise(s, d, nl, p1, p2, k - 1);
    }
}

/// The argsort contract pins exactly one permutation: any two index
/// sequences meeting [`is_arg_sort`] for the same column and options are
/// equal — sortedness under the position order leaves no freedom, which is
/// what makes the sort stable by definition.
pub proof fn lemma_arg_sort_unique(
    s: Seq<Option<Seq<u8>>>,
    d: bool,
    nl: bool,
    p1: Seq<usize>,
    p2: Seq<usize>,
)
    requires
        is_arg_sort(s, d, nl, p1),
        is_arg_sort(s, d, nl, p2),
    ensures
        p1 == p2,
{
    lemma_arg_sort_prefix(s, d, nl, p1, p2, p1.len() as int);
    assert(p1 =~= p2);
}

/// The sequence `s` reordered by the index sequence `p`.
pub open spec fn apply_perm(s: Seq<Option<Seq<u8>>>, p: Seq<usize>) -> Seq<Option<Seq<u8>>> {
    Seq::new(p.len(), |k: int| s[p[k] as int])
}

/// Executable comparison of two row positions under [`pos_lt`].
fn pos_less(flat: &Vec<Option<Vec<u8>>>, d: bool, nl: bool, i: usize, j: usize) -> (r: bool)
    requires
        i < flat@.len(),
        j < flat@.len(),
    ensures
        r == pos_lt(flat_view(flat@), d, nl, i as int, j as int),
{
    if elem_less(&flat[i], &flat[j], d, nl) {
        true
    } else if elem_equal(&flat[i], &flat[j]) {
        i < j
    } else {
        false
    }
}

/// Compute the argsort permutation of a flat element vector by selection,
/// each round moving the least remaining position to the front.
pub fn arg_sort_flat(flat: &Vec<Option<Vec<u8>>>, d: bool, nl: bool) -> (p: Vec<usize>)
    ensures
        is_arg_sort(flat_view(flat@), d, nl, p@),
        forall|k1: int, k2: int| 0 <= k1 < k2 < p@.len() ==> p@[k1] != p@[k2],
        forall|k1: int, k2: int|
            0 <= k1 < k2 < p@.len() ==> elem_le(
                flat_view(flat@)[p@[k1] as int],
                flat_view(flat@)[p@[k2] as int],
                d,
                nl,
            ),
{
    let ghost s = flat_view(flat@);
    let n: usize = flat.len();
    let mut p: Vec<usize> = Vec::new();
    let mut i: usize = 0;
    while i < n
        invariant
            i <= n,
            p@.len() == i,
            forall|k: int| 0 <= k < i ==> p@[k] == k,
        decreases n - i,
    {
        p.push(i);
        i = i + 1;
    }
    let mut i: usize = 0;
    while i < n
        invariant
            n == s.len(),
            s == flat_view(flat@),
            i <= n,
            p@.len() == n,
            forall|k: int| 0 <= k < n ==> (#[trigger] p@[k]) < n,
            forall|k1: int, k2: int| 0 <= k1 < k2 < n ==> p@[k1] != p@[k2],
            forall|a: int, b: int| 0 <= a < b < i ==> pos_lt(s, d, nl, p@[a] as int, p@[b] as int),
            forall|a: int, b: int|
                0 <= a < i <= b < n ==> pos_lt(s, d, nl, p@[a] as int, p@[b] as int),
        decreases n - i,
    {
        let mut best: usize = i;
        let mut j: usize = i + 1;
        while j < n
            invariant
                n == s.len(),
                s == flat_view(flat@),
                i < n,
                i <= best < j <= n,
                p@.len() == n,
                forall|k: int| 0 <= k < n ==> (#[trigger] p@[k]) < n,
                forall|k1: int, k2: int| 0 <= k1 < k2 < n ==> p@[k1] != p@[k2],
                forall|k: int|
                    i <= k < j && k != best ==> pos_lt(s, d, nl, p@[best as int] as int, p@[k] as int),
            decreases n - j,
        {
            if pos_less(flat, d, nl, p[j], p[best]) {
                let ghost old_best = best as int;
                best = j;
                proof {
                    assert forall|k: int| i <= k < j + 1 && k != best implies pos_lt(
                        s,
                        d,
                        nl,
                        p@[best as int] as int,
                        p@[k] as int,
                    ) by {
                        if k != old_best {
                            lemma_pos_trans(
                                s,
                                d,
                                nl,
                                p@[best as int] as int,
                                p@[old_best] as int,
                                p@[k] as int,
                            );
                        }
                    }
                }
            } else {
                proof {
                    lemma_pos_total(s, d, nl, p@[j as int] as int, p@[best as int] as int);
                }
            }
            j = j + 1;
        }
        let ghost pre = p@;
        let pi = p[i];
        let pb = p[best];
        p.set(i, pb);
        p.set(best, pi);
        proof {
            assert(p@.len() == n);
            assert forall|k1: int, k2: int| 0 <= k1 < k2 < n implies p@[k1] != p@[k2] by {
                let m1: int = if k1 == i { best as int } else if k1 == best { i as int } else { k1 };
                let m2: int = if k2 == i { best as int } else if k2 == best { i as int } else { k2 };
                assert(p@[k1] == pre[m1]);
                assert(p@[k2] == pre[m2]);
            }
            assert forall|a: int, b: int| 0 <= a < b < i + 1 implies pos_lt(
                s,
                d,
                nl,
                p@[a] as int,
                p@[b] as int,
            ) by {
                if b == i as int {
                    assert(p@[b] == pre[best as int]);
                    assert(p@[a] == pre[a]);
                } else {
                    assert(p@[a] == pre[a] && p@[b] == pre[b]);
                }
            }
            assert forall|a: int, b: int| 0 <= a < i + 1 <= b < n implies pos_lt(
                s,
                d,
                nl,
                p@[a] as int,
                p@[b] as int,
            ) by {
                if a < i as int {
                    if b == best as int {
                        assert(p@[b] == pre[i as int]);
                    } else {
                        assert(p@[b] == pre[b]);
                    }
                    assert(p@[a] == pre[a]);
                } else {
                    assert(a == i as int);
                    assert(p@[a] == pre[best as int]);
                    if b == best as int {
                        assert(p@[b] == pre[i as int]);
                        assert(best != i);
                        assert(pos_lt(s, d, nl, pre[best as int] as int, pre[i as int] as int));
                    } else {
                        assert(p@[b] == pre[b]);
                        assert(b != best as int && i <= b < n);
                        assert(pos_lt(s, d, nl, pre[best as int] as int, pre[b] as int));
                    }
                }
            }
        }
        i = i + 1;
    }
    proof {
        assert forall|k1: int, k2: int| 0 <= k1 < k2 < p@.len() implies elem_le(
            s[p@[k1] as int],
            s[p@[k2] as int],
            d,
            nl,
        ) by {
            assert(pos_lt(s, d, nl, p@[k1] as int, p@[k2] as int));
        }
    }
    p
}

impl BinaryChunked {
    /// Argsort of the column: the unique index permutation that realizes the
    /// configured order, stable on ties.  The multithreading hint does not
    /// influence the result in any way.
    pub fn arg_sort(&self, options: SortOptions) -> (p: Vec<usize>)
        requires
            self.wf(),
        ensures
            is_arg_sort(self@, options.descending, options.nulls_last, p@),
            forall|k1: int, k2: int| 0 <= k1 < k2 < p@.len() ==> p@[k1] != p@[k2],
            forall|k1: int, k2: int|
                0 <= k1 < k2 < p@.len() ==> elem_le(
                    self@[p@[k1] as int],
                    self@[p@[k2] as int],
                    options.descending,
                    options.nulls_last,
                ),
    {
        let flat = self.to_flat();
        arg_sort_flat(&flat, options.descending, options.nulls_last)
    }

    /// Sort the column, returning a new store whose contents are the old
    /// ones reordered by the argsort permutation.  The sortedness flags of
    /// the result reflect the requested order.
    pub fn sort_with(&self, options: SortOptions) -> (r: BinaryChunked)
        requires
            self.wf(),
        ensures
            r.wf(),
            exists|p: Seq<usize>|
                is_arg_sort(self@, options.descending, options.nulls_last, p) && r@
                    == apply_perm(self@, p),
            r@.len() == self@.len(),
            forall|k1: int, k2: int|
                0 <= k1 < k2 < r@.len() ==> elem_le(
                    r@[k1],
                    r@[k2],
                    options.descending,
                    options.nulls_last,
                ),
            r.field.name@ == self.field.name@,
            r.field.dtype == self.field.dtype,
            r.flags.sorted_ascending == !options.descending,
            r.flags.sorted_descending == options.descending,
    {
        let flat = self.to_flat();
        let p = arg_sort_flat(&flat, options.descending, options.nulls_last);
        let mut out: Vec<Option<Vec<u8>>> = Vec::new();
        let mut k: usize = 0;
        while k < p.len()
            invariant
                is_arg_sort(flat_view(flat@), options.descending, options.nulls_last, p@),
                flat_view(flat@) == self@,
                flat@.len() == self@.len(),
                k <= p@.len(),
                out@.len() == k,
                forall|m: int|
                    0 <= m < k ==> opt_view(#[trigger] out@[m]) == self@[p@[m] as int],
            decreases p@.len() - k,
        {
            let x = copy_opt(&flat[p[k]]);
            out.push(x);
            k = k + 1;
        }
        let chunk = chunk_from_options(&out);
        let r = BinaryChunked::single_chunk_store(
            Field { name: self.field.name.clone(), dtype: DataType::Binary },
            chunk,
            Settings {
                sorted_ascending: !options.descending,
                sorted_descending: options.descending,
            },
        );
        proof {
            assert(r@ =~= apply_perm(self@, p@));
            assert forall|k1: int, k2: int| 0 <= k1 < k2 < r@.len() implies elem_le(
                r@[k1],
                r@[k2],
                options.descending,
                options.nulls_last,
            ) by {
                assert(pos_lt(
                    self@,
                    options.descending,
                    options.nulls_last,
                    p@[k1] as int,
                    p@[k2] as int,
                ));
            }
        }
        r
    }
}

/// All key columns agree at row positions `i` and `j` under total equality.
pub open spec fn multi_eq(cols: Seq<Seq<Option<Seq<u8>>>>, i: int, j: int) -> bool {
    forall|c: int| 0 <= c < cols.len() ==> tot_eq((#[trigger] cols[c])[i], cols[c][j])
}

/// Lexicographic multi-key order on row positions, read from key `c` on:
/// the first key that differs decides, under its own direction.
pub open spec fn multi_lt_from(
    cols: Seq<Seq<Option<Seq<u8>>>>,
    desc: Seq<bool>,
    nl: bool,
    i: int,
    j: int,
    c: int,
) -> bool
    decreases cols.len() - c,
{
    if c < 0 || c >= cols.len() {
        false
    } else if elem_lt(cols[c][i], cols[c][j], desc[c], nl) {
        true
    } else if !tot_eq(cols[c][i], cols[c][j]) {
        false
    } else {
        multi_lt_from(cols, desc, nl, i, j, c + 1)
    }
}

pub open spec fn multi_lt(
    cols: Seq<Seq<Option<Seq<u8>>>>,
    desc: Seq<bool>,
    nl: bool,
    i: int,
    j: int,
) -> bool {
    multi_lt_from(cols, desc, nl, i, j, 0)
}

/// Strict total order on row positions under the multi-key order, with ties
/// broken by the original position: multi-key sorting is stable.
pub open spec fn mpos_lt(
    cols: Seq<Seq<Option<Seq<u8>>>>,
    desc: Seq<bool>,
    nl: bool,
    i: int,
    j: int,
) -> bool {
    multi_lt(cols, desc, nl, i, j) || (multi_eq(cols, i, j) && i < j)
}

proof fn lemma_multi_eq_not_lt(
    cols: Seq<Seq<Option<Seq<u8>>>>,
    desc: Seq<bool>,
    nl: bool,
    i: int,
    j: int,
    c: int,
)
    requires
        0 <= c,
        multi_eq(cols, i, j),
    ensures
        !multi_lt_from(cols, desc, nl, i, j, c),
    decreases cols.len() - c,
{
    if c < cols.len() {
        assert(tot_eq(cols[c][i], cols[c][j]));
        lemma_elem_irrefl(cols[c][i], desc[c], nl);
        lemma_multi_eq_not_lt(cols, desc, nl, i, j, c + 1);
    }
}

proof fn lemma_multi_total_from(
    cols: Seq<Seq<Option<Seq<u8>>>>,
    desc: Seq<bool>,
    nl: bool,
    i: int,
    j: int,
    c: int,
)
    requires
        0 <= c,
    ensures
        !(multi_lt_from(cols, desc, nl, i, j, c) && multi_lt_from(cols, desc, nl, j, i, c)),
        (!multi_lt_from(cols, desc, nl, i, j, c) && !multi_lt_from(cols, desc, nl, j, i, c))
            ==> forall|c2: int|
            c <= c2 < cols.len() ==> tot_eq((#[trigger] cols[c2])[i], cols[c2][j]),
    decreases cols.len() - c,
{
    if c < cols.len() {
        lemma_elem_total(cols[c][i], cols[c][j], desc[c], nl);
        lemma_elem_total(cols[c][j], cols[c][i], desc[c], nl);
        lemma_elem_irrefl(cols[c][i], desc[c], nl);
        if tot_eq(cols[c][i], cols[c][j]) {
            lemma_multi_total_from(cols, desc, nl, i, j, c + 1);
        }
    }
}

proof fn lemma_multi_trans_from(
    cols: Seq<Seq<Option<Seq<u8>>>>,
    desc: Seq<bool>,
    nl: bool,
    a: int,
    b: int,
    e: int,
    c: int,
)
    requires
        0 <= c,
        multi_lt_from(cols, desc, nl, a, b, c),
        multi_lt_from(cols, desc, nl, b, e, c),
    ensures
        multi_lt_from(cols, desc, nl, a, e, c),
    decreases cols.len() - c,
{
    let x = cols[c][a];
    let y = cols[c][b];
    let z = cols[c][e];
    if elem_lt(x, y, desc[c], nl) && elem_lt(y, z, desc[c], nl) {
        lemma_elem_trans(x, y, z, desc[c], nl);
    }
    if tot_eq(x, y) && tot_eq(y, z) {
        lemma_elem_irrefl(x, desc[c], nl);
        lemma_multi_trans_from(cols, desc, nl, a, b, e, c + 1);
    }
}

proof fn lemma_multi_congr_right(
    cols: Seq<Seq<Option<Seq<u8>>>>,
    desc: Seq<bool>,
    nl: bool,
    i: int,
    j: int,
    k: int,
    c: int,
)
    requires
        0 <= c,
        multi_eq(cols, j, k),
    ensures
        multi_lt_from(cols, desc, nl, i, j, c) == multi_lt_from(cols, desc, nl, i, k, c),
    decreases cols.len() - c,
{
    if c < cols.len() {
        assert(tot_eq(cols[c][j], cols[c][k]));
        lemma_multi_congr_right(cols, desc, nl, i, j, k, c + 1);
    }
}

proof fn lemma_multi_congr_left(
    cols: Seq<Seq<Option<Seq<u8>>>>,
    desc: Seq<bool>,
    nl: bool,
    i: int,
    j: int,
    k: int,
    c: int,
)
    requires
        0 <= c,
        multi_eq(cols, i, j),
    ensures
        multi_lt_from(cols, desc, nl, i, k, c) == multi_lt_from(cols, desc, nl, j, k, c),
    decreases cols.len() - c,
{
    if c < cols.len() {
        assert(tot_eq(cols[c][i], cols[c][j]));
        lemma_multi_congr_left(cols, desc, nl, i, j, k, c + 1);
    }
}

pub proof fn lemma_mpos_total(
    cols: Seq<Seq<Option<Seq<u8>>>>,
    desc: Seq<bool>,
    nl: bool,
    i: int,
    j: int,
)
    requires
        i != j,
    ensures
        mpos_lt(cols, desc, nl, i, j) || mpos_lt(cols, desc, nl, j, i),
        !(mpos_lt(cols, desc, nl, i, j) && mpos_lt(cols, desc, nl, j, i)),
{
    lemma_multi_total_from(cols, desc, nl, i, j, 0);
    if multi_lt(cols, desc, nl, i, j) {
        if multi_eq(cols, i, j) {
            lemma_multi_eq_not_lt(cols, desc, nl, i, j, 0);
        }
    }
    if multi_lt(cols, desc, nl, j, i) {
        if multi_eq(cols, j, i) {
            lemma_multi_eq_not_lt(cols, desc, nl, j, i, 0);
        }
    }
    if !multi_lt(cols, desc, nl, i, j) && !multi_lt(cols, desc, nl, j, i) {
        assert(multi_eq(cols, i, j));
        assert(multi_eq(cols, j, i));
    }
}

pub proof fn lemma_mpos_trans(
    cols: Seq<Seq<Option<Seq<u8>>>>,
    desc: Seq<bool>,
    nl: bool,
    a: int,
    b: int,
    e: int,
)
    requires
        mpos_lt(cols, desc, nl, a, b),
        mpos_lt(cols, desc, nl, b, e),
    ensures
        mpos_lt(cols, desc, nl, a, e),
{
    if multi_lt(cols, desc, nl, a, b) && multi_lt(cols, desc, nl, b, e) {
        lemma_multi_trans_from(cols, desc, nl, a, b, e, 0);
    } else if multi_lt(cols, desc, nl, a, b) && multi_eq(cols, b, e) {
        lemma_multi_congr_right(cols, desc, nl, a, b, e, 0);
    } else if multi_eq(cols, a, b) && multi_lt(cols, desc, nl, b, e) {
        lemma_multi_congr_left(cols, desc, nl, a, b, e, 0);
    } else {
        assert(multi_eq(cols, a, e));
    }
}

/// Views of a list of flat key vectors.
pub open spec fn col_views(flats: Seq<Vec<Option<Vec<u8>>>>) -> Seq<Seq<Option<Seq<u8>>>> {
    Seq::new(flats.len(), |c: int| flat_view(flats[c]@))
}

/// Executable comparison of two row positions under the multi-key order.
fn mpos_less(
    flats: &Vec<Vec<Option<Vec<u8>>>>,
    desc: &Vec<bool>,
    nl: bool,
    i: usize,
    j: usize,
) -> (r: bool)
    requires
        desc@.len() == flats@.len(),
        forall|c: int|
            0 <= c < flats@.len() ==> i < (#[trigger] flats@[c])@.len() && j < flats@[c]@.len(),
    ensures
        r == mpos_lt(col_views(flats@), desc@, nl, i as int, j as int),
{
    let ghost cols = col_views(flats@);
    let mut c: usize = 0;
    while c < flats.len()
        invariant
            cols == col_views(flats@),
            desc@.len() == flats@.len(),
            forall|c2: int|
                0 <= c2 < flats@.len() ==> i < (#[trigger] flats@[c2])@.len() && j
                    < flats@[c2]@.len(),
            c <= flats@.len(),
            multi_lt(cols, desc@, nl, i as int, j as int) == multi_lt_from(
                cols,
                desc@,
                nl,
                i as int,
                j as int,
                c as int,
            ),
            forall|c2: int|
                0 <= c2 < c ==> tot_eq((#[trigger] cols[c2])[i as int], cols[c2][j as int]),
        decreases flats@.len() - c,
    {
        let fc = &flats[c];
        if elem_less(&fc[i], &fc[j], desc[c], nl) {
            return true;
        }
        if !elem_equal(&fc[i], &fc[j]) {
            return false;
        }
        c = c + 1;
    }
    proof {
        assert(multi_eq(cols, i as int, j as int));
    }
    i < j
}

/// What it means for `p` to be the multi-key argsort of the key columns.
pub open spec fn is_arg_sort_multiple(
    cols: Seq<Seq<Option<Seq<u8>>>>,
    desc: Seq<bool>,
    nl: bool,
    p: Seq<usize>,
) -> bool {
    &&& cols.len() > 0
    &&& p.len() == cols[0].len()
    &&& forall|k: int| 0 <= k < p.len() ==> (#[trigger] p[k]) < cols[0].len()
    &&& forall|k1: int, k2: int|
        0 <= k1 < k2 < p.len() ==> mpos_lt(cols, desc, nl, p[k1] as int, p[k2] as int)
}

/// Multi-key argsort by selection, the least remaining position first.
fn arg_sort_multiple_flat(flats: &Vec<Vec<Option<Vec<u8>>>>, desc: &Vec<bool>, nl: bool) -> (p:
    Vec<usize>)
    requires
        desc@.len() == flats@.len(),
        flats@.len() > 0,
        forall|c: int| 0 <= c < flats@.len() ==> (#[trigger] flats@[c])@.len() == flats@[0]@.len(),
    ensures
        is_arg_sort_multiple(col_views(flats@), desc@, nl, p@),
        forall|k1: int, k2: int| 0 <= k1 < k2 < p@.len() ==> p@[k1] != p@[k2],
{
    let ghost cols = col_views(flats@);
    let n: usize = flats[0].len();
    let mut p: Vec<usize> = Vec::new();
    let mut i: usize = 0;
    while i < n
        invariant
            i <= n,
            p@.len() == i,
            forall|k: int| 0 <= k < i ==> p@[k] == k,
        decreases n - i,
    {
        p.push(i);
        i = i + 1;
    }
    let mut i: usize = 0;
    while i < n
        invariant
            cols == col_views(flats@),
            desc@.len() == flats@.len(),
            flats@.len() > 0,
            forall|c: int|
                0 <= c < flats@.len() ==> (#[trigger] flats@[c])@.len() == flats@[0]@.len(),
            n == flats@[0]@.len(),
            i <= n,
            p@.len() == n,
            forall|k: int| 0 <= k < n ==> (#[trigger] p@[k]) < n,
            forall|k1: int, k2: int| 0 <= k1 < k2 < n ==> p@[k1] != p@[k2],
            forall|a: int, b: int|
                0 <= a < b < i ==> mpos_lt(cols, desc@, nl, p@[a] as int, p@[b] as int),
            forall|a: int, b: int|
                0 <= a < i <= b < n ==> mpos_lt(cols, desc@, nl, p@[a] as int, p@[b] as int),
        decreases n - i,
    {
        let mut best: usize = i;
        let mut j: usize = i + 1;
        while j < n
            invariant
                cols == col_views(flats@),
                desc@.len() == flats@.len(),
                flats@.len() > 0,
                forall|c: int|
                    0 <= c < flats@.len() ==> (#[trigger] flats@[c])@.len() == flats@[0]@.len(),
                n == flats@[0]@.len(),
                i < n,
                i <= best < j <= n,
                p@.len() == n,
                forall|k: int| 0 <= k < n ==> (#[trigger] p@[k]) < n,
                forall|k1: int, k2: int| 0 <= k1 < k2 < n ==> p@[k1] != p@[k2],
                forall|k: int|
                    i <= k < j && k != best ==> mpos_lt(
                        cols,
                        desc@,
                        nl,
                        p@[best as int] as int,
                        p@[k] as int,
                    ),
            decreases n - j,
        {
            if mpos_less(flats, desc, nl, p[j], p[best]) {
                let ghost old_best = best as int;
                best = j;
                proof {
                    assert forall|k: int| i <= k < j + 1 && k != best implies mpos_lt(
                        cols,
                        desc@,
                        nl,
                        p@[best as int] as int,
                        p@[k] as int,
                    ) by {
                        if k != old_best {
                            lemma_mpos_trans(
                                cols,
                                desc@,
                                nl,
                                p@[best as int] as int,
                                p@[old_best] as int,
                                p@[k] as int,
                            );
                        }
                    }
                }
            } else {
                proof {
                    lemma_mpos_total(cols, desc@, nl, p@[j as int] as int, p@[best as int] as int);
                }
            }
            j = j + 1;
        }
        let ghost pre = p@;
        let pi = p[i];
        let pb = p[best];
        p.set(i, pb);
        p.set(best, pi);
        proof {
            assert forall|k1: int, k2: int| 0 <= k1 < k2 < n implies p@[k1] != p@[k2] by {
                let m1: int = if k1 == i { best as int } else if k1 == best { i as int } else { k1 };
                let m2: int = if k2 == i { best as int } else if k2 == best { i as int } else { k2 };
                assert(p@[k1] == pre[m1]);
                assert(p@[k2] == pre[m2]);
            }
            assert forall|a: int, b: int| 0 <= a < b < i + 1 implies mpos_lt(
                cols,
                desc@,
                nl,
                p@[a] as int,
                p@[b] as int,
            ) by {
                if b == i as int {
                    assert(p@[b] == pre[best as int]);
                    assert(p@[a] == pre[a]);
                } else {
                    assert(p@[a] == pre[a] && p@[b] == pre[b]);
                }
            }
            assert forall|a: int, b: int| 0 <= a < i + 1 <= b < n implies mpos_lt(
                cols,
                desc@,
                nl,
                p@[a] as int,
                p@[b] as int,
            ) by {
                if a < i as int {
                    if b == best as int {
                        assert(p@[b] == pre[i as int]);
                    } else {
                        assert(p@[b] == pre[b]);
                    }
                    assert(p@[a] == pre[a]);
                } else {
                    assert(a == i as int);
                    assert(p@[a] == pre[best as int]);
                    if b == best as int {
                        assert(p@[b] == pre[i as int]);
                        assert(best != i);
                        assert(mpos_lt(cols, desc@, nl, pre[best as int] as int, pre[i as int] as int));
                    } else {
                        assert(p@[b] == pre[b]);
                        assert(b != best as int && i <= b < n);
                        assert(mpos_lt(cols, desc@, nl, pre[best as int] as int, pre[b] as int));
                    }
                }
            }
        }
        i = i + 1;
    }
    p
}

/// The views of a first key column and the further key columns, in order.
pub open spec fn key_views(
    first: Seq<Option<Seq<u8>>>,
    others: Seq<BinaryChunked>,
) -> Seq<Seq<Option<Seq<u8>>>> {
    seq![first] + Seq::new(others.len(), |c: int| others[c]@)
}

impl BinaryChunked {
    /// Multi-key argsort: this column is the first key and `others` the
    /// further keys, each with its own direction in `descending`.  Keys must
    /// agree in length, one direction per key; the permutation realizes the
    /// lexicographic multi-key order, stable on full ties.
    pub fn arg_sort_multiple(
        &self,
        others: &Vec<BinaryChunked>,
        descending: &Vec<bool>,
        nulls_last: bool,
    ) -> (r: Result<Vec<usize>, Error>)
        requires
            self.wf(),
            forall|c: int| 0 <= c < others@.len() ==> (#[trigger] others@[c]).wf(),
        ensures
            (r matches Ok(p)) <==> (descending@.len() == 1 + others@.len() && (forall|c: int|
                0 <= c < others@.len() ==> (#[trigger] others@[c])@.len() == self@.len())),
            r matches Ok(p) ==> is_arg_sort_multiple(
                key_views(self@, others@),
                descending@,
                nulls_last,
                p@,
            ) && (forall|k1: int, k2: int| 0 <= k1 < k2 < p@.len() ==> p@[k1] != p@[k2]),
            r matches Err(e) ==> e matches Error::LengthMismatch { op: _, expected: _, got: _ },
    {
        if descending.len() == 0 || descending.len() - 1 != others.len() {
            return Err(
                Error::LengthMismatch {
                    op: Op::Sort,
                    expected: others.len(),
                    got: descending.len(),
                },
            );
        }
        let mut c: usize = 0;
        while c < others.len()
            invariant
                self.wf(),
                forall|c2: int| 0 <= c2 < others@.len() ==> (#[trigger] others@[c2]).wf(),
                c <= others@.len(),
                forall|c2: int|
                    0 <= c2 < c ==> (#[trigger] others@[c2])@.len() == self@.len(),
            decreases others@.len() - c,
        {
            if others[c].len() != self.len() {
                return Err(
                    Error::LengthMismatch {
                        op: Op::Sort,
                        expected: self.length,
                        got: others[c].length,
                    },
                );
            }
            c = c + 1;
        }
        let mut flats: Vec<Vec<Option<Vec<u8>>>> = Vec::new();
        flats.push(self.to_flat());
        let mut c: usize = 0;
        while c < others.len()
            invariant
                self.wf(),
                forall|c2: int| 0 <= c2 < others@.len() ==> (#[trigger] others@[c2]).wf(),
                forall|c2: int|
                    0 <= c2 < others@.len() ==> (#[trigger] others@[c2])@.len() == self@.len(),
                c <= others@.len(),
                flats@.len() == 1 + c,
                flat_view(flats@[0]@) == self@,
                flats@[0]@.len() == self@.len(),
                forall|c2: int|
                    1 <= c2 < flats@.len() ==> flat_view((#[trigger] flats@[c2])@) == others@[c2
                        - 1]@ && flats@[c2]@.len() == self@.len(),
            decreases others@.len() - c,
        {
            flats.push(others[c].to_flat());
            c = c + 1;
        }
        proof {
            assert(col_views(flats@) =~= key_views(self@, others@));
        }
        let p = arg_sort_multiple_flat(&flats, descending, nulls_last);
        Ok(p)
    }
}

} // verus!
