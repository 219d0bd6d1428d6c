//! Equality and ordering adapters.
//!
//! Grouping, uniqueness and sorting all compare elements through the two
//! relations defined here: a *total equality* (null equals null) and a
//! *total order* (null is placed before or after every value, by
//! configuration).  Arithmetic or display equality is never reused for these
//! algorithms because it is partial for null.

use vstd::prelude::*;

verus! {

/// Lexicographic strict order on byte sequences, read from position `i` on:
/// a proper prefix sorts before its extensions.
pub open spec fn bytes_lt_from(a: Seq<u8>, b: Seq<u8>, i: int) -> bool
    decreases b.len() - i,
{
    if i < 0 {
        false
    } else if i >= b.len() {
        false
    } else if i >= a.len() {
        true
    } else if a[i] < b[i] {
        true
    } else if a[i] > b[i] {
        false
    } else {
        bytes_lt_from(a, b, i + 1)
    }
}

/// Lexicographic strict order on whole byte sequences.
pub open spec fn bytes_lt(a: Seq<u8>, b: Seq<u8>) -> bool {
    bytes_lt_from(a, b, 0)
}

pub proof fn lemma_bytes_lt_from_irrefl(a: Seq<u8>, i: int)
    ensures
        !bytes_lt_from(a, a, i),
    decreases a.len() - i,
{
    if 0 <= i && i < a.len() {
        lemma_bytes_lt_from_irrefl(a, i + 1);
    }
}

proof fn lemma_bytes_lt_from_total(a: Seq<u8>, b: Seq<u8>, i: int)
    requires
        0 <= i,
    ensures
        !(bytes_lt_from(a, b, i) && bytes_lt_from(b, a, i)),
        (!bytes_lt_from(a, b, i) && !bytes_lt_from(b, a, i) && i <= a.len() && i <= b.len())
            ==> (a.len() == b.len() && forall|k: int| i <= k < a.len() ==> a[k] == b[k]),
    decreases b.len() - i,
{
    if i < a.len() && i < b.len() && a[i] == b[i] {
        lemma_bytes_lt_from_total(a, b, i + 1);
    }
}

/// The byte order is asymmetric, and two sequences neither of which sorts
/// before the other are equal: together with transitivity this makes it a
/// strict total order.
pub proof fn lemma_bytes_total(a: Seq<u8>, b: Seq<u8>)
    ensures
        !(bytes_lt(a, b) && bytes_lt(b, a)),
        (!bytes_lt(a, b) && !bytes_lt(b, a)) ==> a == b,
{
    lemma_bytes_lt_from_total(a, b, 0);
    if !bytes_lt(a, b) && !bytes_lt(b, a) {
        assert(a =~= b);
    }
}

proof fn lemma_bytes_lt_from_trans(a: Seq<u8>, b: Seq<u8>, c: Seq<u8>, i: int)
    requires
        0 <= i,
        bytes_lt_from(a, b, i),
        bytes_lt_from(b, c, i),
    ensures
        bytes_lt_from(a, c, i),
    decreases c.len() - i,
{
    if i < a.len() && i < b.len() && i < c.len() && a[i] == b[i] && b[i] == c[i] {
        lemma_bytes_lt_from_trans(a, b, c, i + 1);
    }
}

pub proof fn lemma_bytes_lt_trans(a: Seq<u8>, b: Seq<u8>, c: Seq<u8>)
    requires
        bytes_lt(a, b),
        bytes_lt(b, c),
    ensures
        bytes_lt(a, c),
{
    lemma_bytes_lt_from_trans(a, b, c, 0);
}

/// Total equality over elements.  On the view an element is an
/// `Option<Seq<u8>>`, so plain equality is already total: null equals null,
/// and two values are equal exactly when their bytes are.  This one relation
/// is shared by grouping, uniqueness and sort tie-breaking.
pub open spec fn tot_eq(x: Option<Seq<u8>>, y: Option<Seq<u8>>) -> bool {
    x == y
}

/// Total strict order over elements under a direction and a null placement:
/// null sits before every value, or after every value when `nulls_last`.
pub open spec fn elem_lt(
    x: Option<Seq<u8>>,
    y: Option<Seq<u8>>,
    descending: bool,
    nulls_last: bool,
) -> bool {
    match (x, y) {
        (Option::None, Option::None) => false,
        (Option::None, Option::Some(_)) => !nulls_last,
        (Option::Some(_), Option::None) => nulls_last,
        (Option::Some(a), Option::Some(b)) => if descending {
            bytes_lt(b, a)
        } else {
            bytes_lt(a, b)
        },
    }
}

/// Non-strict companion of [`elem_lt`].
pub open spec fn elem_le(
    x: Option<Seq<u8>>,
    y: Option<Seq<u8>>,
    descending: bool,
    nulls_last: bool,
) -> bool {
    elem_lt(x, y, descending, nulls_last) || tot_eq(x, y)
}

/// The element order is asymmetric and total: two elements neither of which
/// sorts before the other are equal under the total equality.
pub proof fn lemma_elem_total(
    x: Option<Seq<u8>>,
    y: Option<Seq<u8>>,
    descending: bool,
    nulls_last: bool,
)
    ensures
        !(elem_lt(x, y, descending, nulls_last) && elem_lt(y, x, descending, nulls_last)),
        (!elem_lt(x, y, descending, nulls_last) && !elem_lt(y, x, descending, nulls_last))
            ==> tot_eq(x, y),
{
    match (x, y) {
        (Option::Some(a), Option::Some(b)) => {
            lemma_bytes_total(a, b);
            lemma_bytes_total(b, a);
        },
        _ => {},
    }
}

pub proof fn lemma_elem_irrefl(x: Option<Seq<u8>>, descending: bool, nulls_last: bool)
    ensures
        !elem_lt(x, x, descending, nulls_last),
{
    match x {
        Option::Some(a) => {
            lemma_bytes_lt_from_irrefl(a, 0);
        },
        Option::None => {},
    }
}

pub proof fn lemma_elem_trans(
    x: Option<Seq<u8>>,
    y: Option<Seq<u8>>,
    z: Option<Seq<u8>>,
    descending: bool,
    nulls_last: bool,
)
    requires
        elem_lt(x, y, descending, nulls_last),
        elem_lt(y, z, descending, nulls_last),
    ensures
        elem_lt(x, z, descending, nulls_last),
{
    match (x, y, z) {
        (Option::Some(a), Option::Some(b), Option::Some(c)) => {
            if descending {
                lemma_bytes_lt_trans(c, b, a);
            } else {
                lemma_bytes_lt_trans(a, b, c);
            }
        },
        _ => {},
    }
}

/// Spec view of an optional byte vector as an optional byte sequence.
pub open spec fn opt_view(x: Option<Vec<u8>>) -> Option<Seq<u8>> {
    match x {
        Option::Some(v) => Option::Some(v@),
        Option::None => Option::None,
    }
}

/// Executable lexicographic comparison realizing [`bytes_lt`].
pub fn bytes_less(a: &Vec<u8>, b: &Vec<u8>) -> (r: bool)
    ensures
        r == bytes_lt(a@, b@),
{
    let mut i: usize = 0;
    while i < a.len() && i < b.len()
        invariant
            i <= a@.len(),
            i <= b@.len(),
            bytes_lt(a@, b@) == bytes_lt_from(a@, b@, i as int),
        decreases a@.len() - i,
    {
        let x = a[i];
        let y = b[i];
        if x < y {
            return true;
        }
        if x > y {
            return false;
        }
        i = i + 1;
    }
    if i >= b.len() {
        false
    } else {
        true
    }
}

/// Executable total equality on byte vectors.
pub fn bytes_equal(a: &Vec<u8>, b: &Vec<u8>) -> (r: bool)
    ensures
        r == (a@ == b@),
{
    if a.len() != b.len() {
        return false;
    }
    let mut i: usize = 0;
    while i < a.len()
        invariant
            i <= a@.len(),
            a@.len() == b@.len(),
            forall|k: int| 0 <= k < i ==> a@[k] == b@[k],
        decreases a@.len() - i,
    {
        if a[i] != b[i] {
            return false;
        }
        i = i + 1;
    }
    proof {
        assert(a@ =~= b@);
    }
    true
}

/// Executable total order over elements, realizing [`elem_lt`].
pub fn elem_less(
    x: &Option<Vec<u8>>,
    y: &Option<Vec<u8>>,
    descending: bool,
    nulls_last: bool,
) -> (r: bool)
    ensures
        r == elem_lt(opt_view(*x), opt_view(*y), descending, nulls_last),
{
    match (x, y) {
        (Option::None, Option::None) => false,
        (Option::None, Option::Some(_)) => !nulls_last,
        (Option::Some(_), Option::None) => nulls_last,
        (Option::Some(a), Option::Some(b)) => if descending {
            bytes_less(b, a)
        } else {
            bytes_less(a, b)
        },
    }
}

/// Executable total equality over elements, realizing [`tot_eq`].
pub fn elem_equal(x: &Option<Vec<u8>>, y: &Option<Vec<u8>>) -> (r: bool)
    ensures
        r == tot_eq(opt_view(*x), opt_view(*y)),
{
    match (x, y) {
        (Option::None, Option::None) => true,
        (Option::Some(a), Option::Some(b)) => bytes_equal(a, b),
        _ => false,
    }
}

} // verus!
