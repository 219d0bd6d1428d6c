//! Row-selection and element-wise operations on the binary store: filter,
//! checked and unchecked take, unique, reverse, shift, zip, null queries and
//! extrema.  The unchecked tier replaces run-time validation by a proven
//! caller obligation, so it is safe exactly where the checked tier would
//! have succeeded.

use vstd::prelude::*;

use crate::adapters::{bytes_lt, elem_equal, opt_view, tot_eq};
use crate::chunked::{chunk_from_options, copy_opt, flat_view, BinaryChunked};
use crate::dtype::{DataType, Error, Field, Op, Settings};
use crate::group::{arg_unique_flat, is_arg_unique};
use crate::sort::apply_perm;

verus! {

/// The elements of the first `i` rows of `s` whose mask bit is set, in order.
pub open spec fn filtered_prefix(s: Seq<Option<Seq<u8>>>, m: Seq<bool>, i: int) -> Seq<
    Option<Seq<u8>>,
>
    decreases i,
{
    if i <= 0 {
        Seq::empty()
    } else {
        filtered_prefix(s, m, i - 1) + (if m[i - 1] {
            seq![s[i - 1]]
        } else {
            Seq::empty()
        })
    }
}

/// The rows of `s` selected by a boolean mask of equal length.
pub open spec fn filter_spec(s: Seq<Option<Seq<u8>>>, m: Seq<bool>) -> Seq<Option<Seq<u8>>> {
    filtered_prefix(s, m, s.len() as int)
}

/// Number of nulls among the first `i` rows.
pub open spec fn nulls_upto(s: Seq<Option<Seq<u8>>>, i: int) -> int
    decreases i,
{
    if i <= 0 {
        0
    } else {
        nulls_upto(s, i - 1) + (if s[i - 1] is None {
            1int
        } else {
            0int
        })
    }
}

/// Some row of `s` is null.
pub open spec fn has_null(s: Seq<Option<Seq<u8>>>) -> bool {
    exists|k: int| 0 <= k < s.len() && (#[trigger] s[k]) is None
}

impl BinaryChunked {
    /// Keep the rows whose mask bit is set.  A mask of any other length is
    /// rejected, never truncated: that is the single documented policy.
    pub fn filter(&self, mask: &Vec<bool>) -> (r: Result<BinaryChunked, Error>)
        requires
            self.wf(),
        ensures
            (r matches Ok(c)) <==> mask@.len() == self@.len(),
            r matches Ok(c) ==> c.wf() && c@ == filter_spec(self@, mask@) && c.field.name@
                == self.field.name@ && c.field.dtype == DataType::Binary,
            mask@.len() != self@.len() ==> r == Err::<BinaryChunked, Error>(
                Error::LengthMismatch {
                    op: Op::Filter,
                    expected: self@.len() as usize,
                    got: mask@.len() as usize,
                },
            ),
    {
        if mask.len() != self.len() {
            return Err(
                Error::LengthMismatch { op: Op::Filter, expected: self.length, got: mask.len() },
            );
        }
        let flat = self.to_flat();
        let mut out: Vec<Option<Vec<u8>>> = Vec::new();
        let mut i: usize = 0;
        while i < flat.len()
            invariant
                i <= flat@.len(),
                mask@.len() == flat@.len(),
                flat_view(flat@) == self@,
                flat@.len() == self@.len(),
                flat_view(out@) == filtered_prefix(self@, mask@, i as int),
            decreases flat@.len() - i,
        {
            if mask[i] {
                let x = copy_opt(&flat[i]);
                let ghost prev = out@;
                out.push(x);
                proof {
                    crate::chunked::lemma_flat_view_push(prev, out@.last());
                    assert(flat_view(out@) =~= filtered_prefix(self@, mask@, i + 1));
                }
            } else {
                proof {
                    assert(flat_view(out@) =~= filtered_prefix(self@, mask@, i + 1));
                }
            }
            i = i + 1;
        }
        let chunk = chunk_from_options(&out);
        Ok(
            BinaryChunked::single_chunk_store(
                Field { name: self.field.name.clone(), dtype: DataType::Binary },
                chunk,
                Settings { sorted_ascending: false, sorted_descending: false },
            ),
        )
    }

    /// Gather rows by index without validation.  Callers must have proven
    /// every index in bounds; the checked tier below does so at run time.
    pub fn take_unchecked(&self, indices: &Vec<usize>) -> (r: BinaryChunked)
        requires
            self.wf(),
            forall|k: int| 0 <= k < indices@.len() ==> (#[trigger] indices@[k]) < self@.len(),
        ensures
            r.wf(),
            r@ == apply_perm(self@, indices@),
            r@.len() == indices@.len(),
            r.field.name@ == self.field.name@,
            r.field.dtype == DataType::Binary,
    {
        let flat = self.to_flat();
        let mut out: Vec<Option<Vec<u8>>> = Vec::new();
        let mut k: usize = 0;
        while k < indices.len()
            invariant
                self.wf(),
                forall|j: int| 0 <= j < indices@.len() ==> (#[trigger] indices@[j]) < self@.len(),
                k <= indices@.len(),
                out@.len() == k,
                flat_view(flat@) == self@,
                flat@.len() == self@.len(),
                forall|j: int|
                    0 <= j < k ==> opt_view(#[trigger] out@[j]) == self@[indices@[j] as int],
            decreases indices@.len() - k,
        {
            let x = copy_opt(&flat[indices[k]]);
            out.push(x);
            k = k + 1;
        }
        let chunk = chunk_from_options(&out);
        let r = BinaryChunked::single_chunk_store(
            Field { name: self.field.name.clone(), dtype: DataType::Binary },
            chunk,
            Settings { sorted_ascending: false, sorted_descending: false },
        );
        proof {
            assert(r@ =~= apply_perm(self@, indices@));
        }
        r
    }

    /// Gather rows by index, validating every index first.  Succeeds if and
    /// only if all indices are in bounds; nothing is gathered otherwise.
    pub fn take(&self, indices: &Vec<usize>) -> (r: Result<BinaryChunked, Error>)
        requires
            self.wf(),
        ensures
            (r matches Ok(c)) <==> (forall|k: int|
                0 <= k < indices@.len() ==> (#[trigger] indices@[k]) < self@.len()),
            r matches Ok(c) ==> c.wf() && c@ == apply_perm(self@, indices@) && c@.len()
                == indices@.len() && c.field.name@ == self.field.name@,
            r matches Err(e) ==> exists|k: int|
                0 <= k < indices@.len() && (#[trigger] indices@[k]) >= self@.len() && e == (
                Error::OutOfBounds {
                    op: Op::Take,
                    index: indices@[k],
                    len: self@.len() as usize,
                }),
    {
        let mut k: usize = 0;
        while k < indices.len()
            invariant
                self.wf(),
                k <= indices@.len(),
                forall|j: int| 0 <= j < k ==> (#[trigger] indices@[j]) < self@.len(),
            decreases indices@.len() - k,
        {
            if indices[k] >= self.length {
                return Err(
                    Error::OutOfBounds { op: Op::Take, index: indices[k], len: self.length },
                );
            }
            k = k + 1;
        }
        Ok(self.take_unchecked(indices))
    }

    /// The distinct values in first-occurrence order, as a new column.
    pub fn unique(&self) -> (r: Result<BinaryChunked, Error>)
        requires
            self.wf(),
        ensures
            r matches Ok(c) && c.wf() && exists|u: Seq<usize>|
                is_arg_unique(self@, u) && c@ == apply_perm(self@, u),
    {
        let flat = self.to_flat();
        let u = arg_unique_flat(&flat);
        let c = self.take_unchecked(&u);
        Ok(c)
    }

    /// The rows in reverse order.
    pub fn reverse(&self) -> (r: BinaryChunked)
        requires
            self.wf(),
        ensures
            r.wf(),
            r@.len() == self@.len(),
            forall|k: int| 0 <= k < r@.len() ==> r@[k] == self@[self@.len() - 1 - k],
            r.field.name@ == self.field.name@,
            r.field.dtype == DataType::Binary,
    {
        let flat = self.to_flat();
        let n: usize = flat.len();
        let mut out: Vec<Option<Vec<u8>>> = Vec::new();
        let mut k: usize = 0;
        while k < n
            invariant
                n == flat@.len(),
                flat_view(flat@) == self@,
                flat@.len() == self@.len(),
                k <= n,
                out@.len() == k,
                forall|j: int|
                    0 <= j < k ==> opt_view(#[trigger] out@[j]) == self@[n - 1 - j],
            decreases n - k,
        {
            let x = copy_opt(&flat[n - 1 - k]);
            out.push(x);
            k = k + 1;
        }
        let chunk = chunk_from_options(&out);
        BinaryChunked::single_chunk_store(
            Field { name: self.field.name.clone(), dtype: DataType::Binary },
            chunk,
            Settings { sorted_ascending: false, sorted_descending: false },
        )
    }

    /// Shift rows by `periods` (positive: toward higher indices), filling
    /// the vacated rows with null.
    pub fn shift(&self, periods: i64) -> (r: BinaryChunked)
        requires
            self.wf(),
        ensures
            r.wf(),
            r@.len() == self@.len(),
            forall|k: int|
                0 <= k < r@.len() ==> r@[k] == (if 0 <= k - periods && k - periods < self@.len() {
                    self@[k - periods]
                } else {
                    Option::<Seq<u8>>::None
                }),
            r.field.name@ == self.field.name@,
            r.field.dtype == DataType::Binary,
    {
        let flat = self.to_flat();
        let n: usize = flat.len();
        let mut out: Vec<Option<Vec<u8>>> = Vec::new();
        if periods >= 0 {
            let np: usize = if periods as u64 >= n as u64 {
                n
            } else {
                periods as usize
            };
            let mut k: usize = 0;
            while k < np
                invariant
                    np <= n,
                    periods >= 0,
                    np as int == (if periods as int >= n as int { n as int } else { periods as int }),
                    k <= np,
                    out@.len() == k,
                    forall|j: int| 0 <= j < k ==> opt_view(#[trigger] out@[j]) is None,
                decreases np - k,
            {
                out.push(Option::None);
                k = k + 1;
            }
            let mut j: usize = 0;
            while j < n - np
                invariant
                    np <= n,
                    n == flat@.len(),
                    flat_view(flat@) == self@,
                    flat@.len() == self@.len(),
                    j <= n - np,
                    out@.len() == np + j,
                    forall|m: int| 0 <= m < np ==> opt_view(#[trigger] out@[m]) is None,
                    forall|m: int|
                        np <= m < np + j ==> opt_view(#[trigger] out@[m]) == self@[m - np],
                decreases n - np - j,
            {
                let x = copy_opt(&flat[j]);
                out.push(x);
                j = j + 1;
            }
        } else {
            let mag: u64 = if periods == i64::MIN {
                0x8000_0000_0000_0000u64
            } else {
                (-periods) as u64
            };
            proof {
                assert(mag as int == -(periods as int));
            }
            let m: usize = if mag >= n as u64 {
                n
            } else {
                mag as usize
            };
            let mut j: usize = m;
            while j < n
                invariant
                    m <= n,
                    m as int == (if mag as int >= n as int { n as int } else { mag as int }),
                    n == flat@.len(),
                    flat_view(flat@) == self@,
                    flat@.len() == self@.len(),
                    m <= j <= n,
                    out@.len() == j - m,
                    forall|t: int| 0 <= t < j - m ==> opt_view(#[trigger] out@[t]) == self@[t + m],
                decreases n - j,
            {
                let x = copy_opt(&flat[j]);
                out.push(x);
                j = j + 1;
            }
            let mut k: usize = 0;
            while k < m
                invariant
                    m <= n,
                    m as int == (if mag as int >= n as int { n as int } else { mag as int }),
                    n == self@.len(),
                    k <= m,
                    out@.len() == n - m + k,
                    forall|t: int| 0 <= t < n - m ==> opt_view(#[trigger] out@[t]) == self@[t + m],
                    forall|t: int|
                        n - m <= t < n - m + k ==> opt_view(#[trigger] out@[t]) is None,
                decreases m - k,
            {
                out.push(Option::None);
                k = k + 1;
            }
        }
        let chunk = chunk_from_options(&out);
        let r = BinaryChunked::single_chunk_store(
            Field { name: self.field.name.clone(), dtype: DataType::Binary },
            chunk,
            Settings { sorted_ascending: false, sorted_descending: false },
        );
        proof {
            assert forall|k: int| 0 <= k < r@.len() implies r@[k] == (if 0 <= k - periods && k
                - periods < self@.len() {
                self@[k - periods]
            } else {
                Option::<Seq<u8>>::None
            }) by {
            }
        }
        r
    }

    /// Repeat the value at `index`, `length` times.
    pub fn new_from_index(&self, index: usize, length: usize) -> (r: BinaryChunked)
        requires
            self.wf(),
            index < self@.len(),
        ensures
            r.wf(),
            r@.len() == length,
            forall|k: int| 0 <= k < length ==> r@[k] == self@[index as int],
            r.field.name@ == self.field.name@,
            r.field.dtype == DataType::Binary,
    {
        let flat = self.to_flat();
        let mut out: Vec<Option<Vec<u8>>> = Vec::new();
        let mut k: usize = 0;
        while k < length
            invariant
                index < flat@.len(),
                flat_view(flat@) == self@,
                flat@.len() == self@.len(),
                k <= length,
                out@.len() == k,
                forall|j: int| 0 <= j < k ==> opt_view(#[trigger] out@[j]) == self@[index as int],
            decreases length - k,
        {
            let x = copy_opt(&flat[index]);
            out.push(x);
            k = k + 1;
        }
        let chunk = chunk_from_options(&out);
        BinaryChunked::single_chunk_store(
            Field { name: self.field.name.clone(), dtype: DataType::Binary },
            chunk,
            Settings { sorted_ascending: false, sorted_descending: false },
        )
    }

    /// Merge two same-typed columns by a boolean mask: where the bit is set
    /// the row comes from `self`, else from `other`.
    pub fn zip_with_same_type(&self, mask: &Vec<bool>, other: &BinaryChunked) -> (r: Result<
        BinaryChunked,
        Error,
    >)
        requires
            self.wf(),
            other.wf(),
        ensures
            (r matches Ok(c)) <==> (mask@.len() == self@.len() && other@.len() == self@.len()),
            r matches Ok(c) ==> c.wf() && c@.len() == self@.len() && (forall|k: int|
                0 <= k < self@.len() ==> c@[k] == (if mask@[k] {
                    self@[k]
                } else {
                    other@[k]
                })) && c.field.name@ == self.field.name@,
    {
        if mask.len() != self.len() {
            return Err(
                Error::LengthMismatch { op: Op::ZipWith, expected: self.length, got: mask.len() },
            );
        }
        if other.len() != self.len() {
            return Err(
                Error::LengthMismatch { op: Op::ZipWith, expected: self.length, got: other.length },
            );
        }
        let flat = self.to_flat();
        let oflat = other.to_flat();
        let mut out: Vec<Option<Vec<u8>>> = Vec::new();
        let mut k: usize = 0;
        while k < flat.len()
            invariant
                mask@.len() == self@.len(),
                other@.len() == self@.len(),
                flat_view(flat@) == self@,
                flat@.len() == self@.len(),
                flat_view(oflat@) == other@,
                oflat@.len() == other@.len(),
                k <= self@.len(),
                out@.len() == k,
                forall|j: int|
                    0 <= j < k ==> opt_view(#[trigger] out@[j]) == (if mask@[j] {
                        self@[j]
                    } else {
                        other@[j]
                    }),
            decreases flat@.len() - k,
        {
            let x = if mask[k] {
                copy_opt(&flat[k])
            } else {
                copy_opt(&oflat[k])
            };
            out.push(x);
            k = k + 1;
        }
        let chunk = chunk_from_options(&out);
        Ok(
            BinaryChunked::single_chunk_store(
                Field { name: self.field.name.clone(), dtype: DataType::Binary },
                chunk,
                Settings { sorted_ascending: false, sorted_descending: false },
            ),
        )
    }

    /// Total equality of one row of `self` and one row of `other`.
    pub fn equal_element(&self, idx_self: usize, other: &BinaryChunked, idx_other: usize) -> (r:
        bool)
        requires
            self.wf(),
            other.wf(),
            idx_self < self@.len(),
            idx_other < other@.len(),
        ensures
            r == tot_eq(self@[idx_self as int], other@[idx_other as int]),
    {
        let a = self.get_unchecked(idx_self);
        let b = other.get_unchecked(idx_other);
        elem_equal(&a, &b)
    }

    /// Number of null rows, derived from the chunks rather than stored.
    pub fn null_count(&self) -> (r: usize)
        requires
            self.wf(),
        ensures
            r == nulls_upto(self@, self@.len() as int),
    {
        let flat = self.to_flat();
        let mut count: usize = 0;
        let mut i: usize = 0;
        while i < flat.len()
            invariant
                flat_view(flat@) == self@,
                flat@.len() == self@.len(),
                i <= self@.len(),
                count == nulls_upto(self@, i as int),
                count <= i,
            decreases flat@.len() - i,
        {
            let is_n = match &flat[i] {
                Option::None => true,
                Option::Some(_) => false,
            };
            if is_n {
                count = count + 1;
            }
            i = i + 1;
        }
        count
    }

    /// Whether any row is null.
    pub fn has_validity(&self) -> (r: bool)
        requires
            self.wf(),
        ensures
            r == has_null(self@),
    {
        let flat = self.to_flat();
        let mut i: usize = 0;
        while i < flat.len()
            invariant
                flat_view(flat@) == self@,
                flat@.len() == self@.len(),
                i <= self@.len(),
                forall|k: int| 0 <= k < i ==> !((#[trigger] self@[k]) is None),
            decreases flat@.len() - i,
        {
            let is_n = match &flat[i] {
                Option::None => true,
                Option::Some(_) => false,
            };
            if is_n {
                proof {
                    assert(self@[i as int] is None);
                }
                return true;
            }
            i = i + 1;
        }
        false
    }

    /// One mask bit per row: set exactly on the null rows.
    pub fn is_null(&self) -> (r: Vec<bool>)
        requires
            self.wf(),
        ensures
            r@.len() == self@.len(),
            forall|k: int| 0 <= k < r@.len() ==> r@[k] == ((#[trigger] self@[k]) is None),
    {
        let flat = self.to_flat();
        let mut out: Vec<bool> = Vec::new();
        let mut i: usize = 0;
        while i < flat.len()
            invariant
                flat_view(flat@) == self@,
                flat@.len() == self@.len(),
                i <= self@.len(),
                out@.len() == i,
                forall|k: int| 0 <= k < i ==> out@[k] == ((#[trigger] self@[k]) is None),
            decreases flat@.len() - i,
        {
            let is_n = match &flat[i] {
                Option::None => true,
                Option::Some(_) => false,
            };
            out.push(is_n);
            i = i + 1;
        }
        out
    }

    /// One mask bit per row: set exactly on the non-null rows.
    pub fn is_not_null(&self) -> (r: Vec<bool>)
        requires
            self.wf(),
        ensures
            r@.len() == self@.len(),
            forall|k: int| 0 <= k < r@.len() ==> r@[k] == !((#[trigger] self@[k]) is None),
    {
        let mask = self.is_null();
        let mut out: Vec<bool> = Vec::new();
        let mut i: usize = 0;
        while i < mask.len()
            invariant
                mask@.len() == self@.len(),
                forall|k: int| 0 <= k < mask@.len() ==> mask@[k] == ((#[trigger] self@[k]) is None),
                i <= mask@.len(),
                out@.len() == i,
                forall|k: int| 0 <= k < i ==> out@[k] == !((#[trigger] self@[k]) is None),
            decreases mask@.len() - i,
        {
            out.push(!mask[i]);
            i = i + 1;
        }
        out
    }

    /// Convert to another physical type.  The only defined conversion of a
    /// binary column is the identity; any other target is rejected.
    pub fn cast(&self, dtype: DataType) -> (r: Result<BinaryChunked, Error>)
        requires
            self.wf(),
        ensures
            (r matches Ok(c)) <==> dtype == DataType::Binary,
            r matches Ok(c) ==> c.wf() && c@ == self@ && c.field.name@ == self.field.name@,
            dtype != DataType::Binary ==> r == Err::<BinaryChunked, Error>(
                Error::CastUnsupported { from: DataType::Binary, to: dtype },
            ),
    {
        if matches!(dtype, DataType::Binary) {
            Ok(self.deep_clone())
        } else {
            Err(Error::CastUnsupported { from: DataType::Binary, to: dtype })
        }
    }

    /// Greatest (or least) non-null value under the byte order, or `None`
    /// when every row is null.
    pub fn extreme_value(&self, want_max: bool) -> (r: Option<Vec<u8>>)
        requires
            self.wf(),
        ensures
            (r is None) <==> (forall|k: int| 0 <= k < self@.len() ==> (#[trigger] self@[k]) is None),
            r matches Some(m) ==> (exists|k: int|
                0 <= k < self@.len() && (#[trigger] self@[k]) == Option::Some(m@)) && (forall|
                k: int,
            |
                0 <= k < self@.len() ==> ((#[trigger] self@[k]) matches Option::Some(b) ==> (
                if want_max {
                    !bytes_lt(m@, b)
                } else {
                    !bytes_lt(b, m@)
                }))),
    {
        let flat = self.to_flat();
        let mut best: Option<Vec<u8>> = Option::None;
        let mut i: usize = 0;
        while i < flat.len()
            invariant
                flat_view(flat@) == self@,
                flat@.len() == self@.len(),
                i <= self@.len(),
                (best is None) <==> (forall|k: int|
                    0 <= k < i ==> (#[trigger] self@[k]) is None),
                best matches Some(m) ==> (exists|k: int|
                    0 <= k < i && (#[trigger] self@[k]) == Option::Some(m@)) && (forall|k: int|
                    0 <= k < i ==> ((#[trigger] self@[k]) matches Option::Some(b) ==> (
                    if want_max {
                        !bytes_lt(m@, b)
                    } else {
                        !bytes_lt(b, m@)
                    }))),
            decreases flat@.len() - i,
        {
            match &flat[i] {
                Option::None => {
                    proof {
                        assert(self@[i as int] is None);
                    }
                },
                Option::Some(v) => {
                    proof {
                        assert(self@[i as int] == Option::Some(v@));
                    }
                    let replace: bool = match &best {
                        Option::None => true,
                        Option::Some(b) => {
                            if want_max {
                                crate::adapters::bytes_less(b, v)
                            } else {
                                crate::adapters::bytes_less(v, b)
                            }
                        },
                    };
                    if replace {
                        proof {
                            match best {
                                Option::Some(bb) => {
                                    assert forall|k: int|
                                        0 <= k < i && !((#[trigger] self@[k]) is None) implies (
                                    if want_max {
                                        !bytes_lt(v@, self@[k]->Some_0)
                                    } else {
                                        !bytes_lt(self@[k]->Some_0, v@)
                                    }) by {
                                        let b = self@[k]->Some_0;
                                        if want_max {
                                            if bytes_lt(v@, b) {
                                                crate::adapters::lemma_bytes_lt_trans(bb@, v@, b);
                                            }
                                        } else {
                                            if bytes_lt(b, v@) {
                                                crate::adapters::lemma_bytes_lt_trans(b, v@, bb@);
                                            }
                                        }
                                    }
                                },
                                Option::None => {},
                            }
                            crate::adapters::lemma_bytes_lt_from_irrefl(v@, 0);
                        }
                        best = Option::Some(crate::chunked::copy_bytes(v));
                    }
                },
            }
            i = i + 1;
        }
        best
    }

    /// Greatest non-null value, or `None` when every row is null.
    pub fn max_value(&self) -> (r: Option<Vec<u8>>)
        requires
            self.wf(),
        ensures
            (r is None) <==> (forall|k: int| 0 <= k < self@.len() ==> (#[trigger] self@[k]) is None),
            r matches Some(m) ==> (exists|k: int|
                0 <= k < self@.len() && (#[trigger] self@[k]) == Option::Some(m@)) && (forall|
                k: int,
            |
                0 <= k < self@.len() ==> ((#[trigger] self@[k]) matches Option::Some(b)
                    ==> !bytes_lt(m@, b))),
    {
        self.extreme_value(true)
    }

    /// Least non-null value, or `None` when every row is null.
    pub fn min_value(&self) -> (r: Option<Vec<u8>>)
        requires
            self.wf(),
        ensures
            (r is None) <==> (forall|k: int| 0 <= k < self@.len() ==> (#[trigger] self@[k]) is None),
            r matches Some(m) ==> (exists|k: int|
                0 <= k < self@.len() && (#[trigger] self@[k]) == Option::Some(m@)) && (forall|
                k: int,
            |
                0 <= k < self@.len() ==> ((#[trigger] self@[k]) matches Option::Some(b)
                    ==> !bytes_lt(b, m@))),
    {
        self.extreme_value(false)
    }
}

} // verus!
