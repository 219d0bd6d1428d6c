//! The type-erased column façade.
//!
//! A [`Series`] is the single polymorphic handle a query engine holds; it is
//! a closed tagged enumeration over the physical stores, so dispatch is one
//! `match` and exhaustiveness is checked at compile time.  The binary store
//! carries the engine's full operation set; the minimal integer store
//! answers the basic surface and reports an unsupported-operation error for
//! the rest.  Fallible operations return the error kind and the operation
//! and dtypes involved, never a silently substituted default.

use vstd::prelude::*;

use crate::adapters::{bytes_lt, elem_le, tot_eq};
use crate::chunked::{flat_view, slice_length, slice_offset, BinaryChunked};
use crate::dtype::{AnyValue, DataType, Error, Op, Settings};
use crate::group::{groups_partition, is_arg_unique, sum_sizes, GroupsProxy};
use crate::int64::Int64Chunked;
use crate::ops::{filter_spec, has_null, nulls_upto};
use crate::sort::{apply_perm, is_arg_sort, is_arg_sort_multiple, key_views, SortOptions};

verus! {

/// A named, typed column value: the engine's uniform handle.
pub enum Series {
    Binary(BinaryChunked),
    Int64(Int64Chunked),
}

impl Series {
    /// The reported dtype always matches the concrete store's dtype.
    pub open spec fn wf(self) -> bool {
        match self {
            Series::Binary(b) => b.wf(),
            Series::Int64(c) => c.wf(),
        }
    }

    pub open spec fn dtype_spec(self) -> DataType {
        match self {
            Series::Binary(_) => DataType::Binary,
            Series::Int64(_) => DataType::Int64,
        }
    }

    pub open spec fn len_spec(self) -> nat {
        match self {
            Series::Binary(b) => b@.len(),
            Series::Int64(c) => c@.len(),
        }
    }

    pub fn dtype(&self) -> (r: DataType)
        requires
            self.wf(),
        ensures
            r == self.dtype_spec(),
    {
        match self {
            Series::Binary(b) => b.dtype(),
            Series::Int64(_) => DataType::Int64,
        }
    }

    pub fn name(&self) -> (r: &String)
        ensures
            self matches Series::Binary(b) ==> r == b.field.name,
            self matches Series::Int64(c) ==> r == c.field.name,
    {
        match self {
            Series::Binary(b) => b.name(),
            Series::Int64(c) => c.name(),
        }
    }

    pub fn rename(&mut self, name: String)
        requires
            old(self).wf(),
        ensures
            final(self).wf(),
            final(self).dtype_spec() == old(self).dtype_spec(),
            *old(self) matches Series::Binary(b) ==> (*final(self) matches Series::Binary(nb)
                && nb@ == b@ && nb.field.name == name),
            *old(self) matches Series::Int64(c) ==> (*final(self) matches Series::Int64(nc)
                && nc@ == c@ && nc.field.name == name),
    {
        match self {
            Series::Binary(b) => b.rename(name),
            Series::Int64(c) => c.rename(name),
        }
    }

    pub fn len(&self) -> (r: usize)
        requires
            self.wf(),
        ensures
            r == self.len_spec(),
    {
        match self {
            Series::Binary(b) => b.len(),
            Series::Int64(c) => c.len(),
        }
    }

    /// Append the other column's rows in place.  Fails with a type-mismatch
    /// error — and leaves this column untouched — when the dtypes differ.
    pub fn append(&mut self, other: &Series) -> (r: Result<(), Error>)
        requires
            old(self).wf(),
            other.wf(),
            old(self).len_spec() + other.len_spec() <= usize::MAX,
        ensures
            final(self).wf(),
            (r is Ok) <==> old(self).dtype_spec() == other.dtype_spec(),
            old(self).dtype_spec() != other.dtype_spec() ==> *final(self) == *old(self) && r
                == Err::<(), Error>(
                Error::TypeMismatch {
                    op: Op::Append,
                    left: old(self).dtype_spec(),
                    right: other.dtype_spec(),
                },
            ),
            *old(self) matches Series::Binary(sb) ==> (other matches Series::Binary(ob) ==> (
            *final(self) matches Series::Binary(nb) && nb@ == sb@ + ob@)),
            *old(self) matches Series::Int64(sc) ==> (other matches Series::Int64(oc) ==> (
            *final(self) matches Series::Int64(nc) && nc@ == sc@ + oc@)),
    {
        match self {
            Series::Binary(b) => {
                match other {
                    Series::Binary(o) => {
                        b.append(o);
                        Ok(())
                    },
                    Series::Int64(_) => Err(
                        Error::TypeMismatch {
                            op: Op::Append,
                            left: DataType::Binary,
                            right: DataType::Int64,
                        },
                    ),
                }
            },
            Series::Int64(c) => {
                match other {
                    Series::Int64(o) => {
                        c.append(o);
                        Ok(())
                    },
                    Series::Binary(_) => Err(
                        Error::TypeMismatch {
                            op: Op::Append,
                            left: DataType::Int64,
                            right: DataType::Binary,
                        },
                    ),
                }
            },
        }
    }

    /// As `append`, but the binary store merges everything into one chunk.
    pub fn extend(&mut self, other: &Series) -> (r: Result<(), Error>)
        requires
            old(self).wf(),
            other.wf(),
            old(self).len_spec() + other.len_spec() <= usize::MAX,
        ensures
            final(self).wf(),
            (r is Ok) <==> old(self).dtype_spec() == other.dtype_spec(),
            old(self).dtype_spec() != other.dtype_spec() ==> *final(self) == *old(self) && r
                == Err::<(), Error>(
                Error::TypeMismatch {
                    op: Op::Extend,
                    left: old(self).dtype_spec(),
                    right: other.dtype_spec(),
                },
            ),
            *old(self) matches Series::Binary(sb) ==> (*other matches Series::Binary(ob) ==> (
            *final(self) matches Series::Binary(nb) && nb@ == sb@ + ob@)),
            *old(self) matches Series::Int64(sc) ==> (*other matches Series::Int64(oc) ==> (
            *final(self) matches Series::Int64(nc) && nc@ == sc@ + oc@)),
    {
        match self {
            Series::Binary(b) => {
                match other {
                    Series::Binary(o) => {
                        b.extend(o);
                        Ok(())
                    },
                    Series::Int64(_) => Err(
                        Error::TypeMismatch {
                            op: Op::Extend,
                            left: DataType::Binary,
                            right: DataType::Int64,
                        },
                    ),
                }
            },
            Series::Int64(c) => {
                match other {
                    Series::Int64(o) => {
                        c.append(o);
                        Ok(())
                    },
                    Series::Binary(_) => Err(
                        Error::TypeMismatch {
                            op: Op::Extend,
                            left: DataType::Int64,
                            right: DataType::Binary,
                        },
                    ),
                }
            },
        }
    }

    /// Sortedness flags; the minimal integer store keeps none and reports
    /// no known order.
    pub fn get_flags(&self) -> (r: Settings)
        ensures
            *self matches Series::Binary(b) ==> r == b.flags,
            *self matches Series::Int64(c) ==> !r.sorted_ascending && !r.sorted_descending,
    {
        match self {
            Series::Binary(b) => b.get_flags(),
            Series::Int64(_) => Settings::unsorted(),
        }
    }

    /// Set the sortedness flags; a no-op on the integer store.
    pub fn set_flags(&mut self, flags: Settings)
        requires
            old(self).wf(),
        ensures
            final(self).wf(),
            *old(self) matches Series::Binary(b) ==> (*final(self) matches Series::Binary(nb)
                && nb@ == b@ && nb.flags == flags && nb.field == b.field),
            *old(self) matches Series::Int64(c) ==> *final(self) == *old(self),
    {
        match self {
            Series::Binary(b) => b.set_flags(flags),
            Series::Int64(_) => {},
        }
    }

    /// Recompute the cached length from the chunks.
    pub fn compute_len(&mut self)
        requires
            old(self).wf(),
        ensures
            final(self).wf(),
            *final(self) == *old(self),
    {
        match self {
            Series::Binary(b) => {
                b.compute_len();
                proof {
                    assert(b.length == old(self)->Binary_0.length);
                }
            },
            Series::Int64(_) => {},
        }
    }

    /// Release over-allocated capacity; never observable in the model.
    pub fn shrink_to_fit(&mut self)
        requires
            old(self).wf(),
        ensures
            *final(self) == *old(self),
    {
        match self {
            Series::Binary(b) => b.shrink_to_fit(),
            Series::Int64(_) => {},
        }
    }

    /// Zero-copy narrowing of the logical view; offsets are clamped per the
    /// store's single documented policy.
    pub fn slice(&self, offset: i64, length: usize) -> (r: Result<Series, Error>)
        requires
            self.wf(),
        ensures
            *self matches Series::Binary(b) ==> (r matches Ok(s) && s matches
                Series::Binary(rb) && rb.wf() && rb@ == b@.subrange(
                slice_offset(b@.len() as int, offset as int),
                slice_offset(b@.len() as int, offset as int) + slice_length(
                    b@.len() as int,
                    offset as int,
                    length as int,
                ),
            )),
            *self matches Series::Int64(c) ==> r == Err::<Series, Error>(
                Error::Unsupported { op: Op::Slice, dtype: DataType::Int64 },
            ),
    {
        match self {
            Series::Binary(b) => Ok(Series::Binary(b.slice(offset, length))),
            Series::Int64(_) => Err(Error::Unsupported { op: Op::Slice, dtype: DataType::Int64 }),
        }
    }

    /// Keep the rows whose mask bit is set; a mask of any other length is
    /// an error, never truncated.
    pub fn filter(&self, mask: &Vec<bool>) -> (r: Result<Series, Error>)
        requires
            self.wf(),
        ensures
            *self matches Series::Binary(b) ==> ((r matches Ok(s)) <==> mask@.len() == b@.len()),
            *self matches Series::Binary(b) ==> (r matches Ok(s) ==> (s matches
                Series::Binary(rb) && rb.wf() && rb.wf() && rb@ == filter_spec(b@, mask@))),
            *self matches Series::Binary(b) ==> (mask@.len() != b@.len() ==> r == Err::<
                Series,
                Error,
            >(
                Error::LengthMismatch {
                    op: Op::Filter,
                    expected: b@.len() as usize,
                    got: mask@.len() as usize,
                },
            )),
            *self matches Series::Int64(c) ==> r == Err::<Series, Error>(
                Error::Unsupported { op: Op::Filter, dtype: DataType::Int64 },
            ),
    {
        match self {
            Series::Binary(b) => match b.filter(mask) {
                Ok(c) => Ok(Series::Binary(c)),
                Err(e) => Err(e),
            },
            Series::Int64(_) => Err(Error::Unsupported { op: Op::Filter, dtype: DataType::Int64 }),
        }
    }

    /// Gather rows by index, validating every index.  Succeeds if and only
    /// if all indices are in bounds.
    pub fn take(&self, indices: &Vec<usize>) -> (r: Result<Series, Error>)
        requires
            self.wf(),
        ensures
            *self matches Series::Binary(b) ==> ((r matches Ok(s)) <==> (forall|k: int|
                0 <= k < indices@.len() ==> (#[trigger] indices@[k]) < b@.len())),
            *self matches Series::Binary(b) ==> (r matches Ok(s) ==> (s matches
                Series::Binary(rb) && rb.wf() && rb.wf() && rb@ == apply_perm(b@, indices@))),
            *self matches Series::Binary(b) ==> (r matches Err(e) ==> exists|k: int|
                0 <= k < indices@.len() && (#[trigger] indices@[k]) >= b@.len() && e == (
                Error::OutOfBounds { op: Op::Take, index: indices@[k], len: b@.len() as usize })),
            *self matches Series::Int64(c) ==> r == Err::<Series, Error>(
                Error::Unsupported { op: Op::Take, dtype: DataType::Int64 },
            ),
    {
        match self {
            Series::Binary(b) => match b.take(indices) {
                Ok(c) => Ok(Series::Binary(c)),
                Err(e) => Err(e),
            },
            Series::Int64(_) => Err(Error::Unsupported { op: Op::Take, dtype: DataType::Int64 }),
        }
    }

    /// Gather rows by index without validation: the caller has proven every
    /// index in bounds for a binary column.
    pub fn take_unchecked(&self, indices: &Vec<usize>) -> (r: Result<Series, Error>)
        requires
            self.wf(),
            *self matches Series::Binary(b) ==> forall|k: int|
                0 <= k < indices@.len() ==> (#[trigger] indices@[k]) < b@.len(),
        ensures
            *self matches Series::Binary(b) ==> (r matches Ok(s) && s matches
                Series::Binary(rb) && rb.wf() && rb@ == apply_perm(b@, indices@)),
            *self matches Series::Int64(c) ==> r == Err::<Series, Error>(
                Error::Unsupported { op: Op::Take, dtype: DataType::Int64 },
            ),
    {
        match self {
            Series::Binary(b) => Ok(Series::Binary(b.take_unchecked(indices))),
            Series::Int64(_) => Err(Error::Unsupported { op: Op::Take, dtype: DataType::Int64 }),
        }
    }

    /// Merge all chunks into exactly one, contents unchanged.
    pub fn rechunk(&self) -> (r: Result<Series, Error>)
        requires
            self.wf(),
        ensures
            *self matches Series::Binary(b) ==> (r matches Ok(s) && s matches
                Series::Binary(rb) && rb.wf() && rb@ == b@ && rb.chunks@.len() == 1),
            *self matches Series::Int64(c) ==> r == Err::<Series, Error>(
                Error::Unsupported { op: Op::SingleChunk, dtype: DataType::Int64 },
            ),
    {
        match self {
            Series::Binary(b) => Ok(Series::Binary(b.rechunk())),
            Series::Int64(_) => Err(
                Error::Unsupported { op: Op::SingleChunk, dtype: DataType::Int64 },
            ),
        }
    }

    /// Repeat the value at `index`, `length` times; the index is validated.
    pub fn new_from_index(&self, index: usize, length: usize) -> (r: Result<Series, Error>)
        requires
            self.wf(),
        ensures
            *self matches Series::Binary(b) ==> ((r matches Ok(s)) <==> index < b@.len()),
            *self matches Series::Binary(b) ==> (r matches Ok(s) ==> (s matches
                Series::Binary(rb) && rb.wf() && rb.wf() && rb@.len() == length && (forall|k: int|
                0 <= k < length ==> rb@[k] == b@[index as int]))),
            *self matches Series::Binary(b) ==> (index >= b@.len() ==> r == Err::<Series, Error>(
                Error::OutOfBounds { op: Op::NewFromIndex, index, len: b@.len() as usize },
            )),
            *self matches Series::Int64(c) ==> r == Err::<Series, Error>(
                Error::Unsupported { op: Op::NewFromIndex, dtype: DataType::Int64 },
            ),
    {
        match self {
            Series::Binary(b) => {
                if index >= b.len() {
                    return Err(
                        Error::OutOfBounds { op: Op::NewFromIndex, index, len: b.length },
                    );
                }
                Ok(Series::Binary(b.new_from_index(index, length)))
            },
            Series::Int64(_) => Err(
                Error::Unsupported { op: Op::NewFromIndex, dtype: DataType::Int64 },
            ),
        }
    }

    /// Convert to another physical type.  Only the identity conversion is
    /// defined for each store; any other pair is a cast-unsupported error.
    pub fn cast(&self, dtype: DataType) -> (r: Result<Series, Error>)
        requires
            self.wf(),
        ensures
            (r matches Ok(s)) <==> dtype == self.dtype_spec(),
            dtype != self.dtype_spec() ==> r == Err::<Series, Error>(
                Error::CastUnsupported { from: self.dtype_spec(), to: dtype },
            ),
            *self matches Series::Binary(b) ==> (r matches Ok(s) ==> (s matches
                Series::Binary(rb) && rb.wf() && rb.wf() && rb@ == b@)),
            *self matches Series::Int64(c) ==> (r matches Ok(s) ==> (s matches
                Series::Int64(rc) && rc.wf() && rc@ == c@)),
    {
        match self {
            Series::Binary(b) => {
                if matches!(dtype, DataType::Binary) {
                    Ok(Series::Binary(b.deep_clone()))
                } else {
                    Err(Error::CastUnsupported { from: DataType::Binary, to: dtype })
                }
            },
            Series::Int64(c) => {
                if matches!(dtype, DataType::Int64) {
                    Ok(Series::Int64(c.deep_clone()))
                } else {
                    Err(Error::CastUnsupported { from: DataType::Int64, to: dtype })
                }
            },
        }
    }

    /// Checked element read, type-erased.
    pub fn get(&self, index: usize) -> (r: Result<AnyValue, Error>)
        requires
            self.wf(),
        ensures
            (r matches Ok(av)) <==> index < self.len_spec(),
            index >= self.len_spec() ==> r == Err::<AnyValue, Error>(
                Error::OutOfBounds { op: Op::Get, index, len: self.len_spec() as usize },
            ),
            *self matches Series::Binary(b) ==> (r matches Ok(av) ==> match b@[index as int] {
                Option::Some(bs) => av matches AnyValue::Binary(v) && v@ == bs,
                Option::None => av is Null,
            }),
            *self matches Series::Int64(c) ==> (r matches Ok(av) ==> match c@[index as int] {
                Option::Some(n) => av == AnyValue::Int64(n),
                Option::None => av is Null,
            }),
    {
        match self {
            Series::Binary(b) => {
                match b.get(index) {
                    Ok(v) => match v {
                        Option::Some(bytes) => Ok(AnyValue::Binary(bytes)),
                        Option::None => Ok(AnyValue::Null),
                    },
                    Err(e) => Err(e),
                }
            },
            Series::Int64(c) => {
                match c.get(index) {
                    Ok(v) => match v {
                        Option::Some(n) => Ok(AnyValue::Int64(n)),
                        Option::None => Ok(AnyValue::Null),
                    },
                    Err(e) => Err(e),
                }
            },
        }
    }

    /// Sort the column; the result's contents are the old ones reordered by
    /// the argsort permutation and its flags reflect the requested order.
    pub fn sort_with(&self, options: SortOptions) -> (r: Result<Series, Error>)
        requires
            self.wf(),
        ensures
            *self matches Series::Binary(b) ==> (r matches Ok(s) && s matches
                Series::Binary(rb) && rb.wf() && (exists|p: Seq<usize>|
                is_arg_sort(b@, options.descending, options.nulls_last, p) && rb@ == apply_perm(
                    b@,
                    p,
                )) && (forall|k1: int, k2: int|
                0 <= k1 < k2 < rb@.len() ==> elem_le(
                    rb@[k1],
                    rb@[k2],
                    options.descending,
                    options.nulls_last,
                )) && rb.flags.sorted_ascending == !options.descending
                && rb.flags.sorted_descending == options.descending),
            *self matches Series::Int64(c) ==> r == Err::<Series, Error>(
                Error::Unsupported { op: Op::Sort, dtype: DataType::Int64 },
            ),
    {
        match self {
            Series::Binary(b) => Ok(Series::Binary(b.sort_with(options))),
            Series::Int64(_) => Err(Error::Unsupported { op: Op::Sort, dtype: DataType::Int64 }),
        }
    }

    /// The argsort permutation realizing the requested order, stable on
    /// ties: a bijection on the rows.
    pub fn arg_sort(&self, options: SortOptions) -> (r: Result<Vec<usize>, Error>)
        requires
            self.wf(),
        ensures
            *self matches Series::Binary(b) ==> (r matches Ok(p) && is_arg_sort(
                b@,
                options.descending,
                options.nulls_last,
                p@,
            ) && (forall|k1: int, k2: int| 0 <= k1 < k2 < p@.len() ==> p@[k1] != p@[k2])),
            *self matches Series::Int64(c) ==> r == Err::<Vec<usize>, Error>(
                Error::Unsupported { op: Op::Sort, dtype: DataType::Int64 },
            ),
    {
        match self {
            Series::Binary(b) => Ok(b.arg_sort(options)),
            Series::Int64(_) => Err(Error::Unsupported { op: Op::Sort, dtype: DataType::Int64 }),
        }
    }

    /// Number of null rows.
    pub fn null_count(&self) -> (r: Result<usize, Error>)
        requires
            self.wf(),
        ensures
            *self matches Series::Binary(b) ==> r == Ok::<usize, Error>(
                nulls_upto(b@, b@.len() as int) as usize,
            ),
            *self matches Series::Int64(c) ==> r == Err::<usize, Error>(
                Error::Unsupported { op: Op::Get, dtype: DataType::Int64 },
            ),
    {
        match self {
            Series::Binary(b) => Ok(b.null_count()),
            Series::Int64(_) => Err(Error::Unsupported { op: Op::Get, dtype: DataType::Int64 }),
        }
    }

    /// Whether any row is null.
    pub fn has_validity(&self) -> (r: Result<bool, Error>)
        requires
            self.wf(),
        ensures
            *self matches Series::Binary(b) ==> r == Ok::<bool, Error>(has_null(b@)),
            *self matches Series::Int64(c) ==> r == Err::<bool, Error>(
                Error::Unsupported { op: Op::Get, dtype: DataType::Int64 },
            ),
    {
        match self {
            Series::Binary(b) => Ok(b.has_validity()),
            Series::Int64(_) => Err(Error::Unsupported { op: Op::Get, dtype: DataType::Int64 }),
        }
    }

    /// The distinct values in first-occurrence order, by the same total
    /// equality that grouping uses; all nulls are one value.
    pub fn unique(&self) -> (r: Result<Series, Error>)
        requires
            self.wf(),
        ensures
            *self matches Series::Binary(b) ==> (r matches Ok(s) && s matches
                Series::Binary(rb) && rb.wf() && (exists|u: Seq<usize>|
                is_arg_unique(b@, u) && rb@ == apply_perm(b@, u))),
            *self matches Series::Int64(c) ==> r == Err::<Series, Error>(
                Error::Unsupported { op: Op::Unique, dtype: DataType::Int64 },
            ),
    {
        match self {
            Series::Binary(b) => match b.unique() {
                Ok(c) => Ok(Series::Binary(c)),
                Err(e) => Err(e),
            },
            Series::Int64(_) => Err(Error::Unsupported { op: Op::Unique, dtype: DataType::Int64 }),
        }
    }

    /// Number of distinct values; all nulls count as one.
    pub fn n_unique(&self) -> (r: Result<usize, Error>)
        requires
            self.wf(),
        ensures
            *self matches Series::Binary(b) ==> (r matches Ok(c) && exists|u: Seq<usize>|
                is_arg_unique(b@, u) && c == u.len()),
            *self matches Series::Int64(c) ==> r == Err::<usize, Error>(
                Error::Unsupported { op: Op::Unique, dtype: DataType::Int64 },
            ),
    {
        match self {
            Series::Binary(b) => b.n_unique(),
            Series::Int64(_) => Err(Error::Unsupported { op: Op::Unique, dtype: DataType::Int64 }),
        }
    }

    /// First occurrence of each distinct value, in row order.
    pub fn arg_unique(&self) -> (r: Result<Vec<usize>, Error>)
        requires
            self.wf(),
        ensures
            *self matches Series::Binary(b) ==> (r matches Ok(u) && is_arg_unique(b@, u@)),
            *self matches Series::Int64(c) ==> r == Err::<Vec<usize>, Error>(
                Error::Unsupported { op: Op::Unique, dtype: DataType::Int64 },
            ),
    {
        match self {
            Series::Binary(b) => b.arg_unique(),
            Series::Int64(_) => Err(Error::Unsupported { op: Op::Unique, dtype: DataType::Int64 }),
        }
    }

    /// One mask bit per row, set exactly on null rows.
    pub fn is_null(&self) -> (r: Result<Vec<bool>, Error>)
        requires
            self.wf(),
        ensures
            *self matches Series::Binary(b) ==> (r matches Ok(m) && m@.len() == b@.len() && (
            forall|k: int| 0 <= k < m@.len() ==> m@[k] == ((#[trigger] b@[k]) is None))),
            *self matches Series::Int64(c) ==> r == Err::<Vec<bool>, Error>(
                Error::Unsupported { op: Op::Get, dtype: DataType::Int64 },
            ),
    {
        match self {
            Series::Binary(b) => Ok(b.is_null()),
            Series::Int64(_) => Err(Error::Unsupported { op: Op::Get, dtype: DataType::Int64 }),
        }
    }

    /// One mask bit per row, set exactly on non-null rows.
    pub fn is_not_null(&self) -> (r: Result<Vec<bool>, Error>)
        requires
            self.wf(),
        ensures
            *self matches Series::Binary(b) ==> (r matches Ok(m) && m@.len() == b@.len() && (
            forall|k: int| 0 <= k < m@.len() ==> m@[k] == !((#[trigger] b@[k]) is None))),
            *self matches Series::Int64(c) ==> r == Err::<Vec<bool>, Error>(
                Error::Unsupported { op: Op::Get, dtype: DataType::Int64 },
            ),
    {
        match self {
            Series::Binary(b) => Ok(b.is_not_null()),
            Series::Int64(_) => Err(Error::Unsupported { op: Op::Get, dtype: DataType::Int64 }),
        }
    }

    /// The rows in reverse order.
    pub fn reverse(&self) -> (r: Result<Series, Error>)
        requires
            self.wf(),
        ensures
            *self matches Series::Binary(b) ==> (r matches Ok(s) && s matches
                Series::Binary(rb) && rb.wf() && rb@.len() == b@.len() && (forall|k: int|
                0 <= k < rb@.len() ==> rb@[k] == b@[b@.len() - 1 - k])),
            *self matches Series::Int64(c) ==> r == Err::<Series, Error>(
                Error::Unsupported { op: Op::Reverse, dtype: DataType::Int64 },
            ),
    {
        match self {
            Series::Binary(b) => Ok(Series::Binary(b.reverse())),
            Series::Int64(_) => Err(
                Error::Unsupported { op: Op::Reverse, dtype: DataType::Int64 },
            ),
        }
    }

    /// Shift rows by `periods`, filling vacated rows with null.
    pub fn shift(&self, periods: i64) -> (r: Result<Series, Error>)
        requires
            self.wf(),
        ensures
            *self matches Series::Binary(b) ==> (r matches Ok(s) && s matches
                Series::Binary(rb) && rb.wf() && rb@.len() == b@.len() && (forall|k: int|
                0 <= k < rb@.len() ==> rb@[k] == (if 0 <= k - periods && k - periods < b@.len() {
                    b@[k - periods]
                } else {
                    Option::<Seq<u8>>::None
                }))),
            *self matches Series::Int64(c) ==> r == Err::<Series, Error>(
                Error::Unsupported { op: Op::Shift, dtype: DataType::Int64 },
            ),
    {
        match self {
            Series::Binary(b) => Ok(Series::Binary(b.shift(periods))),
            Series::Int64(_) => Err(Error::Unsupported { op: Op::Shift, dtype: DataType::Int64 }),
        }
    }

    /// The greatest non-null value as a one-row column of the same dtype;
    /// a single null when every row is null.
    pub fn max_as_series(&self) -> (r: Result<Series, Error>)
        requires
            self.wf(),
        ensures
            *self matches Series::Binary(b) ==> (r matches Ok(s) && s matches
                Series::Binary(rb) && rb.wf() && rb@.len() == 1 && ((rb@[0] is None) <==> (forall|k: int|
                0 <= k < b@.len() ==> (#[trigger] b@[k]) is None)) && (rb@[0] matches Option::Some(
                m,
            ) ==> (exists|k: int| 0 <= k < b@.len() && (#[trigger] b@[k]) == Option::Some(m)) && (
            forall|k: int|
                0 <= k < b@.len() ==> ((#[trigger] b@[k]) matches Option::Some(v) ==> !bytes_lt(
                    m,
                    v,
                ))))),
            *self matches Series::Int64(c) ==> r == Err::<Series, Error>(
                Error::Unsupported { op: Op::MinMax, dtype: DataType::Int64 },
            ),
    {
        match self {
            Series::Binary(b) => {
                let best = b.max_value();
                let mut items: Vec<Option<Vec<u8>>> = Vec::new();
                items.push(best);
                let rb = BinaryChunked::from_options(b.name().clone(), items);
                proof {
                    assert(rb@ =~= flat_view(seq![best]));
                }
                Ok(Series::Binary(rb))
            },
            Series::Int64(_) => Err(Error::Unsupported { op: Op::MinMax, dtype: DataType::Int64 }),
        }
    }

    /// The least non-null value as a one-row column of the same dtype;
    /// a single null when every row is null.
    pub fn min_as_series(&self) -> (r: Result<Series, Error>)
        requires
            self.wf(),
        ensures
            *self matches Series::Binary(b) ==> (r matches Ok(s) && s matches
                Series::Binary(rb) && rb.wf() && rb@.len() == 1 && ((rb@[0] is None) <==> (forall|k: int|
                0 <= k < b@.len() ==> (#[trigger] b@[k]) is None)) && (rb@[0] matches Option::Some(
                m,
            ) ==> (exists|k: int| 0 <= k < b@.len() && (#[trigger] b@[k]) == Option::Some(m)) && (
            forall|k: int|
                0 <= k < b@.len() ==> ((#[trigger] b@[k]) matches Option::Some(v) ==> !bytes_lt(
                    v,
                    m,
                ))))),
            *self matches Series::Int64(c) ==> r == Err::<Series, Error>(
                Error::Unsupported { op: Op::MinMax, dtype: DataType::Int64 },
            ),
    {
        match self {
            Series::Binary(b) => {
                let best = b.min_value();
                let mut items: Vec<Option<Vec<u8>>> = Vec::new();
                items.push(best);
                let rb = BinaryChunked::from_options(b.name().clone(), items);
                proof {
                    assert(rb@ =~= flat_view(seq![best]));
                }
                Ok(Series::Binary(rb))
            },
            Series::Int64(_) => Err(Error::Unsupported { op: Op::MinMax, dtype: DataType::Int64 }),
        }
    }

    /// A new handle over equal contents.  Chunk buffers are modeled by
    /// value, so this is a deep copy with the same logical view.
    pub fn clone_inner(&self) -> (r: Series)
        requires
            self.wf(),
        ensures
            r.wf(),
            r.dtype_spec() == self.dtype_spec(),
            *self matches Series::Binary(b) ==> (r matches Series::Binary(rb) && rb@ == b@),
            *self matches Series::Int64(c) ==> (r matches Series::Int64(rc) && rc@ == c@),
    {
        match self {
            Series::Binary(b) => Series::Binary(b.deep_clone()),
            Series::Int64(c) => Series::Int64(c.deep_clone()),
        }
    }

    /// One 64-bit hash per row under the given state, into `buf`.
    pub fn vec_hash(&self, state: &ahash::RandomState, buf: &mut Vec<u64>) -> (r: Result<
        (),
        Error,
    >)
        requires
            self.wf(),
        ensures
            *self matches Series::Binary(b) ==> (r is Ok && final(buf)@.len() == b@.len()),
            *self matches Series::Int64(c) ==> r == Err::<(), Error>(
                Error::Unsupported { op: Op::Hash, dtype: DataType::Int64 },
            ) && final(buf)@ == old(buf)@,
    {
        match self {
            Series::Binary(b) => b.vec_hash(state, buf),
            Series::Int64(_) => Err(Error::Unsupported { op: Op::Hash, dtype: DataType::Int64 }),
        }
    }

    /// Mix this column's row hashes into an existing hash vector.
    pub fn vec_hash_combine(&self, state: &ahash::RandomState, hashes: &mut Vec<u64>) -> (r:
        Result<(), Error>)
        requires
            self.wf(),
        ensures
            *self matches Series::Binary(b) ==> ((r is Ok) <==> old(hashes)@.len() == b@.len()),
            *self matches Series::Binary(b) ==> (r is Ok ==> final(hashes)@.len() == old(
                hashes,
            )@.len()),
            *self matches Series::Int64(c) ==> r == Err::<(), Error>(
                Error::Unsupported { op: Op::Hash, dtype: DataType::Int64 },
            ) && final(hashes)@ == old(hashes)@,
    {
        match self {
            Series::Binary(b) => b.vec_hash_combine(state, hashes),
            Series::Int64(_) => Err(Error::Unsupported { op: Op::Hash, dtype: DataType::Int64 }),
        }
    }

    /// Partition row indices into groups of rows equal under the total
    /// equality.  The hints never change the result: the partition and its
    /// first-occurrence order are fully determined by the contents.
    pub fn group_tuples(&self, multithreaded: bool, sorted: bool) -> (r: Result<
        GroupsProxy,
        Error,
    >)
        requires
            self.wf(),
        ensures
            *self matches Series::Binary(b) ==> (r matches Ok(gp) && groups_partition(
                gp@,
                b@,
                b@.len() as int,
            ) && sum_sizes(gp@) == b@.len()),
            *self matches Series::Int64(c) ==> r == Err::<GroupsProxy, Error>(
                Error::Unsupported { op: Op::GroupBy, dtype: DataType::Int64 },
            ),
    {
        match self {
            Series::Binary(b) => b.group_tuples(multithreaded, sorted),
            Series::Int64(_) => Err(
                Error::Unsupported { op: Op::GroupBy, dtype: DataType::Int64 },
            ),
        }
    }

    /// Total equality of one row of each column, checked.
    pub fn equal_element(&self, idx_self: usize, other: &Series, idx_other: usize) -> (r: Result<
        bool,
        Error,
    >)
        requires
            self.wf(),
            other.wf(),
        ensures
            *self matches Series::Binary(sb) ==> (*other matches Series::Binary(ob) ==> (
            idx_self < sb@.len() && idx_other < ob@.len() ==> r == Ok::<bool, Error>(
                tot_eq(sb@[idx_self as int], ob@[idx_other as int]),
            ))),
            self.dtype_spec() != other.dtype_spec() ==> r == Err::<bool, Error>(
                Error::TypeMismatch {
                    op: Op::Get,
                    left: self.dtype_spec(),
                    right: other.dtype_spec(),
                },
            ),
    {
        match self {
            Series::Binary(sb) => {
                match other {
                    Series::Binary(ob) => {
                        if idx_self >= sb.len() {
                            return Err(
                                Error::OutOfBounds { op: Op::Get, index: idx_self, len: sb.length },
                            );
                        }
                        if idx_other >= ob.len() {
                            return Err(
                                Error::OutOfBounds {
                                    op: Op::Get,
                                    index: idx_other,
                                    len: ob.length,
                                },
                            );
                        }
                        Ok(sb.equal_element(idx_self, ob, idx_other))
                    },
                    Series::Int64(_) => Err(
                        Error::TypeMismatch {
                            op: Op::Get,
                            left: DataType::Binary,
                            right: DataType::Int64,
                        },
                    ),
                }
            },
            Series::Int64(_) => {
                match other {
                    Series::Binary(_) => Err(
                        Error::TypeMismatch {
                            op: Op::Get,
                            left: DataType::Int64,
                            right: DataType::Binary,
                        },
                    ),
                    Series::Int64(_) => Err(
                        Error::Unsupported { op: Op::Get, dtype: DataType::Int64 },
                    ),
                }
            },
        }
    }

    /// Merge two same-typed columns by a boolean mask.
    pub fn zip_with_same_type(&self, mask: &Vec<bool>, other: &Series) -> (r: Result<
        Series,
        Error,
    >)
        requires
            self.wf(),
            other.wf(),
        ensures
            *self matches Series::Binary(sb) ==> (*other matches Series::Binary(ob) ==> ((
            r matches Ok(s)) <==> (mask@.len() == sb@.len() && ob@.len() == sb@.len()))),
            *self matches Series::Binary(sb) ==> (*other matches Series::Binary(ob) ==> (
            r matches Ok(s) ==> (s matches Series::Binary(rb) && rb.wf() && rb@.len()
                == sb@.len() && (forall|k: int|
                0 <= k < sb@.len() ==> rb@[k] == (if mask@[k] {
                    sb@[k]
                } else {
                    ob@[k]
                }))))),
            self.dtype_spec() != other.dtype_spec() ==> r == Err::<Series, Error>(
                Error::TypeMismatch {
                    op: Op::ZipWith,
                    left: self.dtype_spec(),
                    right: other.dtype_spec(),
                },
            ),
    {
        match self {
            Series::Binary(sb) => {
                match other {
                    Series::Binary(ob) => {
                        match sb.zip_with_same_type(mask, ob) {
                            Ok(c) => Ok(Series::Binary(c)),
                            Err(e) => Err(e),
                        }
                    },
                    Series::Int64(_) => Err(
                        Error::TypeMismatch {
                            op: Op::ZipWith,
                            left: DataType::Binary,
                            right: DataType::Int64,
                        },
                    ),
                }
            },
            Series::Int64(_) => {
                match other {
                    Series::Binary(_) => Err(
                        Error::TypeMismatch {
                            op: Op::ZipWith,
                            left: DataType::Int64,
                            right: DataType::Binary,
                        },
                    ),
                    Series::Int64(_) => Err(
                        Error::Unsupported { op: Op::ZipWith, dtype: DataType::Int64 },
                    ),
                }
            },
        }
    }

    /// Per-chunk lengths of the binary store.
    pub fn chunk_lengths(&self) -> (r: Result<Vec<usize>, Error>)
        requires
            self.wf(),
        ensures
            *self matches Series::Binary(b) ==> (r matches Ok(v) && v@.len() == b.chunks@.len()
                && (forall|i: int| 0 <= i < v@.len() ==> v@[i] == (#[trigger] b.chunks@[i])@.len())),
            *self matches Series::Int64(c) ==> r == Err::<Vec<usize>, Error>(
                Error::Unsupported { op: Op::SingleChunk, dtype: DataType::Int64 },
            ),
    {
        match self {
            Series::Binary(b) => Ok(b.chunk_lengths()),
            Series::Int64(_) => Err(
                Error::Unsupported { op: Op::SingleChunk, dtype: DataType::Int64 },
            ),
        }
    }

    /// Multi-key argsort: this column first, then the further binary keys.
    pub fn arg_sort_multiple(
        &self,
        others: &Vec<BinaryChunked>,
        descending: &Vec<bool>,
        nulls_last: bool,
    ) -> (r: Result<Vec<usize>, Error>)
        requires
            self.wf(),
            forall|c: int| 0 <= c < others@.len() ==> (#[trigger] others@[c]).wf(),
        ensures
            *self matches Series::Binary(b) ==> ((r matches Ok(p)) <==> (descending@.len() == 1
                + others@.len() && (forall|c: int|
                0 <= c < others@.len() ==> (#[trigger] others@[c])@.len() == b@.len()))),
            *self matches Series::Binary(b) ==> (r matches Ok(p) ==> is_arg_sort_multiple(
                key_views(b@, others@),
                descending@,
                nulls_last,
                p@,
            )),
            *self matches Series::Int64(c) ==> r == Err::<Vec<usize>, Error>(
                Error::Unsupported { op: Op::Sort, dtype: DataType::Int64 },
            ),
    {
        match self {
            Series::Binary(b) => b.arg_sort_multiple(others, descending, nulls_last),
            Series::Int64(_) => Err(Error::Unsupported { op: Op::Sort, dtype: DataType::Int64 }),
        }
    }

    /// Gather each group's rows into a column of its own, one per group id.
    pub fn agg_list(&self, groups: &GroupsProxy) -> (r: Result<Vec<BinaryChunked>, Error>)
        requires
            self.wf(),
            *self matches Series::Binary(b) ==> groups_partition(groups@, b@, b@.len() as int),
        ensures
            *self matches Series::Binary(b) ==> (r matches Ok(v) && v@.len() == groups@.len() && (
            forall|g: int|
                0 <= g < v@.len() ==> (#[trigger] v@[g])@ == apply_perm(b@, groups@[g]))),
            *self matches Series::Int64(c) ==> r == Err::<Vec<BinaryChunked>, Error>(
                Error::Unsupported { op: Op::GroupBy, dtype: DataType::Int64 },
            ),
    {
        match self {
            Series::Binary(b) => Ok(b.agg_list(groups)),
            Series::Int64(_) => Err(
                Error::Unsupported { op: Op::GroupBy, dtype: DataType::Int64 },
            ),
        }
    }

    /// Arithmetic is not defined for these physical types.
    pub fn subtract(&self, rhs: &Series) -> (r: Result<Series, Error>)
        requires
            self.wf(),
            rhs.wf(),
        ensures
            r == Err::<Series, Error>(
                Error::Unsupported { op: Op::Arithmetic, dtype: self.dtype_spec() },
            ),
    {
        let _ = rhs;
        Err(Error::Unsupported { op: Op::Arithmetic, dtype: self.dtype() })
    }

    /// Arithmetic is not defined for these physical types.
    pub fn add_to(&self, rhs: &Series) -> (r: Result<Series, Error>)
        requires
            self.wf(),
            rhs.wf(),
        ensures
            r == Err::<Series, Error>(
                Error::Unsupported { op: Op::Arithmetic, dtype: self.dtype_spec() },
            ),
    {
        let _ = rhs;
        Err(Error::Unsupported { op: Op::Arithmetic, dtype: self.dtype() })
    }

    /// Arithmetic is not defined for these physical types.
    pub fn multiply(&self, rhs: &Series) -> (r: Result<Series, Error>)
        requires
            self.wf(),
            rhs.wf(),
        ensures
            r == Err::<Series, Error>(
                Error::Unsupported { op: Op::Arithmetic, dtype: self.dtype_spec() },
            ),
    {
        let _ = rhs;
        Err(Error::Unsupported { op: Op::Arithmetic, dtype: self.dtype() })
    }

    /// Arithmetic is not defined for these physical types.
    pub fn divide(&self, rhs: &Series) -> (r: Result<Series, Error>)
        requires
            self.wf(),
            rhs.wf(),
        ensures
            r == Err::<Series, Error>(
                Error::Unsupported { op: Op::Arithmetic, dtype: self.dtype_spec() },
            ),
    {
        let _ = rhs;
        Err(Error::Unsupported { op: Op::Arithmetic, dtype: self.dtype() })
    }

    /// Arithmetic is not defined for these physical types.
    pub fn remainder(&self, rhs: &Series) -> (r: Result<Series, Error>)
        requires
            self.wf(),
            rhs.wf(),
        ensures
            r == Err::<Series, Error>(
                Error::Unsupported { op: Op::Arithmetic, dtype: self.dtype_spec() },
            ),
    {
        let _ = rhs;
        Err(Error::Unsupported { op: Op::Arithmetic, dtype: self.dtype() })
    }
}

} // verus!
