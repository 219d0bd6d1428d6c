//! A minimal integer column store.
//!
//! The binary store implements the engine's full operation set; this store
//! exists so the type-erased façade has a second physical type to dispatch
//! over, with the basic surface: length, reads, renaming and same-type
//! concatenation.  Everything else reports an unsupported-operation error
//! at the façade.

use vstd::prelude::*;

use crate::dtype::{DataType, Error, Field, Op};

verus! {

/// Integer column store: field metadata plus flat optional values.
pub struct Int64Chunked {
    pub field: Field,
    pub values: Vec<Option<i64>>,
}

impl View for Int64Chunked {
    type V = Seq<Option<i64>>;

    open spec fn view(&self) -> Seq<Option<i64>> {
        self.values@
    }
}

impl Int64Chunked {
    pub open spec fn wf(self) -> bool {
        self.field.dtype == DataType::Int64
    }

    pub fn new(name: String, values: Vec<Option<i64>>) -> (r: Int64Chunked)
        ensures
            r.wf(),
            r@ == values@,
            r.field.name == name,
            r.field.dtype == DataType::Int64,
    {
        Int64Chunked { field: Field { name, dtype: DataType::Int64 }, values }
    }

    pub fn len(&self) -> (r: usize)
        ensures
            r == self@.len(),
    {
        self.values.len()
    }

    pub fn name(&self) -> (r: &String)
        ensures
            r == self.field.name,
    {
        &self.field.name
    }

    pub fn rename(&mut self, name: String)
        requires
            old(self).wf(),
        ensures
            final(self).wf(),
            final(self)@ == old(self)@,
            final(self).field.name == name,
    {
        self.field.name = name;
    }

    /// Checked element read: out-of-bounds indices are rejected.
    pub fn get(&self, index: usize) -> (r: Result<Option<i64>, Error>)
        ensures
            index < self@.len() ==> r == Ok::<Option<i64>, Error>(self@[index as int]),
            index >= self@.len() ==> r == Err::<Option<i64>, Error>(
                Error::OutOfBounds { op: Op::Get, index, len: self@.len() as usize },
            ),
    {
        if index >= self.values.len() {
            return Err(Error::OutOfBounds { op: Op::Get, index, len: self.values.len() });
        }
        Ok(self.values[index])
    }

    /// Concatenate another integer column onto this one.
    pub fn append(&mut self, other: &Int64Chunked)
        requires
            old(self).wf(),
            old(self)@.len() + other@.len() <= usize::MAX,
        ensures
            final(self).wf(),
            final(self)@ == old(self)@ + other@,
            final(self).field == old(self).field,
    {
        let mut i: usize = 0;
        while i < other.values.len()
            invariant
                i <= other@.len(),
                self.field == old(self).field,
                self@ == old(self)@ + other@.subrange(0, i as int),
            decreases other@.len() - i,
        {
            self.values.push(other.values[i]);
            i = i + 1;
            proof {
                assert(self@ =~= old(self)@ + other@.subrange(0, i as int));
            }
        }
        proof {
            assert(other@.subrange(0, other@.len() as int) =~= other@);
        }
    }

    /// Deep copy.
    pub fn deep_clone(&self) -> (r: Int64Chunked)
        requires
            self.wf(),
        ensures
            r.wf(),
            r@ == self@,
            r.field.name@ == self.field.name@,
            r.field.dtype == DataType::Int64,
    {
        let mut values: Vec<Option<i64>> = Vec::new();
        let mut i: usize = 0;
        while i < self.values.len()
            invariant
                i <= self@.len(),
                values@ == self@.subrange(0, i as int),
            decreases self@.len() - i,
        {
            values.push(self.values[i]);
            i = i + 1;
            proof {
                assert(values@ =~= self@.subrange(0, i as int));
            }
        }
        proof {
            assert(self@.subrange(0, self@.len() as int) =~= self@);
        }
        Int64Chunked {
            field: Field { name: self.field.name.clone(), dtype: DataType::Int64 },
            values,
        }
    }
}

} // verus!
