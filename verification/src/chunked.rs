//! The physical column store for binary data.
//!
//! A [`BinaryChunked`] owns an ordered sequence of immutable array chunks,
//! each with an optional validity bitmap, plus a cached logical length and
//! sortedness flags.  Its view is the flat sequence of elements, each an
//! `Option<Seq<u8>>` (`None` is null).  Every mutating entry point recomputes
//! the cached length, so it is never stale.

use vstd::prelude::*;

use crate::adapters::opt_view;
use crate::dtype::{DataType, Error, Field, Op, Settings};

verus! {

/// One immutable array chunk: element payloads plus an optional validity
/// bitmap.  An absent bitmap means the chunk has no nulls.
pub struct BinaryChunk {
    pub values: Vec<Vec<u8>>,
    pub validity: Option<Vec<bool>>,
}

impl BinaryChunk {
    /// A present bitmap covers every element.
    pub open spec fn wf(self) -> bool {
        match self.validity {
            Option::Some(vl) => vl@.len() == self.values@.len(),
            Option::None => true,
        }
    }
}

impl View for BinaryChunk {
    type V = Seq<Option<Seq<u8>>>;

    open spec fn view(&self) -> Seq<Option<Seq<u8>>> {
        Seq::new(
            self.values@.len(),
            |i: int|
                match self.validity {
                    Option::Some(vl) => if vl@[i] {
                        Option::Some(self.values@[i]@)
                    } else {
                        Option::None
                    },
                    Option::None => Option::Some(self.values@[i]@),
                },
        )
    }
}

/// The logical contents of a chunk sequence: the chunk views, concatenated.
pub open spec fn chunks_view(cs: Seq<BinaryChunk>) -> Seq<Option<Seq<u8>>>
    decreases cs.len(),
{
    if cs.len() == 0 {
        Seq::empty()
    } else {
        cs[0]@ + chunks_view(cs.drop_first())
    }
}

pub proof fn lemma_chunks_view_push(cs: Seq<BinaryChunk>, c: BinaryChunk)
    ensures
        chunks_view(cs.push(c)) == chunks_view(cs) + c@,
    decreases cs.len(),
{
    let p = cs.push(c);
    assert(p.len() == cs.len() + 1);
    assert(p[0] == if cs.len() == 0 { c } else { cs[0] });
    if cs.len() == 0 {
        assert(p.drop_first() =~= Seq::<BinaryChunk>::empty());
        assert(chunks_view(p.drop_first()) == Seq::<Option<Seq<u8>>>::empty());
        assert(chunks_view(p) == c@ + Seq::<Option<Seq<u8>>>::empty());
        assert(chunks_view(cs.push(c)) =~= chunks_view(cs) + c@);
    } else {
        assert(p.drop_first() =~= cs.drop_first().push(c));
        lemma_chunks_view_push(cs.drop_first(), c);
        assert(chunks_view(p) == cs[0]@ + (chunks_view(cs.drop_first()) + c@));
        assert(chunks_view(cs.push(c)) =~= chunks_view(cs) + c@);
    }
}

/// Reading a chunk sequence from position `i` on starts with chunk `i`.
pub proof fn lemma_chunks_view_split_head(cs: Seq<BinaryChunk>, i: int)
    requires
        0 <= i < cs.len(),
    ensures
        chunks_view(cs.subrange(i, cs.len() as int)) == cs[i]@ + chunks_view(
            cs.subrange(i + 1, cs.len() as int),
        ),
{
    let s = cs.subrange(i, cs.len() as int);
    assert(s[0] == cs[i]);
    assert(s.drop_first() =~= cs.subrange(i + 1, cs.len() as int));
}

/// View of a flat element vector as a sequence of optional byte sequences.
pub open spec fn flat_view(v: Seq<Option<Vec<u8>>>) -> Seq<Option<Seq<u8>>> {
    Seq::new(v.len(), |i: int| opt_view(v[i]))
}

pub proof fn lemma_flat_view_push(v: Seq<Option<Vec<u8>>>, x: Option<Vec<u8>>)
    ensures
        flat_view(v.push(x)) == flat_view(v) + seq![opt_view(x)],
{
    assert(flat_view(v.push(x)) =~= flat_view(v) + seq![opt_view(x)]);
}

/// The physical column store: field metadata, the chunk sequence, the cached
/// logical length and the sortedness flags.
pub struct BinaryChunked {
    pub field: Field,
    pub chunks: Vec<BinaryChunk>,
    pub length: usize,
    pub flags: Settings,
}

impl View for BinaryChunked {
    type V = Seq<Option<Seq<u8>>>;

    open spec fn view(&self) -> Seq<Option<Seq<u8>>> {
        chunks_view(self.chunks@)
    }
}

impl BinaryChunked {
    /// Store invariant: the dtype is binary, every chunk is well formed, and
    /// the cached length equals the logical element count.
    pub open spec fn wf(self) -> bool {
        &&& self.field.dtype == DataType::Binary
        &&& forall|i: int| 0 <= i < self.chunks@.len() ==> (#[trigger] self.chunks@[i]).wf()
        &&& self.length == self@.len()
    }

    /// Cheap length read, answered from the cache.
    pub fn len(&self) -> (r: usize)
        requires
            self.wf(),
        ensures
            r == self@.len(),
    {
        self.length
    }

    pub fn name(&self) -> (r: &String)
        ensures
            r == self.field.name,
    {
        &self.field.name
    }

    pub fn rename(&mut self, name: String)
        requires
            old(self).wf(),
        ensures
            final(self).wf(),
            final(self)@ == old(self)@,
            final(self).field.name == name,
            final(self).field.dtype == old(self).field.dtype,
            final(self).flags == old(self).flags,
    {
        self.field.name = name;
    }

    pub fn get_flags(&self) -> (r: Settings)
        ensures
            r == self.flags,
    {
        self.flags
    }

    pub fn set_flags(&mut self, flags: Settings)
        requires
            old(self).wf(),
        ensures
            final(self).wf(),
            final(self)@ == old(self)@,
            final(self).flags == flags,
            final(self).field == old(self).field,
    {
        self.flags = flags;
    }

    pub fn dtype(&self) -> (r: DataType)
        ensures
            r == self.field.dtype,
    {
        self.field.dtype
    }
}

/// Byte-for-byte copy of an element payload.
pub fn copy_bytes(v: &Vec<u8>) -> (r: Vec<u8>)
    ensures
        r@ == v@,
{
    let mut r: Vec<u8> = Vec::new();
    let mut i: usize = 0;
    while i < v.len()
        invariant
            i <= v@.len(),
            r@ == v@.subrange(0, i as int),
        decreases v@.len() - i,
    {
        r.push(v[i]);
        i = i + 1;
        proof {
            assert(r@ =~= v@.subrange(0, i as int));
        }
    }
    proof {
        assert(v@.subrange(0, v@.len() as int) =~= v@);
    }
    r
}

/// Copy of an optional element payload, preserving the view.
pub fn copy_opt(x: &Option<Vec<u8>>) -> (r: Option<Vec<u8>>)
    ensures
        opt_view(r) == opt_view(*x),
{
    match x {
        Option::Some(v) => Option::Some(copy_bytes(v)),
        Option::None => Option::None,
    }
}

/// Checked read of one chunk element.
pub fn chunk_get(c: &BinaryChunk, i: usize) -> (r: Option<Vec<u8>>)
    requires
        c.wf(),
        i < c@.len(),
    ensures
        opt_view(r) == c@[i as int],
{
    let valid: bool = match &c.validity {
        Option::Some(vl) => vl[i],
        Option::None => true,
    };
    if !valid {
        return Option::None;
    }
    Option::Some(copy_bytes(&c.values[i]))
}

/// Deep copy of a chunk, preserving its view.
pub fn copy_chunk(c: &BinaryChunk) -> (r: BinaryChunk)
    requires
        c.wf(),
    ensures
        r.wf(),
        r@ == c@,
{
    let mut values: Vec<Vec<u8>> = Vec::new();
    let mut i: usize = 0;
    while i < c.values.len()
        invariant
            i <= c.values@.len(),
            values@.len() == i,
            forall|k: int| 0 <= k < i ==> values@[k]@ == c.values@[k]@,
        decreases c.values@.len() - i,
    {
        values.push(copy_bytes(&c.values[i]));
        i = i + 1;
    }
    let validity: Option<Vec<bool>> = match &c.validity {
        Option::Some(vl) => {
            let mut out: Vec<bool> = Vec::new();
            let mut j: usize = 0;
            while j < vl.len()
                invariant
                    j <= vl@.len(),
                    out@ == vl@.subrange(0, j as int),
                decreases vl@.len() - j,
            {
                out.push(vl[j]);
                j = j + 1;
                proof {
                    assert(out@ =~= vl@.subrange(0, j as int));
                }
            }
            proof {
                assert(vl@.subrange(0, vl@.len() as int) =~= vl@);
            }
            Option::Some(out)
        },
        Option::None => Option::None,
    };
    let r = BinaryChunk { values, validity };
    proof {
        assert(r@ =~= c@);
    }
    r
}

/// Build one chunk from flat optional elements.
pub fn chunk_from_options(items: &Vec<Option<Vec<u8>>>) -> (r: BinaryChunk)
    ensures
        r.wf(),
        r@ == flat_view(items@),
{
    let mut values: Vec<Vec<u8>> = Vec::new();
    let mut validity: Vec<bool> = Vec::new();
    let mut i: usize = 0;
    while i < items.len()
        invariant
            i <= items@.len(),
            values@.len() == i,
            validity@.len() == i,
            forall|k: int|
                0 <= k < i ==> (match #[trigger] items@[k] {
                    Option::Some(v) => validity@[k] && values@[k]@ == v@,
                    Option::None => !validity@[k],
                }),
        decreases items@.len() - i,
    {
        match &items[i] {
            Option::Some(v) => {
                values.push(copy_bytes(v));
                validity.push(true);
            },
            Option::None => {
                values.push(Vec::new());
                validity.push(false);
            },
        }
        i = i + 1;
    }
    let chunk = BinaryChunk { values, validity: Option::Some(validity) };
    proof {
        assert(chunk@ =~= flat_view(items@));
    }
    chunk
}

impl BinaryChunked {
    /// Build a store over one freshly built chunk, keeping the given field.
    pub fn single_chunk_store(field: Field, chunk: BinaryChunk, flags: Settings) -> (r:
        BinaryChunked)
        requires
            chunk.wf(),
        ensures
            r.wf() == (field.dtype == DataType::Binary),
            r@ == chunk@,
            r.field == field,
            r.chunks@.len() == 1,
            r.flags == flags,
    {
        let length: usize = chunk.values.len();
        let mut chunks: Vec<BinaryChunk> = Vec::new();
        chunks.push(chunk);
        proof {
            assert(chunks@.drop_first() =~= Seq::<BinaryChunk>::empty());
            assert(chunks_view(chunks@.drop_first()) == Seq::<Option<Seq<u8>>>::empty());
            assert(chunks_view(chunks@) == chunks@[0]@ + Seq::<Option<Seq<u8>>>::empty());
            assert(chunks_view(chunks@) =~= chunks@[0]@);
        }
        BinaryChunked { field, chunks, length, flags }
    }

    /// Build a store from flat optional elements, as a single chunk.
    pub fn from_options(name: String, items: Vec<Option<Vec<u8>>>) -> (r: BinaryChunked)
        ensures
            r.wf(),
            r@ == flat_view(items@),
            r.field.name == name,
            r.field.dtype == DataType::Binary,
            r.chunks@.len() == 1,
            r.flags == (Settings { sorted_ascending: false, sorted_descending: false }),
    {
        let chunk = chunk_from_options(&items);
        BinaryChunked::single_chunk_store(
            Field { name, dtype: DataType::Binary },
            chunk,
            Settings { sorted_ascending: false, sorted_descending: false },
        )
    }

    /// Build a store from plain byte values, none of them null.
    pub fn from_values(name: String, items: Vec<Vec<u8>>) -> (r: BinaryChunked)
        ensures
            r.wf(),
            r@.len() == items@.len(),
            forall|k: int| 0 <= k < items@.len() ==> r@[k] == Option::Some(items@[k]@),
            r.field.name == name,
            r.field.dtype == DataType::Binary,
    {
        let mut opts: Vec<Option<Vec<u8>>> = Vec::new();
        let mut i: usize = 0;
        while i < items.len()
            invariant
                i <= items@.len(),
                opts@.len() == i,
                forall|k: int|
                    0 <= k < i ==> opt_view(#[trigger] opts@[k]) == Option::Some(items@[k]@),
            decreases items@.len() - i,
        {
            opts.push(Option::Some(copy_bytes(&items[i])));
            i = i + 1;
        }
        BinaryChunked::from_options(name, opts)
    }

    /// Flatten the store into one element vector, in logical order.
    pub fn to_flat(&self) -> (r: Vec<Option<Vec<u8>>>)
        requires
            self.wf(),
        ensures
            flat_view(r@) == self@,
            r@.len() == self@.len(),
    {
        let mut out: Vec<Option<Vec<u8>>> = Vec::new();
        let mut ci: usize = 0;
        while ci < self.chunks.len()
            invariant
                self.wf(),
                ci <= self.chunks@.len(),
                flat_view(out@) == chunks_view(self.chunks@.subrange(0, ci as int)),
            decreases self.chunks@.len() - ci,
        {
            let chunk = &self.chunks[ci];
            let mut vi: usize = 0;
            while vi < chunk.values.len()
                invariant
                    self.wf(),
                    ci < self.chunks@.len(),
                    chunk == self.chunks@[ci as int],
                    vi <= chunk@.len(),
                    flat_view(out@) == chunks_view(self.chunks@.subrange(0, ci as int))
                        + chunk@.subrange(0, vi as int),
                decreases chunk@.len() - vi,
            {
                let x = chunk_get(chunk, vi);
                let ghost prev = out@;
                out.push(x);
                vi = vi + 1;
                proof {
                    lemma_flat_view_push(prev, x);
                    assert(chunk@.subrange(0, vi as int) =~= chunk@.subrange(0, vi - 1).push(
                        chunk@[vi - 1],
                    ));
                    assert(flat_view(out@) =~= chunks_view(self.chunks@.subrange(0, ci as int))
                        + chunk@.subrange(0, vi as int));
                }
            }
            ci = ci + 1;
            proof {
                assert(chunk@.subrange(0, chunk@.len() as int) =~= chunk@);
                assert(self.chunks@.subrange(0, ci as int) =~= self.chunks@.subrange(
                    0,
                    ci - 1,
                ).push(self.chunks@[ci - 1]));
                lemma_chunks_view_push(self.chunks@.subrange(0, ci - 1), self.chunks@[ci - 1]);
            }
        }
        proof {
            assert(self.chunks@.subrange(0, self.chunks@.len() as int) =~= self.chunks@);
        }
        out
    }

    /// Unchecked element read: the caller has proven the index in bounds.
    pub fn get_unchecked(&self, index: usize) -> (r: Option<Vec<u8>>)
        requires
            self.wf(),
            index < self@.len(),
        ensures
            opt_view(r) == self@[index as int],
    {
        let flat = self.to_flat();
        copy_opt(&flat[index])
    }

    /// Checked element read: out-of-bounds indices are rejected.
    pub fn get(&self, index: usize) -> (r: Result<Option<Vec<u8>>, Error>)
        requires
            self.wf(),
        ensures
            index < self@.len() ==> (r matches Ok(v) && opt_view(v) == self@[index as int]),
            index >= self@.len() ==> r == Err::<Option<Vec<u8>>, Error>(
                Error::OutOfBounds { op: Op::Get, index, len: self@.len() as usize },
            ),
    {
        if index >= self.length {
            return Err(Error::OutOfBounds { op: Op::Get, index, len: self.length });
        }
        Ok(self.get_unchecked(index))
    }

    /// Recompute the cached length from the chunk sequence.  Every mutating
    /// entry point of this store already does so; this is the explicit form.
    pub fn compute_len(&mut self)
        requires
            forall|i: int|
                0 <= i < old(self).chunks@.len() ==> (#[trigger] old(self).chunks@[i]).wf(),
            old(self)@.len() <= usize::MAX,
            old(self).field.dtype == DataType::Binary,
        ensures
            final(self).wf(),
            final(self)@ == old(self)@,
            final(self).chunks == old(self).chunks,
            final(self).field == old(self).field,
            final(self).flags == old(self).flags,
    {
        let ghost all = self.chunks@;
        let mut total: usize = 0;
        let mut ci: usize = 0;
        proof {
            assert(all.subrange(0, all.len() as int) =~= all);
        }
        while ci < self.chunks.len()
            invariant
                self.chunks@ == all,
                forall|i: int| 0 <= i < all.len() ==> (#[trigger] all[i]).wf(),
                chunks_view(all).len() <= usize::MAX,
                ci <= all.len(),
                total + chunks_view(all.subrange(ci as int, all.len() as int)).len()
                    == chunks_view(all).len(),
            decreases all.len() - ci,
        {
            proof {
                lemma_chunks_view_split_head(all, ci as int);
            }
            let cl: usize = self.chunks[ci].values.len();
            total = total + cl;
            ci = ci + 1;
        }
        proof {
            assert(all.subrange(all.len() as int, all.len() as int)
                =~= Seq::<BinaryChunk>::empty());
        }
        self.length = total;
    }

    /// Per-chunk lengths, for mapping a logical index to a chunk and offset.
    pub fn chunk_lengths(&self) -> (r: Vec<usize>)
        requires
            self.wf(),
        ensures
            r@.len() == self.chunks@.len(),
            forall|i: int| 0 <= i < r@.len() ==> r@[i] == (#[trigger] self.chunks@[i])@.len(),
    {
        let mut r: Vec<usize> = Vec::new();
        let mut ci: usize = 0;
        while ci < self.chunks.len()
            invariant
                self.wf(),
                ci <= self.chunks@.len(),
                r@.len() == ci,
                forall|i: int| 0 <= i < ci ==> r@[i] == (#[trigger] self.chunks@[i])@.len(),
            decreases self.chunks@.len() - ci,
        {
            r.push(self.chunks[ci].values.len());
            ci = ci + 1;
        }
        r
    }

    /// The one chunk of a store that has exactly one, or a multiple-chunks
    /// error: callers must rechunk first.
    pub fn single_chunk(&self) -> (r: Result<&BinaryChunk, Error>)
        requires
            self.wf(),
        ensures
            (r matches Ok(c)) <==> self.chunks@.len() == 1,
            r matches Ok(c) ==> *c == self.chunks@[0] && c@ == self@,
            self.chunks@.len() != 1 ==> r == Err::<&BinaryChunk, Error>(
                Error::MultipleChunks { op: Op::SingleChunk },
            ),
    {
        if self.chunks.len() != 1 {
            return Err(Error::MultipleChunks { op: Op::SingleChunk });
        }
        proof {
            assert(self.chunks@.drop_first() =~= Seq::<BinaryChunk>::empty());
            assert(chunks_view(self.chunks@.drop_first()) == Seq::<Option<Seq<u8>>>::empty());
            assert(self@ == self.chunks@[0]@ + Seq::<Option<Seq<u8>>>::empty());
            assert(self@ =~= self.chunks@[0]@);
        }
        Ok(&self.chunks[0])
    }

    /// Release over-allocated capacity.  Capacity is not part of the model,
    /// so the logical content is stated (and proved) unchanged.
    pub fn shrink_to_fit(&mut self)
        requires
            old(self).wf(),
        ensures
            *final(self) == *old(self),
    {
    }

    /// Append the other store's chunks to this one and recompute the cached
    /// length.  Sortedness flags are not preserved.
    pub fn append(&mut self, other: &BinaryChunked)
        requires
            old(self).wf(),
            other.wf(),
            old(self)@.len() + other@.len() <= usize::MAX,
        ensures
            final(self).wf(),
            final(self)@ == old(self)@ + other@,
            final(self).field == old(self).field,
            !final(self).flags.sorted_ascending,
            !final(self).flags.sorted_descending,
    {
        let mut ci: usize = 0;
        while ci < other.chunks.len()
            invariant
                other.wf(),
                ci <= other.chunks@.len(),
                self.field == old(self).field,
                self.length == old(self).length,
                forall|i: int| 0 <= i < self.chunks@.len() ==> (#[trigger] self.chunks@[i]).wf(),
                self@ == old(self)@ + chunks_view(other.chunks@.subrange(0, ci as int)),
            decreases other.chunks@.len() - ci,
        {
            let c = copy_chunk(&other.chunks[ci]);
            let ghost prev = self.chunks@;
            self.chunks.push(c);
            ci = ci + 1;
            proof {
                lemma_chunks_view_push(prev, self.chunks@.last());
                assert(other.chunks@.subrange(0, ci as int) =~= other.chunks@.subrange(
                    0,
                    ci - 1,
                ).push(other.chunks@[ci - 1]));
                lemma_chunks_view_push(
                    other.chunks@.subrange(0, ci - 1),
                    other.chunks@[ci - 1],
                );
                assert(self@ =~= old(self)@ + chunks_view(other.chunks@.subrange(0, ci as int)));
            }
        }
        proof {
            assert(other.chunks@.subrange(0, other.chunks@.len() as int) =~= other.chunks@);
        }
        self.length = self.length + other.length;
        self.flags = Settings { sorted_ascending: false, sorted_descending: false };
    }

    /// Append the other store's elements, merging everything into a single
    /// chunk, and recompute the cached length.
    pub fn extend(&mut self, other: &BinaryChunked)
        requires
            old(self).wf(),
            other.wf(),
            old(self)@.len() + other@.len() <= usize::MAX,
        ensures
            final(self).wf(),
            final(self)@ == old(self)@ + other@,
            final(self).field == old(self).field,
            final(self).chunks@.len() == 1,
            !final(self).flags.sorted_ascending,
            !final(self).flags.sorted_descending,
    {
        let mut flat = self.to_flat();
        let of = other.to_flat();
        let mut i: usize = 0;
        while i < of.len()
            invariant
                i <= of@.len(),
                flat@.len() == old(self)@.len() + i,
                flat_view(of@) == other@,
                flat_view(flat@) == old(self)@ + flat_view(of@).subrange(0, i as int),
            decreases of@.len() - i,
        {
            let x = copy_opt(&of[i]);
            let ghost prev = flat@;
            flat.push(x);
            i = i + 1;
            proof {
                lemma_flat_view_push(prev, flat@.last());
                assert(flat_view(of@).subrange(0, i as int) =~= flat_view(of@).subrange(
                    0,
                    i - 1,
                ).push(flat_view(of@)[i - 1]));
                assert(flat_view(flat@) =~= old(self)@ + flat_view(of@).subrange(0, i as int));
            }
        }
        proof {
            assert(flat_view(of@).subrange(0, of@.len() as int) =~= flat_view(of@));
        }
        let chunk = chunk_from_options(&flat);
        let mut chunks: Vec<BinaryChunk> = Vec::new();
        chunks.push(chunk);
        proof {
            assert(chunks@.drop_first() =~= Seq::<BinaryChunk>::empty());
            assert(chunks_view(chunks@.drop_first()) == Seq::<Option<Seq<u8>>>::empty());
            assert(chunks_view(chunks@) == chunks@[0]@ + Seq::<Option<Seq<u8>>>::empty());
            assert(chunks_view(chunks@) =~= chunks@[0]@);
        }
        self.chunks = chunks;
        self.length = flat.len();
        self.flags = Settings { sorted_ascending: false, sorted_descending: false };
    }

    /// Merge all chunks into exactly one.  The logical contents, the field
    /// and the flags are unchanged; a store already holding a single chunk
    /// keeps its chunk boundaries, so rechunking is idempotent.
    pub fn rechunk(&self) -> (r: BinaryChunked)
        requires
            self.wf(),
        ensures
            r.wf(),
            r@ == self@,
            r@.len() == self@.len(),
            r.chunks@.len() == 1,
            self.chunks@.len() == 1 ==> r.chunks@[0]@ == self.chunks@[0]@,
            r.field.name@ == self.field.name@,
            r.field.dtype == self.field.dtype,
            r.flags == self.flags,
    {
        let flat = self.to_flat();
        let chunk = chunk_from_options(&flat);
        let r = BinaryChunked::single_chunk_store(
            Field { name: self.field.name.clone(), dtype: DataType::Binary },
            chunk,
            self.flags,
        );
        proof {
            if self.chunks@.len() == 1 {
                assert(self.chunks@.drop_first() =~= Seq::<BinaryChunk>::empty());
                assert(chunks_view(self.chunks@.drop_first()) == Seq::<Option<Seq<u8>>>::empty());
                assert(self@ == self.chunks@[0]@ + Seq::<Option<Seq<u8>>>::empty());
                assert(self@ =~= self.chunks@[0]@);
                assert(r.chunks@.drop_first() =~= Seq::<BinaryChunk>::empty());
                assert(chunks_view(r.chunks@.drop_first()) == Seq::<Option<Seq<u8>>>::empty());
                assert(r@ == r.chunks@[0]@ + Seq::<Option<Seq<u8>>>::empty());
                assert(r@ =~= r.chunks@[0]@);
            }
        }
        r
    }

    /// Deep copy sharing no buffers, preserving contents and chunk structure.
    pub fn deep_clone(&self) -> (r: BinaryChunked)
        requires
            self.wf(),
        ensures
            r.wf(),
            r@ == self@,
            r.chunks@.len() == self.chunks@.len(),
            r.field.name@ == self.field.name@,
            r.field.dtype == self.field.dtype,
            r.flags == self.flags,
    {
        let mut chunks: Vec<BinaryChunk> = Vec::new();
        let mut ci: usize = 0;
        while ci < self.chunks.len()
            invariant
                self.wf(),
                ci <= self.chunks@.len(),
                chunks@.len() == ci,
                forall|i: int| 0 <= i < ci ==> (#[trigger] chunks@[i]).wf(),
                chunks_view(chunks@) == chunks_view(self.chunks@.subrange(0, ci as int)),
            decreases self.chunks@.len() - ci,
        {
            let c = copy_chunk(&self.chunks[ci]);
            let ghost prev = chunks@;
            chunks.push(c);
            ci = ci + 1;
            proof {
                lemma_chunks_view_push(prev, chunks@.last());
                assert(self.chunks@.subrange(0, ci as int) =~= self.chunks@.subrange(
                    0,
                    ci - 1,
                ).push(self.chunks@[ci - 1]));
                lemma_chunks_view_push(self.chunks@.subrange(0, ci - 1), self.chunks@[ci - 1]);
                assert(chunks_view(chunks@) =~= chunks_view(self.chunks@.subrange(0, ci as int)));
            }
        }
        proof {
            assert(self.chunks@.subrange(0, self.chunks@.len() as int) =~= self.chunks@);
        }
        BinaryChunked {
            field: Field { name: self.field.name.clone(), dtype: DataType::Binary },
            chunks,
            length: self.length,
            flags: self.flags,
        }
    }
}

impl BinaryChunked {
    /// Gather rows addressed as (chunk, in-chunk offset) pairs.  The caller
    /// has proven every pair in bounds.
    pub fn take_chunked_unchecked(&self, by: &Vec<(usize, usize)>) -> (r: BinaryChunked)
        requires
            self.wf(),
            forall|k: int|
                0 <= k < by@.len() ==> (#[trigger] by@[k]).0 < self.chunks@.len() && by@[k].1
                    < self.chunks@[by@[k].0 as int]@.len(),
        ensures
            r.wf(),
            r@.len() == by@.len(),
            forall|k: int|
                0 <= k < by@.len() ==> r@[k]
                    == self.chunks@[(#[trigger] by@[k]).0 as int]@[by@[k].1 as int],
            r.field.name@ == self.field.name@,
            r.field.dtype == DataType::Binary,
    {
        let mut out: Vec<Option<Vec<u8>>> = Vec::new();
        let mut k: usize = 0;
        while k < by.len()
            invariant
                self.wf(),
                forall|j: int|
                    0 <= j < by@.len() ==> (#[trigger] by@[j]).0 < self.chunks@.len() && by@[j].1
                        < self.chunks@[by@[j].0 as int]@.len(),
                k <= by@.len(),
                out@.len() == k,
                forall|j: int|
                    0 <= j < k ==> opt_view(#[trigger] out@[j])
                        == self.chunks@[by@[j].0 as int]@[by@[j].1 as int],
            decreases by@.len() - k,
        {
            let (c, o) = by[k];
            let x = chunk_get(&self.chunks[c], o);
            out.push(x);
            k = k + 1;
        }
        let chunk = chunk_from_options(&out);
        BinaryChunked::single_chunk_store(
            Field { name: self.field.name.clone(), dtype: DataType::Binary },
            chunk,
            Settings { sorted_ascending: false, sorted_descending: false },
        )
    }

    /// As `take_chunked_unchecked`, with an absent pair yielding a null row.
    pub fn take_opt_chunked_unchecked(&self, by: &Vec<Option<(usize, usize)>>) -> (r:
        BinaryChunked)
        requires
            self.wf(),
            forall|k: int|
                0 <= k < by@.len() ==> ((#[trigger] by@[k]) matches Some(p) ==> p.0
                    < self.chunks@.len() && p.1 < self.chunks@[p.0 as int]@.len()),
        ensures
            r.wf(),
            r@.len() == by@.len(),
            forall|k: int|
                0 <= k < by@.len() ==> r@[k] == (match #[trigger] by@[k] {
                    Option::Some(p) => self.chunks@[p.0 as int]@[p.1 as int],
                    Option::None => Option::<Seq<u8>>::None,
                }),
            r.field.name@ == self.field.name@,
            r.field.dtype == DataType::Binary,
    {
        let mut out: Vec<Option<Vec<u8>>> = Vec::new();
        let mut k: usize = 0;
        while k < by.len()
            invariant
                self.wf(),
                forall|j: int|
                    0 <= j < by@.len() ==> ((#[trigger] by@[j]) matches Some(p) ==> p.0
                        < self.chunks@.len() && p.1 < self.chunks@[p.0 as int]@.len()),
                k <= by@.len(),
                out@.len() == k,
                forall|j: int|
                    0 <= j < k ==> opt_view(#[trigger] out@[j]) == (match by@[j] {
                        Option::Some(p) => self.chunks@[p.0 as int]@[p.1 as int],
                        Option::None => Option::<Seq<u8>>::None,
                    }),
            decreases by@.len() - k,
        {
            let x = match &by[k] {
                Option::Some(p) => chunk_get(&self.chunks[p.0], p.1),
                Option::None => Option::None,
            };
            out.push(x);
            k = k + 1;
        }
        let chunk = chunk_from_options(&out);
        BinaryChunked::single_chunk_store(
            Field { name: self.field.name.clone(), dtype: DataType::Binary },
            chunk,
            Settings { sorted_ascending: false, sorted_descending: false },
        )
    }
}

/// Effective start of a slice: a negative offset counts from the end, and
/// the start is clamped into the column.
pub open spec fn slice_offset(len: int, offset: int) -> int {
    if offset >= 0 {
        if offset > len {
            len
        } else {
            offset
        }
    } else {
        if -offset > len {
            0
        } else {
            len + offset
        }
    }
}

/// Effective length of a slice: clamped to the remainder after the start.
pub open spec fn slice_length(len: int, offset: int, length: int) -> int {
    let o = slice_offset(len, offset);
    if length > len - o {
        len - o
    } else {
        length
    }
}

impl BinaryChunked {
    /// Narrow the logical view to `length` elements starting at `offset`.
    /// A negative offset counts from the end; both bounds are clamped to the
    /// available elements, the single policy for every slice.
    pub fn slice(&self, offset: i64, length: usize) -> (r: BinaryChunked)
        requires
            self.wf(),
        ensures
            r.wf(),
            r@ == self@.subrange(
                slice_offset(self@.len() as int, offset as int),
                slice_offset(self@.len() as int, offset as int) + slice_length(
                    self@.len() as int,
                    offset as int,
                    length as int,
                ),
            ),
            r@.len() == slice_length(self@.len() as int, offset as int, length as int),
            r.field.name@ == self.field.name@,
            r.field.dtype == self.field.dtype,
            r.flags == self.flags,
    {
        let n: usize = self.length;
        let start: usize = if offset >= 0 {
            if offset as u64 > n as u64 {
                n
            } else {
                offset as usize
            }
        } else {
            let mag: u64 = if offset == i64::MIN {
                0x8000_0000_0000_0000
            } else {
                (-offset) as u64
            };
            if mag > n as u64 {
                0
            } else {
                n - mag as usize
            }
        };
        let l: usize = if length > n - start {
            n - start
        } else {
            length
        };
        let flat = self.to_flat();
        let mut out: Vec<Option<Vec<u8>>> = Vec::new();
        let mut i: usize = 0;
        while i < l
            invariant
                start + l <= flat@.len(),
                flat@.len() <= usize::MAX,
                i <= l,
                out@.len() == i,
                flat_view(flat@) == self@,
                forall|k: int|
                    0 <= k < i ==> opt_view(#[trigger] out@[k]) == self@[start + k],
            decreases l - i,
        {
            let x = copy_opt(&flat[start + i]);
            out.push(x);
            i = i + 1;
        }
        let chunk = chunk_from_options(&out);
        let r = BinaryChunked::single_chunk_store(
            Field { name: self.field.name.clone(), dtype: DataType::Binary },
            chunk,
            self.flags,
        );
        proof {
            assert(r@ =~= self@.subrange(start as int, start as int + l as int));
        }
        r
    }
}

} // verus!
