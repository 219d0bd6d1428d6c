//! The hashing engine: one 64-bit hash per row, through ahash.
//!
//! The hasher state is built from explicit seeds threaded through every
//! call, never from ambient process state, so hashing is reproducible in
//! tests.  Rows are hashed through the total-equality view: a row is first
//! encoded as a tag byte (null or not) plus its payload, so rows equal
//! under total equality feed identical bytes to the hasher.  What ahash
//! returns for given bytes is machine-dependent and is therefore left
//! unspecified; the library states only the shape of its outputs.

use vstd::prelude::*;

use std::hash::BuildHasher;

use crate::adapters::opt_view;
use crate::chunked::{flat_view, BinaryChunked};
use crate::dtype::{Error, Op};

verus! {

/// ahash's hasher state, opaque to the verifier.
#[verifier::external_type_specification]
#[verifier::external_body]
pub struct ExRandomState(ahash::RandomState);

/// Relies on ahash::RandomState::with_seeds: builds the hasher state from
/// the four keys alone (each is xored with a fixed constant and stored).
#[verifier::external_body]
pub(crate) fn state_with_seeds(k0: u64, k1: u64, k2: u64, k3: u64) -> ahash::RandomState {
    ahash::RandomState::with_seeds(k0, k1, k2, k3)
}

/// Relies on ahash::RandomState::hash_one: one 64-bit hash of the byte
/// slice under the given state.  Within a process the same state and bytes
/// give the same hash, but the value is machine-dependent, so no clause
/// can state it.
#[verifier::external_body]
pub(crate) fn hash_one_bytes(state: &ahash::RandomState, bytes: &Vec<u8>) -> u64 {
    state.hash_one(bytes.as_slice())
}

/// Build the hasher state from one explicit 64-bit seed, spreading it over
/// the four keys with fixed offsets.
pub fn state_from_seed(seed: u64) -> ahash::RandomState {
    let k1 = seed ^ 0x9e37_79b9_7f4a_7c15u64;
    let k2 = seed ^ 0x6a09_e667_f3bc_c909u64;
    let k3 = seed ^ 0xbb67_ae85_84ca_a73bu64;
    state_with_seeds(seed, k1, k2, k3)
}

/// Order-sensitive mix of an accumulated hash with the next column's row
/// hash: a boost-style combine, so column order matters.
pub open spec fn combine_spec(a: u64, b: u64) -> u64 {
    {
        let m = 0x1_0000_0000_0000_0000int;
        let s1 = (b + 0x9e37_79b9_7f4a_7c15) % m;
        let s2 = (s1 + (a << 6u64)) % m;
        let s3 = (s2 + (a >> 2u64)) % m;
        a ^ (s3 as u64)
    }
}

pub fn combine_hash(a: u64, b: u64) -> (r: u64)
    ensures
        r == combine_spec(a, b),
{
    let s1 = b.wrapping_add(0x9e37_79b9_7f4a_7c15u64);
    let s2 = s1.wrapping_add(a << 6u64);
    let s3 = s2.wrapping_add(a >> 2u64);
    a ^ s3
}

/// The bytes a row feeds to the hasher: a validity tag, then the payload.
/// Null rows hash equal to each other and never collide by construction
/// with a present empty payload.
pub open spec fn row_buffer_spec(x: Option<Seq<u8>>) -> Seq<u8> {
    match x {
        Option::None => seq![0u8],
        Option::Some(b) => seq![1u8] + b,
    }
}

/// The row encoding is injective: distinct elements (null included) feed
/// distinct byte strings to the hasher, and equal elements identical ones.
pub proof fn lemma_row_buffer_injective(x: Option<Seq<u8>>, y: Option<Seq<u8>>)
    requires
        row_buffer_spec(x) == row_buffer_spec(y),
    ensures
        x == y,
{
    match (x, y) {
        (Option::Some(a), Option::Some(b)) => {
            assert((seq![1u8] + a).skip(1) =~= a);
            assert((seq![1u8] + b).skip(1) =~= b);
        },
        (Option::Some(a), Option::None) => {
            assert(row_buffer_spec(x)[0] == 1u8);
            assert(row_buffer_spec(y)[0] == 0u8);
        },
        (Option::None, Option::Some(b)) => {
            assert(row_buffer_spec(x)[0] == 0u8);
            assert(row_buffer_spec(y)[0] == 1u8);
        },
        (Option::None, Option::None) => {},
    }
}

pub fn row_buffer(x: &Option<Vec<u8>>) -> (r: Vec<u8>)
    ensures
        r@ == row_buffer_spec(opt_view(*x)),
{
    let mut r: Vec<u8> = Vec::new();
    match x {
        Option::None => {
            r.push(0u8);
            proof {
                assert(r@ =~= row_buffer_spec(opt_view(*x)));
            }
        },
        Option::Some(b) => {
            r.push(1u8);
            let mut i: usize = 0;
            while i < b.len()
                invariant
                    i <= b@.len(),
                    r@ == seq![1u8] + b@.subrange(0, i as int),
                decreases b@.len() - i,
            {
                r.push(b[i]);
                i = i + 1;
                proof {
                    assert(r@ =~= seq![1u8] + b@.subrange(0, i as int));
                }
            }
            proof {
                assert(b@.subrange(0, b@.len() as int) =~= b@);
                assert(r@ =~= row_buffer_spec(opt_view(*x)));
            }
        },
    }
    r
}

impl BinaryChunked {
    /// One hash per row under the given state, written into `buf` (whose
    /// prior contents are discarded).  Deterministic for a fixed seed within
    /// a process — a property of ahash that cannot be stated here, and is
    /// exercised by tests; the contract fixes the shape of the output.
    pub fn vec_hash(&self, state: &ahash::RandomState, buf: &mut Vec<u64>) -> (r: Result<
        (),
        Error,
    >)
        requires
            self.wf(),
        ensures
            r is Ok,
            final(buf)@.len() == self@.len(),
    {
        let flat = self.to_flat();
        buf.clear();
        let mut i: usize = 0;
        while i < flat.len()
            invariant
                flat@.len() == self@.len(),
                i <= flat@.len(),
                buf@.len() == i,
            decreases flat@.len() - i,
        {
            let rb = row_buffer(&flat[i]);
            let h = hash_one_bytes(state, &rb);
            buf.push(h);
            i = i + 1;
        }
        Ok(())
    }

    /// Mix this column's row hashes into an existing hash vector, making a
    /// composite multi-column key.  The mix is order-sensitive, so column
    /// order matters.  The vector must have one slot per row.
    pub fn vec_hash_combine(&self, state: &ahash::RandomState, hashes: &mut Vec<u64>) -> (r:
        Result<(), Error>)
        requires
            self.wf(),
        ensures
            (r is Ok) <==> old(hashes)@.len() == self@.len(),
            r is Ok ==> final(hashes)@.len() == old(hashes)@.len(),
            old(hashes)@.len() != self@.len() ==> final(hashes)@ == old(hashes)@ && r == Err::<
                (),
                Error,
            >(
                Error::LengthMismatch {
                    op: Op::HashCombine,
                    expected: self@.len() as usize,
                    got: old(hashes)@.len() as usize,
                },
            ),
    {
        if hashes.len() != self.len() {
            return Err(
                Error::LengthMismatch {
                    op: Op::HashCombine,
                    expected: self.length,
                    got: hashes.len(),
                },
            );
        }
        let flat = self.to_flat();
        let mut i: usize = 0;
        while i < flat.len()
            invariant
                flat@.len() == self@.len(),
                i <= flat@.len(),
                hashes@.len() == self@.len(),
            decreases flat@.len() - i,
        {
            let rb = row_buffer(&flat[i]);
            let h = hash_one_bytes(state, &rb);
            let mixed = combine_hash(hashes[i], h);
            hashes.set(i, mixed);
            i = i + 1;
        }
        Ok(())
    }
}

} // verus!
