//! Commitments to full encodings.
//!
//! A commitment holds, for each wire, the hashes of both labels of the wire,
//! each hashed together with the tweak of the wire. The hash itself is not
//! computed here: this module says what is hashed, and checks hashes against
//! a commitment.

use crate::block::Block;
use crate::labels::{block_pairs, pair_views};
use crate::state::{Active, Full};
use crate::value::{EncodedValue, ValueError, ValueType};
use vstd::arithmetic::div_mod::lemma_div_denominator;
use vstd::arithmetic::power2::{lemma2_to64, lemma_pow2_adds, lemma_pow2_pos, pow2};
use vstd::prelude::*;

verus! {

/// The lowest `n` bytes of `v`, the least significant first.
pub open spec fn le_bytes(v: nat, n: nat) -> Seq<u8> {
    Seq::new(n, |k: int| ((v / pow2((8 * k) as nat)) % 256) as u8)
}

/// The bytes of the tweak of `i`: the block whose little-endian value is `i`.
pub open spec fn tweak_bytes(i: u64) -> Seq<u8> {
    le_bytes(i as nat, 8) + Seq::new(8, |k: int| 0u8)
}

/// The bytes of the tweak of `i` and `j`: the block whose lower half is `j`
/// and whose upper half is `i`, both little-endian.
pub open spec fn tweak2_bytes(i: u64, j: u64) -> Seq<u8> {
    le_bytes(j as nat, 8) + le_bytes(i as nat, 8)
}

/// Writes the bytes of `v`, the least significant first, into `out` from `start` on.
fn put_le(out: &mut [u8; 16], start: usize, v: u64)
    requires
        start + 8 <= 16,
    ensures
        forall|k: int| 0 <= k < 8 ==> final(out)@[start + k] == le_bytes(v as nat, 8)[k],
        forall|k: int|
            0 <= k < 16 && !(start <= k < start + 8) ==> final(out)@[k] == old(out)@[k],
{
    let mut rest: u64 = v;
    let mut k: usize = 0;
    proof {
        lemma2_to64();
        assert(pow2(0) == 1);
        assert((8 * k) as nat == 0);
        assert((v as nat) / 1 == v as nat);
    }
    while k < 8
        invariant
            k <= 8,
            start + 8 <= 16,
            rest == (v as nat) / pow2((8 * k) as nat),
            forall|m: int| 0 <= m < k ==> out@[start + m] == le_bytes(v as nat, 8)[m],
            forall|m: int| 0 <= m < 16 && !(start <= m < start + 8) ==> out@[m] == old(out)@[m],
        decreases 8 - k,
    {
        out[start + k] = (rest % 256) as u8;
        proof {
            lemma2_to64();
            lemma_pow2_pos((8 * k) as nat);
            lemma_pow2_adds((8 * k) as nat, 8);
            lemma_div_denominator(v as int, pow2((8 * k) as nat) as int, 256);
        }
        rest = rest / 256;
        k += 1;
    }
}

/// Returns the tweak of `i`.
pub fn tweak(i: u64) -> (block: Block)
    ensures
        block@ == tweak_bytes(i),
{
    let mut bytes: [u8; 16] = [0u8;16];
    put_le(&mut bytes, 0, i);
    assert(bytes@ =~= tweak_bytes(i));
    Block::new(bytes)
}

/// Returns the tweak of `i` and `j`.
pub fn tweak2(i: u64, j: u64) -> (block: Block)
    ensures
        block@ == tweak2_bytes(i, j),
{
    let mut bytes: [u8; 16] = [0u8;16];
    put_le(&mut bytes, 0, j);
    put_le(&mut bytes, 8, i);
    assert(bytes@ =~= tweak2_bytes(i, j));
    Block::new(bytes)
}

/// What is hashed for the commitment to `low` under `delta`: for each wire
/// its tweak, its low label and its high label.
pub open spec fn commit_inputs_of(low: Seq<Seq<u8>>, delta: Seq<u8>) -> Seq<Seq<Seq<u8>>> {
    Seq::new(
        low.len(),
        |i: int|
            seq![
                tweak_bytes(i as u64),
                block_pairs(low, delta)[i][0],
                block_pairs(low, delta)[i][1],
            ],
    )
}

/// The bytes of each block of `triples`, triple by triple.
pub open spec fn triple_views(triples: Seq<[Block; 3]>) -> Seq<Seq<Seq<u8>>> {
    Seq::new(triples.len(), |i: int| seq![triples[i]@[0]@, triples[i]@[1]@, triples[i]@[2]@])
}

/// What is hashed to check `active` against a commitment: for each wire its
/// tweak and its active label.
pub open spec fn verify_inputs_of(active: Seq<Seq<u8>>) -> Seq<Seq<Seq<u8>>> {
    Seq::new(active.len(), |i: int| seq![tweak_bytes(i as u64), active[i]])
}

/// Returns what is hashed for the commitment to `full`: for each wire its
/// tweak, its low label and its high label. The hash of tweak and low label,
/// and the hash of tweak and high label, make the wire's entry.
pub fn commit_inputs(full: &EncodedValue<Full>) -> (out: Vec<[Block; 3]>)
    ensures
        triple_views(out@) == commit_inputs_of(full.wires(), full.delta_view()),
{
    let pairs = match full {
        EncodedValue::Bit(labels) => labels.iter_blocks(),
        EncodedValue::U8(labels) => labels.iter_blocks(),
        EncodedValue::U16(labels) => labels.iter_blocks(),
        EncodedValue::U32(labels) => labels.iter_blocks(),
        EncodedValue::U64(labels) => labels.iter_blocks(),
        EncodedValue::U128(labels) => labels.iter_blocks(),
    };
    proof {
        full.lemma_shape();
    }
    let ghost want = commit_inputs_of(full.wires(), full.delta_view());
    let ghost have = block_pairs(full.wires(), full.delta_view());
    assert(pair_views(pairs@) == have);
    assert(pairs@.len() == have.len());
    let mut out: Vec<[Block; 3]> = Vec::new();
    let mut i: usize = 0;
    while i < pairs.len()
        invariant
            i <= pairs@.len(),
            pairs@.len() == full.wires().len(),
            pairs@.len() <= 128,
            pair_views(pairs@) == have,
            have == block_pairs(full.wires(), full.delta_view()),
            out@.len() == i,
            forall|k: int|
                0 <= k < i ==> (#[trigger] out@[k])@[0]@ == tweak_bytes(k as u64) && out@[k]@[1]@
                    == have[k][0] && out@[k]@[2]@ == have[k][1],
        decreases pairs@.len() - i,
    {
        let pair: [Block; 2] = pairs[i];
        assert(pair_views(pairs@)[i as int] == have[i as int]);
        assert(have[i as int][0] == pair@[0]@);
        assert(have[i as int][1] == pair@[1]@);
        out.push([tweak(i as u64), pair[0], pair[1]]);
        i += 1;
    }
    assert(triple_views(out@) =~= commit_inputs_of(full.wires(), full.delta_view())) by {
        assert forall|k: int| 0 <= k < out@.len() implies triple_views(out@)[k] =~= want[k] by {}
    }
    out
}

/// Whether every hash is one of the two hashes that the commitment holds for its wire.
pub open spec fn commitment_accepts(pairs: Seq<Seq<Seq<u8>>>, hashes: Seq<Seq<u8>>) -> bool {
    forall|i: int|
        0 <= i < pairs.len() ==> #[trigger] hashes[i] == pairs[i][0] || hashes[i] == pairs[i][1]
}

/// The bytes of each hash of `pairs`, pair by pair.
pub open spec fn hash_pair_views(pairs: Seq<[[u8; 32]; 2]>) -> Seq<Seq<Seq<u8>>> {
    Seq::new(pairs.len(), |i: int| seq![pairs[i]@[0]@, pairs[i]@[1]@])
}

/// The bytes of each hash of `hashes`.
pub open spec fn hash_views(hashes: Seq<[u8; 32]>) -> Seq<Seq<u8>> {
    Seq::new(hashes.len(), |i: int| hashes[i]@)
}

/// Returns whether two hashes are the same.
fn same_hash(a: &[u8; 32], b: &[u8; 32]) -> (same: bool)
    ensures
        same == (a@ == b@),
{
    let mut i: usize = 0;
    while i < 32
        invariant
            i <= 32,
            forall|k: int| 0 <= k < i ==> a@[k] == b@[k],
        decreases 32 - i,
    {
        if a[i] != b[i] {
            return false;
        }
        i += 1;
    }
    assert(a@ =~= b@);
    true
}

/// A commitment to the full encoding of a value: for each wire the hash of
/// its low label and the hash of its high label.
#[derive(Debug, Clone, PartialEq, Eq)]
pub struct EncodingCommitment {
    ty: ValueType,
    hashes: Vec<[[u8; 32]; 2]>,
}

impl EncodingCommitment {
    /// The type of the value that was committed to.
    pub closed spec fn spec_value_type(&self) -> ValueType {
        self.ty
    }

    /// For each wire the two hashes.
    pub closed spec fn pairs(&self) -> Seq<Seq<Seq<u8>>> {
        hash_pair_views(self.hashes@)
    }

    /// Creates the commitment to a value of the type `ty` from the hashes of
    /// its labels, wire by wire.
    ///
    /// Fails with `InvalidLength` unless there is one pair for each wire of the type.
    pub fn new(ty: ValueType, hashes: Vec<[[u8; 32]; 2]>) -> (res: Result<
        EncodingCommitment,
        ValueError,
    >)
        ensures
            res is Ok <==> hashes@.len() == ty.wire_count(),
            res is Err ==> res->Err_0 == ValueError::InvalidLength,
            res is Ok ==> res->Ok_0.spec_value_type() == ty && res->Ok_0.pairs()
                == hash_pair_views(hashes@) && res->Ok_0.pairs().len() == ty.wire_count(),
    {
        if hashes.len() != ty.len() {
            return Err(ValueError::InvalidLength);
        }
        Ok(EncodingCommitment { ty, hashes })
    }

    /// Returns the type of the value that was committed to.
    pub fn value_type(&self) -> (ty: ValueType)
        ensures
            ty == self.spec_value_type(),
    {
        self.ty
    }

    /// Checks the hashes of the active labels of a value of the type `ty`
    /// against the commitment.
    ///
    /// Fails with `TypeMismatch` where `ty` is not the type committed to,
    /// with `InvalidLength` unless there is one hash for each pair of the
    /// commitment, and with `InvalidCommitment` where a hash is neither of
    /// the two of its wire.
    pub fn verify(&self, ty: ValueType, hashes: &[[u8; 32]]) -> (res: Result<(), ValueError>)
        ensures
            res is Ok <==> ty == self.spec_value_type() && hashes@.len() == self.pairs().len()
                && commitment_accepts(self.pairs(), hash_views(hashes@)),
            res is Err ==> res->Err_0 == (if ty != self.spec_value_type() {
                ValueError::TypeMismatch
            } else if hashes@.len() != self.pairs().len() {
                ValueError::InvalidLength
            } else {
                ValueError::InvalidCommitment
            }),
    {
        if !same_type(ty, self.ty) {
            return Err(ValueError::TypeMismatch);
        }
        if hashes.len() != self.hashes.len() {
            return Err(ValueError::InvalidLength);
        }
        let mut i: usize = 0;
        while i < hashes.len()
            invariant
                i <= hashes@.len(),
                ty == self.ty,
                hashes@.len() == self.hashes@.len(),
                forall|k: int|
                    0 <= k < i ==> #[trigger] hash_views(hashes@)[k] == self.pairs()[k][0]
                        || hash_views(hashes@)[k] == self.pairs()[k][1],
            decreases hashes@.len() - i,
        {
            let pair: &[[u8; 32]; 2] = &self.hashes[i];
            let hash: &[u8; 32] = &hashes[i];
            if !(same_hash(hash, &pair[0]) || same_hash(hash, &pair[1])) {
                assert(hash_views(hashes@)[i as int] == hash@);
                assert(self.pairs()[i as int][0] == pair@[0]@);
                assert(self.pairs()[i as int][1] == pair@[1]@);
                return Err(ValueError::InvalidCommitment);
            }
            i += 1;
        }
        Ok(())
    }
}

/// Returns whether two types are the same.
fn same_type(a: ValueType, b: ValueType) -> (same: bool)
    ensures
        same == (a == b),
{
    a == b
}

/// Returns what is hashed to check `active` against a commitment: for each
/// wire its tweak and its active label.
pub fn verify_inputs(active: &EncodedValue<Active>) -> (out: Vec<[Block; 2]>)
    ensures
        pair_views(out@) == verify_inputs_of(active.wires()),
{
    let n = active.len();
    let mut out: Vec<[Block; 2]> = Vec::new();
    let mut i: usize = 0;
    proof {
        active.lemma_shape();
    }
    while i < n
        invariant
            i <= n,
            n == active.wires().len(),
            n <= 128,
            out@.len() == i,
            forall|k: int|
                0 <= k < i ==> (#[trigger] out@[k])@[0]@ == tweak_bytes(k as u64) && out@[k]@[1]@
                    == active.wires()[k],
        decreases n - i,
    {
        let label = active.label(i);
        out.push([tweak(i as u64), label.to_inner()]);
        i += 1;
    }
    assert(pair_views(out@) =~= verify_inputs_of(active.wires())) by {
        assert forall|k: int| 0 <= k < out@.len() implies pair_views(out@)[k]
            =~= verify_inputs_of(active.wires())[k] by {}
    }
    out
}

} // verus!
