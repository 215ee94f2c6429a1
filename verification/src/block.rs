//! The 128-bit block that labels and offsets are made of.

use rand::{CryptoRng, Rng};
use vstd::prelude::*;

verus! {

/// Bytewise XOR of two byte sequences of the length of a block.
pub open spec fn xor_bytes(a: Seq<u8>, b: Seq<u8>) -> Seq<u8> {
    Seq::new(16, |i: int| a[i] ^ b[i])
}

/// The byte sequence `a` with the lowest bit of its first byte set.
pub open spec fn with_lsb(a: Seq<u8>) -> Seq<u8> {
    a.update(0, a[0] | 1u8)
}

/// The lowest bit of the first byte of `a`, as 0 or 1.
pub open spec fn lsb_of(a: Seq<u8>) -> int {
    if a[0] & 1u8 == 1u8 { 1 } else { 0 }
}

/// A 128-bit value, held as 16 bytes in little-endian order.
#[derive(Clone, Copy, Debug, Eq)]
pub struct Block {
    bytes: [u8; 16],
}

impl View for Block {
    type V = Seq<u8>;

    closed spec fn view(&self) -> Seq<u8> {
        self.bytes@
    }
}

/// Draws 16 bytes from `rng` by `rand::Rng::gen`. What comes back depends on
/// the generator's state, so nothing is claimed of it.
#[verifier::external_body]
fn draw_bytes<R: Rng + CryptoRng + ?Sized>(rng: &mut R) -> (bytes: [u8; 16]) {
    rng.gen()
}

impl Block {
    /// Length of a block in bytes.
    pub const LEN: usize = 16;

    /// A block has 16 bytes.
    pub proof fn lemma_len(self)
        ensures
            self@.len() == 16,
    {
    }

    /// Creates a block from its bytes.
    pub fn new(bytes: [u8; 16]) -> (block: Block)
        ensures
            block@ == bytes@,
    {
        Block { bytes }
    }

    /// Returns the bytes of the block.
    pub fn to_bytes(self) -> (bytes: [u8; 16])
        ensures
            bytes@ == self@,
    {
        self.bytes
    }

    /// Creates a block from 16 bytes drawn from `rng`.
    pub fn random<R: Rng + CryptoRng + ?Sized>(rng: &mut R) -> (block: Block) {
        Block { bytes: draw_bytes(rng) }
    }

    /// Returns the least significant bit of the block, as 0 or 1.
    pub fn lsb(&self) -> (bit: usize)
        ensures
            bit == lsb_of(self@),
    {
        if self.bytes[0] & 1u8 == 1u8 { 1 } else { 0 }
    }

    /// Sets the least significant bit of the block to 1.
    pub fn set_lsb(&mut self)
        ensures
            final(self)@ == with_lsb(old(self)@),
            lsb_of(final(self)@) == 1,
    {
        let b: u8 = self.bytes[0];
        assert((b | 1u8) & 1u8 == 1u8) by (bit_vector);
        self.bytes[0] = b | 1u8;
    }

    /// Returns the bytewise XOR of two blocks.
    pub fn xor(self, rhs: Block) -> (out: Block)
        ensures
            out@ == xor_bytes(self@, rhs@),
    {
        let mut bytes: [u8; 16] = self.bytes;
        let mut i: usize = 0;
        while i < 16
            invariant
                i <= 16,
                forall|j: int| 0 <= j < i ==> bytes@[j] == self.bytes@[j] ^ rhs.bytes@[j],
            decreases 16 - i,
        {
            bytes[i] = self.bytes[i] ^ rhs.bytes[i];
            i += 1;
        }
        assert(bytes@ =~= xor_bytes(self@, rhs@));
        Block { bytes }
    }
}

/// The all-zero byte sequence of the length of a block.
pub open spec fn zero_bytes() -> Seq<u8> {
    Seq::new(16, |i: int| 0u8)
}

/// XOR of blocks is commutative.
pub proof fn lemma_xor_bytes_commutative(a: Seq<u8>, b: Seq<u8>)
    ensures
        xor_bytes(a, b) == xor_bytes(b, a),
{
    assert forall|i: int| 0 <= i < 16 implies a[i] ^ b[i] == b[i] ^ a[i] by {
        let x = a[i];
        let y = b[i];
        assert(x ^ y == y ^ x) by (bit_vector);
    }
    assert(xor_bytes(a, b) =~= xor_bytes(b, a));
}

/// XOR of blocks is associative.
pub proof fn lemma_xor_bytes_associative(a: Seq<u8>, b: Seq<u8>, c: Seq<u8>)
    ensures
        xor_bytes(xor_bytes(a, b), c) == xor_bytes(a, xor_bytes(b, c)),
{
    assert forall|i: int| 0 <= i < 16 implies (a[i] ^ b[i]) ^ c[i] == a[i] ^ (b[i] ^ c[i]) by {
        let x = a[i];
        let y = b[i];
        let z = c[i];
        assert((x ^ y) ^ z == x ^ (y ^ z)) by (bit_vector);
    }
    assert(xor_bytes(xor_bytes(a, b), c) =~= xor_bytes(a, xor_bytes(b, c)));
}

/// XORing the same block in twice gives the first block back.
pub proof fn lemma_xor_bytes_cancels(a: Seq<u8>, b: Seq<u8>)
    requires
        a.len() == 16,
    ensures
        xor_bytes(xor_bytes(a, b), b) == a,
{
    assert forall|i: int| 0 <= i < 16 implies (a[i] ^ b[i]) ^ b[i] == a[i] by {
        let x = a[i];
        let y = b[i];
        assert((x ^ y) ^ y == x) by (bit_vector);
    }
    assert(xor_bytes(xor_bytes(a, b), b) =~= a);
}

/// XORing the zero block in changes nothing.
pub proof fn lemma_xor_bytes_zero(a: Seq<u8>)
    requires
        a.len() == 16,
    ensures
        xor_bytes(a, zero_bytes()) == a,
{
    assert forall|i: int| 0 <= i < 16 implies a[i] ^ 0u8 == a[i] by {
        let x = a[i];
        assert(x ^ 0u8 == x) by (bit_vector);
    }
    assert(xor_bytes(a, zero_bytes()) =~= a);
}

/// The least significant bit of an XOR is the XOR of the least significant bits.
pub proof fn lemma_xor_bytes_lsb(a: Seq<u8>, b: Seq<u8>)
    ensures
        (lsb_of(xor_bytes(a, b)) == 1) == ((lsb_of(a) == 1) != (lsb_of(b) == 1)),
{
    let x = a[0];
    let y = b[0];
    assert(((x ^ y) & 1u8 == 1u8) == ((x & 1u8 == 1u8) != (y & 1u8 == 1u8))) by (bit_vector);
}

/// Two blocks with the same bytes are the same block.
pub proof fn lemma_block_view_injective(a: Block, b: Block)
    requires
        a@ == b@,
    ensures
        a == b,
{
    assert(a.bytes =~= b.bytes);
}

impl PartialEq for Block {
    fn eq(&self, other: &Block) -> (same: bool) {
        let mut i: usize = 0;
        while i < 16
            invariant
                i <= 16,
                forall|j: int| 0 <= j < i ==> self.bytes@[j] == other.bytes@[j],
            decreases 16 - i,
        {
            if self.bytes[i] != other.bytes[i] {
                return false;
            }
            i += 1;
        }
        assert(self.bytes@ =~= other.bytes@);
        true
    }
}

impl vstd::std_specs::cmp::PartialEqSpecImpl for Block {
    open spec fn obeys_eq_spec() -> bool {
        true
    }

    open spec fn eq_spec(&self, other: &Block) -> bool {
        self@ == other@
    }
}

} // verus!
