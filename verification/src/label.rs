//! Wire labels and the global offset that pairs them.

use crate::block::{
    lemma_block_view_injective, lsb_of, with_lsb, xor_bytes, zero_bytes, Block,
};
use rand::{CryptoRng, Rng};
use std::ops::{BitXor, Deref};
use vstd::prelude::*;

verus! {

/// Global binary offset that ties the two labels of a wire together:
/// the label for bit value 1 is the label for bit value 0 XORed with it.
///
/// Its least significant bit is always 1, so that the two labels of a wire
/// differ in their pointer bit.
#[derive(Debug, Clone, Copy)]
pub struct Delta(Block);

impl View for Delta {
    type V = Seq<u8>;

    closed spec fn view(&self) -> Seq<u8> {
        self.0@
    }
}

impl Delta {
    /// Whether the least significant bit is set, as it is in every offset.
    #[verifier::type_invariant]
    pub closed spec fn lsb_is_set(self) -> bool {
        lsb_of(self.0@) == 1
    }

    /// Creates the offset that `block` gives once its least significant bit is set.
    pub fn new(block: Block) -> (delta: Delta)
        ensures
            delta@ == with_lsb(block@),
            lsb_of(delta@) == 1,
    {
        let mut block = block;
        block.set_lsb();
        Delta(block)
    }

    /// Creates a new random offset.
    pub fn random<R: Rng + CryptoRng + ?Sized>(rng: &mut R) -> (delta: Delta)
        ensures
            lsb_of(delta@) == 1,
    {
        Delta::new(Block::random(rng))
    }

    /// What the type's invariant says of the bytes: the lowest bit of the first is set.
    pub proof fn lemma_lsb(self)
        requires
            self.lsb_is_set(),
        ensures
            lsb_of(self@) == 1,
    {
    }

    /// Returns the inner block.
    pub fn into_inner(self) -> (block: Block)
        ensures
            block@ == self@,
            lsb_of(block@) == 1,
    {
        proof {
            use_type_invariant(&self);
        }
        self.0
    }
}

/// Encoded bit label.
#[derive(Debug, Clone, Copy)]
pub struct Label(Block);

impl View for Label {
    type V = Seq<u8>;

    closed spec fn view(&self) -> Seq<u8> {
        self.0@
    }
}

impl Label {
    /// Length of a label in bytes.
    pub const LEN: usize = 16;

    /// Creates the label whose bytes are all zero.
    pub fn zero() -> (label: Label)
        ensures
            label@ == zero_bytes(),
    {
        let label = Label(Block::new([0u8;16]));
        assert(label@ =~= zero_bytes());
        label
    }

    /// Creates a new label.
    pub fn new(value: Block) -> (label: Label)
        ensures
            label@ == value@,
    {
        Label(value)
    }

    /// A label has 16 bytes.
    pub proof fn lemma_len(self)
        ensures
            self@.len() == 16,
    {
        self.0.lemma_len();
    }

    /// Returns the inner block.
    pub fn to_inner(self) -> (block: Block)
        ensures
            block@ == self@,
    {
        self.0
    }

    /// Returns the label's pointer bit: its least significant bit.
    pub fn pointer_bit(&self) -> (bit: bool)
        ensures
            bit == (lsb_of(self@) == 1),
    {
        self.0.lsb() == 1
    }

    /// Creates a new random label.
    pub fn random<R: Rng + CryptoRng + ?Sized>(rng: &mut R) -> (label: Label) {
        Label(Block::random(rng))
    }
}

/// The label whose bytes are `bytes`.
pub open spec fn label_of(bytes: Seq<u8>) -> Label {
    choose|label: Label| label@ == bytes
}

/// Two labels with the same bytes are the same label.
pub proof fn lemma_label_view_injective(a: Label, b: Label)
    requires
        a@ == b@,
    ensures
        a == b,
{
    lemma_block_view_injective(a.0, b.0);
}

/// Two offsets with the same bytes are the same offset.
pub proof fn lemma_delta_view_injective(a: Delta, b: Delta)
    requires
        a@ == b@,
    ensures
        a == b,
{
    lemma_block_view_injective(a.0, b.0);
}

/// A label is the label of its own bytes.
pub proof fn lemma_label_of_view(a: Label)
    ensures
        label_of(a@) == a,
{
    lemma_label_view_injective(label_of(a@), a);
}

impl Deref for Delta {
    type Target = Block;

    fn deref(&self) -> (block: &Block)
        ensures
            block@ == self@,
    {
        &self.0
    }
}

impl From<Block> for Label {
    fn from(block: Block) -> (label: Label)
        ensures
            label@ == block@,
    {
        let label = Label(block);
        proof {
            lemma_label_of_view(label);
        }
        label
    }
}

impl vstd::std_specs::convert::FromSpecImpl<Block> for Label {
    open spec fn obeys_from_spec() -> bool {
        true
    }

    open spec fn from_spec(block: Block) -> Label {
        label_of(block@)
    }
}

impl AsRef<Block> for Label {
    fn as_ref(&self) -> (block: &Block)
        ensures
            block@ == self@,
    {
        &self.0
    }
}

impl PartialEq for Label {
    fn eq(&self, other: &Label) -> (same: bool) {
        self.0 == other.0
    }
}

impl vstd::std_specs::cmp::PartialEqSpecImpl for Label {
    open spec fn obeys_eq_spec() -> bool {
        true
    }

    open spec fn eq_spec(&self, other: &Label) -> bool {
        self@ == other@
    }
}

impl PartialEq for Delta {
    fn eq(&self, other: &Delta) -> (same: bool) {
        self.0 == other.0
    }
}

impl vstd::std_specs::cmp::PartialEqSpecImpl for Delta {
    open spec fn obeys_eq_spec() -> bool {
        true
    }

    open spec fn eq_spec(&self, other: &Delta) -> bool {
        self@ == other@
    }
}

impl BitXor<Label> for Label {
    type Output = Label;

    fn bitxor(self, rhs: Label) -> (out: Label)
        ensures
            out@ == xor_bytes(self@, rhs@),
    {
        let out = Label(self.0.xor(rhs.0));
        proof {
            lemma_label_of_view(out);
        }
        out
    }
}

impl vstd::std_specs::ops::BitXorSpecImpl<Label> for Label {
    open spec fn obeys_bitxor_spec() -> bool {
        true
    }

    open spec fn bitxor_req(self, rhs: Label) -> bool {
        true
    }

    open spec fn bitxor_spec(self, rhs: Label) -> Label {
        label_of(xor_bytes(self@, rhs@))
    }
}

impl BitXor<&Label> for Label {
    type Output = Label;

    fn bitxor(self, rhs: &Label) -> (out: Label)
        ensures
            out@ == xor_bytes(self@, rhs@),
    {
        let out = Label(self.0.xor(rhs.0));
        proof {
            lemma_label_of_view(out);
        }
        out
    }
}

impl vstd::std_specs::ops::BitXorSpecImpl<&Label> for Label {
    open spec fn obeys_bitxor_spec() -> bool {
        true
    }

    open spec fn bitxor_req(self, rhs: &Label) -> bool {
        true
    }

    open spec fn bitxor_spec(self, rhs: &Label) -> Label {
        label_of(xor_bytes(self@, rhs@))
    }
}

impl BitXor<&Label> for &Label {
    type Output = Label;

    fn bitxor(self, rhs: &Label) -> (out: Label)
        ensures
            out@ == xor_bytes(self@, rhs@),
    {
        let out = Label(self.0.xor(rhs.0));
        proof {
            lemma_label_of_view(out);
        }
        out
    }
}

impl vstd::std_specs::ops::BitXorSpecImpl<&Label> for &Label {
    open spec fn obeys_bitxor_spec() -> bool {
        true
    }

    open spec fn bitxor_req(self, rhs: &Label) -> bool {
        true
    }

    open spec fn bitxor_spec(self, rhs: &Label) -> Label {
        label_of(xor_bytes(self@, rhs@))
    }
}

impl BitXor<Delta> for Label {
    type Output = Label;

    fn bitxor(self, rhs: Delta) -> (out: Label)
        ensures
            out@ == xor_bytes(self@, rhs@),
    {
        let out = Label(self.0.xor(rhs.0));
        proof {
            lemma_label_of_view(out);
        }
        out
    }
}

impl vstd::std_specs::ops::BitXorSpecImpl<Delta> for Label {
    open spec fn obeys_bitxor_spec() -> bool {
        true
    }

    open spec fn bitxor_req(self, rhs: Delta) -> bool {
        true
    }

    open spec fn bitxor_spec(self, rhs: Delta) -> Label {
        label_of(xor_bytes(self@, rhs@))
    }
}

impl BitXor<Delta> for &Label {
    type Output = Label;

    fn bitxor(self, rhs: Delta) -> (out: Label)
        ensures
            out@ == xor_bytes(self@, rhs@),
    {
        let out = Label(self.0.xor(rhs.0));
        proof {
            lemma_label_of_view(out);
        }
        out
    }
}

impl vstd::std_specs::ops::BitXorSpecImpl<Delta> for &Label {
    open spec fn obeys_bitxor_spec() -> bool {
        true
    }

    open spec fn bitxor_req(self, rhs: Delta) -> bool {
        true
    }

    open spec fn bitxor_spec(self, rhs: Delta) -> Label {
        label_of(xor_bytes(self@, rhs@))
    }
}

} // verus!
