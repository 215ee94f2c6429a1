//! Fixed-length collections of labels.

use crate::block::{lsb_of, xor_bytes, Block};
use crate::label::{lemma_delta_view_injective, lemma_label_view_injective, Delta, Label};
use crate::state::{Active, Full, LabelState};
use crate::value::ValueError;
use rand::{CryptoRng, Rng};
use std::ops::{BitXor, Index};
use std::sync::Arc;
use vstd::std_specs::iter::IteratorSpec;
use vstd::prelude::*;

verus! {

/// The bytes of each label of `labels`, in order.
pub open spec fn label_views(labels: Seq<Label>) -> Seq<Seq<u8>> {
    Seq::new(labels.len(), |i: int| labels[i]@)
}

/// Wire by wire, the XOR of two collections.
pub open spec fn xor_wires(a: Seq<Seq<u8>>, b: Seq<Seq<u8>>) -> Seq<Seq<u8>> {
    Seq::new(a.len(), |i: int| xor_bytes(a[i], b[i]))
}

/// Whether every label of `active` is the low or the high label of its wire,
/// where `low` holds the low labels and the high label of a wire is its low
/// label XORed with `delta`.
pub open spec fn is_active_of(low: Seq<Seq<u8>>, delta: Seq<u8>, active: Seq<Seq<u8>>) -> bool {
    forall|i: int|
        0 <= i < low.len() ==> #[trigger] active[i] == low[i] || active[i] == xor_bytes(
            low[i],
            delta,
        )
}

/// For each wire the label that stands for its bit: the low label where the
/// bit is 0, the low label XORed with `delta` where it is 1.
pub open spec fn select_wires(low: Seq<Seq<u8>>, delta: Seq<u8>, bits: Seq<bool>) -> Seq<Seq<u8>> {
    Seq::new(
        low.len(),
        |i: int|
            if bits[i] {
                xor_bytes(low[i], delta)
            } else {
                low[i]
            },
    )
}

/// The pointer bits of the low labels.
pub open spec fn decoding_of(low: Seq<Seq<u8>>) -> Seq<bool> {
    Seq::new(low.len(), |i: int| lsb_of(low[i]) == 1)
}

/// For each wire the bit that its active label stands for: the label's
/// pointer bit XORed with the wire's decoding bit.
pub open spec fn decode_wires(active: Seq<Seq<u8>>, decoding: Seq<bool>) -> Seq<bool> {
    Seq::new(active.len(), |i: int| (lsb_of(active[i]) == 1) != decoding[i])
}

/// For each wire its pair of labels, the low one first.
pub open spec fn block_pairs(low: Seq<Seq<u8>>, delta: Seq<u8>) -> Seq<Seq<Seq<u8>>> {
    Seq::new(low.len(), |i: int| seq![low[i], xor_bytes(low[i], delta)])
}

/// The bytes of each block of `pairs`, pair by pair.
pub open spec fn pair_views(pairs: Seq<[Block; 2]>) -> Seq<Seq<Seq<u8>>> {
    Seq::new(pairs.len(), |i: int| seq![pairs[i]@[0]@, pairs[i]@[1]@])
}

/// Wire by wire, the XOR of two arrays of labels.
fn xor_arrays<const N: usize>(a: &[Label; N], b: &[Label; N]) -> (out: [Label; N])
    ensures
        label_views(out@) == xor_wires(label_views(a@), label_views(b@)),
{
    let mut out: [Label; N] = *a;
    let mut i: usize = 0;
    while i < N
        invariant
            i <= N,
            forall|j: int| 0 <= j < i ==> (#[trigger] out@[j])@ == xor_bytes(a@[j]@, b@[j]@),
        decreases N - i,
    {
        out[i] = a[i] ^ b[i];
        i += 1;
    }
    assert(label_views(out@) =~= xor_wires(label_views(a@), label_views(b@)));
    out
}

/// A collection of labels.
///
/// The labels are held behind a reference count, so that a clone shares them.
#[derive(Debug, Clone, PartialEq)]
pub struct Labels<const N: usize, S: LabelState> {
    state: S,
    labels: Arc<[Label; N]>,
}

impl<const N: usize, S: LabelState> View for Labels<N, S> {
    type V = Seq<Seq<u8>>;

    closed spec fn view(&self) -> Seq<Seq<u8>> {
        label_views((*self.labels)@)
    }
}

impl<const N: usize, S: LabelState> Labels<N, S> {
    /// A collection holds `N` labels of 16 bytes each.
    pub proof fn lemma_shape(&self)
        ensures
            self@.len() == N,
            forall|i: int| 0 <= i < N ==> (#[trigger] self@[i]).len() == 16,
    {
        assert forall|i: int| 0 <= i < N implies (#[trigger] self@[i]).len() == 16 by {
            (*self.labels)@[i].lemma_len();
        }
    }

    /// Returns an iterator over the labels.
    ///
    /// In the full state these are the low labels, in the active state the
    /// active ones.
    pub fn iter(&self) -> (it: core::slice::Iter<'_, Label>)
        ensures
            it.remaining().len() == N,
            forall|i: int| 0 <= i < N ==> (#[trigger] it.remaining()[i])@ == self@[i],
    {
        let items: &[Label; N] = &*self.labels;
        items.iter()
    }

    /// Returns whether `other` holds the same label on every wire.
    ///
    /// Every wire is compared, whatever the earlier ones gave.
    pub fn same_labels(&self, other: &Labels<N, S>) -> (same: bool)
        ensures
            same == (self@ == other@),
    {
        let mut same = true;
        let ghost mut differs: int = 0;
        let mut i: usize = 0;
        while i < N
            invariant
                i <= N,
                same ==> forall|j: int| 0 <= j < i ==> #[trigger] self@[j] == other@[j],
                !same ==> 0 <= differs < i && self@[differs] != other@[differs],
            decreases N - i,
        {
            let a: Label = self.labels[i];
            let b: Label = other.labels[i];
            if a != b {
                same = false;
                proof {
                    differs = i as int;
                }
            }
            i += 1;
        }
        proof {
            self.lemma_shape();
            other.lemma_shape();
            if same {
                assert(self@ =~= other@);
            }
        }
        same
    }

    /// Returns number of labels.
    pub fn len(&self) -> (n: usize)
        ensures
            n == N,
            n == self@.len(),
    {
        N
    }
}

impl<const N: usize> Labels<N, Full> {
    /// The bytes of the offset that pairs the labels of each wire.
    pub closed spec fn delta_view(&self) -> Seq<u8> {
        self.state.delta@
    }

    /// Creates the full collection with the low labels `labels` and the offset `delta`.
    pub fn new(delta: Delta, labels: [Label; N]) -> (out: Labels<N, Full>)
        ensures
            out@ == label_views(labels@),
            out.delta_view() == delta@,
            lsb_of(out.delta_view()) == 1,
    {
        proof {
            use_type_invariant(&delta);
            delta.lemma_lsb();
        }
        Labels { state: Full { delta }, labels: Arc::new(labels) }
    }

    /// Creates a full collection with random low labels and the offset `delta`.
    pub fn random<R: Rng + CryptoRng + ?Sized>(rng: &mut R, delta: Delta) -> (out: Labels<N, Full>)
        ensures
            out.delta_view() == delta@,
            lsb_of(out.delta_view()) == 1,
    {
        let mut labels: [Label; N] = [Label::zero();N];
        let mut i: usize = 0;
        while i < N
            invariant
                i <= N,
            decreases N - i,
        {
            labels[i] = Label::random(rng);
            i += 1;
        }
        Labels::<N, Full>::new(delta, labels)
    }

    /// Returns the offset.
    pub fn delta(&self) -> (delta: Delta)
        ensures
            delta@ == self.delta_view(),
            lsb_of(delta@) == 1,
    {
        proof {
            use_type_invariant(&self.state.delta);
            self.state.delta.lemma_lsb();
        }
        self.state.delta
    }

    /// Checks that every label of `active` is the low or the high label of its wire.
    pub fn verify(&self, active: &Labels<N, Active>) -> (res: Result<(), ValueError>)
        ensures
            res is Ok <==> is_active_of(self@, self.delta_view(), active@),
            res is Err ==> res == Err::<(), ValueError>(ValueError::InvalidActiveEncoding),
    {
        let mut i: usize = 0;
        while i < N
            invariant
                i <= N,
                forall|j: int|
                    0 <= j < i ==> #[trigger] active@[j] == self@[j] || active@[j] == xor_bytes(
                        self@[j],
                        self.delta_view(),
                    ),
            decreases N - i,
        {
            let low: Label = self.labels[i];
            let act: Label = active.labels[i];
            let high: Label = low ^ self.state.delta;
            if !(act == low || act == high) {
                assert(!(active@[i as int] == self@[i as int] || active@[i as int] == xor_bytes(
                    self@[i as int],
                    self.delta_view(),
                )));
                return Err(ValueError::InvalidActiveEncoding);
            }
            i += 1;
        }
        Ok(())
    }
}

impl<const N: usize> Labels<N, Full> {
    /// Returns the pair of blocks of each wire: the low label's, then the high label's.
    pub fn iter_blocks(&self) -> (pairs: Vec<[Block; 2]>)
        ensures
            pair_views(pairs@) == block_pairs(self@, self.delta_view()),
    {
        let mut pairs: Vec<[Block; 2]> = Vec::new();
        let mut i: usize = 0;
        while i < N
            invariant
                i <= N,
                pairs@.len() == i,
                forall|j: int|
                    0 <= j < i ==> (#[trigger] pairs@[j])@[0]@ == self@[j] && pairs@[j]@[1]@
                        == xor_bytes(self@[j], self.delta_view()),
            decreases N - i,
        {
            let low: Label = self.labels[i];
            let high: Label = low ^ self.state.delta;
            pairs.push([low.to_inner(), high.to_inner()]);
            i += 1;
        }
        assert(pair_views(pairs@) =~= block_pairs(self@, self.delta_view()));
        pairs
    }

    /// Returns the active labels that stand for `bits`, wire `i` carrying `bits[i]`.
    pub fn select(&self, bits: &[bool; N]) -> (active: Labels<N, Active>)
        ensures
            active@ == select_wires(self@, self.delta_view(), bits@),
    {
        let mut out: [Label; N] = *self.labels;
        let mut i: usize = 0;
        while i < N
            invariant
                i <= N,
                forall|j: int|
                    0 <= j < i ==> (#[trigger] out@[j])@ == select_wires(
                        self@,
                        self.delta_view(),
                        bits@,
                    )[j],
                forall|j: int| i <= j < N ==> (#[trigger] out@[j])@ == self@[j],
            decreases N - i,
        {
            if bits[i] {
                out[i] = self.labels[i] ^ self.state.delta;
            }
            i += 1;
        }
        assert(label_views(out@) =~= select_wires(self@, self.delta_view(), bits@));
        Labels { state: Active, labels: Arc::new(out) }
    }

    /// Returns the decoding of the collection: the pointer bit of each low label.
    pub fn decoding(&self) -> (bits: [bool; N])
        ensures
            bits@ == decoding_of(self@),
    {
        let mut bits: [bool; N] = [false;N];
        let mut i: usize = 0;
        while i < N
            invariant
                i <= N,
                forall|j: int| 0 <= j < i ==> #[trigger] bits@[j] == (lsb_of(self@[j]) == 1),
            decreases N - i,
        {
            let low: Label = self.labels[i];
            bits[i] = low.pointer_bit();
            i += 1;
        }
        assert(bits@ =~= decoding_of(self@));
        bits
    }
}

impl<const N: usize> Labels<N, Active> {
    /// Creates the active collection that holds `labels`.
    pub fn new(labels: [Label; N]) -> (out: Labels<N, Active>)
        ensures
            out@ == label_views(labels@),
    {
        Labels { state: Active, labels: Arc::new(labels) }
    }

    /// Returns the bit that each active label stands for under `decoding`.
    pub fn decode(&self, decoding: &[bool; N]) -> (bits: [bool; N])
        ensures
            bits@ == decode_wires(self@, decoding@),
    {
        let mut bits: [bool; N] = [false;N];
        let mut i: usize = 0;
        while i < N
            invariant
                i <= N,
                forall|j: int|
                    0 <= j < i ==> #[trigger] bits@[j] == ((lsb_of(self@[j]) == 1)
                        != decoding@[j]),
            decreases N - i,
        {
            let label: Label = self.labels[i];
            bits[i] = label.pointer_bit() != decoding[i];
            i += 1;
        }
        assert(bits@ =~= decode_wires(self@, decoding@));
        bits
    }
}

/// The full collection with the low labels `low` and the offset `delta`.
pub open spec fn full_of<const N: usize>(low: Seq<Seq<u8>>, delta: Seq<u8>) -> Labels<N, Full> {
    choose|labels: Labels<N, Full>| labels@ == low && labels.delta_view() == delta
}

/// The active collection with the labels `labels`.
pub open spec fn active_of<const N: usize>(labels: Seq<Seq<u8>>) -> Labels<N, Active> {
    choose|active: Labels<N, Active>| active@ == labels
}

/// Two full collections with the same low labels and the same offset are the same.
pub proof fn lemma_full_view_injective<const N: usize>(a: Labels<N, Full>, b: Labels<N, Full>)
    requires
        a@ == b@,
        a.delta_view() == b.delta_view(),
    ensures
        a == b,
{
    lemma_delta_view_injective(a.state.delta, b.state.delta);
    assert forall|i: int| 0 <= i < N implies (*a.labels)[i] == (*b.labels)[i] by {
        assert(a@[i] == b@[i]);
        lemma_label_view_injective((*a.labels)@[i], (*b.labels)@[i]);
    }
    assert(*a.labels =~= *b.labels);
}

/// Two active collections with the same labels are the same.
pub proof fn lemma_active_view_injective<const N: usize>(
    a: Labels<N, Active>,
    b: Labels<N, Active>,
)
    requires
        a@ == b@,
    ensures
        a == b,
{
    assert forall|i: int| 0 <= i < N implies (*a.labels)[i] == (*b.labels)[i] by {
        assert(a@[i] == b@[i]);
        lemma_label_view_injective((*a.labels)@[i], (*b.labels)@[i]);
    }
    assert(a.state =~= b.state);
    assert(*a.labels =~= *b.labels);
}

impl<const N: usize> BitXor<Labels<N, Full>> for Labels<N, Full> {
    type Output = Labels<N, Full>;

    fn bitxor(self, rhs: Labels<N, Full>) -> (out: Labels<N, Full>)
        ensures
            out@ == xor_wires(self@, rhs@),
            out.delta_view() == self.delta_view(),
    {
        let out = Labels {
            state: self.state,
            labels: Arc::new(xor_arrays(&*self.labels, &*rhs.labels)),
        };
        proof {
            lemma_full_view_injective(out, full_of::<N>(out@, out.delta_view()));
        }
        out
    }
}

impl<const N: usize> vstd::std_specs::ops::BitXorSpecImpl<Labels<N, Full>> for Labels<N, Full> {
    open spec fn obeys_bitxor_spec() -> bool {
        true
    }

    open spec fn bitxor_req(self, rhs: Labels<N, Full>) -> bool {
        self.delta_view() == rhs.delta_view()
    }

    open spec fn bitxor_spec(self, rhs: Labels<N, Full>) -> Labels<N, Full> {
        full_of::<N>(xor_wires(self@, rhs@), self.delta_view())
    }
}

impl<const N: usize> BitXor<&Labels<N, Full>> for &Labels<N, Full> {
    type Output = Labels<N, Full>;

    fn bitxor(self, rhs: &Labels<N, Full>) -> (out: Labels<N, Full>)
        ensures
            out@ == xor_wires(self@, rhs@),
            out.delta_view() == self.delta_view(),
    {
        let out = Labels {
            state: self.state,
            labels: Arc::new(xor_arrays(&*self.labels, &*rhs.labels)),
        };
        proof {
            lemma_full_view_injective(out, full_of::<N>(out@, out.delta_view()));
        }
        out
    }
}

impl<const N: usize> vstd::std_specs::ops::BitXorSpecImpl<&Labels<N, Full>> for &Labels<N, Full> {
    open spec fn obeys_bitxor_spec() -> bool {
        true
    }

    open spec fn bitxor_req(self, rhs: &Labels<N, Full>) -> bool {
        self.delta_view() == rhs.delta_view()
    }

    open spec fn bitxor_spec(self, rhs: &Labels<N, Full>) -> Labels<N, Full> {
        full_of::<N>(xor_wires(self@, rhs@), self.delta_view())
    }
}

impl<const N: usize> BitXor<&Labels<N, Full>> for Labels<N, Full> {
    type Output = Labels<N, Full>;

    fn bitxor(self, rhs: &Labels<N, Full>) -> (out: Labels<N, Full>)
        ensures
            out@ == xor_wires(self@, rhs@),
            out.delta_view() == self.delta_view(),
    {
        let out = Labels {
            state: self.state,
            labels: Arc::new(xor_arrays(&*self.labels, &*rhs.labels)),
        };
        proof {
            lemma_full_view_injective(out, full_of::<N>(out@, out.delta_view()));
        }
        out
    }
}

impl<const N: usize> vstd::std_specs::ops::BitXorSpecImpl<&Labels<N, Full>> for Labels<N, Full> {
    open spec fn obeys_bitxor_spec() -> bool {
        true
    }

    open spec fn bitxor_req(self, rhs: &Labels<N, Full>) -> bool {
        self.delta_view() == rhs.delta_view()
    }

    open spec fn bitxor_spec(self, rhs: &Labels<N, Full>) -> Labels<N, Full> {
        full_of::<N>(xor_wires(self@, rhs@), self.delta_view())
    }
}

impl<const N: usize> BitXor<Labels<N, Full>> for &Labels<N, Full> {
    type Output = Labels<N, Full>;

    fn bitxor(self, rhs: Labels<N, Full>) -> (out: Labels<N, Full>)
        ensures
            out@ == xor_wires(self@, rhs@),
            out.delta_view() == self.delta_view(),
    {
        let out = Labels {
            state: self.state,
            labels: Arc::new(xor_arrays(&*self.labels, &*rhs.labels)),
        };
        proof {
            lemma_full_view_injective(out, full_of::<N>(out@, out.delta_view()));
        }
        out
    }
}

impl<const N: usize> vstd::std_specs::ops::BitXorSpecImpl<Labels<N, Full>> for &Labels<N, Full> {
    open spec fn obeys_bitxor_spec() -> bool {
        true
    }

    open spec fn bitxor_req(self, rhs: Labels<N, Full>) -> bool {
        self.delta_view() == rhs.delta_view()
    }

    open spec fn bitxor_spec(self, rhs: Labels<N, Full>) -> Labels<N, Full> {
        full_of::<N>(xor_wires(self@, rhs@), self.delta_view())
    }
}

impl<const N: usize> BitXor<Labels<N, Active>> for Labels<N, Active> {
    type Output = Labels<N, Active>;

    fn bitxor(self, rhs: Labels<N, Active>) -> (out: Labels<N, Active>)
        ensures
            out@ == xor_wires(self@, rhs@),
    {
        let out = Labels {
            state: self.state,
            labels: Arc::new(xor_arrays(&*self.labels, &*rhs.labels)),
        };
        proof {
            lemma_active_view_injective(out, active_of::<N>(out@));
        }
        out
    }
}

impl<const N: usize> vstd::std_specs::ops::BitXorSpecImpl<Labels<N, Active>> for Labels<N, Active> {
    open spec fn obeys_bitxor_spec() -> bool {
        true
    }

    open spec fn bitxor_req(self, rhs: Labels<N, Active>) -> bool {
        true
    }

    open spec fn bitxor_spec(self, rhs: Labels<N, Active>) -> Labels<N, Active> {
        active_of::<N>(xor_wires(self@, rhs@))
    }
}

impl<const N: usize> BitXor<&Labels<N, Active>> for &Labels<N, Active> {
    type Output = Labels<N, Active>;

    fn bitxor(self, rhs: &Labels<N, Active>) -> (out: Labels<N, Active>)
        ensures
            out@ == xor_wires(self@, rhs@),
    {
        let out = Labels {
            state: self.state,
            labels: Arc::new(xor_arrays(&*self.labels, &*rhs.labels)),
        };
        proof {
            lemma_active_view_injective(out, active_of::<N>(out@));
        }
        out
    }
}

impl<const N: usize> vstd::std_specs::ops::BitXorSpecImpl<&Labels<N, Active>> for &Labels<N, Active> {
    open spec fn obeys_bitxor_spec() -> bool {
        true
    }

    open spec fn bitxor_req(self, rhs: &Labels<N, Active>) -> bool {
        true
    }

    open spec fn bitxor_spec(self, rhs: &Labels<N, Active>) -> Labels<N, Active> {
        active_of::<N>(xor_wires(self@, rhs@))
    }
}

impl<const N: usize> BitXor<&Labels<N, Active>> for Labels<N, Active> {
    type Output = Labels<N, Active>;

    fn bitxor(self, rhs: &Labels<N, Active>) -> (out: Labels<N, Active>)
        ensures
            out@ == xor_wires(self@, rhs@),
    {
        let out = Labels {
            state: self.state,
            labels: Arc::new(xor_arrays(&*self.labels, &*rhs.labels)),
        };
        proof {
            lemma_active_view_injective(out, active_of::<N>(out@));
        }
        out
    }
}

impl<const N: usize> vstd::std_specs::ops::BitXorSpecImpl<&Labels<N, Active>> for Labels<N, Active> {
    open spec fn obeys_bitxor_spec() -> bool {
        true
    }

    open spec fn bitxor_req(self, rhs: &Labels<N, Active>) -> bool {
        true
    }

    open spec fn bitxor_spec(self, rhs: &Labels<N, Active>) -> Labels<N, Active> {
        active_of::<N>(xor_wires(self@, rhs@))
    }
}

impl<const N: usize> BitXor<Labels<N, Active>> for &Labels<N, Active> {
    type Output = Labels<N, Active>;

    fn bitxor(self, rhs: Labels<N, Active>) -> (out: Labels<N, Active>)
        ensures
            out@ == xor_wires(self@, rhs@),
    {
        let out = Labels {
            state: self.state,
            labels: Arc::new(xor_arrays(&*self.labels, &*rhs.labels)),
        };
        proof {
            lemma_active_view_injective(out, active_of::<N>(out@));
        }
        out
    }
}

impl<const N: usize> vstd::std_specs::ops::BitXorSpecImpl<Labels<N, Active>> for &Labels<N, Active> {
    open spec fn obeys_bitxor_spec() -> bool {
        true
    }

    open spec fn bitxor_req(self, rhs: Labels<N, Active>) -> bool {
        true
    }

    open spec fn bitxor_spec(self, rhs: Labels<N, Active>) -> Labels<N, Active> {
        active_of::<N>(xor_wires(self@, rhs@))
    }
}

impl<const N: usize, S: LabelState> Index<usize> for Labels<N, S> {
    type Output = Label;

    fn index(&self, index: usize) -> (label: &Label)
        ensures
            label@ == self@[index as int],
    {
        &self.labels[index]
    }
}

impl<const N: usize, S: LabelState> vstd::std_specs::core::IndexSpecImpl<usize> for Labels<N, S> {
    open spec fn index_req(&self, index: &usize) -> bool {
        *index < N
    }
}

} // verus!
