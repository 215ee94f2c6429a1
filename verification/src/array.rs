//! Encoded byte arrays: one group of eight wires for each byte, wire `i` of
//! group `k` carrying bit `i` of byte `k`.

use crate::bits::{bits_le, bits_of, lemma_value_of_bits, value_le, value_of};
use crate::block::lsb_of;
use crate::free_xor::lemma_decode_select;
use crate::labels::{decode_wires, decoding_of, is_active_of, select_wires, Labels};
use crate::state::{Active, Full, LabelState};
use crate::value::ValueError;
use vstd::arithmetic::power2::lemma2_to64;
use vstd::prelude::*;

verus! {

/// The labels of each element of `elements`.
pub open spec fn element_views<S: LabelState>(elements: Seq<Labels<8, S>>) -> Seq<Seq<Seq<u8>>> {
    Seq::new(elements.len(), |k: int| elements[k]@)
}

/// The offset of each element of `elements`.
pub open spec fn element_deltas(elements: Seq<Labels<8, Full>>) -> Seq<Seq<u8>> {
    Seq::new(elements.len(), |k: int| elements[k].delta_view())
}

/// The decoding bits of each element of `decoding`.
pub open spec fn decoding_views(decoding: Seq<[bool; 8]>) -> Seq<Seq<bool>> {
    Seq::new(decoding.len(), |k: int| decoding[k]@)
}

/// An encoded byte array.
#[derive(Debug, Clone, PartialEq)]
pub struct EncodedArray<S: LabelState> {
    elements: Vec<Labels<8, S>>,
}

impl<S: LabelState> EncodedArray<S> {
    /// For each byte the labels of its eight wires.
    pub closed spec fn elements(&self) -> Seq<Seq<Seq<u8>>> {
        element_views(self.elements@)
    }

    /// The label of each wire: wire `8 * k + i` is wire `i` of byte `k`.
    pub open spec fn wires(&self) -> Seq<Seq<u8>> {
        Seq::new(8 * self.elements().len(), |w: int| self.elements()[w / 8][w % 8])
    }

    /// Returns the number of bytes.
    pub fn len(&self) -> (n: usize)
        ensures
            n == self.elements().len(),
    {
        self.elements.len()
    }

    /// Returns the encoding of the byte `k`.
    pub fn element(&self, k: usize) -> (labels: &Labels<8, S>)
        requires
            k < self.elements().len(),
        ensures
            labels@ == self.elements()[k as int],
    {
        &self.elements[k]
    }
}

impl EncodedArray<Full> {
    /// For each byte the offset that pairs the labels of its wires.
    pub closed spec fn deltas(&self) -> Seq<Seq<u8>> {
        element_deltas(self.elements@)
    }

    /// Creates the full encoding of a byte array from the full encodings of its bytes.
    pub fn new(elements: Vec<Labels<8, Full>>) -> (array: EncodedArray<Full>)
        ensures
            array.elements() == element_views(elements@),
            array.deltas() == element_deltas(elements@),
    {
        EncodedArray { elements }
    }

    /// Returns the active encoding of `bytes`: byte by byte, the active
    /// labels of its bits.
    ///
    /// Fails with `TypeMismatch` unless there is one byte for each element.
    pub fn select(&self, bytes: &[u8]) -> (res: Result<EncodedArray<Active>, ValueError>)
        ensures
            res is Ok <==> bytes@.len() == self.elements().len(),
            res is Err ==> res->Err_0 == ValueError::TypeMismatch,
            res is Ok ==> res->Ok_0.elements().len() == bytes@.len() && forall|k: int|
                0 <= k < bytes@.len() ==> #[trigger] res->Ok_0.elements()[k] == select_wires(
                    self.elements()[k],
                    self.deltas()[k],
                    bits_le(bytes@[k] as nat, 8),
                ),
    {
        if bytes.len() != self.elements.len() {
            return Err(ValueError::TypeMismatch);
        }
        let mut out: Vec<Labels<8, Active>> = Vec::new();
        let mut k: usize = 0;
        while k < bytes.len()
            invariant
                k <= bytes@.len(),
                bytes@.len() == self.elements@.len(),
                out@.len() == k,
                forall|j: int|
                    0 <= j < k ==> (#[trigger] out@[j])@ == select_wires(
                        self.elements()[j],
                        self.deltas()[j],
                        bits_le(bytes@[j] as nat, 8),
                    ),
            decreases bytes@.len() - k,
        {
            let bits = bits_of::<8>(bytes[k] as u128);
            out.push(self.elements[k].select(&bits));
            k += 1;
        }
        Ok(EncodedArray { elements: out })
    }

    /// Returns the decoding of the array: byte by byte, the pointer bits of
    /// the low labels.
    pub fn decoding(&self) -> (decoding: Vec<[bool; 8]>)
        ensures
            decoding@.len() == self.elements().len(),
            forall|k: int|
                0 <= k < decoding@.len() ==> (#[trigger] decoding@[k])@ == decoding_of(
                    self.elements()[k],
                ),
    {
        let mut out: Vec<[bool; 8]> = Vec::new();
        let mut k: usize = 0;
        while k < self.elements.len()
            invariant
                k <= self.elements@.len(),
                out@.len() == k,
                forall|j: int|
                    0 <= j < k ==> (#[trigger] out@[j])@ == decoding_of(self.elements()[j]),
            decreases self.elements@.len() - k,
        {
            out.push(self.elements[k].decoding());
            k += 1;
        }
        out
    }

    /// Checks that `active` is an active encoding under this full encoding.
    ///
    /// Fails with `TypeMismatch` where the numbers of bytes differ, and with
    /// `InvalidActiveEncoding` where a label of `active` is neither the low
    /// nor the high label of its wire.
    pub fn verify(&self, active: &EncodedArray<Active>) -> (res: Result<(), ValueError>)
        ensures
            res is Ok <==> active.elements().len() == self.elements().len() && forall|k: int|
                0 <= k < self.elements().len() ==> is_active_of(
                    #[trigger] self.elements()[k],
                    self.deltas()[k],
                    active.elements()[k],
                ),
            res is Err ==> res->Err_0 == (if active.elements().len() != self.elements().len() {
                ValueError::TypeMismatch
            } else {
                ValueError::InvalidActiveEncoding
            }),
    {
        if active.elements.len() != self.elements.len() {
            return Err(ValueError::TypeMismatch);
        }
        let mut k: usize = 0;
        while k < self.elements.len()
            invariant
                k <= self.elements@.len(),
                active.elements@.len() == self.elements@.len(),
                forall|j: int|
                    0 <= j < k ==> is_active_of(
                        #[trigger] self.elements()[j],
                        self.deltas()[j],
                        active.elements()[j],
                    ),
            decreases self.elements@.len() - k,
        {
            match self.elements[k].verify(&active.elements[k]) {
                Ok(_) => {},
                Err(e) => {
                    assert(!is_active_of(
                        self.elements()[k as int],
                        self.deltas()[k as int],
                        active.elements()[k as int],
                    ));
                    return Err(e);
                },
            }
            k += 1;
        }
        Ok(())
    }
}

impl EncodedArray<Active> {
    /// Creates the active encoding of a byte array from the active encodings of its bytes.
    pub fn new(elements: Vec<Labels<8, Active>>) -> (array: EncodedArray<Active>)
        ensures
            array.elements() == element_views(elements@),
    {
        EncodedArray { elements }
    }

    /// Returns the bytes that the active labels stand for under `decoding`.
    ///
    /// Fails with `TypeMismatch` unless `decoding` is of as many bytes.
    pub fn decode(&self, decoding: &[[bool; 8]]) -> (res: Result<Vec<u8>, ValueError>)
        ensures
            res is Ok <==> decoding@.len() == self.elements().len(),
            res is Err ==> res->Err_0 == ValueError::TypeMismatch,
            res is Ok ==> res->Ok_0@.len() == decoding@.len() && forall|k: int|
                0 <= k < decoding@.len() ==> #[trigger] res->Ok_0@[k] == value_le(
                    decode_wires(self.elements()[k], decoding@[k]@),
                ) as u8,
    {
        if decoding.len() != self.elements.len() {
            return Err(ValueError::TypeMismatch);
        }
        let mut out: Vec<u8> = Vec::new();
        let mut k: usize = 0;
        while k < decoding.len()
            invariant
                k <= decoding@.len(),
                decoding@.len() == self.elements@.len(),
                out@.len() == k,
                forall|j: int|
                    0 <= j < k ==> #[trigger] out@[j] == value_le(
                        decode_wires(self.elements()[j], decoding@[j]@),
                    ) as u8,
            decreases decoding@.len() - k,
        {
            let bits = self.elements[k].decode(&decoding[k]);
            out.push(value_of::<8>(&bits) as u8);
            k += 1;
        }
        Ok(out)
    }
}

/// Selecting a byte, then decoding the active labels with the decoding of
/// the full labels they were selected from, gives the byte back.
pub proof fn lemma_byte_round_trip(full: Labels<8, Full>, byte: u8)
    requires
        lsb_of(full.delta_view()) == 1,
    ensures
        value_le(
            decode_wires(
                select_wires(full@, full.delta_view(), bits_le(byte as nat, 8)),
                decoding_of(full@),
            ),
        ) as u8 == byte,
{
    lemma2_to64();
    lemma_decode_select(full, bits_le(byte as nat, 8));
    lemma_value_of_bits(byte as nat, 8);
}

} // verus!
