//! Encoded values of the supported types, and what selects, checks and decodes them.

use crate::bits::{
    bits_le, bits_of, pack_bits, packed_bits, unpack_bits, unpacked_bits, value_le, value_of,
};
use crate::label::{Delta, Label};
use crate::labels::{decode_wires, decoding_of, is_active_of, label_views, select_wires, Labels};
use crate::state::{Active, Full, LabelState};
use rand::{CryptoRng, Rng};
use vstd::prelude::*;

verus! {

/// Errors which can occur when working with encoded values.
#[derive(Debug, Clone, Copy, PartialEq, Eq, Structural)]
pub enum ValueError {
    /// The number of labels is not the number of wires of the type.
    InvalidLength,
    /// Two values of different types were combined.
    TypeMismatch,
    /// An active label is neither the low nor the high label of its wire.
    InvalidActiveEncoding,
    /// The hash of an active label is neither of the two hashes committed to for its wire.
    InvalidCommitment,
}

/// The types of values that can be encoded.
#[derive(Debug, Clone, Copy, PartialEq, Eq, Structural)]
pub enum ValueType {
    /// A single bit.
    Bit,
    /// An 8-bit unsigned integer.
    U8,
    /// A 16-bit unsigned integer.
    U16,
    /// A 32-bit unsigned integer.
    U32,
    /// A 64-bit unsigned integer.
    U64,
    /// A 128-bit unsigned integer.
    U128,
}

impl ValueType {
    /// The number of wires that carry a value of the type.
    pub open spec fn wire_count(self) -> nat {
        match self {
            ValueType::Bit => 1,
            ValueType::U8 => 8,
            ValueType::U16 => 16,
            ValueType::U32 => 32,
            ValueType::U64 => 64,
            ValueType::U128 => 128,
        }
    }

    /// Returns the number of wires that carry a value of the type.
    pub fn len(self) -> (n: usize)
        ensures
            n == self.wire_count(),
    {
        match self {
            ValueType::Bit => 1,
            ValueType::U8 => 8,
            ValueType::U16 => 16,
            ValueType::U32 => 32,
            ValueType::U64 => 64,
            ValueType::U128 => 128,
        }
    }
}

/// A plaintext value.
#[derive(Debug, Clone, Copy, PartialEq, Eq, Structural)]
pub enum Value {
    /// A single bit.
    Bit(bool),
    /// An 8-bit unsigned integer.
    U8(u8),
    /// A 16-bit unsigned integer.
    U16(u16),
    /// A 32-bit unsigned integer.
    U32(u32),
    /// A 64-bit unsigned integer.
    U64(u64),
    /// A 128-bit unsigned integer.
    U128(u128),
}

impl Value {
    /// The type of the value.
    pub open spec fn spec_value_type(&self) -> ValueType {
        match self {
            Value::Bit(_) => ValueType::Bit,
            Value::U8(_) => ValueType::U8,
            Value::U16(_) => ValueType::U16,
            Value::U32(_) => ValueType::U32,
            Value::U64(_) => ValueType::U64,
            Value::U128(_) => ValueType::U128,
        }
    }

    /// The value as a number, a bit counting as 0 or 1.
    pub open spec fn as_nat(&self) -> nat {
        match *self {
            Value::Bit(v) => (if v { 1nat } else { 0nat }),
            Value::U8(v) => v as nat,
            Value::U16(v) => v as nat,
            Value::U32(v) => v as nat,
            Value::U64(v) => v as nat,
            Value::U128(v) => v as nat,
        }
    }

    /// The bits of the value in the order of its wires: the least significant first.
    pub open spec fn bits(&self) -> Seq<bool> {
        bits_le(self.as_nat(), self.spec_value_type().wire_count())
    }

    /// Returns the type of the value.
    #[verifier::when_used_as_spec(spec_value_type)]
    pub fn value_type(&self) -> (ty: ValueType)
        ensures
            ty == self.spec_value_type(),
    {
        match self {
            Value::Bit(_) => ValueType::Bit,
            Value::U8(_) => ValueType::U8,
            Value::U16(_) => ValueType::U16,
            Value::U32(_) => ValueType::U32,
            Value::U64(_) => ValueType::U64,
            Value::U128(_) => ValueType::U128,
        }
    }
}

/// The value of the type `ty` whose bits are `bits`, the least significant first.
pub open spec fn value_from_bits(ty: ValueType, bits: Seq<bool>) -> Value {
    match ty {
        ValueType::Bit => Value::Bit(value_le(bits) == 1),
        ValueType::U8 => Value::U8(value_le(bits) as u8),
        ValueType::U16 => Value::U16(value_le(bits) as u16),
        ValueType::U32 => Value::U32(value_le(bits) as u32),
        ValueType::U64 => Value::U64(value_le(bits) as u64),
        ValueType::U128 => Value::U128(value_le(bits) as u128),
    }
}

/// What decodes the active labels of a value: for each wire the pointer bit
/// of its low label.
#[derive(Debug, Clone, PartialEq, Eq)]
pub enum Decoding {
    /// Of a single bit.
    Bit([bool; 1]),
    /// Of an 8-bit unsigned integer.
    U8([bool; 8]),
    /// Of a 16-bit unsigned integer.
    U16([bool; 16]),
    /// Of a 32-bit unsigned integer.
    U32([bool; 32]),
    /// Of a 64-bit unsigned integer.
    U64([bool; 64]),
    /// Of a 128-bit unsigned integer.
    U128([bool; 128]),
}

impl Decoding {
    /// The type of the value that this decodes.
    pub open spec fn spec_value_type(&self) -> ValueType {
        match self {
            Decoding::Bit(_) => ValueType::Bit,
            Decoding::U8(_) => ValueType::U8,
            Decoding::U16(_) => ValueType::U16,
            Decoding::U32(_) => ValueType::U32,
            Decoding::U64(_) => ValueType::U64,
            Decoding::U128(_) => ValueType::U128,
        }
    }

    /// The decoding bit of each wire.
    pub open spec fn bits(&self) -> Seq<bool> {
        match self {
            Decoding::Bit(bits) => bits@,
            Decoding::U8(bits) => bits@,
            Decoding::U16(bits) => bits@,
            Decoding::U32(bits) => bits@,
            Decoding::U64(bits) => bits@,
            Decoding::U128(bits) => bits@,
        }
    }

    /// Returns the decoding bits in bytes, eight to a byte, the first of
    /// each byte in its lowest place.
    pub fn to_bytes(&self) -> (out: Vec<u8>)
        ensures
            out@ == packed_bits(self.bits()),
    {
        match self {
            Decoding::Bit(bits) => pack_bits::<1>(bits),
            Decoding::U8(bits) => pack_bits::<8>(bits),
            Decoding::U16(bits) => pack_bits::<16>(bits),
            Decoding::U32(bits) => pack_bits::<32>(bits),
            Decoding::U64(bits) => pack_bits::<64>(bits),
            Decoding::U128(bits) => pack_bits::<128>(bits),
        }
    }

    /// Reads the decoding of a value of the type `ty` from its bits in bytes.
    ///
    /// Fails with `InvalidLength` unless there are just as many bytes as the
    /// wires of the type take, eight to a byte.
    pub fn from_bytes(ty: ValueType, bytes: &[u8]) -> (res: Result<Decoding, ValueError>)
        ensures
            res is Ok <==> bytes@.len() == (ty.wire_count() + 7) / 8,
            res is Err ==> res->Err_0 == ValueError::InvalidLength,
            res is Ok ==> res->Ok_0.spec_value_type() == ty && res->Ok_0.bits() == unpacked_bits(
                bytes@,
                ty.wire_count(),
            ),
    {
        match ty {
            ValueType::Bit => match unpack_bits::<1>(bytes) {
                Some(bits) => Ok(Decoding::Bit(bits)),
                None => Err(ValueError::InvalidLength),
            },
            ValueType::U8 => match unpack_bits::<8>(bytes) {
                Some(bits) => Ok(Decoding::U8(bits)),
                None => Err(ValueError::InvalidLength),
            },
            ValueType::U16 => match unpack_bits::<16>(bytes) {
                Some(bits) => Ok(Decoding::U16(bits)),
                None => Err(ValueError::InvalidLength),
            },
            ValueType::U32 => match unpack_bits::<32>(bytes) {
                Some(bits) => Ok(Decoding::U32(bits)),
                None => Err(ValueError::InvalidLength),
            },
            ValueType::U64 => match unpack_bits::<64>(bytes) {
                Some(bits) => Ok(Decoding::U64(bits)),
                None => Err(ValueError::InvalidLength),
            },
            ValueType::U128 => match unpack_bits::<128>(bytes) {
                Some(bits) => Ok(Decoding::U128(bits)),
                None => Err(ValueError::InvalidLength),
            },
        }
    }

    /// Returns the type of the value that this decodes.
    #[verifier::when_used_as_spec(spec_value_type)]
    pub fn value_type(&self) -> (ty: ValueType)
        ensures
            ty == self.spec_value_type(),
    {
        match self {
            Decoding::Bit(_) => ValueType::Bit,
            Decoding::U8(_) => ValueType::U8,
            Decoding::U16(_) => ValueType::U16,
            Decoding::U32(_) => ValueType::U32,
            Decoding::U64(_) => ValueType::U64,
            Decoding::U128(_) => ValueType::U128,
        }
    }
}

/// An encoded value: the labels of the wires that carry a value of one of the
/// supported types, wire `i` carrying bit `i` of the value.
#[derive(Debug, Clone, PartialEq)]
pub enum EncodedValue<S: LabelState> {
    /// A single bit.
    Bit(Labels<1, S>),
    /// An 8-bit unsigned integer.
    U8(Labels<8, S>),
    /// A 16-bit unsigned integer.
    U16(Labels<16, S>),
    /// A 32-bit unsigned integer.
    U32(Labels<32, S>),
    /// A 64-bit unsigned integer.
    U64(Labels<64, S>),
    /// A 128-bit unsigned integer.
    U128(Labels<128, S>),
}

impl<S: LabelState> EncodedValue<S> {
    /// The type of the encoded value.
    pub open spec fn spec_value_type(&self) -> ValueType {
        match self {
            EncodedValue::Bit(_) => ValueType::Bit,
            EncodedValue::U8(_) => ValueType::U8,
            EncodedValue::U16(_) => ValueType::U16,
            EncodedValue::U32(_) => ValueType::U32,
            EncodedValue::U64(_) => ValueType::U64,
            EncodedValue::U128(_) => ValueType::U128,
        }
    }

    /// The bytes of the label of each wire.
    pub open spec fn wires(&self) -> Seq<Seq<u8>> {
        match self {
            EncodedValue::Bit(labels) => labels@,
            EncodedValue::U8(labels) => labels@,
            EncodedValue::U16(labels) => labels@,
            EncodedValue::U32(labels) => labels@,
            EncodedValue::U64(labels) => labels@,
            EncodedValue::U128(labels) => labels@,
        }
    }

    /// An encoded value has one label of 16 bytes for each wire of its type.
    pub proof fn lemma_shape(&self)
        ensures
            self.wires().len() == self.spec_value_type().wire_count(),
            forall|i: int| 0 <= i < self.wires().len() ==> (#[trigger] self.wires()[i]).len() == 16,
    {
        match self {
            EncodedValue::Bit(labels) => labels.lemma_shape(),
            EncodedValue::U8(labels) => labels.lemma_shape(),
            EncodedValue::U16(labels) => labels.lemma_shape(),
            EncodedValue::U32(labels) => labels.lemma_shape(),
            EncodedValue::U64(labels) => labels.lemma_shape(),
            EncodedValue::U128(labels) => labels.lemma_shape(),
        }
    }

    /// Returns the type of the encoded value.
    #[verifier::when_used_as_spec(spec_value_type)]
    pub fn value_type(&self) -> (ty: ValueType)
        ensures
            ty == self.spec_value_type(),
    {
        match self {
            EncodedValue::Bit(_) => ValueType::Bit,
            EncodedValue::U8(_) => ValueType::U8,
            EncodedValue::U16(_) => ValueType::U16,
            EncodedValue::U32(_) => ValueType::U32,
            EncodedValue::U64(_) => ValueType::U64,
            EncodedValue::U128(_) => ValueType::U128,
        }
    }

    /// Returns the number of labels.
    pub fn len(&self) -> (n: usize)
        ensures
            n == self.wires().len(),
            n == self.spec_value_type().wire_count(),
    {
        match self {
            EncodedValue::Bit(labels) => labels.len(),
            EncodedValue::U8(labels) => labels.len(),
            EncodedValue::U16(labels) => labels.len(),
            EncodedValue::U32(labels) => labels.len(),
            EncodedValue::U64(labels) => labels.len(),
            EncodedValue::U128(labels) => labels.len(),
        }
    }

    /// Returns the label of the wire `i`.
    pub fn label(&self, i: usize) -> (label: Label)
        requires
            i < self.wires().len(),
        ensures
            label@ == self.wires()[i as int],
    {
        match self {
            EncodedValue::Bit(labels) => {
                proof {
                    labels.lemma_shape();
                }
                labels[i]
            },
            EncodedValue::U8(labels) => {
                proof {
                    labels.lemma_shape();
                }
                labels[i]
            },
            EncodedValue::U16(labels) => {
                proof {
                    labels.lemma_shape();
                }
                labels[i]
            },
            EncodedValue::U32(labels) => {
                proof {
                    labels.lemma_shape();
                }
                labels[i]
            },
            EncodedValue::U64(labels) => {
                proof {
                    labels.lemma_shape();
                }
                labels[i]
            },
            EncodedValue::U128(labels) => {
                proof {
                    labels.lemma_shape();
                }
                labels[i]
            },
        }
    }

    /// Returns whether `other` has the same type and, on every wire, the same label.
    ///
    /// Every wire is compared, whatever the earlier ones gave.
    pub fn same_labels(&self, other: &EncodedValue<S>) -> (same: bool)
        ensures
            same == (self.spec_value_type() == other.spec_value_type() && self.wires()
                == other.wires()),
    {
        match (self, other) {
            (EncodedValue::Bit(a), EncodedValue::Bit(b)) => a.same_labels(b),
            (EncodedValue::U8(a), EncodedValue::U8(b)) => a.same_labels(b),
            (EncodedValue::U16(a), EncodedValue::U16(b)) => a.same_labels(b),
            (EncodedValue::U32(a), EncodedValue::U32(b)) => a.same_labels(b),
            (EncodedValue::U64(a), EncodedValue::U64(b)) => a.same_labels(b),
            (EncodedValue::U128(a), EncodedValue::U128(b)) => a.same_labels(b),
            _ => {
                proof {
                    self.lemma_shape();
                    other.lemma_shape();
                }
                false
            },
        }
    }
}

/// Copies `labels` into an array of `N` labels, if there are `N` of them.
fn labels_array<const N: usize>(labels: &[Label]) -> (out: Option<[Label; N]>)
    ensures
        out is Some <==> labels@.len() == N,
        out is Some ==> out->Some_0@ == labels@,
{
    if labels.len() != N {
        return None;
    }
    if N == 0 {
        let out: [Label; N] = [Label::zero();N];
        assert(out@ =~= labels@);
        return Some(out);
    }
    let mut out: [Label; N] = [labels[0];N];
    let mut i: usize = 0;
    while i < N
        invariant
            i <= N,
            labels@.len() == N,
            forall|j: int| 0 <= j < i ==> out@[j] == labels@[j],
        decreases N - i,
    {
        out[i] = labels[i];
        i += 1;
    }
    assert(out@ =~= labels@);
    Some(out)
}

impl EncodedValue<Full> {
    /// The bytes of the offset that pairs the labels of each wire.
    pub open spec fn delta_view(&self) -> Seq<u8> {
        match self {
            EncodedValue::Bit(labels) => labels.delta_view(),
            EncodedValue::U8(labels) => labels.delta_view(),
            EncodedValue::U16(labels) => labels.delta_view(),
            EncodedValue::U32(labels) => labels.delta_view(),
            EncodedValue::U64(labels) => labels.delta_view(),
            EncodedValue::U128(labels) => labels.delta_view(),
        }
    }

    /// Creates the full encoding of a value of the type `ty` with the low
    /// labels `labels` and the offset `delta`.
    ///
    /// Fails with `InvalidLength` unless there is one label for each wire of the type.
    pub fn from_labels(ty: ValueType, delta: Delta, labels: &[Label]) -> (res: Result<
        EncodedValue<Full>,
        ValueError,
    >)
        ensures
            res is Ok <==> labels@.len() == ty.wire_count(),
            res is Err ==> res->Err_0 == ValueError::InvalidLength,
            res is Ok ==> res->Ok_0.spec_value_type() == ty && res->Ok_0.wires() == label_views(
                labels@,
            ) && res->Ok_0.delta_view() == delta@,
    {
        match ty {
            ValueType::Bit => match labels_array::<1>(labels) {
                Some(array) => Ok(EncodedValue::Bit(Labels::<1, Full>::new(delta, array))),
                None => Err(ValueError::InvalidLength),
            },
            ValueType::U8 => match labels_array::<8>(labels) {
                Some(array) => Ok(EncodedValue::U8(Labels::<8, Full>::new(delta, array))),
                None => Err(ValueError::InvalidLength),
            },
            ValueType::U16 => match labels_array::<16>(labels) {
                Some(array) => Ok(EncodedValue::U16(Labels::<16, Full>::new(delta, array))),
                None => Err(ValueError::InvalidLength),
            },
            ValueType::U32 => match labels_array::<32>(labels) {
                Some(array) => Ok(EncodedValue::U32(Labels::<32, Full>::new(delta, array))),
                None => Err(ValueError::InvalidLength),
            },
            ValueType::U64 => match labels_array::<64>(labels) {
                Some(array) => Ok(EncodedValue::U64(Labels::<64, Full>::new(delta, array))),
                None => Err(ValueError::InvalidLength),
            },
            ValueType::U128 => match labels_array::<128>(labels) {
                Some(array) => Ok(EncodedValue::U128(Labels::<128, Full>::new(delta, array))),
                None => Err(ValueError::InvalidLength),
            },
        }
    }

    /// Creates the full encoding of a value of the type `ty` with random low
    /// labels and the offset `delta`.
    pub fn random<R: Rng + CryptoRng + ?Sized>(rng: &mut R, ty: ValueType, delta: Delta) -> (full:
        EncodedValue<Full>)
        ensures
            full.spec_value_type() == ty,
            full.delta_view() == delta@,
    {
        match ty {
            ValueType::Bit => EncodedValue::Bit(Labels::<1, Full>::random(rng, delta)),
            ValueType::U8 => EncodedValue::U8(Labels::<8, Full>::random(rng, delta)),
            ValueType::U16 => EncodedValue::U16(Labels::<16, Full>::random(rng, delta)),
            ValueType::U32 => EncodedValue::U32(Labels::<32, Full>::random(rng, delta)),
            ValueType::U64 => EncodedValue::U64(Labels::<64, Full>::random(rng, delta)),
            ValueType::U128 => EncodedValue::U128(Labels::<128, Full>::random(rng, delta)),
        }
    }

    /// Returns the offset.
    pub fn delta(&self) -> (delta: Delta)
        ensures
            delta@ == self.delta_view(),
    {
        match self {
            EncodedValue::Bit(labels) => labels.delta(),
            EncodedValue::U8(labels) => labels.delta(),
            EncodedValue::U16(labels) => labels.delta(),
            EncodedValue::U32(labels) => labels.delta(),
            EncodedValue::U64(labels) => labels.delta(),
            EncodedValue::U128(labels) => labels.delta(),
        }
    }

    /// Returns the active encoding of `value`: on wire `i` the low label
    /// where bit `i` of the value is 0, the high label where it is 1.
    ///
    /// Fails with `TypeMismatch` unless `value` has the type of the encoding.
    pub fn select(&self, value: &Value) -> (res: Result<EncodedValue<Active>, ValueError>)
        ensures
            res is Ok <==> value.spec_value_type() == self.spec_value_type(),
            res is Err ==> res->Err_0 == ValueError::TypeMismatch,
            res is Ok ==> res->Ok_0.spec_value_type() == self.spec_value_type()
                && res->Ok_0.wires() == select_wires(
                self.wires(),
                self.delta_view(),
                value.bits(),
            ),
    {
        match (self, value) {
            (EncodedValue::Bit(labels), Value::Bit(v)) => Ok(
                EncodedValue::Bit(labels.select(&bits_of::<1>((if *v { 1u128 } else { 0u128 })))),
            ),
            (EncodedValue::U8(labels), Value::U8(v)) => Ok(
                EncodedValue::U8(labels.select(&bits_of::<8>(*v as u128))),
            ),
            (EncodedValue::U16(labels), Value::U16(v)) => Ok(
                EncodedValue::U16(labels.select(&bits_of::<16>(*v as u128))),
            ),
            (EncodedValue::U32(labels), Value::U32(v)) => Ok(
                EncodedValue::U32(labels.select(&bits_of::<32>(*v as u128))),
            ),
            (EncodedValue::U64(labels), Value::U64(v)) => Ok(
                EncodedValue::U64(labels.select(&bits_of::<64>(*v as u128))),
            ),
            (EncodedValue::U128(labels), Value::U128(v)) => Ok(
                EncodedValue::U128(labels.select(&bits_of::<128>(*v))),
            ),
            _ => Err(ValueError::TypeMismatch),
        }
    }

    /// Returns the decoding of the value: the pointer bit of each low label.
    pub fn decoding(&self) -> (decoding: Decoding)
        ensures
            decoding.spec_value_type() == self.spec_value_type(),
            decoding.bits() == decoding_of(self.wires()),
    {
        match self {
            EncodedValue::Bit(labels) => Decoding::Bit(labels.decoding()),
            EncodedValue::U8(labels) => Decoding::U8(labels.decoding()),
            EncodedValue::U16(labels) => Decoding::U16(labels.decoding()),
            EncodedValue::U32(labels) => Decoding::U32(labels.decoding()),
            EncodedValue::U64(labels) => Decoding::U64(labels.decoding()),
            EncodedValue::U128(labels) => Decoding::U128(labels.decoding()),
        }
    }

    /// Checks that `active` is an active encoding under this full encoding.
    ///
    /// Fails with `TypeMismatch` where the types differ, and with
    /// `InvalidActiveEncoding` where a label of `active` is neither the low
    /// nor the high label of its wire.
    pub fn verify(&self, active: &EncodedValue<Active>) -> (res: Result<(), ValueError>)
        ensures
            res is Ok <==> active.spec_value_type() == self.spec_value_type() && is_active_of(
                self.wires(),
                self.delta_view(),
                active.wires(),
            ),
            res is Err ==> res->Err_0 == (if active.spec_value_type() != self.spec_value_type() {
                ValueError::TypeMismatch
            } else {
                ValueError::InvalidActiveEncoding
            }),
    {
        match (self, active) {
            (EncodedValue::Bit(labels), EncodedValue::Bit(other)) => labels.verify(other),
            (EncodedValue::U8(labels), EncodedValue::U8(other)) => labels.verify(other),
            (EncodedValue::U16(labels), EncodedValue::U16(other)) => labels.verify(other),
            (EncodedValue::U32(labels), EncodedValue::U32(other)) => labels.verify(other),
            (EncodedValue::U64(labels), EncodedValue::U64(other)) => labels.verify(other),
            (EncodedValue::U128(labels), EncodedValue::U128(other)) => labels.verify(other),
            _ => Err(ValueError::TypeMismatch),
        }
    }
}

impl EncodedValue<Active> {
    /// Creates the active encoding of a value of the type `ty` with the labels `labels`.
    ///
    /// Fails with `InvalidLength` unless there is one label for each wire of the type.
    pub fn from_labels(ty: ValueType, labels: &[Label]) -> (res: Result<
        EncodedValue<Active>,
        ValueError,
    >)
        ensures
            res is Ok <==> labels@.len() == ty.wire_count(),
            res is Err ==> res->Err_0 == ValueError::InvalidLength,
            res is Ok ==> res->Ok_0.spec_value_type() == ty && res->Ok_0.wires() == label_views(
                labels@,
            ),
    {
        match ty {
            ValueType::Bit => match labels_array::<1>(labels) {
                Some(array) => Ok(EncodedValue::Bit(Labels::<1, Active>::new(array))),
                None => Err(ValueError::InvalidLength),
            },
            ValueType::U8 => match labels_array::<8>(labels) {
                Some(array) => Ok(EncodedValue::U8(Labels::<8, Active>::new(array))),
                None => Err(ValueError::InvalidLength),
            },
            ValueType::U16 => match labels_array::<16>(labels) {
                Some(array) => Ok(EncodedValue::U16(Labels::<16, Active>::new(array))),
                None => Err(ValueError::InvalidLength),
            },
            ValueType::U32 => match labels_array::<32>(labels) {
                Some(array) => Ok(EncodedValue::U32(Labels::<32, Active>::new(array))),
                None => Err(ValueError::InvalidLength),
            },
            ValueType::U64 => match labels_array::<64>(labels) {
                Some(array) => Ok(EncodedValue::U64(Labels::<64, Active>::new(array))),
                None => Err(ValueError::InvalidLength),
            },
            ValueType::U128 => match labels_array::<128>(labels) {
                Some(array) => Ok(EncodedValue::U128(Labels::<128, Active>::new(array))),
                None => Err(ValueError::InvalidLength),
            },
        }
    }

    /// Returns the value that the active labels stand for under `decoding`:
    /// bit `i` is the pointer bit of the label of wire `i` XORed with the
    /// decoding bit of that wire.
    ///
    /// Fails with `TypeMismatch` unless `decoding` is of the type of the encoding.
    pub fn decode(&self, decoding: &Decoding) -> (res: Result<Value, ValueError>)
        ensures
            res is Ok <==> decoding.spec_value_type() == self.spec_value_type(),
            res is Err ==> res->Err_0 == ValueError::TypeMismatch,
            res is Ok ==> res->Ok_0 == value_from_bits(
                self.spec_value_type(),
                decode_wires(self.wires(), decoding.bits()),
            ),
    {
        match (self, decoding) {
            (EncodedValue::Bit(labels), Decoding::Bit(bits)) => Ok(
                Value::Bit(value_of::<1>(&labels.decode(bits)) == 1),
            ),
            (EncodedValue::U8(labels), Decoding::U8(bits)) => Ok(
                Value::U8(value_of::<8>(&labels.decode(bits)) as u8),
            ),
            (EncodedValue::U16(labels), Decoding::U16(bits)) => Ok(
                Value::U16(value_of::<16>(&labels.decode(bits)) as u16),
            ),
            (EncodedValue::U32(labels), Decoding::U32(bits)) => Ok(
                Value::U32(value_of::<32>(&labels.decode(bits)) as u32),
            ),
            (EncodedValue::U64(labels), Decoding::U64(bits)) => Ok(
                Value::U64(value_of::<64>(&labels.decode(bits)) as u64),
            ),
            (EncodedValue::U128(labels), Decoding::U128(bits)) => Ok(
                Value::U128(value_of::<128>(&labels.decode(bits))),
            ),
            _ => Err(ValueError::TypeMismatch),
        }
    }
}

} // verus!
