//! The byte form of an encoded value: a tag for the type, the number of
//! wires in two bytes, little-endian, then the 16 bytes of each label.

use crate::encoder::label_from;
use crate::label::{Delta, Label};
use crate::labels::label_views;
use crate::state::{Active, Full, LabelState};
use crate::value::{EncodedValue, ValueError, ValueType};
use vstd::prelude::*;

verus! {

/// The tag of a type.
pub open spec fn type_tag(ty: ValueType) -> u8 {
    match ty {
        ValueType::Bit => 0,
        ValueType::U8 => 1,
        ValueType::U16 => 2,
        ValueType::U32 => 3,
        ValueType::U64 => 4,
        ValueType::U128 => 5,
    }
}

/// The type of a tag, where the tag is known.
pub open spec fn tag_type(tag: u8) -> Option<ValueType> {
    if tag == 0 {
        Some(ValueType::Bit)
    } else if tag == 1 {
        Some(ValueType::U8)
    } else if tag == 2 {
        Some(ValueType::U16)
    } else if tag == 3 {
        Some(ValueType::U32)
    } else if tag == 4 {
        Some(ValueType::U64)
    } else if tag == 5 {
        Some(ValueType::U128)
    } else {
        None
    }
}

/// The bytes of the labels of `wires`, one label after the other.
pub open spec fn label_bytes(wires: Seq<Seq<u8>>) -> Seq<u8> {
    Seq::new(16 * wires.len(), |k: int| wires[k / 16][k % 16])
}

/// The byte form of an encoded value of the type `ty` with the labels `wires`.
pub open spec fn encoded_bytes(ty: ValueType, wires: Seq<Seq<u8>>) -> Seq<u8> {
    seq![type_tag(ty), (wires.len() % 256) as u8, (wires.len() / 256) as u8] + label_bytes(wires)
}

/// The labels that follow the three leading bytes of `bytes`.
pub open spec fn framed_labels(bytes: Seq<u8>) -> Seq<Seq<u8>> {
    Seq::new(((bytes.len() - 3) / 16) as nat, |i: int| bytes.subrange(3 + 16 * i, 3 + 16 * i + 16))
}

/// What is wrong with `bytes` as the byte form of an encoded value, if anything:
/// `TypeMismatch` where the tag is missing or unknown, `InvalidLength` where
/// the number of wires is not that of the type or the labels are not all there.
pub open spec fn frame_error(bytes: Seq<u8>) -> Option<ValueError> {
    if bytes.len() < 1 || tag_type(bytes[0]) is None {
        Some(ValueError::TypeMismatch)
    } else if bytes.len() < 3 || bytes[1] + 256 * bytes[2] != tag_type(
        bytes[0],
    )->Some_0.wire_count() || bytes.len() != 3 + 16 * tag_type(bytes[0])->Some_0.wire_count() {
        Some(ValueError::InvalidLength)
    } else {
        None
    }
}

/// Returns the tag of a type.
pub fn tag_of(ty: ValueType) -> (tag: u8)
    ensures
        tag == type_tag(ty),
        tag_type(tag) == Some(ty),
{
    match ty {
        ValueType::Bit => 0,
        ValueType::U8 => 1,
        ValueType::U16 => 2,
        ValueType::U32 => 3,
        ValueType::U64 => 4,
        ValueType::U128 => 5,
    }
}

/// Returns the type of a tag, if the tag is known.
pub fn type_of_tag(tag: u8) -> (ty: Option<ValueType>)
    ensures
        ty == tag_type(tag),
        ty is Some ==> type_tag(ty->Some_0) == tag,
{
    if tag == 0 {
        Some(ValueType::Bit)
    } else if tag == 1 {
        Some(ValueType::U8)
    } else if tag == 2 {
        Some(ValueType::U16)
    } else if tag == 3 {
        Some(ValueType::U32)
    } else if tag == 4 {
        Some(ValueType::U64)
    } else if tag == 5 {
        Some(ValueType::U128)
    } else {
        None
    }
}

/// Returns the byte form of an encoded value. The state is not part of it:
/// of a full encoding these are the low labels, and the offset is left out.
pub fn to_bytes<S: LabelState>(value: &EncodedValue<S>) -> (out: Vec<u8>)
    ensures
        out@ == encoded_bytes(value.spec_value_type(), value.wires()),
        frame_error(out@) is None,
{
    let n = value.len();
    let ghost want = encoded_bytes(value.spec_value_type(), value.wires());
    let mut out: Vec<u8> = Vec::new();
    out.push(tag_of(value.value_type()));
    out.push((n % 256) as u8);
    out.push((n / 256) as u8);
    let mut i: usize = 0;
    proof {
        value.lemma_shape();
    }
    while i < n
        invariant
            i <= n,
            n == value.wires().len(),
            n <= 128,
            want == encoded_bytes(value.spec_value_type(), value.wires()),
            out@.len() == 3 + 16 * i,
            forall|k: int| 0 <= k < out@.len() ==> out@[k] == want[k],
        decreases n - i,
    {
        let bytes = value.label(i).to_inner().to_bytes();
        let mut j: usize = 0;
        while j < 16
            invariant
                j <= 16,
                i < n,
                n == value.wires().len(),
                bytes@ == value.wires()[i as int],
                want == encoded_bytes(value.spec_value_type(), value.wires()),
                out@.len() == 3 + 16 * i + j,
                forall|k: int| 0 <= k < out@.len() ==> out@[k] == want[k],
            decreases 16 - j,
        {
            proof {
                let k = (16 * i + j) as int;
                assert(k / 16 == i && k % 16 == j);
                assert(want[3 + k] == label_bytes(value.wires())[k]);
            }
            out.push(bytes[j]);
            j += 1;
        }
        i += 1;
    }
    assert(out@ =~= want);
    out
}

/// Reads the labels that follow the three leading bytes of `bytes`.
fn read_labels(bytes: &[u8], n: usize) -> (labels: Vec<Label>)
    requires
        bytes@.len() == 3 + 16 * n,
    ensures
        label_views(labels@) == framed_labels(bytes@),
        labels@.len() == n,
{
    let total: usize = bytes.len();
    let mut labels: Vec<Label> = Vec::new();
    let mut i: usize = 0;
    while i < n
        invariant
            i <= n,
            total == bytes@.len(),
            bytes@.len() == 3 + 16 * n,
            labels@.len() == i,
            forall|k: int|
                0 <= k < i ==> (#[trigger] labels@[k])@ == bytes@.subrange(
                    3 + 16 * k,
                    3 + 16 * k + 16,
                ),
        decreases n - i,
    {
        labels.push(label_from(bytes, 3 + 16 * i));
        i += 1;
    }
    assert(label_views(labels@) =~= framed_labels(bytes@));
    labels
}

/// Reads type and number of wires off the head of `bytes`, and checks them
/// against the length.
fn read_frame(bytes: &[u8]) -> (res: Result<ValueType, ValueError>)
    ensures
        res is Ok <==> frame_error(bytes@) is None,
        res is Err ==> frame_error(bytes@) == Some(res->Err_0),
        res is Ok ==> tag_type(bytes@[0]) == Some(res->Ok_0) && bytes@.len() == 3 + 16
            * res->Ok_0.wire_count(),
{
    if bytes.len() < 1 {
        return Err(ValueError::TypeMismatch);
    }
    match type_of_tag(bytes[0]) {
        None => Err(ValueError::TypeMismatch),
        Some(ty) => {
            if bytes.len() < 3 {
                return Err(ValueError::InvalidLength);
            }
            let count: usize = bytes[1] as usize + 256 * (bytes[2] as usize);
            if count != ty.len() || bytes.len() != 3 + 16 * ty.len() {
                return Err(ValueError::InvalidLength);
            }
            Ok(ty)
        },
    }
}

/// The byte form of the labels that a well-formed byte form holds is that byte form.
pub proof fn lemma_frame_round_trip(bytes: Seq<u8>)
    requires
        frame_error(bytes) is None,
    ensures
        encoded_bytes(tag_type(bytes[0])->Some_0, framed_labels(bytes)) == bytes,
{
    let ty = tag_type(bytes[0])->Some_0;
    let wires = framed_labels(bytes);
    let out = encoded_bytes(ty, wires);
    assert(wires.len() == ty.wire_count());
    assert(out.len() == bytes.len());
    assert forall|k: int| 0 <= k < bytes.len() implies out[k] == bytes[k] by {
        if k >= 3 {
            let m = k - 3;
            assert(out[k] == label_bytes(wires)[m]);
            assert(wires[m / 16] == bytes.subrange(3 + 16 * (m / 16), 3 + 16 * (m / 16) + 16));
        }
    }
    assert(out =~= bytes);
}

/// The byte form of an encoded value is well-formed, and holds the value's
/// type and labels.
pub proof fn lemma_frame_of_encoded(ty: ValueType, wires: Seq<Seq<u8>>)
    requires
        wires.len() == ty.wire_count(),
        forall|i: int| 0 <= i < wires.len() ==> (#[trigger] wires[i]).len() == 16,
    ensures
        frame_error(encoded_bytes(ty, wires)) is None,
        tag_type(encoded_bytes(ty, wires)[0]) == Some(ty),
        framed_labels(encoded_bytes(ty, wires)) == wires,
{
    let bytes = encoded_bytes(ty, wires);
    let back = framed_labels(bytes);
    assert(bytes.len() == 3 + 16 * wires.len());
    assert(bytes[0] == type_tag(ty));
    assert(bytes[1] == (wires.len() % 256) as u8);
    assert(bytes[2] == (wires.len() / 256) as u8);
    assert(back.len() == wires.len());
    assert forall|i: int| 0 <= i < wires.len() implies back[i] == wires[i] by {
        assert forall|j: int| 0 <= j < 16 implies back[i][j] == wires[i][j] by {
            let k = 16 * i + j;
            assert(k / 16 == i && k % 16 == j);
            assert(bytes[3 + k] == label_bytes(wires)[k]);
        }
        assert(back[i] =~= wires[i]);
    }
    assert(back =~= wires);
}

/// Reads an active encoding from its byte form.
///
/// Fails with `TypeMismatch` where the tag is missing or unknown, and with
/// `InvalidLength` where the number of wires is not that of the type or the
/// labels are not all there.
pub fn active_from_bytes(bytes: &[u8]) -> (res: Result<EncodedValue<Active>, ValueError>)
    ensures
        res is Ok <==> frame_error(bytes@) is None,
        res is Err ==> frame_error(bytes@) == Some(res->Err_0),
        res is Ok ==> tag_type(bytes@[0]) == Some(res->Ok_0.spec_value_type())
            && res->Ok_0.wires() == framed_labels(bytes@) && encoded_bytes(
            res->Ok_0.spec_value_type(),
            res->Ok_0.wires(),
        ) == bytes@,
{
    match read_frame(bytes) {
        Err(e) => Err(e),
        Ok(ty) => {
            let labels = read_labels(bytes, ty.len());
            proof {
                lemma_frame_round_trip(bytes@);
            }
            EncodedValue::<Active>::from_labels(ty, labels.as_slice())
        },
    }
}

/// Reads the low labels of a full encoding from their byte form, and pairs
/// them with the offset `delta`.
///
/// Fails with `TypeMismatch` where the tag is missing or unknown, and with
/// `InvalidLength` where the number of wires is not that of the type or the
/// labels are not all there.
pub fn full_from_bytes(bytes: &[u8], delta: Delta) -> (res: Result<EncodedValue<Full>, ValueError>)
    ensures
        res is Ok <==> frame_error(bytes@) is None,
        res is Err ==> frame_error(bytes@) == Some(res->Err_0),
        res is Ok ==> tag_type(bytes@[0]) == Some(res->Ok_0.spec_value_type())
            && res->Ok_0.wires() == framed_labels(bytes@) && res->Ok_0.delta_view() == delta@
            && encoded_bytes(res->Ok_0.spec_value_type(), res->Ok_0.wires()) == bytes@,
{
    match read_frame(bytes) {
        Err(e) => Err(e),
        Ok(ty) => {
            let labels = read_labels(bytes, ty.len());
            proof {
                lemma_frame_round_trip(bytes@);
            }
            EncodedValue::<Full>::from_labels(ty, delta, labels.as_slice())
        },
    }
}

} // verus!
