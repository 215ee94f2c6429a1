//! What holds of selecting, verifying, decoding and XORing label collections.

use crate::bits::{lemma_pow2_128, lemma_value_of_bits};
use crate::block::{
    lemma_xor_bytes_associative, lemma_xor_bytes_cancels, lemma_xor_bytes_commutative,
    lemma_xor_bytes_lsb, lemma_xor_bytes_zero, lsb_of, xor_bytes, zero_bytes,
};
use crate::labels::{decode_wires, decoding_of, is_active_of, select_wires, xor_wires, Labels};
use crate::state::{Active, Full};
use crate::value::{value_from_bits, EncodedValue, Value};
use vstd::arithmetic::power2::{lemma2_to64, lemma2_to64_rest};
use vstd::prelude::*;

verus! {

/// The bits of an all-zero plaintext on `n` wires.
pub open spec fn zero_bits(n: nat) -> Seq<bool> {
    Seq::new(n, |i: int| false)
}

/// For each wire what its bit adds to the low label: the offset where the
/// bit is 1, the zero block where it is 0.
pub open spec fn offset_wires(delta: Seq<u8>, bits: Seq<bool>) -> Seq<Seq<u8>> {
    Seq::new(
        bits.len(),
        |i: int|
            if bits[i] {
                delta
            } else {
                zero_bytes()
            },
    )
}

/// Wire by wire, the XOR of two bit sequences.
pub open spec fn xor_bits(a: Seq<bool>, b: Seq<bool>) -> Seq<bool> {
    Seq::new(a.len(), |i: int| a[i] != b[i])
}

/// The active labels of a plaintext are the active labels of the all-zero
/// plaintext with the offset XORed onto each wire whose bit is 1.
pub proof fn lemma_select_is_offset_from_zero<const N: usize>(full: Labels<N, Full>, bits: Seq<bool>)
    requires
        bits.len() == N,
    ensures
        select_wires(full@, full.delta_view(), bits) == xor_wires(
            select_wires(full@, full.delta_view(), zero_bits(N as nat)),
            offset_wires(full.delta_view(), bits),
        ),
{
    full.lemma_shape();
    let delta = full.delta_view();
    let zero = select_wires(full@, delta, zero_bits(N as nat));
    assert forall|i: int| 0 <= i < N implies select_wires(full@, delta, bits)[i] == xor_bytes(
        zero[i],
        offset_wires(delta, bits)[i],
    ) by {
        lemma_xor_bytes_zero(full@[i]);
    }
    assert(select_wires(full@, delta, bits) =~= xor_wires(zero, offset_wires(delta, bits)));
}

/// Decoding the active labels of a plaintext with the decoding of the full
/// collection they were selected from gives the plaintext back.
pub proof fn lemma_decode_select<const N: usize>(full: Labels<N, Full>, bits: Seq<bool>)
    requires
        bits.len() == N,
        lsb_of(full.delta_view()) == 1,
    ensures
        decode_wires(select_wires(full@, full.delta_view(), bits), decoding_of(full@)) == bits,
{
    full.lemma_shape();
    let delta = full.delta_view();
    let active = select_wires(full@, delta, bits);
    assert forall|i: int| 0 <= i < N implies decode_wires(active, decoding_of(full@))[i]
        == bits[i] by {
        lemma_xor_bytes_lsb(full@[i], delta);
    }
    assert(decode_wires(active, decoding_of(full@)) =~= bits);
}

/// The active labels of any plaintext pass the check of the full collection
/// they were selected from.
pub proof fn lemma_verify_accepts_selected<const N: usize>(full: Labels<N, Full>, bits: Seq<bool>)
    requires
        bits.len() == N,
    ensures
        is_active_of(full@, full.delta_view(), select_wires(full@, full.delta_view(), bits)),
{
    full.lemma_shape();
}

/// Active labels pass the check of a full collection only if they are the
/// active labels of some plaintext under it.
pub proof fn lemma_verified_is_selected<const N: usize>(
    full: Labels<N, Full>,
    active: Labels<N, Active>,
)
    requires
        is_active_of(full@, full.delta_view(), active@),
    ensures
        exists|bits: Seq<bool>|
            bits.len() == N && active@ == select_wires(full@, full.delta_view(), bits),
{
    full.lemma_shape();
    active.lemma_shape();
    let delta = full.delta_view();
    let bits = Seq::new(N as nat, |i: int| active@[i] != full@[i]);
    let selected = select_wires(full@, delta, bits);
    assert forall|i: int| 0 <= i < N implies active@[i] == selected[i] by {
        assert(active@[i] == full@[i] || active@[i] == xor_bytes(full@[i], delta));
    }
    assert(active@ =~= selected);
    assert(bits.len() == N && active@ == select_wires(full@, full.delta_view(), bits));
}

/// XOR of active collections is associative.
pub proof fn lemma_xor_associative<const N: usize>(
    a: Labels<N, Active>,
    b: Labels<N, Active>,
    c: Labels<N, Active>,
)
    ensures
        xor_wires(xor_wires(a@, b@), c@) == xor_wires(a@, xor_wires(b@, c@)),
{
    a.lemma_shape();
    b.lemma_shape();
    c.lemma_shape();
    assert forall|i: int| 0 <= i < N implies xor_wires(xor_wires(a@, b@), c@)[i] == xor_wires(
        a@,
        xor_wires(b@, c@),
    )[i] by {
        lemma_xor_bytes_associative(a@[i], b@[i], c@[i]);
    }
    assert(xor_wires(xor_wires(a@, b@), c@) =~= xor_wires(a@, xor_wires(b@, c@)));
}

/// XOR of active collections is commutative.
pub proof fn lemma_xor_commutative<const N: usize>(a: Labels<N, Active>, b: Labels<N, Active>)
    ensures
        xor_wires(a@, b@) == xor_wires(b@, a@),
{
    a.lemma_shape();
    b.lemma_shape();
    assert forall|i: int| 0 <= i < N implies xor_wires(a@, b@)[i] == xor_wires(b@, a@)[i] by {
        lemma_xor_bytes_commutative(a@[i], b@[i]);
    }
    assert(xor_wires(a@, b@) =~= xor_wires(b@, a@));
}

/// An XOR gate costs nothing: where the low labels of the output wires are
/// the XOR of the low labels of the input wires, under one offset, the XOR of
/// the inputs' active labels is the active label of the XOR of their bits.
pub proof fn lemma_free_xor_gate<const N: usize>(
    a: Labels<N, Full>,
    b: Labels<N, Full>,
    x: Seq<bool>,
    y: Seq<bool>,
)
    requires
        a.delta_view() == b.delta_view(),
        x.len() == N,
        y.len() == N,
    ensures
        xor_wires(
            select_wires(a@, a.delta_view(), x),
            select_wires(b@, b.delta_view(), y),
        ) == select_wires(xor_wires(a@, b@), a.delta_view(), xor_bits(x, y)),
{
    a.lemma_shape();
    b.lemma_shape();
    let delta = a.delta_view();
    let lhs = xor_wires(select_wires(a@, delta, x), select_wires(b@, delta, y));
    let rhs = select_wires(xor_wires(a@, b@), delta, xor_bits(x, y));
    assert forall|i: int| 0 <= i < N implies lhs[i] == rhs[i] by {
        let p = a@[i];
        let q = b@[i];
        lemma_xor_bytes_associative(p, delta, q);
        lemma_xor_bytes_associative(p, q, delta);
        lemma_xor_bytes_commutative(delta, q);
        lemma_xor_bytes_associative(xor_bytes(p, delta), q, delta);
        lemma_xor_bytes_associative(p, delta, xor_bytes(q, delta));
        lemma_xor_bytes_commutative(delta, xor_bytes(q, delta));
        lemma_xor_bytes_cancels(q, delta);
        lemma_xor_bytes_cancels(xor_bytes(p, q), delta);
    }
    assert(lhs =~= rhs);
}

/// Selecting a value, then decoding the active encoding with the decoding of
/// the full encoding it was selected from, gives the value back.
pub proof fn lemma_value_round_trip(full: EncodedValue<Full>, value: Value)
    requires
        value.spec_value_type() == full.spec_value_type(),
        lsb_of(full.delta_view()) == 1,
    ensures
        value_from_bits(
            full.spec_value_type(),
            decode_wires(
                select_wires(full.wires(), full.delta_view(), value.bits()),
                decoding_of(full.wires()),
            ),
        ) == value,
{
    lemma2_to64();
    lemma2_to64_rest();
    lemma_pow2_128();
    match full {
        EncodedValue::Bit(labels) => lemma_decode_select(labels, value.bits()),
        EncodedValue::U8(labels) => lemma_decode_select(labels, value.bits()),
        EncodedValue::U16(labels) => lemma_decode_select(labels, value.bits()),
        EncodedValue::U32(labels) => lemma_decode_select(labels, value.bits()),
        EncodedValue::U64(labels) => lemma_decode_select(labels, value.bits()),
        EncodedValue::U128(labels) => lemma_decode_select(labels, value.bits()),
    }
    lemma_value_of_bits(value.as_nat(), value.spec_value_type().wire_count());
}

/// The active encoding of any value of the right type passes the check of
/// the full encoding it was selected from.
pub proof fn lemma_value_verify_accepts_selected(full: EncodedValue<Full>, value: Value)
    requires
        value.spec_value_type() == full.spec_value_type(),
    ensures
        is_active_of(
            full.wires(),
            full.delta_view(),
            select_wires(full.wires(), full.delta_view(), value.bits()),
        ),
{
    match full {
        EncodedValue::Bit(labels) => lemma_verify_accepts_selected(labels, value.bits()),
        EncodedValue::U8(labels) => lemma_verify_accepts_selected(labels, value.bits()),
        EncodedValue::U16(labels) => lemma_verify_accepts_selected(labels, value.bits()),
        EncodedValue::U32(labels) => lemma_verify_accepts_selected(labels, value.bits()),
        EncodedValue::U64(labels) => lemma_verify_accepts_selected(labels, value.bits()),
        EncodedValue::U128(labels) => lemma_verify_accepts_selected(labels, value.bits()),
    }
}

} // verus!
