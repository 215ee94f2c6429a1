//! Deterministic generation of labels from a seed.

use crate::array::EncodedArray;
use crate::block::{lsb_of, with_lsb, Block};
use crate::crt::reduce_digits;
use crate::crt_value::{crt_offsets, crt_shaped, CrtDelta, FullCrtValue};
use crate::residue::prime;
use crate::label::{Delta, Label};
use crate::labels::{label_views, Labels};
use crate::state::Full;
use crate::value::{EncodedValue, ValueType};
use rand::{RngCore, SeedableRng};
use rand_chacha::ChaCha20Rng;
use vstd::prelude::*;

verus! {

/// The first `len` bytes of the ChaCha20 key stream with the key `seed` and
/// the 64-bit stream number `stream_id`, from block 0 on.
pub uninterp spec fn chacha20_stream(seed: Seq<u8>, stream_id: u64, len: nat) -> Seq<u8>;

/// Runs `rand_chacha::ChaCha20Rng`: `from_seed` with `seed`, `set_stream`
/// with `stream_id`, then `fill_bytes` on a zeroed buffer of `len` bytes.
///
/// The generator's output is a function of key, stream number and position
/// alone, and `fill_bytes` writes the whole buffer; the contract gives that
/// output a name and says no more of it than its length.
#[verifier::external_body]
fn stream_bytes(seed: &[u8; 32], stream_id: u64, len: usize) -> (out: Vec<u8>)
    ensures
        out@ == chacha20_stream(seed@, stream_id, len as nat),
        out@.len() == len,
{
    let mut rng = ChaCha20Rng::from_seed(*seed);
    rng.set_stream(stream_id);
    let mut out = vec![0u8; len];
    rng.fill_bytes(&mut out);
    out
}

/// The `n` labels that a byte stream is cut into, 16 bytes each.
pub open spec fn labels_from_bytes(bytes: Seq<u8>, n: nat) -> Seq<Seq<u8>> {
    Seq::new(n, |i: int| bytes.subrange(16 * i, 16 * i + 16))
}

/// The offset that the encoders of `seed` use: the first 16 bytes of
/// stream 0, with the least significant bit set.
pub open spec fn delta_of_seed(seed: Seq<u8>) -> Seq<u8> {
    with_lsb(chacha20_stream(seed, 0, 16))
}

/// The low labels that the encoders of `seed` give for `n` wires on the stream `stream_id`.
pub open spec fn low_labels_of_seed(seed: Seq<u8>, stream_id: u64, n: nat) -> Seq<Seq<u8>> {
    labels_from_bytes(chacha20_stream(seed, stream_id, 16 * n), n)
}

/// Cuts the label with the index `index` out of a byte stream.
fn label_at(bytes: &Vec<u8>, index: usize) -> (label: Label)
    requires
        16 * index + 16 <= bytes@.len(),
    ensures
        label@ == bytes@.subrange(16 * index, 16 * index + 16),
{
    let total: usize = bytes.len();
    assert(16 * index + 16 <= total);
    label_from(bytes.as_slice(), 16 * index)
}

/// Reads the label that starts at the byte `start` of `bytes`.
pub(crate) fn label_from(bytes: &[u8], start: usize) -> (label: Label)
    requires
        start + 16 <= bytes@.len(),
    ensures
        label@ == bytes@.subrange(start as int, start + 16),
{
    let total: usize = bytes.len();
    let mut raw: [u8; 16] = [0u8;16];
    let mut j: usize = 0;
    while j < 16
        invariant
            j <= 16,
            start + 16 <= total,
            total == bytes@.len(),
            forall|k: int| 0 <= k < j ==> raw@[k] == bytes@[start + k],
        decreases 16 - j,
    {
        raw[j] = bytes[start + j];
        j += 1;
    }
    assert(raw@ =~= bytes@.subrange(start as int, start + 16));
    Label::new(Block::new(raw))
}

/// Encodes values with labels drawn from ChaCha20 key streams.
///
/// Two encoders made from the same seed give the same offset and, for the
/// same stream and number of wires, the same labels.
#[derive(Debug, Clone, Copy)]
pub struct ChaChaEncoder {
    seed: [u8; 32],
    delta: Delta,
}

impl ChaChaEncoder {
    /// The seed that the encoder was made from.
    pub closed spec fn seed_view(&self) -> Seq<u8> {
        self.seed@
    }

    /// The encoder's offset.
    pub closed spec fn delta_view(&self) -> Seq<u8> {
        self.delta@
    }

    /// Whether the offset is the one that the seed gives.
    pub open spec fn wf(&self) -> bool {
        self.delta_view() == delta_of_seed(self.seed_view())
    }

    /// Creates the encoder of `seed`.
    pub fn new(seed: [u8; 32]) -> (encoder: ChaChaEncoder)
        ensures
            encoder.wf(),
            encoder.seed_view() == seed@,
            lsb_of(encoder.delta_view()) == 1,
    {
        let bytes = stream_bytes(&seed, 0, 16);
        let first: Label = label_at(&bytes, 0);
        assert(bytes@.subrange(0, 16) =~= bytes@);
        let delta = Delta::new(first.to_inner());
        ChaChaEncoder { seed, delta }
    }

    /// Returns the seed.
    pub fn seed(&self) -> (seed: [u8; 32])
        ensures
            seed@ == self.seed_view(),
    {
        self.seed
    }

    /// Returns the offset.
    pub fn delta(&self) -> (delta: Delta)
        ensures
            delta@ == self.delta_view(),
    {
        self.delta
    }

    /// Returns the full encoding of a value of the type `ty`, drawn from the
    /// stream `stream_id`.
    pub fn encode_by_type(&self, stream_id: u64, ty: ValueType) -> (full: EncodedValue<Full>)
        ensures
            full.spec_value_type() == ty,
            full.wires() == low_labels_of_seed(self.seed_view(), stream_id, ty.wire_count()),
            full.delta_view() == self.delta_view(),
            lsb_of(full.delta_view()) == 1,
    {
        match ty {
            ValueType::Bit => EncodedValue::Bit(self.encode::<1>(stream_id)),
            ValueType::U8 => EncodedValue::U8(self.encode::<8>(stream_id)),
            ValueType::U16 => EncodedValue::U16(self.encode::<16>(stream_id)),
            ValueType::U32 => EncodedValue::U32(self.encode::<32>(stream_id)),
            ValueType::U64 => EncodedValue::U64(self.encode::<64>(stream_id)),
            ValueType::U128 => EncodedValue::U128(self.encode::<128>(stream_id)),
        }
    }

    /// Returns the full labels of `N` wires drawn from the stream `stream_id`.
    pub fn encode<const N: usize>(&self, stream_id: u64) -> (full: Labels<N, Full>)
        requires
            16 * N <= usize::MAX,
        ensures
            full@ == low_labels_of_seed(self.seed_view(), stream_id, N as nat),
            full.delta_view() == self.delta_view(),
            lsb_of(full.delta_view()) == 1,
    {
        let bytes = stream_bytes(&self.seed, stream_id, 16 * N);
        let mut labels: [Label; N] = [Label::new(Block::new([0u8;16]));N];
        let mut i: usize = 0;
        while i < N
            invariant
                i <= N,
                bytes@.len() == 16 * N,
                forall|j: int|
                    0 <= j < i ==> (#[trigger] labels@[j])@ == bytes@.subrange(
                        16 * j,
                        16 * j + 16,
                    ),
            decreases N - i,
        {
            labels[i] = label_at(&bytes, i);
            i += 1;
        }
        assert(label_views(labels@) =~= labels_from_bytes(bytes@, N as nat));
        Labels::<N, Full>::new(self.delta, labels)
    }
}

/// The low labels that the encoders of `seed` give for an array of `len`
/// bytes on the stream `stream_id`: byte `k` has the labels `8 * k` to
/// `8 * k + 7` of the stream.
pub open spec fn array_labels_of_seed(seed: Seq<u8>, stream_id: u64, len: nat) -> Seq<
    Seq<Seq<u8>>,
> {
    Seq::new(
        len,
        |k: int| Seq::new(8, |i: int| low_labels_of_seed(seed, stream_id, 8 * len)[8 * k + i]),
    )
}

impl ChaChaEncoder {
    /// Returns the full encoding of an array of `len` bytes, drawn from the
    /// stream `stream_id`.
    pub fn encode_array(&self, stream_id: u64, len: usize) -> (full: EncodedArray<Full>)
        requires
            128 * len <= usize::MAX,
        ensures
            full.elements() == array_labels_of_seed(self.seed_view(), stream_id, len as nat),
            full.deltas().len() == len,
            forall|k: int|
                0 <= k < len ==> #[trigger] full.deltas()[k] == self.delta_view() && lsb_of(
                    full.deltas()[k],
                ) == 1,
    {
        let bytes = stream_bytes(&self.seed, stream_id, 128 * len);
        let ghost all = low_labels_of_seed(self.seed_view(), stream_id, (8 * len) as nat);
        let mut out: Vec<Labels<8, Full>> = Vec::new();
        let mut k: usize = 0;
        while k < len
            invariant
                k <= len,
                128 * len <= usize::MAX,
                bytes@.len() == 128 * len,
                all == labels_from_bytes(bytes@, (8 * len) as nat),
                out@.len() == k,
                forall|j: int|
                    0 <= j < k ==> (#[trigger] out@[j])@ == Seq::new(8, |i: int| all[8 * j + i])
                        && out@[j].delta_view() == self.delta_view() && lsb_of(
                        out@[j].delta_view(),
                    ) == 1,
            decreases len - k,
        {
            let mut labels: [Label; 8] = [Label::new(Block::new([0u8;16]));8];
            let mut i: usize = 0;
            while i < 8
                invariant
                    i <= 8,
                    k < len,
                    128 * len <= usize::MAX,
                    bytes@.len() == 128 * len,
                    all == labels_from_bytes(bytes@, (8 * len) as nat),
                    forall|m: int| 0 <= m < i ==> (#[trigger] labels@[m])@ == all[8 * k + m],
                decreases 8 - i,
            {
                labels[i] = label_at(&bytes, 8 * k + i);
                i += 1;
            }
            let element = Labels::<8, Full>::new(self.delta, labels);
            assert(element@ =~= Seq::new(8, |i: int| all[8 * k + i]));
            out.push(element);
            k += 1;
        }
        let ghost made = out@;
        let full = EncodedArray::<Full>::new(out);
        proof {
            let want = array_labels_of_seed(self.seed_view(), stream_id, len as nat);
            assert forall|j: int| 0 <= j < len implies full.elements()[j] == want[j] by {
                assert(made[j]@ == Seq::new(8, |i: int| all[8 * j + i]));
                assert(want[j] =~= Seq::new(8, |i: int| all[8 * j + i]));
            }
            assert(full.elements() =~= want);
            assert forall|j: int| 0 <= j < len implies #[trigger] full.deltas()[j]
                == self.delta_view() && lsb_of(full.deltas()[j]) == 1 by {
                assert(made[j].delta_view() == self.delta_view());
            }
        }
        full
    }
}

/// Encoders of the same seed agree: they hold the same offset and give the
/// same labels for the same stream and number of wires.
pub proof fn lemma_encoder_deterministic(a: ChaChaEncoder, b: ChaChaEncoder, stream_id: u64, n: nat)
    requires
        a.wf(),
        b.wf(),
        a.seed_view() == b.seed_view(),
    ensures
        a.delta_view() == b.delta_view(),
        low_labels_of_seed(a.seed_view(), stream_id, n) == low_labels_of_seed(
            b.seed_view(),
            stream_id,
            n,
        ),
{
}

/// The blocks that a byte stream is cut into for the ten moduli, 16 bytes each.
fn ten_blocks(bytes: &Vec<u8>) -> (blocks: [Block; 10])
    requires
        bytes@.len() == 160,
    ensures
        forall|j: int| 0 <= j < 10 ==> (#[trigger] blocks@[j])@ == labels_from_bytes(bytes@, 10)[j],
{
    let mut blocks: [Block; 10] = [Block::new([0u8;16]);10];
    let mut j: usize = 0;
    while j < 10
        invariant
            j <= 10,
            bytes@.len() == 160,
            forall|k: int|
                0 <= k < j ==> (#[trigger] blocks@[k])@ == bytes@.subrange(16 * k, 16 * k + 16),
        decreases 10 - j,
    {
        blocks[j] = label_at(bytes, j).to_inner();
        j += 1;
    }
    blocks
}

/// The offsets that the arithmetic encoders of `seed` use: for each modulus
/// 16 bytes of the last stream, reduced, with the first digit replaced by 1.
pub open spec fn crt_deltas_of_seed(seed: Seq<u8>) -> Seq<Seq<u8>> {
    Seq::new(
        10,
        |j: int|
            reduce_digits(
                labels_from_bytes(chacha20_stream(seed, u64::MAX, 160), 10)[j],
                prime(j) as int,
            ).update(0, 1u8),
    )
}

/// The bases that the arithmetic encoders of `seed` give on the stream
/// `stream_id`: for each modulus 16 bytes of the stream, reduced.
pub open spec fn crt_bases_of_seed(seed: Seq<u8>, stream_id: u64) -> Seq<Seq<u8>> {
    Seq::new(
        10,
        |j: int|
            reduce_digits(
                labels_from_bytes(chacha20_stream(seed, stream_id, 160), 10)[j],
                prime(j) as int,
            ),
    )
}

/// Encodes numbers residue by residue with labels drawn from ChaCha20 key streams.
#[derive(Debug, Clone, Copy)]
pub struct ChaChaCrtEncoder {
    seed: [u8; 32],
    delta: CrtDelta,
}

impl ChaChaCrtEncoder {
    /// The seed that the encoder was made from.
    pub closed spec fn seed_view(&self) -> Seq<u8> {
        self.seed@
    }

    /// The digits of the encoder's offsets.
    pub closed spec fn deltas(&self) -> Seq<Seq<u8>> {
        self.delta.deltas()
    }

    /// Whether the offsets are those that the seed gives.
    pub open spec fn wf(&self) -> bool {
        self.deltas() == crt_deltas_of_seed(self.seed_view())
    }

    /// Creates the encoder of `seed`.
    pub fn new(seed: [u8; 32]) -> (encoder: ChaChaCrtEncoder)
        ensures
            encoder.wf(),
            encoder.seed_view() == seed@,
            crt_offsets(encoder.deltas()),
    {
        let bytes = stream_bytes(&seed, u64::MAX, 160);
        let delta = CrtDelta::new(ten_blocks(&bytes));
        assert(delta.deltas() =~= crt_deltas_of_seed(seed@));
        ChaChaCrtEncoder { seed, delta }
    }

    /// Returns the offsets.
    pub fn delta(&self) -> (delta: CrtDelta)
        ensures
            delta.deltas() == self.deltas(),
    {
        self.delta
    }

    /// Returns the full encoding of a number, drawn from the stream `stream_id`.
    pub fn encode(&self, stream_id: u64) -> (full: FullCrtValue)
        ensures
            full.bases() == crt_bases_of_seed(self.seed_view(), stream_id),
            full.deltas() == self.deltas(),
            crt_shaped(full.bases()),
            crt_offsets(full.deltas()),
    {
        let bytes = stream_bytes(&self.seed, stream_id, 160);
        let full = FullCrtValue::new(self.delta, ten_blocks(&bytes));
        assert(full.bases() =~= crt_bases_of_seed(self.seed_view(), stream_id));
        full
    }
}

} // verus!
