use mpz_garble_core::state::{Active, Full};
use mpz_garble_core::{
    Block, ChaChaEncoder, Decoding, EncodedValue, EqualityCheck, Label, Value, ValueError,
    ValueType,
};
use rand::{RngCore, SeedableRng};
use rand_chacha::ChaCha20Rng;

fn stream(seed: [u8; 32], stream_id: u64, len: usize) -> Vec<u8> {
    let mut rng = ChaCha20Rng::from_seed(seed);
    rng.set_stream(stream_id);
    let mut out = vec![0u8; len];
    rng.fill_bytes(&mut out);
    out
}

fn other_seed() -> [u8; 32] {
    let mut seed = [0u8; 32];
    seed[0] = 1;
    seed
}

fn labels_of(value: &EncodedValue<Active>) -> Vec<Label> {
    match value {
        EncodedValue::Bit(labels) => labels.iter().copied().collect(),
        EncodedValue::U8(labels) => labels.iter().copied().collect(),
        EncodedValue::U16(labels) => labels.iter().copied().collect(),
        EncodedValue::U32(labels) => labels.iter().copied().collect(),
        EncodedValue::U64(labels) => labels.iter().copied().collect(),
        EncodedValue::U128(labels) => labels.iter().copied().collect(),
    }
}

#[test]
fn encoder_delta_is_start_of_stream_zero_with_lsb_set() {
    let encoder = ChaChaEncoder::new([0u8; 32]);
    let mut expected: [u8; 16] = stream([0u8; 32], 0, 16).try_into().unwrap();
    expected[0] |= 1;
    assert_eq!(encoder.delta().into_inner().to_bytes(), expected);
    assert_eq!(encoder.delta().into_inner().lsb(), 1);
    assert_eq!(encoder.seed(), [0u8; 32]);
}

#[test]
fn encoder_labels_are_the_key_stream_cut_in_blocks() {
    let seed = other_seed();
    let encoder = ChaChaEncoder::new(seed);
    let full = encoder.encode::<8>(5);
    let bytes = stream(seed, 5, 128);
    assert_ne!(bytes, vec![0u8; 128]);
    for i in 0..8 {
        assert_eq!(full[i].to_inner().to_bytes().to_vec(), bytes[16 * i..16 * i + 16].to_vec());
    }
    assert_eq!(full.delta(), encoder.delta());
}

#[test]
fn encoder_is_deterministic() {
    let a = ChaChaEncoder::new([3u8; 32]);
    let b = ChaChaEncoder::new([3u8; 32]);
    assert_eq!(a.delta(), b.delta());
    for ty in [
        ValueType::Bit,
        ValueType::U8,
        ValueType::U16,
        ValueType::U32,
        ValueType::U64,
        ValueType::U128,
    ] {
        for stream_id in [0u64, 1, 77, u64::MAX] {
            assert_eq!(a.encode_by_type(stream_id, ty), b.encode_by_type(stream_id, ty));
            assert_eq!(a.encode_by_type(stream_id, ty), a.encode_by_type(stream_id, ty));
        }
    }
    assert_eq!(a.encode::<32>(9), b.encode::<32>(9));
}

#[test]
fn encoder_streams_and_seeds_differ() {
    let a = ChaChaEncoder::new([0u8; 32]);
    let b = ChaChaEncoder::new(other_seed());
    assert_ne!(a.delta(), b.delta());
    assert_ne!(a.encode::<8>(0), a.encode::<8>(1));
    assert_ne!(a.encode::<8>(0), b.encode::<8>(0));
}

#[test]
fn encode_by_type_gives_the_type_and_its_wires() {
    let encoder = ChaChaEncoder::new([0u8; 32]);
    let cases = [
        (ValueType::Bit, 1usize),
        (ValueType::U8, 8),
        (ValueType::U16, 16),
        (ValueType::U32, 32),
        (ValueType::U64, 64),
        (ValueType::U128, 128),
    ];
    for (ty, wires) in cases {
        let full = encoder.encode_by_type(4, ty);
        assert_eq!(full.value_type(), ty);
        assert_eq!(full.len(), wires);
        assert_eq!(ty.len(), wires);
        assert_eq!(full.delta(), encoder.delta());
    }
    assert_eq!(
        encoder.encode_by_type(4, ValueType::U8),
        EncodedValue::U8(encoder.encode::<8>(4))
    );
}

#[test]
fn bit_encode_decode() {
    let encoder = ChaChaEncoder::new([0u8; 32]);
    let full = encoder.encode_by_type(0, ValueType::Bit);
    let active = full.select(&Value::Bit(true)).unwrap();
    assert_eq!(active.decode(&full.decoding()), Ok(Value::Bit(true)));
    let active = full.select(&Value::Bit(false)).unwrap();
    assert_eq!(active.decode(&full.decoding()), Ok(Value::Bit(false)));
}

#[test]
fn u8_round_trip() {
    let encoder = ChaChaEncoder::new([0u8; 32]);
    let full = encoder.encode_by_type(0, ValueType::U8);
    let active = full.select(&Value::U8(0xA5)).unwrap();
    assert_eq!(active.decode(&full.decoding()), Ok(Value::U8(0xA5)));
}

#[test]
fn every_type_round_trips() {
    let encoder = ChaChaEncoder::new([9u8; 32]);
    let values = [
        Value::Bit(false),
        Value::Bit(true),
        Value::U8(0),
        Value::U8(u8::MAX),
        Value::U8(0x5A),
        Value::U16(0xBEEF),
        Value::U16(u16::MAX),
        Value::U32(0xDEAD_BEEF),
        Value::U32(1),
        Value::U64(0x0123_4567_89AB_CDEF),
        Value::U64(u64::MAX),
        Value::U128(0x0123_4567_89AB_CDEF_FEDC_BA98_7654_3210),
        Value::U128(u128::MAX),
        Value::U128(0),
    ];
    for (i, value) in values.iter().enumerate() {
        let full = encoder.encode_by_type(i as u64, value.value_type());
        let active = full.select(value).unwrap();
        assert_eq!(active.value_type(), value.value_type());
        assert_eq!(full.verify(&active), Ok(()));
        assert_eq!(active.decode(&full.decoding()), Ok(*value));
    }
}

#[test]
fn select_u32_one_sets_wire_zero_only() {
    let encoder = ChaChaEncoder::new([0u8; 32]);
    let raw = encoder.encode::<32>(0);
    let full = encoder.encode_by_type(0, ValueType::U32);
    let active = labels_of(&full.select(&Value::U32(0x0000_0001)).unwrap());
    assert_eq!(active.len(), 32);
    assert_eq!(active[0], raw[0] ^ encoder.delta());
    for i in 1..32 {
        assert_eq!(active[i], raw[i]);
    }
}

#[test]
fn select_puts_bit_i_on_wire_i() {
    let encoder = ChaChaEncoder::new([0u8; 32]);
    let raw = encoder.encode::<16>(3);
    let full = encoder.encode_by_type(3, ValueType::U16);
    let active = labels_of(&full.select(&Value::U16(0x8001)).unwrap());
    for i in 0..16 {
        if i == 0 || i == 15 {
            assert_eq!(active[i], raw[i] ^ encoder.delta());
        } else {
            assert_eq!(active[i], raw[i]);
        }
    }
}

#[test]
fn decoding_packs_pointer_bits() {
    let encoder = ChaChaEncoder::new([0u8; 32]);
    let raw = encoder.encode::<8>(2);
    let full = encoder.encode_by_type(2, ValueType::U8);
    let expected: [bool; 8] = std::array::from_fn(|i| raw[i].pointer_bit());
    assert_eq!(full.decoding(), Decoding::U8(expected));
    assert_eq!(full.decoding().value_type(), ValueType::U8);
}

#[test]
fn verify_reject() {
    let a = ChaChaEncoder::new([0u8; 32]);
    let b = ChaChaEncoder::new(other_seed());
    let full = a.encode_by_type(0, ValueType::U8);
    let foreign = b.encode_by_type(0, ValueType::U8).select(&Value::U8(0)).unwrap();
    assert_eq!(full.verify(&foreign), Err(ValueError::InvalidActiveEncoding));
}

#[test]
fn verify_rejects_flipped_bit_of_any_label() {
    let encoder = ChaChaEncoder::new([0u8; 32]);
    let full = encoder.encode_by_type(0, ValueType::U8);
    let good = labels_of(&full.select(&Value::U8(0x5A)).unwrap());
    for wire in 0..8 {
        for bit in [1usize, 64, 127] {
            let mut flip = [0u8; 16];
            flip[bit / 8] = 1 << (bit % 8);
            let mut labels = good.clone();
            labels[wire] = labels[wire] ^ Label::new(Block::new(flip));
            let bad = EncodedValue::<Active>::from_labels(ValueType::U8, &labels).unwrap();
            assert_eq!(full.verify(&bad), Err(ValueError::InvalidActiveEncoding));
        }
    }
    let same = EncodedValue::<Active>::from_labels(ValueType::U8, &good).unwrap();
    assert_eq!(full.verify(&same), Ok(()));
}

#[test]
fn type_mismatch_is_reported() {
    let encoder = ChaChaEncoder::new([0u8; 32]);
    let full8 = encoder.encode_by_type(0, ValueType::U8);
    let full16 = encoder.encode_by_type(0, ValueType::U16);
    assert_eq!(full8.select(&Value::U16(1)), Err(ValueError::TypeMismatch));
    assert_eq!(full8.select(&Value::Bit(true)), Err(ValueError::TypeMismatch));
    let active16 = full16.select(&Value::U16(1)).unwrap();
    assert_eq!(full8.verify(&active16), Err(ValueError::TypeMismatch));
    assert_eq!(active16.decode(&full8.decoding()), Err(ValueError::TypeMismatch));
    let check = EqualityCheck::new(&full8, &Value::U8(1)).unwrap();
    assert_eq!(check.check(&active16), Err(ValueError::TypeMismatch));
    assert_eq!(
        EqualityCheck::new(&full8, &Value::U32(1)),
        Err(ValueError::TypeMismatch)
    );
}

#[test]
fn from_labels_checks_the_wire_count() {
    let encoder = ChaChaEncoder::new([0u8; 32]);
    let raw = encoder.encode::<8>(0);
    let labels: Vec<Label> = raw.iter().copied().collect();
    let full = EncodedValue::<Full>::from_labels(ValueType::U8, encoder.delta(), &labels).unwrap();
    assert_eq!(full, encoder.encode_by_type(0, ValueType::U8));
    assert_eq!(
        EncodedValue::<Full>::from_labels(ValueType::U16, encoder.delta(), &labels),
        Err(ValueError::InvalidLength)
    );
    assert_eq!(
        EncodedValue::<Full>::from_labels(ValueType::U8, encoder.delta(), &labels[..7]),
        Err(ValueError::InvalidLength)
    );
    assert_eq!(
        EncodedValue::<Full>::from_labels(ValueType::Bit, encoder.delta(), &[]),
        Err(ValueError::InvalidLength)
    );
    assert_eq!(
        EncodedValue::<Active>::from_labels(ValueType::U32, &labels),
        Err(ValueError::InvalidLength)
    );
    let active = EncodedValue::<Active>::from_labels(ValueType::U8, &labels).unwrap();
    assert_eq!(active, full.select(&Value::U8(0)).unwrap());
}

#[test]
fn equality_check_accepts_only_the_expected_value() {
    let encoder = ChaChaEncoder::new([0u8; 32]);
    let full = encoder.encode_by_type(7, ValueType::U32);
    let check = EqualityCheck::new(&full, &Value::U32(42)).unwrap();
    assert_eq!(check.check(&full.select(&Value::U32(42)).unwrap()), Ok(true));
    assert_eq!(check.check(&full.select(&Value::U32(43)).unwrap()), Ok(false));
    assert_eq!(
        check.check(&full.select(&Value::U32(42 | 1 << 31)).unwrap()),
        Ok(false)
    );
    let other = encoder.encode_by_type(8, ValueType::U32);
    assert_eq!(check.check(&other.select(&Value::U32(42)).unwrap()), Ok(false));
}

#[test]
fn same_labels_compares_type_and_wires() {
    let encoder = ChaChaEncoder::new([0u8; 32]);
    let full = encoder.encode_by_type(1, ValueType::U8);
    let a = full.select(&Value::U8(3)).unwrap();
    let b = full.select(&Value::U8(3)).unwrap();
    let c = full.select(&Value::U8(131)).unwrap();
    assert!(a.same_labels(&b));
    assert!(!a.same_labels(&c));
    let wide = encoder.encode_by_type(1, ValueType::U16).select(&Value::U16(3)).unwrap();
    assert!(!a.same_labels(&wide));
}

#[test]
fn random_encoding_has_the_type_and_the_offset() {
    let mut rng = rand_chacha::ChaCha12Rng::from_seed([4u8; 32]);
    let delta = mpz_garble_core::Delta::random(&mut rng);
    for ty in [ValueType::Bit, ValueType::U8, ValueType::U64, ValueType::U128] {
        let full = EncodedValue::<Full>::random(&mut rng, ty, delta);
        assert_eq!(full.value_type(), ty);
        assert_eq!(full.delta(), delta);
        assert_eq!(full.len(), ty.len());
        let again = EncodedValue::<Full>::random(&mut rng, ty, delta);
        assert_ne!(full, again);
    }
    let full = EncodedValue::<Full>::random(&mut rng, ValueType::U32, delta);
    let active = full.select(&Value::U32(77)).unwrap();
    assert_eq!(full.verify(&active), Ok(()));
    assert_eq!(active.decode(&full.decoding()), Ok(Value::U32(77)));
}

#[test]
fn decoding_bytes_round_trip() {
    let encoder = ChaChaEncoder::new([0u8; 32]);
    let cases = [
        (ValueType::Bit, 1usize),
        (ValueType::U8, 1),
        (ValueType::U16, 2),
        (ValueType::U32, 4),
        (ValueType::U64, 8),
        (ValueType::U128, 16),
    ];
    for (ty, len) in cases {
        let full = encoder.encode_by_type(5, ty);
        let decoding = full.decoding();
        let bytes = decoding.to_bytes();
        assert_eq!(bytes.len(), len);
        assert_eq!(Decoding::from_bytes(ty, &bytes), Ok(decoding));
        assert_eq!(
            Decoding::from_bytes(ty, &bytes[..len - 1]),
            Err(ValueError::InvalidLength)
        );
    }
    assert_eq!(
        Decoding::U8([true, false, false, false, false, false, true, true]).to_bytes(),
        vec![0xC1]
    );
    assert_eq!(
        Decoding::from_bytes(ValueType::U16, &[0x01, 0x80]),
        Ok(Decoding::U16(std::array::from_fn(|i| i == 0 || i == 15)))
    );
    assert_eq!(
        Decoding::from_bytes(ValueType::U8, &[1, 2]),
        Err(ValueError::InvalidLength)
    );
}
