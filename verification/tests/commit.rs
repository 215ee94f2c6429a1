use mpz_garble_core::state::{Active, Full};
use mpz_garble_core::{
    commit_inputs, tweak, tweak2, verify_inputs, Block, ChaChaEncoder, EncodedValue,
    EncodingCommitment, Label, Value, ValueError, ValueType,
};
use std::collections::hash_map::DefaultHasher;
use std::hash::Hasher;

fn hash(blocks: &[Block]) -> [u8; 32] {
    let mut out = [0u8; 32];
    for part in 0..4u8 {
        let mut hasher = DefaultHasher::new();
        hasher.write_u8(part);
        for block in blocks {
            hasher.write(&block.to_bytes());
        }
        out[8 * part as usize..8 * part as usize + 8].copy_from_slice(&hasher.finish().to_le_bytes());
    }
    out
}

fn commit(full: &EncodedValue<Full>) -> EncodingCommitment {
    let hashes = commit_inputs(full)
        .iter()
        .map(|[tweak, low, high]| [hash(&[*tweak, *low]), hash(&[*tweak, *high])])
        .collect();
    EncodingCommitment::new(full.value_type(), hashes).unwrap()
}

fn active_hashes(active: &EncodedValue<Active>) -> Vec<[u8; 32]> {
    verify_inputs(active).iter().map(|pair| hash(pair)).collect()
}

#[test]
fn tweak_is_the_index_in_little_endian() {
    assert_eq!(tweak(0).to_bytes(), [0u8; 16]);
    assert_eq!(tweak(1).to_bytes(), 1u128.to_le_bytes());
    assert_eq!(tweak(0x0102_0304_0506_0708).to_bytes(), 0x0102_0304_0506_0708u128.to_le_bytes());
    assert_eq!(tweak(u64::MAX).to_bytes(), (u64::MAX as u128).to_le_bytes());
}

#[test]
fn tweak2_holds_both_indices() {
    assert_eq!(tweak2(0, 0).to_bytes(), [0u8; 16]);
    assert_eq!(tweak2(1, 2).to_bytes(), ((1u128 << 64) + 2).to_le_bytes());
    assert_eq!(
        tweak2(0xdead_beef, u64::MAX).to_bytes(),
        ((0xdead_beefu128 << 64) + u64::MAX as u128).to_le_bytes()
    );
    assert_ne!(tweak2(1, 2), tweak2(2, 1));
    assert_eq!(tweak2(0, 9), tweak(9));
}

#[test]
fn commit_inputs_are_tweak_low_and_high() {
    let encoder = ChaChaEncoder::new([0u8; 32]);
    let raw = encoder.encode::<8>(0);
    let full = encoder.encode_by_type(0, ValueType::U8);
    let inputs = commit_inputs(&full);
    assert_eq!(inputs.len(), 8);
    for i in 0..8 {
        assert_eq!(inputs[i][0], tweak(i as u64));
        assert_eq!(inputs[i][1], raw[i].to_inner());
        assert_eq!(inputs[i][2], (raw[i] ^ encoder.delta()).to_inner());
    }
}

#[test]
fn verify_inputs_are_tweak_and_active_label() {
    let encoder = ChaChaEncoder::new([0u8; 32]);
    let raw = encoder.encode::<16>(1);
    let full = encoder.encode_by_type(1, ValueType::U16);
    let active = full.select(&Value::U16(1)).unwrap();
    let inputs = verify_inputs(&active);
    assert_eq!(inputs.len(), 16);
    assert_eq!(inputs[0], [tweak(0), (raw[0] ^ encoder.delta()).to_inner()]);
    for i in 1..16 {
        assert_eq!(inputs[i], [tweak(i as u64), raw[i].to_inner()]);
        assert_eq!(active.label(i), raw[i]);
    }
}

#[test]
fn commit_binding() {
    let encoder = ChaChaEncoder::new([0u8; 32]);
    let full = encoder.encode_by_type(0, ValueType::U8);
    let commitment = commit(&full);
    assert_eq!(commitment.value_type(), ValueType::U8);
    let active = full.select(&Value::U8(0x5A)).unwrap();
    assert_eq!(commitment.verify(ValueType::U8, &active_hashes(&active)), Ok(()));
    for value in 0..=255u8 {
        let active = full.select(&Value::U8(value)).unwrap();
        assert_eq!(commitment.verify(ValueType::U8, &active_hashes(&active)), Ok(()));
    }
    let good: Vec<Label> = (0..8).map(|i| active.label(i)).collect();
    for wire in 0..8 {
        for bit in [0usize, 1, 77, 127] {
            let mut flip = [0u8; 16];
            flip[bit / 8] = 1 << (bit % 8);
            let mut labels = good.clone();
            labels[wire] = labels[wire] ^ Label::new(Block::new(flip));
            let bad = EncodedValue::<Active>::from_labels(ValueType::U8, &labels).unwrap();
            assert_eq!(
                commitment.verify(ValueType::U8, &active_hashes(&bad)),
                Err(ValueError::InvalidCommitment)
            );
        }
    }
}

#[test]
fn commitment_binds_the_wire_position() {
    let encoder = ChaChaEncoder::new([0u8; 32]);
    let full = encoder.encode_by_type(0, ValueType::U8);
    let commitment = commit(&full);
    let active = full.select(&Value::U8(0)).unwrap();
    let mut labels: Vec<Label> = (0..8).map(|i| active.label(i)).collect();
    labels.swap(0, 1);
    let swapped = EncodedValue::<Active>::from_labels(ValueType::U8, &labels).unwrap();
    assert_eq!(
        commitment.verify(ValueType::U8, &active_hashes(&swapped)),
        Err(ValueError::InvalidCommitment)
    );
}

#[test]
fn commitment_checks_type_and_length() {
    let encoder = ChaChaEncoder::new([0u8; 32]);
    let full = encoder.encode_by_type(0, ValueType::U8);
    let commitment = commit(&full);
    let hashes = active_hashes(&full.select(&Value::U8(1)).unwrap());
    assert_eq!(
        commitment.verify(ValueType::U16, &hashes),
        Err(ValueError::TypeMismatch)
    );
    assert_eq!(
        commitment.verify(ValueType::U8, &hashes[..7]),
        Err(ValueError::InvalidLength)
    );
    assert_eq!(
        EncodingCommitment::new(ValueType::U16, vec![[[0u8; 32]; 2]; 8]),
        Err(ValueError::InvalidLength)
    );
    assert!(EncodingCommitment::new(ValueType::Bit, vec![[[0u8; 32]; 2]; 1]).is_ok());
}
