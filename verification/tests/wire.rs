use mpz_garble_core::wire::{active_from_bytes, full_from_bytes, tag_of, to_bytes, type_of_tag};
use mpz_garble_core::{ChaChaEncoder, Value, ValueError, ValueType};

const TYPES: [(ValueType, u8, usize); 6] = [
    (ValueType::Bit, 0, 1),
    (ValueType::U8, 1, 8),
    (ValueType::U16, 2, 16),
    (ValueType::U32, 3, 32),
    (ValueType::U64, 4, 64),
    (ValueType::U128, 5, 128),
];

#[test]
fn tags_and_types_correspond() {
    for (ty, tag, _) in TYPES {
        assert_eq!(tag_of(ty), tag);
        assert_eq!(type_of_tag(tag), Some(ty));
    }
    assert_eq!(type_of_tag(6), None);
    assert_eq!(type_of_tag(255), None);
}

#[test]
fn byte_form_is_tag_count_and_labels() {
    let encoder = ChaChaEncoder::new([0u8; 32]);
    for (ty, tag, wires) in TYPES {
        let full = encoder.encode_by_type(11, ty);
        let bytes = to_bytes(&full);
        assert_eq!(bytes.len(), 3 + 16 * wires);
        assert_eq!(bytes[0], tag);
        assert_eq!(bytes[1], wires as u8);
        assert_eq!(bytes[2], 0);
        for i in 0..wires {
            assert_eq!(
                bytes[3 + 16 * i..3 + 16 * i + 16].to_vec(),
                full.label(i).to_inner().to_bytes().to_vec()
            );
        }
    }
}

#[test]
fn byte_form_round_trips() {
    let encoder = ChaChaEncoder::new([1u8; 32]);
    for (ty, _, _) in TYPES {
        let full = encoder.encode_by_type(2, ty);
        assert_eq!(full_from_bytes(&to_bytes(&full), encoder.delta()), Ok(full.clone()));
        let value = match ty {
            ValueType::Bit => Value::Bit(true),
            ValueType::U8 => Value::U8(0xA5),
            ValueType::U16 => Value::U16(0xA55A),
            ValueType::U32 => Value::U32(0xDEAD_BEEF),
            ValueType::U64 => Value::U64(u64::MAX - 1),
            ValueType::U128 => Value::U128(1 << 127),
        };
        let active = full.select(&value).unwrap();
        let bytes = to_bytes(&active);
        assert_ne!(bytes, to_bytes(&full));
        let back = active_from_bytes(&bytes).unwrap();
        assert_eq!(back, active);
        assert_eq!(to_bytes(&back), bytes);
        assert_eq!(back.decode(&full.decoding()), Ok(value));
    }
}

#[test]
fn byte_form_with_bad_tag_is_a_type_mismatch() {
    assert_eq!(active_from_bytes(&[]), Err(ValueError::TypeMismatch));
    assert_eq!(active_from_bytes(&[6, 8, 0]), Err(ValueError::TypeMismatch));
    let mut bytes = vec![0u8; 3 + 16 * 8];
    bytes[0] = 200;
    bytes[1] = 8;
    assert_eq!(active_from_bytes(&bytes), Err(ValueError::TypeMismatch));
}

#[test]
fn byte_form_with_bad_length_is_rejected() {
    let encoder = ChaChaEncoder::new([0u8; 32]);
    let full = encoder.encode_by_type(0, ValueType::U8);
    let good = to_bytes(&full);
    assert_eq!(active_from_bytes(&good[..2]), Err(ValueError::InvalidLength));
    assert_eq!(active_from_bytes(&good[..1]), Err(ValueError::InvalidLength));
    assert_eq!(active_from_bytes(&good[..good.len() - 1]), Err(ValueError::InvalidLength));
    let mut long = good.clone();
    long.push(0);
    assert_eq!(active_from_bytes(&long), Err(ValueError::InvalidLength));
    let mut count = good.clone();
    count[1] = 16;
    assert_eq!(active_from_bytes(&count), Err(ValueError::InvalidLength));
    let mut high = good.clone();
    high[2] = 1;
    assert_eq!(active_from_bytes(&high), Err(ValueError::InvalidLength));
    let mut retagged = good.clone();
    retagged[0] = 2;
    assert_eq!(
        full_from_bytes(&retagged, encoder.delta()),
        Err(ValueError::InvalidLength)
    );
    assert!(active_from_bytes(&good).is_ok());
}
