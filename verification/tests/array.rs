use mpz_garble_core::state::{Active, Full};
use mpz_garble_core::{Block, ChaChaEncoder, EncodedArray, Label, Labels, ValueError};

#[test]
fn array_labels_come_from_one_stream() {
    let encoder = ChaChaEncoder::new([0u8; 32]);
    let array = encoder.encode_array(6, 4);
    let flat = encoder.encode::<32>(6);
    assert_eq!(array.len(), 4);
    for k in 0..4 {
        assert_eq!(array.element(k).delta(), encoder.delta());
        for i in 0..8 {
            assert_eq!(array.element(k)[i], flat[8 * k + i]);
        }
    }
    assert_eq!(encoder.encode_array(6, 0).len(), 0);
}

#[test]
fn array_select_puts_bit_i_of_byte_k_on_wire_i_of_element_k() {
    let encoder = ChaChaEncoder::new([0u8; 32]);
    let array = encoder.encode_array(0, 3);
    let active = array.select(&[0x01, 0x80, 0x00]).unwrap();
    for k in 0..3 {
        for i in 0..8 {
            let low = array.element(k)[i];
            let high = low ^ encoder.delta();
            let expected = if (k, i) == (0, 0) || (k, i) == (1, 7) { high } else { low };
            assert_eq!(active.element(k)[i], expected);
        }
    }
}

#[test]
fn array_round_trip() {
    let encoder = ChaChaEncoder::new([3u8; 32]);
    let bytes: Vec<u8> = (0..=255u8).collect();
    let array = encoder.encode_array(9, bytes.len());
    let active = array.select(&bytes).unwrap();
    assert_eq!(array.verify(&active), Ok(()));
    assert_eq!(active.decode(&array.decoding()), Ok(bytes));
}

#[test]
fn array_decoding_holds_pointer_bits() {
    let encoder = ChaChaEncoder::new([3u8; 32]);
    let array = encoder.encode_array(1, 2);
    let decoding = array.decoding();
    assert_eq!(decoding.len(), 2);
    for k in 0..2 {
        assert_eq!(decoding[k], array.element(k).decoding());
    }
}

#[test]
fn array_lengths_must_agree() {
    let encoder = ChaChaEncoder::new([0u8; 32]);
    let array = encoder.encode_array(0, 3);
    assert_eq!(array.select(&[1, 2]), Err(ValueError::TypeMismatch));
    assert_eq!(array.select(&[1, 2, 3, 4]), Err(ValueError::TypeMismatch));
    let active = array.select(&[1, 2, 3]).unwrap();
    let short = encoder.encode_array(0, 2);
    assert_eq!(short.verify(&active), Err(ValueError::TypeMismatch));
    assert_eq!(active.decode(&short.decoding()), Err(ValueError::TypeMismatch));
}

#[test]
fn array_verify_rejects_a_foreign_label() {
    let encoder = ChaChaEncoder::new([0u8; 32]);
    let array = encoder.encode_array(0, 3);
    let active = array.select(&[1, 2, 3]).unwrap();
    let mut flip = [0u8; 16];
    flip[9] = 4;
    for k in 0..3 {
        let elements: Vec<Labels<8, Active>> = (0..3)
            .map(|j| {
                let labels: [Label; 8] = std::array::from_fn(|i| {
                    if j == k && i == 5 {
                        active.element(j)[i] ^ Label::new(Block::new(flip))
                    } else {
                        active.element(j)[i]
                    }
                });
                Labels::<8, Active>::new(labels)
            })
            .collect();
        let bad = EncodedArray::<Active>::new(elements);
        assert_eq!(array.verify(&bad), Err(ValueError::InvalidActiveEncoding));
    }
    let other = ChaChaEncoder::new([1u8; 32]).encode_array(0, 3);
    assert_eq!(
        array.verify(&other.select(&[0, 0, 0]).unwrap()),
        Err(ValueError::InvalidActiveEncoding)
    );
    let rebuilt = EncodedArray::<Full>::new((0..3).map(|k| array.element(k).clone()).collect());
    assert_eq!(rebuilt, array);
}
