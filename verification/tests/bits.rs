use mpz_garble_core::bits::{bits_of, pack_bits, unpack_bits, value_of};

#[test]
fn bits_of_is_least_significant_first() {
    assert_eq!(
        bits_of::<8>(0xA5),
        [true, false, true, false, false, true, false, true]
    );
    assert_eq!(bits_of::<1>(1), [true]);
    assert_eq!(bits_of::<1>(0), [false]);
    assert_eq!(bits_of::<4>(0xF3), [true, true, false, false]);
    let top = bits_of::<128>(1u128 << 127);
    assert!(top[127]);
    assert!(top[..127].iter().all(|bit| !*bit));
    let empty: [bool; 0] = bits_of::<0>(7);
    assert_eq!(empty.len(), 0);
}

#[test]
fn value_of_reads_least_significant_first() {
    assert_eq!(value_of::<8>(&[true, false, true, false, false, true, false, true]), 0xA5);
    assert_eq!(value_of::<3>(&[false, true, true]), 6);
    assert_eq!(value_of::<0>(&[]), 0);
    assert_eq!(value_of::<128>(&[true; 128]), u128::MAX);
    let mut bits = [false; 128];
    bits[127] = true;
    assert_eq!(value_of::<128>(&bits), 1u128 << 127);
}

#[test]
fn value_of_undoes_bits_of() {
    for value in [0u128, 1, 2, 0xdead_beef, u64::MAX as u128, u128::MAX, 1 << 100] {
        assert_eq!(value_of::<128>(&bits_of::<128>(value)), value);
    }
    for value in 0..=255u128 {
        assert_eq!(value_of::<8>(&bits_of::<8>(value)), value);
    }
}

#[test]
fn pack_bits_fills_bytes_from_the_lowest_place() {
    assert_eq!(
        pack_bits::<8>(&[true, false, true, false, false, true, false, true]),
        vec![0xA5]
    );
    assert_eq!(pack_bits::<1>(&[true]), vec![1]);
    assert_eq!(pack_bits::<1>(&[false]), vec![0]);
    assert_eq!(pack_bits::<0>(&[]), Vec::<u8>::new());
    let mut bits = [false; 16];
    bits[0] = true;
    bits[15] = true;
    assert_eq!(pack_bits::<16>(&bits), vec![0x01, 0x80]);
    assert_eq!(pack_bits::<11>(&[true; 11]), vec![0xff, 0x07]);
    assert_eq!(pack_bits::<128>(&bits_of::<128>(0x0102_0304)), {
        let mut expected = vec![0u8; 16];
        expected[..4].copy_from_slice(&[4, 3, 2, 1]);
        expected
    });
}

#[test]
fn unpack_bits_reads_what_pack_bits_wrote() {
    assert_eq!(
        unpack_bits::<8>(&[0xA5]),
        Some([true, false, true, false, false, true, false, true])
    );
    assert_eq!(unpack_bits::<1>(&[1]), Some([true]));
    assert_eq!(unpack_bits::<1>(&[0xfe]), Some([false]));
    assert_eq!(unpack_bits::<3>(&[0b0000_0110]), Some([false, true, true]));
    assert_eq!(unpack_bits::<8>(&[]), None);
    assert_eq!(unpack_bits::<8>(&[1, 2]), None);
    assert_eq!(unpack_bits::<9>(&[1]), None);
    for value in [0u128, 1, 0xdead_beef, u128::MAX, 1 << 77] {
        let bits = bits_of::<128>(value);
        assert_eq!(pack_bits::<128>(&bits), value.to_le_bytes().to_vec());
        assert_eq!(unpack_bits::<128>(&pack_bits::<128>(&bits)), Some(bits));
    }
}
