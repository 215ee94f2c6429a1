use mpz_garble_core::crt::{add_label, cmul_label, negate_label, LabelModN};
use mpz_garble_core::crt_value::{
    get_delta_by_modulus, ActiveCrtValue, CrtDecoding, CrtDelta, DecodeError, FullCrtValue,
};
use mpz_garble_core::residue::{prime_at, reconstruct};
use mpz_garble_core::{Block, ChaChaCrtEncoder};
use rand::{RngCore, SeedableRng};
use rand_chacha::ChaCha12Rng;

const PRIMES: [u8; 10] = [2, 3, 5, 7, 11, 13, 17, 19, 23, 29];
const MODULUS: u64 = 6_469_693_230;

fn random_blocks(rng: &mut ChaCha12Rng) -> [Block; 10] {
    std::array::from_fn(|_| Block::random(rng))
}

fn random_full(rng: &mut ChaCha12Rng, delta: CrtDelta) -> FullCrtValue {
    FullCrtValue::new(delta, random_blocks(rng))
}

fn label(digits: [u8; 16], p: u8) -> LabelModN {
    LabelModN::new(Block::new(digits), p)
}

#[test]
fn moduli_are_the_first_ten_primes() {
    for j in 0..10 {
        assert_eq!(prime_at(j), PRIMES[j]);
    }
    assert_eq!(PRIMES.iter().map(|p| *p as u64).product::<u64>(), MODULUS);
}

#[test]
fn label_mod_n_reduces_its_digits() {
    let bytes: [u8; 16] = std::array::from_fn(|i| (i as u8) * 17);
    let l = label(bytes, 7);
    assert_eq!(l.modulus(), 7);
    let expected: [u8; 16] = std::array::from_fn(|i| ((i as u8) * 17) % 7);
    assert_eq!(l.block().to_bytes(), expected);
    assert_eq!(l.pointer_digit(), 0);
    assert_eq!(l.with_pointer_one().pointer_digit(), 1);
    assert_eq!(l.with_pointer_one().block().to_bytes()[1..], expected[1..]);
}

#[test]
fn add_label_adds_digits_modulo_p() {
    let a = label([4; 16], 5);
    let mut digits = [3u8; 16];
    digits[0] = 1;
    digits[15] = 0;
    let b = label(digits, 5);
    let mut expected = [2u8; 16];
    expected[0] = 0;
    expected[15] = 4;
    assert_eq!(add_label(&a, &b, 5).block().to_bytes(), expected);
    assert_eq!(add_label(&a, &b, 5).modulus(), 5);
}

#[test]
fn add_label_modulo_two_is_xor() {
    let a: [u8; 16] = std::array::from_fn(|i| (i as u8) & 1);
    let b: [u8; 16] = std::array::from_fn(|i| ((i as u8) >> 1) & 1);
    let sum = add_label(&label(a, 2), &label(b, 2), 2);
    assert_eq!(sum.block(), Block::new(a).xor(Block::new(b)));
}

#[test]
fn cmul_label_multiplies_digits_modulo_p() {
    let digits: [u8; 16] = std::array::from_fn(|i| (i as u8) % 11);
    let a = label(digits, 11);
    let expected: [u8; 16] = std::array::from_fn(|i| ((i as u64 % 11) * 7 % 11) as u8);
    assert_eq!(cmul_label(&a, 7, 11).block().to_bytes(), expected);
    assert_eq!(cmul_label(&a, 7 + 11 * 1_000_000_007, 11).block().to_bytes(), expected);
    assert_eq!(cmul_label(&a, 0, 11).block().to_bytes(), [0u8; 16]);
    assert_eq!(cmul_label(&a, u64::MAX, 11).block().to_bytes(), {
        let c = u64::MAX % 11;
        let e: [u8; 16] = std::array::from_fn(|i| ((i as u64 % 11) * c % 11) as u8);
        e
    });
}

#[test]
fn negate_label_gives_the_additive_inverse() {
    let digits: [u8; 16] = std::array::from_fn(|i| (i as u8) % 13);
    let a = label(digits, 13);
    let n = negate_label(&a, 13);
    let expected: [u8; 16] = std::array::from_fn(|i| (13 - (i as u8) % 13) % 13);
    assert_eq!(n.block().to_bytes(), expected);
    assert_eq!(add_label(&a, &n, 13).block().to_bytes(), [0u8; 16]);
}

#[test]
fn label_algebra_follows_the_residues() {
    let mut rng = ChaCha12Rng::from_seed([1u8; 32]);
    for p in PRIMES {
        let delta = LabelModN::new(Block::random(&mut rng), p).with_pointer_one();
        let w0 = LabelModN::new(Block::random(&mut rng), p);
        let w1 = LabelModN::new(Block::random(&mut rng), p);
        let enc = |w: &LabelModN, r: u64| add_label(w, &cmul_label(&delta, r, p), p);
        for x in 0..p as u64 {
            for y in 0..p as u64 {
                let sum = add_label(&enc(&w0, x), &enc(&w1, y), p);
                assert_eq!(sum, enc(&add_label(&w0, &w1, p), (x + y) % p as u64));
            }
            for c in [0u64, 1, 2, 5, 30, 1 << 40] {
                let product = cmul_label(&enc(&w0, x), c, p);
                assert_eq!(product, enc(&cmul_label(&w0, c, p), (c * x) % p as u64));
            }
            let negated = negate_label(&enc(&w0, x), p);
            assert_eq!(negated, enc(&negate_label(&w0, p), (p as u64 - x) % p as u64));
        }
    }
}

#[test]
fn delta_has_first_digit_one_and_digits_below_each_prime() {
    let mut rng = ChaCha12Rng::from_seed([2u8; 32]);
    let delta = CrtDelta::random(&mut rng);
    for p in PRIMES {
        let d = get_delta_by_modulus(&delta, p).unwrap();
        assert_eq!(d.modulus(), p);
        assert_eq!(d.pointer_digit(), 1);
        assert!(d.block().to_bytes().iter().all(|digit| *digit < p));
    }
    let seven = get_delta_by_modulus(&delta, 7).unwrap();
    let three = get_delta_by_modulus(&delta, 3).unwrap();
    assert_ne!(seven, three);
}

#[test]
fn get_delta_by_modulus_knows_only_the_moduli() {
    let mut rng = ChaCha12Rng::from_seed([2u8; 32]);
    let delta = CrtDelta::random(&mut rng);
    for p in [0u8, 1, 4, 9, 31, 255] {
        assert_eq!(get_delta_by_modulus(&delta, p), None);
    }
}

#[test]
fn delta_new_reduces_and_sets_first_digit() {
    let blocks: [Block; 10] = std::array::from_fn(|j| Block::new([100 + j as u8; 16]));
    let delta = CrtDelta::new(blocks);
    for (j, p) in PRIMES.iter().enumerate() {
        let mut expected = [(100 + j as u8) % p; 16];
        expected[0] = 1;
        assert_eq!(get_delta_by_modulus(&delta, *p).unwrap().block().to_bytes(), expected);
    }
}

#[test]
fn reconstruct_inverts_residues() {
    for v in [0u64, 1, 2, 41, 42, 6_469_693_229, 4_294_967_295, 4_294_967_296, 223_092_870] {
        let residues: [u8; 10] = std::array::from_fn(|j| (v % PRIMES[j] as u64) as u8);
        assert_eq!(reconstruct(&residues), v);
    }
    assert_eq!(reconstruct(&[1, 2, 4, 6, 10, 12, 16, 18, 22, 28]), MODULUS - 1);
    assert_eq!(reconstruct(&[1, 1, 1, 1, 1, 1, 1, 1, 1, 1]), 1);
}

#[test]
fn select_adds_residue_times_delta() {
    let mut rng = ChaCha12Rng::from_seed([3u8; 32]);
    let delta = CrtDelta::random(&mut rng);
    let blocks = random_blocks(&mut rng);
    let full = FullCrtValue::new(delta, blocks);
    let x: u64 = 1_234_567;
    let active = full.select(x);
    let residues = active.residues(&full.decoding());
    for (j, p) in PRIMES.iter().enumerate() {
        assert_eq!(residues[j] as u64, x % *p as u64);
    }
    let zero = full.select(0);
    assert_eq!(zero.residues(&full.decoding()), [0u8; 10]);
    assert_ne!(zero, active);
}

#[test]
fn crt_round_trip() {
    let mut rng = ChaCha12Rng::from_seed([4u8; 32]);
    let delta = CrtDelta::random(&mut rng);
    let full = random_full(&mut rng, delta);
    for x in [0u64, 1, 7, 35, 42, u32::MAX as u64, MODULUS - 1] {
        assert_eq!(full.select(x).decode(&full.decoding()), x);
    }
    assert_eq!(full.select(MODULUS).decode(&full.decoding()), 0);
    assert_eq!(full.select(MODULUS + 5).decode(&full.decoding()), 5);
    assert_eq!(full.select(u64::MAX).decode(&full.decoding()), u64::MAX % MODULUS);
}

#[test]
fn crt_add_u32() {
    let mut rng = ChaCha12Rng::from_seed([0u8; 32]);
    let delta = CrtDelta::random(&mut rng);
    let fx = random_full(&mut rng, delta);
    let fy = random_full(&mut rng, delta);
    let sum: ActiveCrtValue = fx.select(7).add(&fy.select(35));
    let decoding = fx.add(&fy).decoding();
    assert_eq!(sum.decode_u32(&decoding), Ok(42));
    assert_eq!(sum.decode(&decoding), 42);
    assert_eq!(fx.add(&fy).delta(), delta);
}

#[test]
fn crt_add_is_addition_modulo_the_product() {
    let mut rng = ChaCha12Rng::from_seed([5u8; 32]);
    let delta = CrtDelta::random(&mut rng);
    let fx = random_full(&mut rng, delta);
    let fy = random_full(&mut rng, delta);
    let decoding = fx.add(&fy).decoding();
    let cases = [
        (0u64, 0u64),
        (1, MODULUS - 1),
        (MODULUS - 1, MODULUS - 1),
        (123_456_789, 987_654_321),
        (u32::MAX as u64, u32::MAX as u64),
    ];
    for (x, y) in cases {
        let sum = fx.select(x).add(&fy.select(y));
        assert_eq!(sum.decode(&decoding), (x + y) % MODULUS);
    }
}

#[test]
fn crt_cmul_is_multiplication_modulo_the_product() {
    let mut rng = ChaCha12Rng::from_seed([6u8; 32]);
    let delta = CrtDelta::random(&mut rng);
    let full = random_full(&mut rng, delta);
    let cases = [(0u64, 5u64), (6, 7), (123_456, 54_321), (MODULUS - 1, 2), (99, 0), (3, 1)];
    for (x, c) in cases {
        let product = full.select(x).cmul(c);
        let decoding = full.cmul(c).decoding();
        let expected = ((x as u128 * c as u128) % MODULUS as u128) as u64;
        assert_eq!(product.decode(&decoding), expected);
    }
}

#[test]
fn decode_u32_rejects_what_does_not_fit() {
    let mut rng = ChaCha12Rng::from_seed([7u8; 32]);
    let delta = CrtDelta::random(&mut rng);
    let full = random_full(&mut rng, delta);
    let decoding = full.decoding();
    assert_eq!(full.select(u32::MAX as u64).decode_u32(&decoding), Ok(u32::MAX));
    assert_eq!(
        full.select(u32::MAX as u64 + 1).decode_u32(&decoding),
        Err(DecodeError::OutOfRange)
    );
    assert_eq!(full.select(MODULUS - 1).decode_u32(&decoding), Err(DecodeError::OutOfRange));
}

#[test]
fn crt_encoder_is_deterministic() {
    let a = ChaChaCrtEncoder::new([0u8; 32]);
    let b = ChaChaCrtEncoder::new([0u8; 32]);
    assert_eq!(a.delta(), b.delta());
    assert_eq!(a.encode(3), b.encode(3));
    assert_ne!(a.encode(3), a.encode(4));
    let mut seed = [0u8; 32];
    seed[0] = 1;
    let c = ChaChaCrtEncoder::new(seed);
    assert_ne!(a.encode(3), c.encode(3));
    assert_eq!(a.encode(3).delta(), a.delta());
}

#[test]
fn crt_encoder_draws_from_the_key_stream() {
    let seed = [5u8; 32];
    let encoder = ChaChaCrtEncoder::new(seed);
    let mut rng = rand_chacha::ChaCha20Rng::from_seed(seed);
    rng.set_stream(9);
    let mut bytes = [0u8; 160];
    rng.fill_bytes(&mut bytes);
    let blocks: [Block; 10] =
        std::array::from_fn(|j| Block::new(bytes[16 * j..16 * j + 16].try_into().unwrap()));
    let delta = encoder.delta();
    assert_eq!(encoder.encode(9), FullCrtValue::new(delta, blocks));
    rng.set_stream(u64::MAX);
    rng.set_word_pos(0);
    rng.fill_bytes(&mut bytes);
    let blocks: [Block; 10] =
        std::array::from_fn(|j| Block::new(bytes[16 * j..16 * j + 16].try_into().unwrap()));
    assert_eq!(delta, CrtDelta::new(blocks));
}

#[test]
fn crt_add_with_encoder() {
    let encoder = ChaChaCrtEncoder::new([0u8; 32]);
    let fx = encoder.encode(0);
    let fy = encoder.encode(1);
    let sum = fx.select(7).add(&fy.select(35));
    assert_eq!(sum.decode_u32(&fx.add(&fy).decoding()), Ok(42));
}

#[test]
fn decoding_byte_form_is_prime_then_base_digits() {
    let encoder = ChaChaCrtEncoder::new([8u8; 32]);
    let full = encoder.encode(1);
    let bytes = full.decoding().to_bytes();
    assert_eq!(bytes.len(), 170);
    let zero = full.select(0);
    for (j, p) in PRIMES.iter().enumerate() {
        assert_eq!(bytes[17 * j], *p);
        assert!(bytes[17 * j + 1..17 * j + 17].iter().all(|digit| digit < p));
    }
    assert_eq!(zero.residues(&full.decoding()), [0u8; 10]);
    assert_eq!(CrtDecoding::from_bytes(&bytes), Ok(full.decoding()));
    let back = CrtDecoding::from_bytes(&bytes).unwrap();
    assert_eq!(back.to_bytes(), bytes);
    assert_eq!(full.select(77).decode(&back), 77);
}

#[test]
fn decoding_byte_form_is_checked() {
    let encoder = ChaChaCrtEncoder::new([8u8; 32]);
    let good = encoder.encode(1).decoding().to_bytes();
    assert_eq!(CrtDecoding::from_bytes(&good[..169]), Err(DecodeError::InvalidLength));
    assert_eq!(CrtDecoding::from_bytes(&[]), Err(DecodeError::InvalidLength));
    let mut long = good.clone();
    long.push(0);
    assert_eq!(CrtDecoding::from_bytes(&long), Err(DecodeError::InvalidLength));
    let mut prime = good.clone();
    prime[17] = 5;
    assert_eq!(CrtDecoding::from_bytes(&prime), Err(DecodeError::ModulusMismatch));
    let mut digit = good.clone();
    digit[1] = 2;
    assert_eq!(CrtDecoding::from_bytes(&digit), Err(DecodeError::ModulusMismatch));
    let mut last = good.clone();
    last[169] = 29;
    assert_eq!(CrtDecoding::from_bytes(&last), Err(DecodeError::ModulusMismatch));
    last[169] = 28;
    assert!(CrtDecoding::from_bytes(&last).is_ok());
}
