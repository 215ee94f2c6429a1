//! Numbers encoded residue by residue, one label for each modulus.

use crate::block::Block;
use crate::crt::{
    add_digits, add_label, cmul_label, digits_below, mul_digits, offset_digits, reduce_digits,
    LabelModN,
};
use crate::residue::{
    crt_value, has_residues, lemma_crt_value_unique, lemma_products, lemma_residue_of_reduced,
    modulus, prime, prime_at, reconstruct,
};
use rand::{CryptoRng, Rng};
use vstd::arithmetic::div_mod::{
    lemma_add_mod_noop, lemma_mod_bound, lemma_mod_multiples_vanish, lemma_mul_mod_noop_general,
    lemma_small_mod, lemma_sub_mod_noop,
};
use vstd::prelude::*;

verus! {

/// Errors which can occur when a number is decoded from its residues.
#[derive(Debug, Clone, Copy, PartialEq, Eq, Structural)]
pub enum DecodeError {
    /// The residues give a number that the type cannot hold.
    OutOfRange,
    /// The bytes are not as many as a decoding has.
    InvalidLength,
    /// A modulus is not the one of its place, or a digit is not below its modulus.
    ModulusMismatch,
}

/// Whether `labels` holds one label for each modulus, with digits below it.
pub open spec fn crt_shaped(labels: Seq<Seq<u8>>) -> bool {
    labels.len() == 10 && forall|j: int|
        0 <= j < 10 ==> digits_below(#[trigger] labels[j], prime(j) as int)
}

/// Whether `deltas` holds one offset for each modulus, with first digit 1.
pub open spec fn crt_offsets(deltas: Seq<Seq<u8>>) -> bool {
    crt_shaped(deltas) && forall|j: int| 0 <= j < 10 ==> (#[trigger] deltas[j])[0] == 1
}

/// For each modulus the label that encodes the residue of `x`.
pub open spec fn crt_select(bases: Seq<Seq<u8>>, deltas: Seq<Seq<u8>>, x: int) -> Seq<Seq<u8>> {
    Seq::new(10, |j: int| offset_digits(bases[j], deltas[j], x, prime(j) as int))
}

/// Modulus by modulus, the sum of two collections of labels.
pub open spec fn crt_add(a: Seq<Seq<u8>>, b: Seq<Seq<u8>>) -> Seq<Seq<u8>> {
    Seq::new(10, |j: int| add_digits(a[j], b[j], prime(j) as int))
}

/// Modulus by modulus, `c` times a collection of labels.
pub open spec fn crt_cmul(a: Seq<Seq<u8>>, c: int) -> Seq<Seq<u8>> {
    Seq::new(10, |j: int| mul_digits(a[j], c, prime(j) as int))
}

/// For each modulus the residue that the active label stands for: the
/// difference of the first digits of the label and of the base.
pub open spec fn crt_residues(active: Seq<Seq<u8>>, bases: Seq<Seq<u8>>) -> Seq<nat> {
    Seq::new(
        10,
        |j: int|
            ((active[j][0] as int + prime(j) as int - bases[j][0] as int) % (prime(j) as int)) as nat,
    )
}

/// The digits of each label of `labels`.
pub open spec fn digit_views(labels: Seq<LabelModN>) -> Seq<Seq<u8>> {
    Seq::new(labels.len(), |j: int| labels[j].digits())
}

/// Whether the label with the index `j` has the modulus `prime(j)`, for each `j`.
pub open spec fn moduli_in_order(labels: Seq<LabelModN>) -> bool {
    labels.len() == 10 && forall|j: int|
        0 <= j < 10 ==> (#[trigger] labels[j]).spec_modulus() == prime(j)
}

/// One offset for each modulus. The first digit of each is 1.
#[derive(Debug, Clone, Copy, PartialEq)]
pub struct CrtDelta {
    deltas: [LabelModN; 10],
}

impl CrtDelta {
    /// Whether offset `j` is modulo `prime(j)` and has the first digit 1, as in every value.
    #[verifier::type_invariant]
    pub closed spec fn valid(self) -> bool {
        moduli_in_order(self.deltas@) && crt_offsets(digit_views(self.deltas@))
    }

    /// The digits of each offset.
    pub closed spec fn deltas(&self) -> Seq<Seq<u8>> {
        digit_views(self.deltas@)
    }

    /// What the type's invariant says of the offsets.
    pub proof fn lemma_valid(self)
        requires
            self.valid(),
        ensures
            crt_offsets(self.deltas()),
    {
    }

    /// Creates the offsets whose digits are the bytes of `blocks`, reduced
    /// modulo each modulus, with the first digit of each replaced by 1.
    pub fn new(blocks: [Block; 10]) -> (delta: CrtDelta)
        ensures
            crt_offsets(delta.deltas()),
            forall|j: int|
                0 <= j < 10 ==> #[trigger] delta.deltas()[j] == reduce_digits(
                    blocks@[j]@,
                    prime(j) as int,
                ).update(0, 1u8),
    {
        let mut deltas: [LabelModN; 10] = [LabelModN::new(blocks[0], 2);10];
        let mut j: usize = 0;
        while j < 10
            invariant
                j <= 10,
                forall|k: int|
                    0 <= k < j ==> (#[trigger] deltas@[k]).spec_modulus() == prime(k)
                        && deltas@[k].digits() == reduce_digits(
                        blocks@[k]@,
                        prime(k) as int,
                    ).update(0, 1u8),
            decreases 10 - j,
        {
            let p = prime_at(j);
            let reduced = LabelModN::new(blocks[j], p);
            deltas[j] = reduced.with_pointer_one();
            proof {
                lemma_small_mod(1, p as nat);
            }
            j += 1;
        }
        proof {
            let views = digit_views(deltas@);
            assert forall|k: int| 0 <= k < 10 implies digits_below(
                #[trigger] views[k],
                prime(k) as int,
            ) && views[k][0] == 1 by {
                let d = reduce_digits(blocks@[k]@, prime(k) as int).update(0, 1u8);
                assert(views[k] == d);
                assert forall|i: int| 0 <= i < 16 implies (#[trigger] d[i] as int) < prime(k) by {
                    lemma_mod_bound(blocks@[k]@[i] as int, prime(k) as int);
                }
            }
        }
        CrtDelta { deltas }
    }

    /// Creates random offsets.
    pub fn random<R: Rng + CryptoRng + ?Sized>(rng: &mut R) -> (delta: CrtDelta)
        ensures
            crt_offsets(delta.deltas()),
    {
        let mut blocks: [Block; 10] = [Block::new([0u8;16]);10];
        let mut j: usize = 0;
        while j < 10
            invariant
                j <= 10,
            decreases 10 - j,
        {
            blocks[j] = Block::random(rng);
            j += 1;
        }
        CrtDelta::new(blocks)
    }
}

/// Returns the offset for the modulus `p`, if `p` is one of the moduli.
pub fn get_delta_by_modulus(crt_delta: &CrtDelta, p: u8) -> (out: Option<LabelModN>)
    ensures
        out is Some <==> exists|j: int| 0 <= j < 10 && prime(j) == p,
        out is Some ==> out->Some_0.spec_modulus() == p && exists|j: int|
            0 <= j < 10 && prime(j) == p && out->Some_0.digits() == crt_delta.deltas()[j],
{
    proof {
        use_type_invariant(crt_delta);
    }
    let mut j: usize = 0;
    while j < 10
        invariant
            j <= 10,
            crt_delta.valid(),
            forall|k: int| 0 <= k < j ==> prime(k) != p,
        decreases 10 - j,
    {
        if prime_at(j) == p {
            let found: LabelModN = crt_delta.deltas[j];
            assert(found == crt_delta.deltas@[j as int]);
            assert(crt_delta.deltas@[j as int].spec_modulus() == prime(j as int));
            assert(prime(j as int) == p && found.digits() == crt_delta.deltas()[j as int]);
            return Some(found);
        }
        j += 1;
    }
    None
}

/// The full encoding of a number: for each modulus the label of the residue
/// 0, and the offsets that lead to the labels of the other residues.
#[derive(Debug, Clone, Copy, PartialEq)]
pub struct FullCrtValue {
    bases: [LabelModN; 10],
    delta: CrtDelta,
}

/// The active encoding of a number: for each modulus the label of its residue.
#[derive(Debug, Clone, Copy, PartialEq)]
pub struct ActiveCrtValue {
    labels: [LabelModN; 10],
}

/// What decodes an active encoding: for each modulus the label of the residue 0.
#[derive(Debug, Clone, Copy, PartialEq)]
pub struct CrtDecoding {
    bases: [LabelModN; 10],
}

/// Modulus by modulus, the sum of two arrays of labels.
fn add_all(a: &[LabelModN; 10], b: &[LabelModN; 10]) -> (out: [LabelModN; 10])
    ensures
        moduli_in_order(out@),
        digit_views(out@) == crt_add(digit_views(a@), digit_views(b@)),
        crt_shaped(digit_views(out@)),
{
    let mut out: [LabelModN; 10] = *a;
    let mut j: usize = 0;
    while j < 10
        invariant
            j <= 10,
            forall|k: int|
                0 <= k < j ==> (#[trigger] out@[k]).spec_modulus() == prime(k) && out@[k].digits()
                    == add_digits(a@[k].digits(), b@[k].digits(), prime(k) as int),
        decreases 10 - j,
    {
        out[j] = add_label(&a[j], &b[j], prime_at(j));
        j += 1;
    }
    proof {
        assert(digit_views(out@) =~= crt_add(digit_views(a@), digit_views(b@)));
        assert forall|k: int| 0 <= k < 10 implies digits_below(
            #[trigger] digit_views(out@)[k],
            prime(k) as int,
        ) by {
            let d = digit_views(out@)[k];
            assert forall|i: int| 0 <= i < 16 implies (#[trigger] d[i] as int) < prime(k) by {
                lemma_mod_bound(
                    a@[k].digits()[i] as int + b@[k].digits()[i] as int,
                    prime(k) as int,
                );
            }
        }
    }
    out
}

/// Modulus by modulus, `c` times an array of labels.
fn cmul_all(a: &[LabelModN; 10], c: u64) -> (out: [LabelModN; 10])
    ensures
        moduli_in_order(out@),
        digit_views(out@) == crt_cmul(digit_views(a@), c as int),
        crt_shaped(digit_views(out@)),
{
    let mut out: [LabelModN; 10] = *a;
    let mut j: usize = 0;
    while j < 10
        invariant
            j <= 10,
            forall|k: int|
                0 <= k < j ==> (#[trigger] out@[k]).spec_modulus() == prime(k) && out@[k].digits()
                    == mul_digits(a@[k].digits(), c as int, prime(k) as int),
        decreases 10 - j,
    {
        out[j] = cmul_label(&a[j], c, prime_at(j));
        j += 1;
    }
    proof {
        assert(digit_views(out@) =~= crt_cmul(digit_views(a@), c as int));
        assert forall|k: int| 0 <= k < 10 implies digits_below(
            #[trigger] digit_views(out@)[k],
            prime(k) as int,
        ) by {
            let d = digit_views(out@)[k];
            assert forall|i: int| 0 <= i < 16 implies (#[trigger] d[i] as int) < prime(k) by {
                lemma_mod_bound((c as int) * (a@[k].digits()[i] as int), prime(k) as int);
            }
        }
    }
    out
}

impl FullCrtValue {
    /// Whether base `j` is modulo `prime(j)`, as in every value.
    #[verifier::type_invariant]
    pub closed spec fn valid(self) -> bool {
        moduli_in_order(self.bases@) && crt_shaped(digit_views(self.bases@)) && self.delta.valid()
    }

    /// The digits of the label of the residue 0, for each modulus.
    pub closed spec fn bases(&self) -> Seq<Seq<u8>> {
        digit_views(self.bases@)
    }

    /// The digits of the offset, for each modulus.
    pub closed spec fn deltas(&self) -> Seq<Seq<u8>> {
        self.delta.deltas()
    }

    /// Creates the full encoding with the offsets `delta` whose bases are
    /// the bytes of `blocks`, reduced modulo each modulus.
    pub fn new(delta: CrtDelta, blocks: [Block; 10]) -> (full: FullCrtValue)
        ensures
            crt_shaped(full.bases()),
            crt_offsets(full.deltas()),
            full.deltas() == delta.deltas(),
            forall|j: int|
                0 <= j < 10 ==> #[trigger] full.bases()[j] == reduce_digits(
                    blocks@[j]@,
                    prime(j) as int,
                ),
    {
        let mut bases: [LabelModN; 10] = [LabelModN::new(blocks[0], 2);10];
        let mut j: usize = 0;
        while j < 10
            invariant
                j <= 10,
                forall|k: int|
                    0 <= k < j ==> (#[trigger] bases@[k]).spec_modulus() == prime(k)
                        && bases@[k].digits() == reduce_digits(blocks@[k]@, prime(k) as int),
            decreases 10 - j,
        {
            bases[j] = LabelModN::new(blocks[j], prime_at(j));
            j += 1;
        }
        proof {
            use_type_invariant(&delta);
            delta.lemma_valid();
            let views = digit_views(bases@);
            assert forall|k: int| 0 <= k < 10 implies digits_below(
                #[trigger] views[k],
                prime(k) as int,
            ) by {
                let d = views[k];
                assert forall|i: int| 0 <= i < 16 implies (#[trigger] d[i] as int) < prime(k) by {
                    lemma_mod_bound(blocks@[k]@[i] as int, prime(k) as int);
                }
            }
        }
        FullCrtValue { bases, delta }
    }

    /// Returns the offsets.
    pub fn delta(&self) -> (delta: CrtDelta)
        ensures
            delta.deltas() == self.deltas(),
            crt_offsets(delta.deltas()),
    {
        proof {
            use_type_invariant(&self.delta);
            self.delta.lemma_valid();
        }
        self.delta
    }

    /// Returns the active encoding of `x`: for each modulus the label of the
    /// residue of `x`.
    pub fn select(&self, x: u64) -> (active: ActiveCrtValue)
        ensures
            active.labels() == crt_select(self.bases(), self.deltas(), x as int),
            crt_shaped(active.labels()),
    {
        proof {
            use_type_invariant(self);
            use_type_invariant(&self.delta);
        }
        let scaled = cmul_all(&self.delta.deltas, x);
        let labels = add_all(&self.bases, &scaled);
        proof {
            assert forall|j: int| 0 <= j < 10 implies digit_views(labels@)[j] == crt_select(
                self.bases(),
                self.deltas(),
                x as int,
            )[j] by {
                let p = prime(j) as int;
                let base = self.bases()[j];
                let delta = self.deltas()[j];
                let got = digit_views(labels@)[j];
                let want = offset_digits(base, delta, x as int, p);
                assert(got == add_digits(base, mul_digits(delta, x as int, p), p));
                assert forall|i: int| 0 <= i < 16 implies got[i] == want[i] by {
                    let m = (x as int) * (delta[i] as int);
                    lemma_mod_bound(m, p);
                    lemma_add_mod_noop(base[i] as int, m, p);
                    lemma_small_mod(base[i] as nat, p as nat);
                }
                assert(got =~= want);
            }
            assert(digit_views(labels@) =~= crt_select(self.bases(), self.deltas(), x as int));
        }
        ActiveCrtValue { labels }
    }

    /// Returns what decodes the active encodings under this full encoding.
    pub fn decoding(&self) -> (decoding: CrtDecoding)
        ensures
            decoding.bases() == self.bases(),
            crt_shaped(decoding.bases()),
    {
        proof {
            use_type_invariant(self);
        }
        CrtDecoding { bases: self.bases }
    }

    /// Returns the full encoding of the sum: the bases are added, the
    /// offsets are those of `self`.
    pub fn add(&self, other: &FullCrtValue) -> (sum: FullCrtValue)
        ensures
            sum.bases() == crt_add(self.bases(), other.bases()),
            sum.deltas() == self.deltas(),
            crt_shaped(sum.bases()),
            crt_offsets(sum.deltas()),
    {
        proof {
            use_type_invariant(&self.delta);
            self.delta.lemma_valid();
        }
        let bases = add_all(&self.bases, &other.bases);
        FullCrtValue { bases, delta: self.delta }
    }

    /// Returns the full encoding of the product with the constant `c`.
    pub fn cmul(&self, c: u64) -> (product: FullCrtValue)
        ensures
            product.bases() == crt_cmul(self.bases(), c as int),
            product.deltas() == self.deltas(),
            crt_shaped(product.bases()),
            crt_offsets(product.deltas()),
    {
        proof {
            use_type_invariant(&self.delta);
            self.delta.lemma_valid();
        }
        let bases = cmul_all(&self.bases, c);
        FullCrtValue { bases, delta: self.delta }
    }
}

/// The byte form of a decoding: for each modulus the modulus in one byte,
/// then the 16 digits of the base.
pub open spec fn decoding_bytes(bases: Seq<Seq<u8>>) -> Seq<u8> {
    Seq::new(
        170,
        |k: int|
            if k % 17 == 0 {
                prime(k / 17) as u8
            } else {
                bases[k / 17][k % 17 - 1]
            },
    )
}

/// The bases that a byte form of a decoding holds.
pub open spec fn decoding_bases(bytes: Seq<u8>) -> Seq<Seq<u8>> {
    Seq::new(10, |j: int| bytes.subrange(17 * j + 1, 17 * j + 17))
}

/// Whether each modulus in `bytes` is the one of its place and each digit is
/// below its modulus.
pub open spec fn decoding_moduli_agree(bytes: Seq<u8>) -> bool {
    forall|j: int|
        0 <= j < 10 ==> #[trigger] bytes[17 * j] == prime(j) && digits_below(
            bytes.subrange(17 * j + 1, 17 * j + 17),
            prime(j) as int,
        )
}

/// The byte form of a decoding holds its bases, and moduli and digits in it agree.
pub proof fn lemma_decoding_of_bytes(bases: Seq<Seq<u8>>)
    requires
        crt_shaped(bases),
    ensures
        decoding_bytes(bases).len() == 170,
        decoding_moduli_agree(decoding_bytes(bases)),
        decoding_bases(decoding_bytes(bases)) == bases,
{
    let bytes = decoding_bytes(bases);
    let back = decoding_bases(bytes);
    assert forall|j: int| 0 <= j < 10 implies #[trigger] back[j] == bases[j] by {
        assert(digits_below(bases[j], prime(j) as int));
        assert forall|i: int| 0 <= i < 16 implies back[j][i] == bases[j][i] by {
            let k = 17 * j + 1 + i;
            assert(k / 17 == j && k % 17 == i + 1);
        }
        assert(back[j] =~= bases[j]);
    }
    assert(back =~= bases);
    assert forall|j: int| 0 <= j < 10 implies #[trigger] bytes[17 * j] == prime(j)
        && digits_below(bytes.subrange(17 * j + 1, 17 * j + 17), prime(j) as int) by {
        assert((17 * j) / 17 == j && (17 * j) % 17 == 0);
        assert(back[j] == bases[j]);
        assert(digits_below(bases[j], prime(j) as int));
    }
}

/// Reads the 16 digits that start at the byte `start`, if all are below `p`.
fn read_digits(bytes: &[u8], start: usize, p: u8) -> (out: Option<LabelModN>)
    requires
        start + 16 <= bytes@.len(),
        p > 0,
    ensures
        out is Some <==> digits_below(bytes@.subrange(start as int, start + 16), p as int),
        out is Some ==> out->Some_0.digits() == bytes@.subrange(start as int, start + 16)
            && out->Some_0.spec_modulus() == p,
{
    let total: usize = bytes.len();
    let ghost want = bytes@.subrange(start as int, start + 16);
    let mut digits: [u8; 16] = [0u8;16];
    let mut i: usize = 0;
    while i < 16
        invariant
            i <= 16,
            start + 16 <= total,
            total == bytes@.len(),
            want == bytes@.subrange(start as int, start + 16),
            forall|k: int| 0 <= k < i ==> digits@[k] == want[k] && (#[trigger] want[k] as int) < p,
        decreases 16 - i,
    {
        let digit = bytes[start + i];
        assert(digit == want[i as int]);
        if digit >= p {
            return None;
        }
        digits[i] = digit;
        i += 1;
    }
    assert(digits@ =~= want);
    let label = LabelModN::new(Block::new(digits), p);
    proof {
        assert forall|k: int| 0 <= k < 16 implies reduce_digits(digits@, p as int)[k]
            == digits@[k] by {
            lemma_small_mod(digits@[k] as nat, p as nat);
        }
        assert(reduce_digits(digits@, p as int) =~= digits@);
    }
    Some(label)
}

impl CrtDecoding {
    /// Returns the byte form of the decoding.
    pub fn to_bytes(&self) -> (out: Vec<u8>)
        ensures
            out@ == decoding_bytes(self.bases()),
            out@.len() == 170,
    {
        let ghost want = decoding_bytes(self.bases());
        let mut out: Vec<u8> = Vec::new();
        let mut j: usize = 0;
        while j < 10
            invariant
                j <= 10,
                want == decoding_bytes(self.bases()),
                out@.len() == 17 * j,
                forall|k: int| 0 <= k < out@.len() ==> out@[k] == want[k],
            decreases 10 - j,
        {
            let base: LabelModN = self.bases[j];
            let digits = base.block().to_bytes();
            assert((17 * j) as int % 17 == 0 && (17 * j) as int / 17 == j);
            out.push(prime_at(j));
            let mut i: usize = 0;
            while i < 16
                invariant
                    i <= 16,
                    j < 10,
                    digits@ == self.bases()[j as int],
                    want == decoding_bytes(self.bases()),
                    out@.len() == 17 * j + 1 + i,
                    forall|k: int| 0 <= k < out@.len() ==> out@[k] == want[k],
                decreases 16 - i,
            {
                proof {
                    let k = (17 * j + 1 + i) as int;
                    assert(k % 17 == i + 1 && k / 17 == j);
                }
                out.push(digits[i]);
                i += 1;
            }
            j += 1;
        }
        assert(out@ =~= want);
        out
    }

    /// Reads a decoding from its byte form.
    ///
    /// Fails with `InvalidLength` unless there are 170 bytes, and with
    /// `ModulusMismatch` where a modulus is not the one of its place or a
    /// digit is not below its modulus.
    pub fn from_bytes(bytes: &[u8]) -> (res: Result<CrtDecoding, DecodeError>)
        ensures
            res is Ok <==> bytes@.len() == 170 && decoding_moduli_agree(bytes@),
            res is Err ==> res->Err_0 == (if bytes@.len() != 170 {
                DecodeError::InvalidLength
            } else {
                DecodeError::ModulusMismatch
            }),
            res is Ok ==> res->Ok_0.bases() == decoding_bases(bytes@) && decoding_bytes(
                res->Ok_0.bases(),
            ) == bytes@,
    {
        if bytes.len() != 170 {
            return Err(DecodeError::InvalidLength);
        }
        let mut bases: [LabelModN; 10] = [LabelModN::new(Block::new([0u8;16]), 2);10];
        let mut j: usize = 0;
        while j < 10
            invariant
                j <= 10,
                bytes@.len() == 170,
                forall|k: int|
                    0 <= k < j ==> (#[trigger] bases@[k]).spec_modulus() == prime(k)
                        && bases@[k].digits() == bytes@.subrange(17 * k + 1, 17 * k + 17)
                        && bytes@[17 * k] == prime(k) && digits_below(
                        bytes@.subrange(17 * k + 1, 17 * k + 17),
                        prime(k) as int,
                    ),
            decreases 10 - j,
        {
            let p = prime_at(j);
            if bytes[17 * j] != p {
                return Err(DecodeError::ModulusMismatch);
            }
            match read_digits(bytes, 17 * j + 1, p) {
                None => {
                    return Err(DecodeError::ModulusMismatch);
                },
                Some(label) => {
                    bases[j] = label;
                },
            }
            j += 1;
        }
        proof {
            assert(digit_views(bases@) =~= decoding_bases(bytes@));
            let out = decoding_bytes(decoding_bases(bytes@));
            assert forall|k: int| 0 <= k < 170 implies out[k] == bytes@[k] by {
                let q = k / 17;
                assert(bases@[q].spec_modulus() == prime(q));
                if k % 17 == 0 {
                    assert(bytes@[17 * q] == prime(q));
                }
            }
            assert(out =~= bytes@);
        }
        Ok(CrtDecoding { bases })
    }

    /// Whether base `j` is modulo `prime(j)`, as in every value.
    #[verifier::type_invariant]
    pub closed spec fn valid(self) -> bool {
        moduli_in_order(self.bases@) && crt_shaped(digit_views(self.bases@))
    }

    /// The digits of the label of the residue 0, for each modulus.
    pub closed spec fn bases(&self) -> Seq<Seq<u8>> {
        digit_views(self.bases@)
    }

}

impl ActiveCrtValue {
    /// Whether label `j` is modulo `prime(j)`, as in every value.
    #[verifier::type_invariant]
    pub closed spec fn valid(self) -> bool {
        moduli_in_order(self.labels@) && crt_shaped(digit_views(self.labels@))
    }

    /// The digits of the label of each modulus.
    pub closed spec fn labels(&self) -> Seq<Seq<u8>> {
        digit_views(self.labels@)
    }

    /// Returns the active encoding of the sum.
    pub fn add(&self, other: &ActiveCrtValue) -> (sum: ActiveCrtValue)
        ensures
            sum.labels() == crt_add(self.labels(), other.labels()),
            crt_shaped(sum.labels()),
    {
        ActiveCrtValue { labels: add_all(&self.labels, &other.labels) }
    }

    /// Returns the active encoding of the product with the constant `c`.
    pub fn cmul(&self, c: u64) -> (product: ActiveCrtValue)
        ensures
            product.labels() == crt_cmul(self.labels(), c as int),
            crt_shaped(product.labels()),
    {
        ActiveCrtValue { labels: cmul_all(&self.labels, c) }
    }

    /// Returns the residue that each label stands for under `decoding`.
    pub fn residues(&self, decoding: &CrtDecoding) -> (out: [u8; 10])
        ensures
            out@.len() == 10,
            forall|j: int|
                0 <= j < 10 ==> #[trigger] out@[j] as nat == crt_residues(
                    self.labels(),
                    decoding.bases(),
                )[j] && out@[j] < prime(j),
    {
        proof {
            use_type_invariant(self);
            use_type_invariant(decoding);
        }
        let mut out: [u8; 10] = [0u8;10];
        let mut j: usize = 0;
        while j < 10
            invariant
                j <= 10,
                self.valid(),
                decoding.valid(),
                forall|k: int|
                    0 <= k < j ==> #[trigger] out@[k] as nat == crt_residues(
                        self.labels(),
                        decoding.bases(),
                    )[k] && out@[k] < prime(k),
            decreases 10 - j,
        {
            let p = prime_at(j);
            let label: LabelModN = self.labels[j];
            let base: LabelModN = decoding.bases[j];
            let a = label.pointer_digit();
            let b = base.pointer_digit();
            proof {
                assert(label.digits() == self.labels()[j as int]);
                assert(base.digits() == decoding.bases()[j as int]);
                assert(digits_below(digit_views(decoding.bases@)[j as int], prime(j as int) as int));
                lemma_mod_bound(a as int + p as int - b as int, p as int);
            }
            out[j] = (a as u16 + p as u16 - b as u16) as u8 % p;
            j += 1;
        }
        out
    }

    /// Returns the number below the product of the moduli that the labels
    /// stand for under `decoding`.
    pub fn decode(&self, decoding: &CrtDecoding) -> (v: u64)
        ensures
            v == crt_value(crt_residues(self.labels(), decoding.bases())),
            v < modulus(),
    {
        let residues = self.residues(decoding);
        let v = reconstruct(&residues);
        proof {
            let wanted = crt_residues(self.labels(), decoding.bases());
            assert(has_residues(v as nat, wanted)) by {
                assert forall|j: int| 0 <= j < 10 implies (v as nat) % prime(j)
                    == #[trigger] wanted[j] by {
                    assert(residues@[j] as nat == wanted[j]);
                }
            }
            lemma_crt_value_unique(v as nat, wanted);
        }
        v
    }

    /// Returns the 32-bit number that the labels stand for under `decoding`.
    ///
    /// Fails with `OutOfRange` where the number is too large for 32 bits.
    pub fn decode_u32(&self, decoding: &CrtDecoding) -> (res: Result<u32, DecodeError>)
        ensures
            res is Ok <==> crt_value(crt_residues(self.labels(), decoding.bases())) <= u32::MAX,
            res is Ok ==> res->Ok_0 == crt_value(crt_residues(self.labels(), decoding.bases())),
            res is Err ==> res->Err_0 == DecodeError::OutOfRange,
    {
        let v = self.decode(decoding);
        if v > 0xffff_ffff {
            Err(DecodeError::OutOfRange)
        } else {
            Ok(v as u32)
        }
    }
}

/// The first digit of a sum of two labels, less the first digit of the sum
/// of their bases, is the sum of the residues.
proof fn lemma_sum_residue(a: int, b: int, x: int, y: int, p: int)
    requires
        p > 0,
    ensures
        ((((a + x) % p + (b + y) % p) % p) + p - ((a + b) % p)) % p == (x + y) % p,
{
    lemma_add_mod_noop(a + x, b + y, p);
    let s = (a + x + b + y) % p;
    let t = (a + b) % p;
    lemma_sub_mod_noop(a + x + b + y, a + b, p);
    lemma_mod_multiples_vanish(1, s - t, p);
}

/// The first digit of a multiple of a label, less the first digit of the
/// multiple of its base, is the multiple of the residue.
proof fn lemma_product_residue(a: int, x: int, c: int, p: int)
    requires
        p > 0,
    ensures
        (((c * ((a + x) % p)) % p) + p - ((c * a) % p)) % p == (c * x) % p,
{
    lemma_mul_mod_noop_general(c, a + x, p);
    let s = (c * (a + x)) % p;
    let t = (c * a) % p;
    lemma_sub_mod_noop(c * (a + x), c * a, p);
    assert(c * (a + x) - c * a == c * x) by (nonlinear_arith);
    lemma_mod_multiples_vanish(1, s - t, p);
}

/// The first digit of the label of a residue, where the first digit of the offset is 1.
proof fn lemma_first_digit(base: Seq<u8>, delta: Seq<u8>, x: int, p: int)
    requires
        0 < p < 256,
        delta[0] == 1,
    ensures
        offset_digits(base, delta, x, p)[0] as int == (base[0] as int + x) % p,
{
    lemma_mod_bound(base[0] as int + x, p);
    assert(x * 1 == x);
}

/// Decoding the active encoding of a number gives the number back, modulo
/// the product of the moduli.
pub proof fn lemma_crt_round_trip(bases: Seq<Seq<u8>>, deltas: Seq<Seq<u8>>, x: int)
    requires
        crt_shaped(bases),
        crt_offsets(deltas),
    ensures
        crt_value(crt_residues(crt_select(bases, deltas, x), bases)) == x % (modulus() as int),
{
    lemma_products();
    lemma_mod_bound(x, modulus() as int);
    let v = (x % (modulus() as int)) as nat;
    let residues = crt_residues(crt_select(bases, deltas, x), bases);
    assert forall|j: int| 0 <= j < 10 implies v % prime(j) == #[trigger] residues[j] by {
        let p = prime(j) as int;
        let a = bases[j][0] as int;
        assert(digits_below(bases[j], p));
        assert(deltas[j][0] == 1);
        lemma_first_digit(bases[j], deltas[j], x, p);
        lemma_small_mod(a as nat, p as nat);
        lemma_sub_mod_noop(a + x, a, p);
        lemma_mod_multiples_vanish(1, (a + x) % p - a, p);
        lemma_mod_bound(x, p);
        lemma_residue_of_reduced(x, j);
    }
    lemma_crt_value_unique(v, residues);
}

/// Adding the active encodings of two numbers under the same offsets gives
/// an encoding that decodes, under the sum of the bases, to the sum of the
/// numbers modulo the product of the moduli.
pub proof fn lemma_crt_add(
    bases_x: Seq<Seq<u8>>,
    bases_y: Seq<Seq<u8>>,
    deltas: Seq<Seq<u8>>,
    x: int,
    y: int,
)
    requires
        crt_shaped(bases_x),
        crt_shaped(bases_y),
        crt_offsets(deltas),
    ensures
        crt_value(
            crt_residues(
                crt_add(crt_select(bases_x, deltas, x), crt_select(bases_y, deltas, y)),
                crt_add(bases_x, bases_y),
            ),
        ) == (x + y) % (modulus() as int),
{
    lemma_products();
    lemma_mod_bound(x + y, modulus() as int);
    let v = ((x + y) % (modulus() as int)) as nat;
    let active = crt_add(crt_select(bases_x, deltas, x), crt_select(bases_y, deltas, y));
    let residues = crt_residues(active, crt_add(bases_x, bases_y));
    assert forall|j: int| 0 <= j < 10 implies v % prime(j) == #[trigger] residues[j] by {
        let p = prime(j) as int;
        let a = bases_x[j][0] as int;
        let b = bases_y[j][0] as int;
        assert(digits_below(bases_x[j], p));
        assert(digits_below(bases_y[j], p));
        assert(deltas[j][0] == 1);
        lemma_first_digit(bases_x[j], deltas[j], x, p);
        lemma_first_digit(bases_y[j], deltas[j], y, p);
        lemma_mod_bound((a + x) % p + (b + y) % p, p);
        lemma_mod_bound(a + b, p);
        lemma_sum_residue(a, b, x, y, p);
        lemma_mod_bound(x + y, p);
        lemma_residue_of_reduced(x + y, j);
    }
    lemma_crt_value_unique(v, residues);
}

/// Multiplying the active encoding of a number by a constant gives an
/// encoding that decodes, under the bases multiplied by the constant, to the
/// product modulo the product of the moduli.
pub proof fn lemma_crt_cmul(bases: Seq<Seq<u8>>, deltas: Seq<Seq<u8>>, x: int, c: int)
    requires
        crt_shaped(bases),
        crt_offsets(deltas),
    ensures
        crt_value(
            crt_residues(crt_cmul(crt_select(bases, deltas, x), c), crt_cmul(bases, c)),
        ) == (c * x) % (modulus() as int),
{
    lemma_products();
    lemma_mod_bound(c * x, modulus() as int);
    let v = ((c * x) % (modulus() as int)) as nat;
    let active = crt_cmul(crt_select(bases, deltas, x), c);
    let residues = crt_residues(active, crt_cmul(bases, c));
    assert forall|j: int| 0 <= j < 10 implies v % prime(j) == #[trigger] residues[j] by {
        let p = prime(j) as int;
        let a = bases[j][0] as int;
        assert(digits_below(bases[j], p));
        assert(deltas[j][0] == 1);
        lemma_first_digit(bases[j], deltas[j], x, p);
        lemma_mod_bound(c * ((a + x) % p), p);
        lemma_mod_bound(c * a, p);
        lemma_product_residue(a, x, c, p);
        lemma_mod_bound(c * x, p);
        lemma_residue_of_reduced(c * x, j);
    }
    lemma_crt_value_unique(v, residues);
}

} // verus!
