//! Labels for arithmetic modulo small primes.
//!
//! A label modulo `p` is a block whose 16 bytes are digits below `p`; labels
//! are added digit by digit modulo `p`. A residue `r` is encoded by the label
//! `base + r * delta`, and the first digit of every offset is 1, so that the
//! first digit of a label tells its residue once the base is known.

use crate::block::Block;
use vstd::arithmetic::div_mod::{
    lemma_add_mod_noop, lemma_mod_bound, lemma_mod_multiples_vanish, lemma_mod_twice,
    lemma_mul_mod_noop_general, lemma_small_mod, lemma_sub_mod_noop,
};
use vstd::prelude::*;

verus! {

/// Digit by digit, `a` reduced modulo `p`.
pub open spec fn reduce_digits(a: Seq<u8>, p: int) -> Seq<u8> {
    Seq::new(16, |i: int| ((a[i] as int) % p) as u8)
}

/// Digit by digit, the sum of `a` and `b` modulo `p`.
pub open spec fn add_digits(a: Seq<u8>, b: Seq<u8>, p: int) -> Seq<u8> {
    Seq::new(16, |i: int| ((a[i] as int + b[i] as int) % p) as u8)
}

/// Digit by digit, `c` times `a` modulo `p`.
pub open spec fn mul_digits(a: Seq<u8>, c: int, p: int) -> Seq<u8> {
    Seq::new(16, |i: int| ((c * (a[i] as int)) % p) as u8)
}

/// Digit by digit, the negative of `a` modulo `p`.
pub open spec fn neg_digits(a: Seq<u8>, p: int) -> Seq<u8> {
    Seq::new(16, |i: int| ((p - (a[i] as int) % p) % p) as u8)
}

/// The label that encodes the residue `x` modulo `p`: `base + x * delta`.
pub open spec fn offset_digits(base: Seq<u8>, delta: Seq<u8>, x: int, p: int) -> Seq<u8> {
    Seq::new(16, |i: int| ((base[i] as int + x * (delta[i] as int)) % p) as u8)
}

/// Whether `a` holds 16 digits below `p`.
pub open spec fn digits_below(a: Seq<u8>, p: int) -> bool {
    a.len() == 16 && forall|i: int| 0 <= i < 16 ==> (#[trigger] a[i] as int) < p
}

/// A label for arithmetic modulo a small number: 16 digits below the modulus.
#[derive(Debug, Clone, Copy)]
pub struct LabelModN {
    block: Block,
    modulus: u8,
}

impl LabelModN {
    /// Whether the modulus is positive and every digit is below it, as in every label.
    #[verifier::type_invariant]
    pub closed spec fn reduced(self) -> bool {
        self.modulus > 0 && digits_below(self.block@, self.modulus as int)
    }

    /// The digits of the label.
    pub closed spec fn digits(&self) -> Seq<u8> {
        self.block@
    }

    /// The modulus of the label.
    pub closed spec fn spec_modulus(&self) -> int {
        self.modulus as int
    }

    /// Creates the label modulo `modulus` whose digits are the bytes of
    /// `block`, each reduced modulo `modulus`.
    pub fn new(block: Block, modulus: u8) -> (label: LabelModN)
        requires
            modulus > 0,
        ensures
            label.digits() == reduce_digits(block@, modulus as int),
            label.spec_modulus() == modulus,
    {
        let bytes = block.to_bytes();
        let mut digits: [u8; 16] = [0u8;16];
        let mut i: usize = 0;
        while i < 16
            invariant
                i <= 16,
                modulus > 0,
                forall|j: int| 0 <= j < i ==> digits@[j] as int == (bytes@[j] as int) % (modulus as int),
            decreases 16 - i,
        {
            digits[i] = bytes[i] % modulus;
            i += 1;
        }
        assert(digits@ =~= reduce_digits(block@, modulus as int));
        LabelModN { block: Block::new(digits), modulus }
    }

    /// Returns the block that holds the digits.
    pub fn block(&self) -> (block: Block)
        ensures
            block@ == self.digits(),
            digits_below(block@, self.spec_modulus()),
    {
        proof {
            use_type_invariant(self);
        }
        self.block
    }

    /// Returns the modulus.
    pub fn modulus(&self) -> (p: u8)
        ensures
            p == self.spec_modulus(),
            p > 0,
    {
        proof {
            use_type_invariant(self);
        }
        self.modulus
    }

    /// Returns the first digit.
    pub fn pointer_digit(&self) -> (digit: u8)
        ensures
            digit == self.digits()[0],
            digit < self.spec_modulus(),
    {
        proof {
            use_type_invariant(self);
        }
        self.block.to_bytes()[0]
    }

    /// Returns the label with the first digit replaced by 1 modulo the modulus.
    pub fn with_pointer_one(&self) -> (label: LabelModN)
        ensures
            label.digits() == self.digits().update(0, (1int % self.spec_modulus()) as u8),
            label.spec_modulus() == self.spec_modulus(),
    {
        proof {
            use_type_invariant(self);
        }
        let mut digits = self.block.to_bytes();
        digits[0] = 1 % self.modulus;
        LabelModN { block: Block::new(digits), modulus: self.modulus }
    }
}

impl PartialEq for LabelModN {
    fn eq(&self, other: &LabelModN) -> (same: bool) {
        self.modulus == other.modulus && self.block == other.block
    }
}

impl vstd::std_specs::cmp::PartialEqSpecImpl for LabelModN {
    open spec fn obeys_eq_spec() -> bool {
        true
    }

    open spec fn eq_spec(&self, other: &LabelModN) -> bool {
        self.spec_modulus() == other.spec_modulus() && self.digits() == other.digits()
    }
}

/// Returns the sum of two labels modulo `p`.
pub fn add_label(a: &LabelModN, b: &LabelModN, p: u8) -> (out: LabelModN)
    requires
        p > 0,
    ensures
        out.digits() == add_digits(a.digits(), b.digits(), p as int),
        out.spec_modulus() == p,
{
    let x = a.block.to_bytes();
    let y = b.block.to_bytes();
    let mut digits: [u8; 16] = [0u8;16];
    let mut i: usize = 0;
    while i < 16
        invariant
            i <= 16,
            p > 0,
            forall|j: int| 0 <= j < i ==> digits@[j] as int == (x@[j] as int + y@[j] as int) % (p as int),
        decreases 16 - i,
    {
        let sum: u16 = x[i] as u16 + y[i] as u16;
        digits[i] = (sum % (p as u16)) as u8;
        i += 1;
    }
    assert(digits@ =~= add_digits(a.digits(), b.digits(), p as int));
    LabelModN { block: Block::new(digits), modulus: p }
}

/// Returns `c` times the label modulo `p`.
pub fn cmul_label(a: &LabelModN, c: u64, p: u8) -> (out: LabelModN)
    requires
        p > 0,
    ensures
        out.digits() == mul_digits(a.digits(), c as int, p as int),
        out.spec_modulus() == p,
{
    let x = a.block.to_bytes();
    let factor: u64 = c % (p as u64);
    let mut digits: [u8; 16] = [0u8;16];
    let mut i: usize = 0;
    while i < 16
        invariant
            i <= 16,
            p > 0,
            factor == c % (p as u64),
            forall|j: int| 0 <= j < i ==> digits@[j] as int == ((c as int) * (x@[j] as int)) % (p as int),
        decreases 16 - i,
    {
        assert(factor * x[i as int] <= 255 * 255) by (nonlinear_arith)
            requires
                0 <= factor <= 255,
                0 <= x[i as int] <= 255,
        ;
        proof {
            lemma_mul_mod_noop_general(c as int, x[i as int] as int, p as int);
        }
        let product: u64 = factor * (x[i] as u64);
        digits[i] = (product % (p as u64)) as u8;
        i += 1;
    }
    assert(digits@ =~= mul_digits(a.digits(), c as int, p as int));
    LabelModN { block: Block::new(digits), modulus: p }
}

/// Returns the negative of the label modulo `p`.
pub fn negate_label(a: &LabelModN, p: u8) -> (out: LabelModN)
    requires
        p > 0,
    ensures
        out.digits() == neg_digits(a.digits(), p as int),
        out.spec_modulus() == p,
{
    let x = a.block.to_bytes();
    let mut digits: [u8; 16] = [0u8;16];
    let mut i: usize = 0;
    while i < 16
        invariant
            i <= 16,
            p > 0,
            forall|j: int|
                0 <= j < i ==> digits@[j] as int == ((p as int) - (x@[j] as int) % (p as int)) % (
                p as int),
        decreases 16 - i,
    {
        digits[i] = (p - x[i] % p) % p;
        i += 1;
    }
    assert(digits@ =~= neg_digits(a.digits(), p as int));
    LabelModN { block: Block::new(digits), modulus: p }
}

/// Reducing one summand first does not change a sum modulo `p`.
proof fn lemma_mod_add_left(u: int, v: int, p: int)
    requires
        p > 0,
    ensures
        ((u % p) + v) % p == (u + v) % p,
{
    lemma_add_mod_noop(u, v, p);
    lemma_add_mod_noop(u % p, v, p);
    lemma_mod_twice(u, p);
}

/// The sum of the labels of the residues `x` and `y`, under the bases
/// `base_x` and `base_y` and one offset, is the label of the residue
/// `(x + y) mod p` under the sum of the bases.
pub proof fn lemma_add_label_encodes(
    base_x: Seq<u8>,
    base_y: Seq<u8>,
    delta: Seq<u8>,
    x: int,
    y: int,
    p: int,
)
    requires
        0 < p < 256,
    ensures
        add_digits(offset_digits(base_x, delta, x, p), offset_digits(base_y, delta, y, p), p)
            == offset_digits(add_digits(base_x, base_y, p), delta, (x + y) % p, p),
{
    let lhs = add_digits(offset_digits(base_x, delta, x, p), offset_digits(base_y, delta, y, p), p);
    let rhs = offset_digits(add_digits(base_x, base_y, p), delta, (x + y) % p, p);
    assert forall|i: int| 0 <= i < 16 implies lhs[i] == rhs[i] by {
        let a = base_x[i] as int;
        let b = base_y[i] as int;
        let d = delta[i] as int;
        lemma_mod_bound(a + x * d, p);
        lemma_mod_bound(b + y * d, p);
        lemma_mod_bound(a + b, p);
        lemma_add_mod_noop(a + x * d, b + y * d, p);
        assert((a + x * d) + (b + y * d) == (a + b) + (x + y) * d) by (nonlinear_arith);
        lemma_mod_add_left(a + b, ((x + y) % p) * d, p);
        lemma_mul_mod_noop_general(x + y, d, p);
        lemma_add_mod_noop(a + b, ((x + y) % p) * d, p);
        lemma_add_mod_noop(a + b, (x + y) * d, p);
    }
    assert(lhs =~= rhs);
}

/// `c` times the label of the residue `x` is the label of the residue
/// `(c * x) mod p` under `c` times the base.
pub proof fn lemma_cmul_label_encodes(base: Seq<u8>, delta: Seq<u8>, x: int, c: int, p: int)
    requires
        0 < p < 256,
    ensures
        mul_digits(offset_digits(base, delta, x, p), c, p) == offset_digits(
            mul_digits(base, c, p),
            delta,
            (c * x) % p,
            p,
        ),
{
    let lhs = mul_digits(offset_digits(base, delta, x, p), c, p);
    let rhs = offset_digits(mul_digits(base, c, p), delta, (c * x) % p, p);
    assert forall|i: int| 0 <= i < 16 implies lhs[i] == rhs[i] by {
        let a = base[i] as int;
        let d = delta[i] as int;
        lemma_mod_bound(a + x * d, p);
        lemma_mod_bound(c * a, p);
        lemma_mul_mod_noop_general(c, a + x * d, p);
        assert(c * (a + x * d) == c * a + (c * x) * d) by (nonlinear_arith);
        lemma_mod_add_left(c * a, ((c * x) % p) * d, p);
        lemma_mul_mod_noop_general(c * x, d, p);
        lemma_add_mod_noop(c * a, ((c * x) % p) * d, p);
        lemma_add_mod_noop(c * a, (c * x) * d, p);
    }
    assert(lhs =~= rhs);
}

/// The negative of the label of the residue `x` is the label of the residue
/// `(-x) mod p` under the negative of the base.
pub proof fn lemma_negate_label_encodes(base: Seq<u8>, delta: Seq<u8>, x: int, p: int)
    requires
        0 < p < 256,
    ensures
        neg_digits(offset_digits(base, delta, x, p), p) == offset_digits(
            neg_digits(base, p),
            delta,
            (-x) % p,
            p,
        ),
{
    let lhs = neg_digits(offset_digits(base, delta, x, p), p);
    let rhs = offset_digits(neg_digits(base, p), delta, (-x) % p, p);
    assert forall|i: int| 0 <= i < 16 implies lhs[i] == rhs[i] by {
        let a = base[i] as int;
        let d = delta[i] as int;
        let s = (a + x * d) % p;
        lemma_mod_bound(a + x * d, p);
        lemma_mod_bound(a, p);
        lemma_mod_bound(p - s % p, p);
        lemma_mod_bound(p - a % p, p);
        lemma_mod_twice(a + x * d, p);
        // the left side is -(a + x * d) modulo p
        lemma_mod_multiples_vanish(1, -s, p);
        lemma_sub_mod_noop(0, a + x * d, p);
        lemma_small_mod(0, p as nat);
        assert((0 - s) % p == (0 - (a + x * d)) % p);
        // and so is the right side
        lemma_mod_multiples_vanish(1, -(a % p), p);
        lemma_sub_mod_noop(0, a, p);
        assert((p - a % p) % p == (0 - a) % p);
        lemma_mod_add_left(0 - a, ((-x) % p) * d, p);
        lemma_mul_mod_noop_general(-x, d, p);
        lemma_add_mod_noop(0 - a, ((-x) % p) * d, p);
        lemma_add_mod_noop(0 - a, (-x) * d, p);
        assert((0 - a) + (-x) * d == 0 - (a + x * d)) by (nonlinear_arith);
    }
    assert(lhs =~= rhs);
}

} // verus!
