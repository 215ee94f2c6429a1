//! The moduli of the residue number system, and how a number is put
//! together again from its residues.

use vstd::arithmetic::div_mod::{
    lemma_fundamental_div_mod, lemma_mod_multiples_vanish, lemma_small_mod,
};
use vstd::prelude::*;

verus! {

/// The modulus with the index `j`: the first ten primes, in order.
pub open spec fn prime(j: int) -> nat {
    if j == 0 {
        2
    } else if j == 1 {
        3
    } else if j == 2 {
        5
    } else if j == 3 {
        7
    } else if j == 4 {
        11
    } else if j == 5 {
        13
    } else if j == 6 {
        17
    } else if j == 7 {
        19
    } else if j == 8 {
        23
    } else {
        29
    }
}

/// The product of the first `j` moduli.
pub open spec fn product_below(j: nat) -> nat
    decreases j,
{
    if j == 0 {
        1
    } else {
        product_below((j - 1) as nat) * prime(j - 1)
    }
}

/// The product of all moduli: the numbers below it are told apart by their residues.
pub open spec fn modulus() -> nat {
    product_below(10)
}

/// Whether `v` has the residue `residues[j]` modulo each modulus `prime(j)`.
pub open spec fn has_residues(v: nat, residues: Seq<nat>) -> bool {
    forall|j: int| 0 <= j < 10 ==> v % prime(j) == #[trigger] residues[j]
}

/// The number below the product of the moduli that has the residues `residues`.
pub open spec fn crt_value(residues: Seq<nat>) -> nat {
    choose|v: nat| v < modulus() && has_residues(v, residues)
}

/// The products of the first moduli, written out.
pub proof fn lemma_products()
    ensures
        product_below(0) == 1,
        product_below(1) == 2,
        product_below(2) == 6,
        product_below(3) == 30,
        product_below(4) == 210,
        product_below(5) == 2310,
        product_below(6) == 30030,
        product_below(7) == 510510,
        product_below(8) == 9699690,
        product_below(9) == 223092870,
        product_below(10) == 6469693230,
        modulus() == 6469693230,
{
    reveal_with_fuel(product_below, 3);
    assert(product_below(2) == 6);
    assert(product_below(4) == product_below(2) * 5 * 7);
    assert(product_below(6) == product_below(4) * 11 * 13);
    assert(product_below(7) == product_below(6) * 17);
    assert(product_below(8) == product_below(7) * 19);
    assert(product_below(9) == product_below(8) * 23);
    assert(product_below(10) == product_below(9) * 29);
}

/// Returns the modulus with the index `j`.
pub fn prime_at(j: usize) -> (p: u8)
    requires
        j < 10,
    ensures
        p == prime(j as int),
        2 <= p <= 29,
{
    if j == 0 {
        2
    } else if j == 1 {
        3
    } else if j == 2 {
        5
    } else if j == 3 {
        7
    } else if j == 4 {
        11
    } else if j == 5 {
        13
    } else if j == 6 {
        17
    } else if j == 7 {
        19
    } else if j == 8 {
        23
    } else {
        29
    }
}

/// Returns the product of the first `j` moduli.
fn product_at(j: usize) -> (m: u64)
    requires
        j <= 10,
    ensures
        m == product_below(j as nat),
        1 <= m <= 6469693230,
{
    proof {
        lemma_products();
    }
    if j == 0 {
        1
    } else if j == 1 {
        2
    } else if j == 2 {
        6
    } else if j == 3 {
        30
    } else if j == 4 {
        210
    } else if j == 5 {
        2310
    } else if j == 6 {
        30030
    } else if j == 7 {
        510510
    } else if j == 8 {
        9699690
    } else if j == 9 {
        223092870
    } else {
        6469693230
    }
}

/// The inverse of the product of the first `j` moduli, modulo the modulus `j`.
pub open spec fn inverse(j: int) -> nat {
    if j == 0 {
        1
    } else if j == 1 {
        2
    } else if j == 2 {
        1
    } else if j == 3 {
        4
    } else if j == 4 {
        1
    } else if j == 5 {
        3
    } else if j == 6 {
        15
    } else if j == 7 {
        18
    } else if j == 8 {
        20
    } else {
        12
    }
}

/// Each modulus is coprime to the product of those before it: that product
/// has an inverse modulo it.
pub proof fn lemma_inverse(j: int)
    requires
        0 <= j < 10,
    ensures
        (inverse(j) * product_below(j as nat)) % prime(j) == 1,
{
    lemma_products();
}

/// Returns the inverse of the product of the first `j` moduli, modulo the modulus `j`.
fn inverse_at(j: usize) -> (inv: u8)
    requires
        j < 10,
    ensures
        inv == inverse(j as int),
        inv <= 20,
{
    if j == 0 {
        1
    } else if j == 1 {
        2
    } else if j == 2 {
        1
    } else if j == 3 {
        4
    } else if j == 4 {
        1
    } else if j == 5 {
        3
    } else if j == 6 {
        15
    } else if j == 7 {
        18
    } else if j == 8 {
        20
    } else {
        12
    }
}

/// Each modulus divides every product that it is a factor of.
pub proof fn lemma_prime_divides(k: int, j: nat)
    requires
        0 <= k < j <= 10,
    ensures
        product_below(j) % prime(k) == 0,
{
    lemma_products();
}

/// Two numbers that agree modulo `m` and modulo `p` agree modulo `m * p`,
/// where `m` has an inverse modulo `p`.
proof fn lemma_agree_modulo_product(v: int, w: int, m: int, p: int, inv: int)
    requires
        m > 0,
        p > 0,
        v % m == w % m,
        v % p == w % p,
        (inv * m) % p == 1,
    ensures
        m * p > 0,
        v % (m * p) == w % (m * p),
{
    let d = v - w;
    let q1 = v / m - w / m;
    let q2 = v / p - w / p;
    let s = (inv * m) / p;
    lemma_fundamental_div_mod(v, m);
    lemma_fundamental_div_mod(w, m);
    lemma_fundamental_div_mod(v, p);
    lemma_fundamental_div_mod(w, p);
    lemma_fundamental_div_mod(inv * m, p);
    assert(d == m * q1) by (nonlinear_arith)
        requires
            d == v - w,
            v == m * (v / m) + v % m,
            w == m * (w / m) + w % m,
            v % m == w % m,
            q1 == v / m - w / m,
    ;
    assert(d == p * q2) by (nonlinear_arith)
        requires
            d == v - w,
            v == p * (v / p) + v % p,
            w == p * (w / p) + w % p,
            v % p == w % p,
            q2 == v / p - w / p,
    ;
    assert(inv * m == p * s + 1);
    let u = inv * q2 - s * q1;
    assert(q1 == p * u) by (nonlinear_arith)
        requires
            d == m * q1,
            d == p * q2,
            inv * m == p * s + 1,
            u == inv * q2 - s * q1,
    {
        assert(inv * d == inv * (m * q1));
        assert(inv * (m * q1) == (inv * m) * q1);
        assert((inv * m) * q1 == (p * s + 1) * q1);
        assert((p * s + 1) * q1 == p * s * q1 + q1);
        assert(inv * d == inv * (p * q2));
        assert(inv * (p * q2) == p * (inv * q2));
        assert(p * u == p * (inv * q2) - p * (s * q1));
    }
    assert(v == (m * p) * u + w) by (nonlinear_arith)
        requires
            d == v - w,
            d == m * q1,
            q1 == p * u,
    ;
    assert(m * p > 0) by (nonlinear_arith)
        requires
            m > 0,
            p > 0,
    ;
    lemma_mod_multiples_vanish(u, w, m * p);
}

/// Two numbers with the same residues agree modulo the product of the first `j` moduli.
proof fn lemma_agree_below(v: nat, w: nat, j: nat)
    requires
        j <= 10,
        forall|k: int| 0 <= k < 10 ==> v % prime(k) == w % prime(k),
    ensures
        v % product_below(j) == w % product_below(j),
    decreases j,
{
    lemma_products();
    if j > 0 {
        lemma_agree_below(v, w, (j - 1) as nat);
        lemma_inverse(j - 1);
        lemma_agree_modulo_product(
            v as int,
            w as int,
            product_below((j - 1) as nat) as int,
            prime(j - 1) as int,
            inverse(j - 1) as int,
        );
    }
}

/// Below the product of the moduli, a number is fixed by its residues.
pub proof fn lemma_residues_fix_value(v: nat, w: nat)
    requires
        v < modulus(),
        w < modulus(),
        forall|k: int| 0 <= k < 10 ==> v % prime(k) == w % prime(k),
    ensures
        v == w,
{
    lemma_products();
    lemma_agree_below(v, w, 10);
    lemma_small_mod(v, modulus());
    lemma_small_mod(w, modulus());
}

/// One step of the reconstruction: adding `t` times the product of the
/// moduli so far gives the wanted residue modulo the next.
proof fn lemma_step_residue(x: int, m: int, p: int, inv: int, r: int, a: int, t: int)
    requires
        0 <= x,
        m > 0,
        p > 0,
        0 <= r < p,
        (inv * m) % p == 1,
        a == (r + p - x % p) % p,
        t == (a * inv) % p,
    ensures
        (x + m * t) % p == r,
{
    let e = (r + p - x % p) / p;
    let k = (a * inv) / p;
    let s = (inv * m) / p;
    lemma_fundamental_div_mod(r + p - x % p, p);
    lemma_fundamental_div_mod(a * inv, p);
    lemma_fundamental_div_mod(inv * m, p);
    lemma_fundamental_div_mod(x, p);
    let big = x / p + 1 - e + a * s - m * k;
    assert(x + m * t == p * big + r) by (nonlinear_arith)
        requires
            r + p - x % p == p * e + a,
            a * inv == p * k + t,
            inv * m == p * s + 1,
            x == p * (x / p) + x % p,
            big == x / p + 1 - e + a * s - m * k,
    {
        assert(m * t == m * (a * inv) - m * (p * k));
        assert(m * (a * inv) == a * (inv * m));
        assert(a * (inv * m) == a * (p * s) + a);
        assert(p * big == p * (x / p) + p - p * e + p * (a * s) - p * (m * k));
    }
    lemma_mod_multiples_vanish(big, r, p);
    lemma_small_mod(r as nat, p as nat);
}

/// Returns the number below the product of the moduli that has the residues `residues`.
pub fn reconstruct(residues: &[u8; 10]) -> (v: u64)
    requires
        forall|j: int| 0 <= j < 10 ==> residues@[j] < prime(j),
    ensures
        v < modulus(),
        forall|j: int| 0 <= j < 10 ==> v as nat % prime(j) == residues@[j],
{
    let mut x: u64 = 0;
    let mut j: usize = 0;
    proof {
        lemma_products();
    }
    while j < 10
        invariant
            j <= 10,
            x < product_below(j as nat),
            forall|k: int| 0 <= k < 10 ==> residues@[k] < prime(k),
            forall|k: int| 0 <= k < j ==> x as nat % prime(k) == residues@[k],
        decreases 10 - j,
    {
        let p: u64 = prime_at(j) as u64;
        let m: u64 = product_at(j);
        let inv: u64 = inverse_at(j) as u64;
        let r: u64 = residues[j] as u64;
        let a: u64 = (r + p - x % p) % p;
        assert(a * inv <= 560) by (nonlinear_arith)
            requires
                0 <= a <= 28,
                0 <= inv <= 20,
        ;
        let t: u64 = (a * inv) % p;
        proof {
            lemma_products();
            lemma_inverse(j as int);
            lemma_step_residue(x as int, m as int, p as int, inv as int, r as int, a as int, t as int);
            assert(m * t <= m * (p - 1)) by (nonlinear_arith)
                requires
                    0 <= t <= p - 1,
                    m >= 0,
            ;
            assert(m * (p - 1) == m * p - m) by (nonlinear_arith);
            assert(m * p == product_below((j + 1) as nat));
            assert forall|k: int| 0 <= k < j implies (x + m * t) as nat % prime(k)
                == residues@[k] by {
                lemma_prime_divides(k, j as nat);
                let c = (m as int) / (prime(k) as int);
                lemma_fundamental_div_mod(m as int, prime(k) as int);
                assert(m * t == prime(k) * (c * t)) by (nonlinear_arith)
                    requires
                        m == prime(k) * c,
                ;
                lemma_mod_multiples_vanish(c * t, x as int, prime(k) as int);
            }
        }
        x = x + m * t;
        j += 1;
    }
    x
}

/// Reducing a number modulo the product of the moduli keeps its residues.
pub proof fn lemma_residue_of_reduced(z: int, j: int)
    requires
        0 <= j < 10,
    ensures
        (z % (modulus() as int)) % (prime(j) as int) == z % (prime(j) as int),
{
    lemma_products();
    lemma_prime_divides(j, 10);
    let p = prime(j) as int;
    let c = (modulus() as int) / p;
    lemma_fundamental_div_mod(modulus() as int, p);
    assert(modulus() as int == p * c);
    vstd::arithmetic::div_mod::lemma_mod_mod(z, p, c);
}

/// The number below the product of the moduli with given residues is the
/// one that `crt_value` names.
pub proof fn lemma_crt_value_unique(v: nat, residues: Seq<nat>)
    requires
        v < modulus(),
        has_residues(v, residues),
    ensures
        crt_value(residues) == v,
{
    let w = crt_value(residues);
    assert(w < modulus() && has_residues(w, residues));
    assert forall|k: int| 0 <= k < 10 implies v % prime(k) == w % prime(k) by {
        assert(v % prime(k) == residues[k]);
        assert(w % prime(k) == residues[k]);
    }
    lemma_residues_fix_value(v, w);
}

} // verus!
