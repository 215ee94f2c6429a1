//! Integers as sequences of bits, least significant bit first.

use vstd::arithmetic::div_mod::lemma_div_denominator;
use vstd::arithmetic::power2::{lemma2_to64, lemma_pow2_adds, lemma_pow2_pos, lemma_pow2_unfold, pow2};
use vstd::prelude::*;

verus! {

/// The lowest `n` bits of `v`: bit `i` is the digit of `v` at `2^i`.
pub open spec fn bits_le(v: nat, n: nat) -> Seq<bool> {
    Seq::new(n, |i: int| (v / pow2(i as nat)) % 2 == 1)
}

/// The number whose bits are `bits`, the least significant first.
pub open spec fn value_le(bits: Seq<bool>) -> nat
    decreases bits.len(),
{
    if bits.len() == 0 {
        0
    } else {
        (if bits[0] {
            1nat
        } else {
            0nat
        }) + 2 * value_le(bits.skip(1))
    }
}

/// Dropping the lowest bit of a number halves it.
pub proof fn lemma_bits_le_skip(v: nat, n: nat)
    requires
        n > 0,
    ensures
        bits_le(v, n).skip(1) == bits_le(v / 2, (n - 1) as nat),
        bits_le(v, n)[0] == (v % 2 == 1),
{
    lemma2_to64();
    assert forall|i: int| 0 <= i < n - 1 implies bits_le(v, n).skip(1)[i] == bits_le(
        v / 2,
        (n - 1) as nat,
    )[i] by {
        lemma_pow2_pos(i as nat);
        lemma_pow2_unfold((i + 1) as nat);
        lemma_div_denominator(v as int, 2, pow2(i as nat) as int);
    }
    assert(bits_le(v, n).skip(1) =~= bits_le(v / 2, (n - 1) as nat));
    assert(pow2(0) == 1);
    assert(bits_le(v, n)[0] == ((v / pow2(0)) % 2 == 1));
}

/// A number below `2^n` is the number that its lowest `n` bits make.
pub proof fn lemma_value_of_bits(v: nat, n: nat)
    requires
        v < pow2(n),
    ensures
        value_le(bits_le(v, n)) == v,
    decreases n,
{
    lemma2_to64();
    if n > 0 {
        lemma_pow2_unfold(n);
        lemma_bits_le_skip(v, n);
        lemma_value_of_bits(v / 2, (n - 1) as nat);
    }
}

/// The number that `n` bits make is below `2^n`.
pub proof fn lemma_value_le_bound(bits: Seq<bool>)
    ensures
        value_le(bits) < pow2(bits.len()),
    decreases bits.len(),
{
    lemma2_to64();
    if bits.len() > 0 {
        lemma_pow2_unfold(bits.len());
        lemma_value_le_bound(bits.skip(1));
    }
}

/// `2^128`, one more than the largest `u128`.
pub proof fn lemma_pow2_128()
    ensures
        pow2(128) == u128::MAX + 1,
{
    lemma2_to64();
    lemma_pow2_adds(64, 64);
}

/// Returns the lowest `N` bits of `value`, the least significant first.
pub fn bits_of<const N: usize>(value: u128) -> (bits: [bool; N])
    ensures
        bits@ == bits_le(value as nat, N as nat),
{
    let mut bits: [bool; N] = [false;N];
    let mut rest: u128 = value;
    let mut i: usize = 0;
    proof {
        lemma2_to64();
    }
    while i < N
        invariant
            i <= N,
            rest == (value as nat) / pow2(i as nat),
            forall|j: int|
                0 <= j < i ==> #[trigger] bits@[j] == (((value as nat) / pow2(j as nat)) % 2 == 1),
        decreases N - i,
    {
        bits[i] = rest % 2 == 1;
        proof {
            lemma_pow2_pos(i as nat);
            lemma_pow2_unfold((i + 1) as nat);
            lemma_div_denominator(value as int, pow2(i as nat) as int, 2);
            assert(pow2(i as nat) * 2 == pow2((i + 1) as nat));
        }
        rest = rest / 2;
        i += 1;
    }
    assert(bits@ =~= bits_le(value as nat, N as nat));
    bits
}

/// Returns the number whose bits are `bits`, the least significant first.
pub fn value_of<const N: usize>(bits: &[bool; N]) -> (value: u128)
    requires
        N <= 128,
    ensures
        value == value_le(bits@),
{
    let mut value: u128 = 0;
    let mut i: usize = N;
    assert(bits@.skip(N as int) =~= Seq::<bool>::empty());
    while i > 0
        invariant
            i <= N,
            N <= 128,
            value == value_le(bits@.skip(i as int)),
        decreases i,
    {
        proof {
            let tail = bits@.skip(i - 1);
            assert(tail.skip(1) =~= bits@.skip(i as int));
            lemma_value_le_bound(bits@.skip(i as int));
            lemma_value_le_bound(tail);
            lemma_pow2_unfold(tail.len());
            lemma_pow2_128();
            if tail.len() < 128 {
                vstd::arithmetic::power2::lemma_pow2_strictly_increases(tail.len(), 128);
            }
        }
        i -= 1;
        value = 2 * value + (if bits[i] { 1 } else { 0 });
    }
    assert(bits@.skip(0) =~= bits@);
    value
}

/// The lowest bits of the number that `bits` make are `bits`.
pub proof fn lemma_bits_of_value(bits: Seq<bool>)
    ensures
        bits_le(value_le(bits), bits.len()) == bits,
    decreases bits.len(),
{
    let n = bits.len();
    let v = value_le(bits);
    if n > 0 {
        let rest = value_le(bits.skip(1));
        lemma_bits_of_value(bits.skip(1));
        lemma_bits_le_skip(v, n);
        assert(v / 2 == rest);
        assert(bits_le(v, n)[0] == bits[0]);
        assert forall|i: int| 0 <= i < n implies bits_le(v, n)[i] == bits[i] by {
            if i > 0 {
                assert(bits_le(v, n).skip(1)[i - 1] == bits_le(v, n)[i]);
                assert(bits.skip(1)[i - 1] == bits[i]);
            }
        }
    }
    assert(bits_le(v, n) =~= bits);
}

/// The bits of `bits` in bytes: byte `k` holds the bits `8 * k` to
/// `8 * k + 7`, as far as there are any, the first in its lowest place.
pub open spec fn packed_bits(bits: Seq<bool>) -> Seq<u8> {
    Seq::new(
        ((bits.len() + 7) / 8) as nat,
        |k: int|
            value_le(
                bits.subrange(
                    8 * k,
                    if 8 * k + 8 <= bits.len() {
                        8 * k + 8
                    } else {
                        bits.len() as int
                    },
                ),
            ) as u8,
    )
}

/// The first `n` bits that `bytes` hold, in the order of `packed_bits`.
pub open spec fn unpacked_bits(bytes: Seq<u8>, n: nat) -> Seq<bool> {
    Seq::new(n, |i: int| bits_le(bytes[i / 8] as nat, 8)[i % 8])
}

/// Returns the bits of `bits` in bytes, eight to a byte, the first of each
/// byte in its lowest place.
pub fn pack_bits<const N: usize>(bits: &[bool; N]) -> (out: Vec<u8>)
    requires
        N + 7 <= usize::MAX,
    ensures
        out@ == packed_bits(bits@),
{
    let count: usize = (N + 7) / 8;
    let mut out: Vec<u8> = Vec::new();
    let mut k: usize = 0;
    while k < count
        invariant
            k <= count,
            count == (N + 7) / 8,
            N + 7 <= usize::MAX,
            out@.len() == k,
            forall|m: int| 0 <= m < k ==> out@[m] == packed_bits(bits@)[m],
        decreases count - k,
    {
        let lo: usize = 8 * k;
        let hi: usize = if N - lo >= 8 {
            lo + 8
        } else {
            N
        };
        let mut value: u8 = 0;
        let mut i: usize = hi;
        assert(bits@.subrange(hi as int, hi as int) =~= Seq::<bool>::empty());
        while i > lo
            invariant
                lo <= i <= hi,
                hi <= N,
                hi - lo <= 8,
                value as nat == value_le(bits@.subrange(i as int, hi as int)),
            decreases i,
        {
            proof {
                let tail = bits@.subrange(i - 1, hi as int);
                assert(tail.skip(1) =~= bits@.subrange(i as int, hi as int));
                lemma_value_le_bound(bits@.subrange(i as int, hi as int));
                lemma2_to64();
                if hi - i < 7 {
                    vstd::arithmetic::power2::lemma_pow2_strictly_increases((hi - i) as nat, 7);
                }
            }
            i -= 1;
            value = 2 * value + (if bits[i] {
                1
            } else {
                0
            });
        }
        out.push(value);
        k += 1;
    }
    assert(out@ =~= packed_bits(bits@));
    out
}

/// Returns the first `N` bits that `bytes` hold, eight to a byte, the first
/// of each byte in its lowest place; `None` unless there are just as many
/// bytes as `N` bits take.
pub fn unpack_bits<const N: usize>(bytes: &[u8]) -> (out: Option<[bool; N]>)
    requires
        N + 7 <= usize::MAX,
    ensures
        out is Some <==> bytes@.len() == (N + 7) / 8,
        out is Some ==> out->Some_0@ == unpacked_bits(bytes@, N as nat),
{
    if bytes.len() != (N + 7) / 8 {
        return None;
    }
    let mut bits: [bool; N] = [false;N];
    let mut i: usize = 0;
    while i < N
        invariant
            i <= N,
            bytes@.len() == (N + 7) / 8,
            forall|m: int|
                0 <= m < i ==> #[trigger] bits@[m] == bits_le(bytes@[m / 8] as nat, 8)[m % 8],
        decreases N - i,
    {
        let of_byte = bits_of::<8>(bytes[i / 8] as u128);
        bits[i] = of_byte[i % 8];
        i += 1;
    }
    assert(bits@ =~= unpacked_bits(bytes@, N as nat));
    Some(bits)
}

/// Unpacking what was packed gives the bits back.
pub proof fn lemma_unpack_pack(bits: Seq<bool>)
    ensures
        unpacked_bits(packed_bits(bits), bits.len()) == bits,
{
    let n = bits.len();
    let packed = packed_bits(bits);
    lemma2_to64();
    assert forall|i: int| 0 <= i < n implies unpacked_bits(packed, n)[i] == bits[i] by {
        let k = i / 8;
        let hi = if 8 * k + 8 <= n {
            8 * k + 8
        } else {
            n as int
        };
        let chunk = bits.subrange(8 * k, hi);
        let v = value_le(chunk);
        lemma_value_le_bound(chunk);
        if chunk.len() < 8 {
            vstd::arithmetic::power2::lemma_pow2_strictly_increases(chunk.len(), 8);
        }
        assert(packed[k] as nat == v);
        lemma_bits_of_value(chunk);
        assert(bits_le(v, chunk.len())[i % 8] == chunk[i % 8]);
        assert(bits_le(v, 8)[i % 8] == bits_le(v, chunk.len())[i % 8]);
    }
    assert(unpacked_bits(packed, n) =~= bits);
}

} // verus!
