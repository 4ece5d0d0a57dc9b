//! Powers of two: the rounding that gives an atlas its dimensions.

use vstd::arithmetic::power2::{
    lemma2_to64, lemma_pow2_strictly_increases, lemma_pow2_unfold, pow2,
};
use vstd::prelude::*;

verus! {

/// `n` is two raised to some natural exponent.
pub open spec fn is_power_of_two(n: int) -> bool {
    exists|k: nat| n == pow2(k)
}

/// The least power of two that is not below `n`; for `n == 0` this is `1`.
pub open spec fn nearest_po2(n: nat) -> nat
    decreases n,
{
    if n <= 1 {
        1
    } else {
        2 * nearest_po2((n + 1) / 2)
    }
}

/// `x` with every bit below its highest set bit switched on.
pub open spec fn smear(x: u32) -> u32 {
    let a: u32 = x | (x >> 1);
    let b: u32 = a | (a >> 2);
    let c: u32 = b | (b >> 4);
    let d: u32 = c | (c >> 8);
    d | (d >> 16)
}

/// Smearing doubles, and adds one, with each further bit of the number.
proof fn lemma_smear_step(x: u32)
    by (bit_vector)
    requires
        x <= 0x7fff_ffff,
    ensures
        x >> 1 == x / 2,
        smear(x) <= 0x7fff_ffff,
        x == 0 ==> smear(x) == 0,
        x > 0 ==> smear(x) == 2 * smear(x >> 1) + 1,
{
}

/// One more than the smear of `x - 1` is the least power of two not below `x`.
proof fn lemma_smear_is_nearest(x: u32)
    requires
        0 < x <= 0x8000_0000,
    ensures
        smear((x - 1) as u32) + 1 == nearest_po2(x as nat),
    decreases x,
{
    lemma_smear_step((x - 1) as u32);
    if x > 1 {
        lemma_smear_is_nearest(((x + 1) / 2) as u32);
    }
}

/// A power of two is positive, and above `1` it is twice a power of two.
pub proof fn lemma_power_of_two_halves(p: int)
    requires
        is_power_of_two(p),
    ensures
        p >= 1,
        p > 1 ==> p % 2 == 0 && is_power_of_two(p / 2),
{
    let k: nat = choose|k: nat| p == pow2(k);
    lemma2_to64();
    if k == 0 {
    } else {
        lemma_pow2_unfold(k);
        let h: nat = (k - 1) as nat;
        assert(p / 2 == pow2(h));
        if h > 0 {
            lemma_pow2_strictly_increases(0, h);
        }
    }
}

/// Twice a power of two is a power of two.
pub proof fn lemma_power_of_two_doubles(p: int)
    requires
        is_power_of_two(p),
    ensures
        is_power_of_two(2 * p),
{
    let k: nat = choose|k: nat| p == pow2(k);
    lemma_pow2_unfold(k + 1);
    assert(2 * p == pow2(k + 1));
}

/// Of two powers of two, the greater is at least twice the smaller.
pub proof fn lemma_power_of_two_gap(a: int, b: int)
    requires
        is_power_of_two(a),
        is_power_of_two(b),
        a < b,
    ensures
        2 * a <= b,
{
    let i: nat = choose|k: nat| a == pow2(k);
    let j: nat = choose|k: nat| b == pow2(k);
    if j <= i {
        if j < i {
            lemma_pow2_strictly_increases(j, i);
        }
    } else {
        lemma_pow2_unfold(i + 1);
        if i + 1 < j {
            lemma_pow2_strictly_increases(i + 1, j);
        }
    }
}

/// `nearest_po2(n)` is a power of two, is not below `n`, and is below `2 * n`
/// when `n` is positive.
pub proof fn lemma_nearest_po2(n: nat)
    ensures
        is_power_of_two(nearest_po2(n) as int),
        n <= nearest_po2(n),
        n >= 1 ==> nearest_po2(n) < 2 * n,
    decreases n,
{
    if n <= 1 {
        lemma2_to64();
        assert(nearest_po2(n) == pow2(0));
    } else {
        let m: nat = (n + 1) / 2;
        lemma_nearest_po2(m);
        lemma_power_of_two_doubles(nearest_po2(m) as int);
    }
}

/// No power of two lies between `n` and `nearest_po2(n)`.
pub proof fn lemma_nearest_po2_least(n: nat, p: int)
    requires
        is_power_of_two(p),
        n <= p,
    ensures
        nearest_po2(n) <= p,
{
    lemma_nearest_po2(n);
    lemma_power_of_two_halves(p);
    if p < nearest_po2(n) {
        lemma_power_of_two_gap(p, nearest_po2(n) as int);
    }
}

/// The power of two in `[n, 2 * n)` is `nearest_po2(n)`.
pub proof fn lemma_nearest_po2_unique(n: nat, p: int)
    requires
        is_power_of_two(p),
        n <= p,
        p < 2 * n,
    ensures
        p == nearest_po2(n),
{
    lemma_nearest_po2(n);
    lemma_nearest_po2_least(n, p);
    if nearest_po2(n) < p {
        lemma_power_of_two_gap(nearest_po2(n) as int, p);
    }
}

/// The greatest power of two of 32 bits is a power of two.
pub proof fn lemma_top_bit_is_power()
    ensures
        is_power_of_two(0x8000_0000),
{
    lemma2_to64();
    assert(0x8000_0000 == pow2(31));
}

/// Rounds `x` up to a power of two.
pub fn get_nearest_po2(x: u32) -> (r: u32)
    requires
        0 < x <= 0x8000_0000,
    ensures
        r == nearest_po2(x as nat),
        is_power_of_two(r as int),
        x <= r,
        r < 2 * x,
        r <= 0x8000_0000,
{
    let mut v: u32 = x - 1;
    v = v | (v >> 1);
    v = v | (v >> 2);
    v = v | (v >> 4);
    v = v | (v >> 8);
    v = v | (v >> 16);
    proof {
        assert(v == smear((x - 1) as u32));
        lemma_smear_step((x - 1) as u32);
        lemma_smear_is_nearest(x);
        lemma_nearest_po2(x as nat);
    }
    v + 1
}

} // verus!
