//! BT.601 luma exactly as IEEE-754 binary64 arithmetic evaluates
//! `0.299 * r + 0.587 * g + 0.114 * b`, rounded half away from zero.
//!
//! Every binary64 value that occurs is a non-negative multiple of `2^-60`
//! below `2^72`, so it is held exactly as an integer count of `2^-60` units.
//! The three weights are the exact values of the doubles nearest 0.299,
//! 0.587 and 0.114; each product and each sum is rounded to 53 significant
//! bits, ties to even, as the hardware does for normal numbers.

use vstd::prelude::*;
use vstd::arithmetic::div_mod::{lemma_fundamental_div_mod, lemma_fundamental_div_mod_converse};

verus! {

/// The double nearest 0.299, in units of `2^-60`.
pub const RED_WEIGHT: u128 = 344723529877447232;
/// The double nearest 0.587, in units of `2^-60`.
pub const GREEN_WEIGHT: u128 = 676764923204219136;
/// The double nearest 0.114, in units of `2^-60`.
pub const BLUE_WEIGHT: u128 = 131433051525180560;
/// One, in units of `2^-60`.
pub const ONE: u128 = 1152921504606846976;
/// One half, in units of `2^-60`.
pub const HALF: u128 = 576460752303423488;

pub open spec fn two_pow(e: nat) -> nat
    decreases e,
{
    if e == 0 {
        1
    } else {
        2 * two_pow((e - 1) as nat)
    }
}

/// Number of significant bits of `v`.
pub open spec fn bit_len(v: nat) -> nat
    decreases v,
{
    if v == 0 {
        0
    } else {
        1 + bit_len(v / 2)
    }
}

/// `v` rounded to 53 significant bits, ties to even.
pub open spec fn round_binary64(v: nat) -> nat {
    let k = bit_len(v);
    if k <= 53 {
        v
    } else {
        let p = two_pow((k - 53) as nat);
        let q = v / p;
        let r = v % p;
        if r > p / 2 || (r == p / 2 && q % 2 == 1) {
            (q + 1) * p
        } else {
            q * p
        }
    }
}

/// The binary64 value of `0.299 * r + 0.587 * g + 0.114 * b`, in units.
pub open spec fn luma_units(r: u8, g: u8, b: u8) -> nat {
    round_binary64(
        round_binary64(
            round_binary64(RED_WEIGHT as nat * r as nat) + round_binary64(GREEN_WEIGHT as nat * g as nat),
        ) + round_binary64(BLUE_WEIGHT as nat * b as nat),
    )
}

/// The luma sample: the binary64 weighted sum rounded half away from zero,
/// capped at 255.
pub open spec fn luma(r: u8, g: u8, b: u8) -> u8 {
    let x = luma_units(r, g, b);
    let whole = x / (ONE as nat);
    let rounded = if x % (ONE as nat) >= HALF as nat {
        whole + 1
    } else {
        whole
    };
    if rounded > 255 {
        255
    } else {
        rounded as u8
    }
}

proof fn lemma_two_pow_facts()
    ensures
        two_pow(60) == ONE,
        two_pow(59) == HALF,
        two_pow(53) == 9007199254740992,
{
    reveal_with_fuel(two_pow, 61);
}

pub proof fn lemma_two_pow_pos(e: nat)
    ensures
        two_pow(e) >= 1,
    decreases e,
{
    if e > 0 {
        lemma_two_pow_pos((e - 1) as nat);
    }
}

pub proof fn lemma_two_pow_monotone(a: nat, b: nat)
    requires
        a <= b,
    ensures
        two_pow(a) <= two_pow(b),
    decreases b,
{
    if a < b {
        lemma_two_pow_monotone(a, (b - 1) as nat);
    }
}

proof fn lemma_two_pow_add(a: nat, b: nat)
    ensures
        two_pow(a + b) == two_pow(a) * two_pow(b),
    decreases b,
{
    if b > 0 {
        lemma_two_pow_add(a, (b - 1) as nat);
        assert(two_pow(a + b) == 2 * two_pow((a + b - 1) as nat));
        assert(two_pow(a) * two_pow(b) == two_pow(a) * (2 * two_pow((b - 1) as nat)));
        assert(two_pow(a) * (2 * two_pow((b - 1) as nat)) == 2 * (two_pow(a) * two_pow((b - 1) as nat)))
            by (nonlinear_arith);
        assert((a + b - 1) as nat == a + (b - 1) as nat);
    } else {
        assert(two_pow(0) == 1);
        assert(a + b == a);
        assert(two_pow(a) * 1 == two_pow(a));
    }
}

/// A positive value lies between the powers of two around its bit length.
proof fn lemma_bit_len_bounds(v: nat)
    requires
        v > 0,
    ensures
        bit_len(v) >= 1,
        two_pow((bit_len(v) - 1) as nat) <= v < two_pow(bit_len(v)),
    decreases v,
{
    if v / 2 == 0 {
        assert(v == 1);
        assert(bit_len(0) == 0);
        assert(bit_len(1) == 1);
        assert(two_pow(0) == 1);
        assert(two_pow(1) == 2);
    } else {
        lemma_bit_len_bounds(v / 2);
        let k = bit_len(v / 2);
        assert(bit_len(v) == k + 1);
        assert(two_pow(k + 1) == 2 * two_pow(k));
        assert(two_pow(k) == 2 * two_pow((k - 1) as nat));
    }
}

/// `v / 2^i` stays at or above `2^53` exactly while `i + 53 < bit_len(v)`.
proof fn lemma_shifted_width(v: nat, i: nat)
    requires
        v > 0,
    ensures
        v / two_pow(i) >= two_pow(53) <==> i + 53 < bit_len(v),
{
    lemma_bit_len_bounds(v);
    let p = two_pow(i);
    lemma_two_pow_pos(i);
    lemma_fundamental_div_mod(v as int, p as int);
    let q = v / p;
    lemma_two_pow_add(53, i);
    assert(two_pow(53 + i) == two_pow(53) * p);
    let k = bit_len(v);
    if i + 53 < k {
        lemma_two_pow_monotone(53 + i, (k - 1) as nat);
        // v >= 2^53 * p, so v / p >= 2^53
        if q < two_pow(53) {
            assert(q * p + v % p < two_pow(53) * p) by (nonlinear_arith)
                requires q < two_pow(53), v % p < p, q >= 0, v % p >= 0, p > 0;
            assert(p * q == q * p) by (nonlinear_arith);
        }
    } else {
        lemma_two_pow_monotone(k, 53 + i);
        if q >= two_pow(53) {
            assert(q * p >= two_pow(53) * p) by (nonlinear_arith)
                requires q >= two_pow(53), p > 0;
            assert(p * q == q * p) by (nonlinear_arith);
        }
    }
}

/// Rounding to 53 significant bits at most doubles a value.
proof fn lemma_round_bound(v: nat)
    ensures
        round_binary64(v) <= 2 * v,
{
    let k = bit_len(v);
    if k > 53 {
        lemma_bit_len_bounds(v);
        let p = two_pow((k - 53) as nat);
        lemma_two_pow_pos((k - 53) as nat);
        lemma_two_pow_monotone((k - 53) as nat, (k - 1) as nat);
        lemma_fundamental_div_mod(v as int, p as int);
        let q = v / p;
        assert(p * q == q * p) by (nonlinear_arith);
        assert((q + 1) * p == q * p + p) by (nonlinear_arith);
    }
}

/// `v` rounded to 53 significant bits, ties to even (see [`round_binary64`]).
fn round_to_binary64(v: u128) -> (r: u128)
    requires
        v < 0x1_0000_0000_0000_0000_0000_0000,
    ensures
        r == round_binary64(v as nat),
        r <= 2 * v,
{
    proof {
        lemma_round_bound(v as nat);
        lemma_two_pow_facts();
    }
    if v < 9007199254740992 {
        proof {
            if v > 0 {
                lemma_bit_len_bounds(v as nat);
                if bit_len(v as nat) > 53 {
                    lemma_two_pow_monotone(53, (bit_len(v as nat) - 1) as nat);
                }
            }
        }
        return v;
    }
    let mut p: u128 = 1;
    let ghost mut i: nat = 0;
    proof {
        lemma_bit_len_bounds(v as nat);
        lemma_shifted_width(v as nat, 0);
        assert(v / 1 == v);
    }
    while v / p >= 9007199254740992
        invariant
            v >= 9007199254740992,
            v < 0x1_0000_0000_0000_0000_0000_0000,
            p == two_pow(i),
            i + 53 < bit_len(v as nat) + 1,
            1 <= p <= v,
            two_pow(53) == 9007199254740992,
        decreases bit_len(v as nat) + 1 - i,
    {
        proof {
            lemma_shifted_width(v as nat, i);
            lemma_bit_len_bounds(v as nat);
            lemma_two_pow_monotone(i + 1, (bit_len(v as nat) - 1) as nat);
        }
        p = p * 2;
        proof {
            i = i + 1;
        }
    }
    proof {
        lemma_shifted_width(v as nat, i);
        if i > 0 {
            lemma_shifted_width(v as nat, (i - 1) as nat);
        }
        lemma_bit_len_bounds(v as nat);
        assert(bit_len(v as nat) > 53);
        assert(i == bit_len(v as nat) - 53);
        lemma_fundamental_div_mod(v as int, p as int);
    }
    let q = v / p;
    let rem = v % p;
    let half = p / 2;
    proof {
        assert(p * q == q * p) by (nonlinear_arith);
        assert((q + 1) * p == q * p + p) by (nonlinear_arith);
    }
    if rem > half || (rem == half && q % 2 == 1) {
        (q + 1) * p
    } else {
        q * p
    }
}

/// The luma of one RGB pixel (see [`luma`]).
pub fn pixel_luma(r: u8, g: u8, b: u8) -> (y: u8)
    ensures
        y == luma(r, g, b),
{
    proof {
        lemma_two_pow_facts();
    }
    let red = round_to_binary64(RED_WEIGHT * r as u128);
    let green = round_to_binary64(GREEN_WEIGHT * g as u128);
    let rg = round_to_binary64(red + green);
    let blue = round_to_binary64(BLUE_WEIGHT * b as u128);
    let x = round_to_binary64(rg + blue);
    let whole = x / ONE;
    let rounded = if x % ONE >= HALF {
        whole + 1
    } else {
        whole
    };
    if rounded > 255 {
        255
    } else {
        rounded as u8
    }
}

} // verus!
