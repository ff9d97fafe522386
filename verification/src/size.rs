//! Human-readable rendering of byte counts.

use vstd::prelude::*;
use vstd::arithmetic::power2::*;
use vstd::arithmetic::div_mod::*;
use vstd::arithmetic::mul::*;
use crate::text::{decimal, digit_char, two_digits, push_char, push_decimal, push_str};

verus! {

pub const KIB: u64 = 1024;

pub const MIB: u64 = 1048576;

pub const GIB: u64 = 1073741824;

/// Quotient of `num / den` rounded to the nearest integer, ties to the even
/// neighbour.
pub open spec fn round_half_even(num: nat, den: nat) -> nat {
    let q = num / den;
    let r = num % den;
    if 2 * r > den || (2 * r == den && q % 2 == 1) {
        q + 1
    } else {
        q
    }
}

/// Number of binary digits of `n` (zero for zero).
pub open spec fn bit_len(n: nat) -> nat
    decreases n,
{
    if n == 0 {
        0
    } else {
        1 + bit_len(n / 2)
    }
}

/// The value of the double-precision float nearest to `b`: `b` itself when it
/// has at most 53 significant bits, else `b` rounded to 53 significant bits,
/// ties to the even significand.
pub open spec fn f64_nearest(b: nat) -> nat {
    if bit_len(b) <= 53 {
        b
    } else {
        let p = pow2((bit_len(b) - 53) as nat);
        round_half_even(b, p) * p
    }
}

/// `v / 2^k` rendered with exactly two decimals, rounding ties to even.
pub open spec fn scaled_two_decimals(v: nat, k: nat) -> Seq<char> {
    let h = round_half_even(v * 100, pow2(k));
    decimal(h / 100) + seq!['.'] + two_digits(h % 100)
}

/// What `format_size` renders for a byte count: "Unknown" for zero, whole
/// bytes below one KiB, and otherwise the count in the largest binary unit
/// it reaches (KiB, MiB or GiB) with two decimals. The GiB figure is the
/// count as a double-precision float divided by 2^30.
pub open spec fn size_text(bytes: u64) -> Seq<char> {
    if bytes == 0 {
        seq!['U', 'n', 'k', 'n', 'o', 'w', 'n']
    } else if bytes >= GIB {
        scaled_two_decimals(f64_nearest(bytes as nat), 30) + seq![' ', 'G', 'i', 'B']
    } else if bytes >= MIB {
        scaled_two_decimals(bytes as nat, 20) + seq![' ', 'M', 'i', 'B']
    } else if bytes >= KIB {
        scaled_two_decimals(bytes as nat, 10) + seq![' ', 'K', 'i', 'B']
    } else {
        decimal(bytes as nat) + seq![' ', 'B']
    }
}

/// Computes `bit_len(b)` and the power of two that brings `b` down to 53
/// significant bits.
fn mantissa_unit(b: u64) -> (p: u64)
    requires
        53 < bit_len(b as nat) <= 64,
    ensures
        p as nat == pow2((bit_len(b as nat) - 53) as nat),
        2 <= p <= 2048,
{
    let mut x: u64 = b;
    let mut len: u64 = 0;
    while x > 0
        invariant
            bit_len(b as nat) == len + bit_len(x as nat),
            bit_len(b as nat) <= 64,
        decreases x,
    {
        assert(bit_len(x as nat) == 1 + bit_len((x / 2) as nat));
        x = x / 2;
        len = len + 1;
    }
    let s: u64 = len - 53;
    let mut p: u64 = 1;
    proof {
        lemma2_to64();
    }
    let mut i: u64 = 0;
    while i < s
        invariant
            i <= s,
            s <= 11,
            p as nat == pow2(i as nat),
            p <= 2048,
            p >= 1,
            s == (bit_len(b as nat) - 53) as nat,
        decreases s - i,
    {
        proof {
            lemma_pow2_unfold((i + 1) as nat);
            lemma_pow2_strictly_increases(i as nat, s as nat);
            lemma_pow2_strictly_increases((i + 1) as nat, 12);
            lemma2_to64();
            lemma2_to64_rest();
        }
        p = p * 2;
        i = i + 1;
    }
    proof {
        lemma_pow2_unfold(1);
        lemma2_to64();
        lemma2_to64_rest();
        if s >= 1 {
            lemma_pow2_strictly_increases(0, s as nat);
            if s > 1 {
                lemma_pow2_strictly_increases(1, s as nat);
            }
        }
    }
    p
}

/// Value of the double-precision float nearest to `b`.
fn nearest_f64_value(b: u64) -> (v: u128)
    ensures
        v as nat == f64_nearest(b as nat),
        v <= 2 * (u64::MAX as u128) + 2,
{
    if b < 9007199254740992 {
        proof {
            lemma_bit_len_small(b as nat);
        }
        return b as u128;
    }
    proof {
        lemma_bit_len_large(b as nat);
    }
    let p = mantissa_unit(b);
    let q = b / p;
    let r = b % p;
    proof {
        lemma_fundamental_div_mod(b as int, p as int);
        lemma_mod_pos_bound(b as int, p as int);
        assert(q * p <= b) by (nonlinear_arith)
            requires
                q == b / p,
                b == p * q + r,
                r >= 0,
        ;
        assert(q < b) by (nonlinear_arith)
            requires
                q * p <= b,
                p >= 2,
                b > 0,
        ;
    }
    let rounded: u64 = if 2 * (r as u128) > p as u128 || (2 * (r as u128) == p as u128 && q % 2 == 1) {
        q + 1
    } else {
        q
    };
    proof {
        assert((rounded as int) * (p as int) <= 2 * (u64::MAX as int) + 2) by (nonlinear_arith)
            requires
                rounded <= q + 1,
                q * p <= b,
                p <= 2048,
                b <= u64::MAX,
        ;
    }
    (rounded as u128) * (p as u128)
}

/// `bit_len(b) <= 53` exactly when `b < 2^53`.
proof fn lemma_bit_len_bound(b: nat, k: nat)
    ensures
        bit_len(b) <= k <==> b < pow2(k),
    decreases k,
{
    if k == 0 {
        lemma2_to64();
        lemma2_to64_rest();
    } else {
        lemma_pow2_unfold(k);
        lemma_bit_len_bound(b / 2, (k - 1) as nat);
        if b == 0 {
            lemma_pow2_pos(k);
        }
    }
}

proof fn lemma_bit_len_small(b: nat)
    requires
        b < 9007199254740992,
    ensures
        bit_len(b) <= 53,
{
    lemma2_to64();
    lemma2_to64_rest();
    lemma_bit_len_bound(b, 53);
}

proof fn lemma_bit_len_large(b: nat)
    requires
        9007199254740992 <= b <= u64::MAX,
    ensures
        53 < bit_len(b) <= 64,
{
    lemma2_to64();
    lemma2_to64_rest();
    lemma_bit_len_bound(b, 53);
    lemma_bit_len_bound(b, 64);
}

/// Appends `v / 2^k` with two decimals (ties to even).
fn push_scaled(s: &mut String, v: u128, k: u64, unit: u128)
    requires
        unit as nat == pow2(k as nat),
        1 <= unit <= 1073741824,
        v <= 2 * (u64::MAX as u128) + 2,
        k >= 10,
    ensures
        final(s)@ == old(s)@ + scaled_two_decimals(v as nat, k as nat),
{
    let num: u128 = v * 100;
    let q = num / unit;
    let r = num % unit;
    proof {
        lemma_mod_pos_bound(num as int, unit as int);
    }
    let h: u128 = if 2 * r > unit || (2 * r == unit && q % 2 == 1) {
        q + 1
    } else {
        q
    };
    proof {
        lemma_pow2_strictly_increases(9, k as nat);
        lemma2_to64();
        lemma2_to64_rest();
        assert(q <= num) by (nonlinear_arith)
            requires
                q == num / unit,
                unit >= 1,
        ;
        assert(q <= num / 512) by {
            lemma_div_is_ordered_by_denominator(num as int, 512, unit as int);
        }
    }
    let whole = (h / 100) as u64;
    let frac = (h % 100) as u64;
    push_decimal(s, whole);
    push_char(s, '.');
    if frac < 10 {
        push_char(s, '0');
    }
    push_decimal(s, frac);
    proof {
        if frac < 10 {
            assert(decimal(frac as nat) == seq![digit_char(frac as int)]);
        }
        assert(final(s)@ =~= old(s)@ + scaled_two_decimals(v as nat, k as nat));
    }
}

/// Renders a byte count for people: "Unknown" for zero, "<n> B" below one
/// KiB, else the count in KiB, MiB or GiB with two decimals, exactly as the
/// floating-point rendering `{:.2}` of `bytes as f64 / unit` prints it.
pub fn format_size(bytes: u64) -> (r: String)
    ensures
        r@ == size_text(bytes),
{
    let mut s = String::new();
    if bytes == 0 {
        push_str(&mut s, "Unknown");
        proof {
            reveal_strlit("Unknown");
        }
        return s;
    }
    if bytes >= GIB {
        let v = nearest_f64_value(bytes);
        proof {
            lemma2_to64();
            lemma2_to64_rest();
        }
        push_scaled(&mut s, v, 30, 1073741824);
        push_str(&mut s, " GiB");
        proof {
            reveal_strlit(" GiB");
        }
    } else if bytes >= MIB {
        proof {
            lemma2_to64();
            lemma2_to64_rest();
        }
        push_scaled(&mut s, bytes as u128, 20, 1048576);
        push_str(&mut s, " MiB");
        proof {
            reveal_strlit(" MiB");
        }
    } else if bytes >= KIB {
        proof {
            lemma2_to64();
            lemma2_to64_rest();
        }
        push_scaled(&mut s, bytes as u128, 10, 1024);
        push_str(&mut s, " KiB");
        proof {
            reveal_strlit(" KiB");
        }
    } else {
        push_decimal(&mut s, bytes);
        push_str(&mut s, " B");
        proof {
            reveal_strlit(" B");
        }
    }
    proof {
        assert(s@ =~= size_text(bytes));
    }
    s
}

} // verus!
