//! Bitwise snippets on 256-bit words that are held as four 64-bit limbs, the most
//! significant limb first.

use vstd::arithmetic::div_mod::lemma_div_denominator;
use vstd::arithmetic::div_mod::lemma_fundamental_div_mod;
use vstd::arithmetic::div_mod::lemma_fundamental_div_mod_converse;
use vstd::arithmetic::power2::lemma2_to64;
use vstd::arithmetic::power2::lemma2_to64_rest;
use vstd::arithmetic::power2::lemma_pow2_adds;
use vstd::arithmetic::power2::lemma_pow2_pos;
use vstd::arithmetic::power2::pow2;
use vstd::bits::lemma_u64_low_bits_mask_is_mod;
use vstd::bits::lemma_u64_shl_is_mul;
use vstd::bits::lemma_u64_shr_is_div;
use vstd::bits::low_bits_mask;
use vstd::prelude::*;

verus! {

/// Largest value of a single byte.
pub const BYTE_MAX_VAL: u64 = 255;

/// The number that four limbs stand for, the most significant limb first.
pub open spec fn word(w0: u64, w1: u64, w2: u64, w3: u64) -> nat {
    (w0 * pow2(192) + w1 * pow2(128) + w2 * pow2(64) + w3) as nat
}

/// Powers of the limb base.
proof fn lemma_limb_base()
    ensures
        pow2(64) == 0x1_0000_0000_0000_0000,
        pow2(128) == pow2(64) * pow2(64),
        pow2(192) == pow2(64) * pow2(64) * pow2(64),
{
    lemma2_to64_rest();
    lemma_pow2_adds(64, 64);
    lemma_pow2_adds(128, 64);
}

/// A word whose three upper limbs are zero is its lowest limb, and any other word is too
/// large for one limb.
proof fn lemma_word_low(w0: u64, w1: u64, w2: u64, w3: u64)
    ensures
        w0 == 0 && w1 == 0 && w2 == 0 ==> word(w0, w1, w2, w3) == w3,
        w0 != 0 || w1 != 0 || w2 != 0 ==> word(w0, w1, w2, w3) >= pow2(64),
        w0 == 0 && w1 == 0 ==> word(w0, w1, w2, w3) == w2 * pow2(64) + w3,
        w0 == 0 ==> word(w0, w1, w2, w3) == w1 * pow2(128) + w2 * pow2(64) + w3,
{
    lemma_limb_base();
    let base = pow2(64) as int;
    assert(pow2(128) >= base) by (nonlinear_arith)
        requires
            pow2(128) == base * base,
            base == 0x1_0000_0000_0000_0000,
    ;
    assert(pow2(192) >= base) by (nonlinear_arith)
        requires
            pow2(192) == base * base * base,
            base == 0x1_0000_0000_0000_0000,
    ;
    assert(w0 >= 1 ==> w0 * pow2(192) >= pow2(192)) by (nonlinear_arith);
    assert(w1 >= 1 ==> w1 * pow2(128) >= pow2(128)) by (nonlinear_arith);
    assert(w2 >= 1 ==> w2 * pow2(64) >= pow2(64)) by (nonlinear_arith);
    assert(w0 * pow2(192) >= 0) by (nonlinear_arith);
    assert(w1 * pow2(128) >= 0) by (nonlinear_arith);
    assert(w2 * pow2(64) >= 0) by (nonlinear_arith);
}

/// The limb that a shift by `shift` leaves between `hi` and `lo`: the low bits of `hi` on
/// top of the high bits of `lo`.
proof fn lemma_spill(hi: u64, lo: u64, shift: u64, shift_inv: u64)
    requires
        0 < shift < 64,
        shift_inv == 64 - shift,
    ensures
        (hi << shift_inv | lo >> shift) == (hi as int % pow2(shift as nat) as int) * pow2(
            shift_inv as nat,
        ) + lo as int / pow2(shift as nat) as int,
{
    let p = pow2(shift as nat);
    let q = pow2(shift_inv as nat);
    lemma_pow2_pos(shift as nat);
    lemma_pow2_pos(shift_inv as nat);
    lemma_pow2_adds(shift as nat, shift_inv as nat);
    lemma_limb_base();
    assert(q >= 2 && p >= 2) by {
        lemma2_to64();
        lemma_pow2_adds(1, (shift - 1) as nat);
        lemma_pow2_adds(1, (shift_inv - 1) as nat);
        lemma_pow2_pos((shift - 1) as nat);
        lemma_pow2_pos((shift_inv - 1) as nat);
    }
    assert(p < 0x1_0000_0000_0000_0000) by (nonlinear_arith)
        requires
            p * q == 0x1_0000_0000_0000_0000,
            q >= 2,
            p >= 1,
    ;
    let low: u64 = hi & (low_bits_mask(shift as nat) as u64);
    let mask: u64 = low_bits_mask(shift as nat) as u64;
    lemma_u64_low_bits_mask_is_mod(hi, shift as nat);
    assert(low == hi as int % p as int);
    lemma_u64_shl_is_mul(1u64, shift);
    assert(mask + 1 == 1u64 << shift);
    assert(hi << shift_inv == low << shift_inv) by (bit_vector)
        requires
            0 < shift < 64,
            shift_inv == 64 - shift,
            mask + 1 == 1u64 << shift,
            low == hi & mask,
    ;
    assert(low * q <= u64::MAX) by (nonlinear_arith)
        requires
            p * q == 0x1_0000_0000_0000_0000,
            0 <= low <= p - 1,
            q >= 1,
    ;
    lemma_u64_shl_is_mul(low, shift_inv);
    lemma_u64_shr_is_div(lo, shift);
    assert((hi << shift_inv | lo >> shift) == (hi << shift_inv) + (lo >> shift)) by (bit_vector)
        requires
            0 < shift < 64,
            shift_inv == 64 - shift,
    ;
}

/// Shifting by less than a limb: four limbs, each made of the low bits of its upper
/// neighbour and its own high bits, are the word divided by the power of two.
proof fn lemma_shift_within_limb(
    b0: u64,
    b1: u64,
    b2: u64,
    b3: u64,
    s0: int,
    s1: int,
    s2: int,
    s3: int,
    shift: nat,
)
    requires
        shift < 64,
        s0 == b0 as int / pow2(shift) as int,
        s1 == (b0 as int % pow2(shift) as int) * pow2((64 - shift) as nat) + b1 as int / pow2(
            shift,
        ) as int,
        s2 == (b1 as int % pow2(shift) as int) * pow2((64 - shift) as nat) + b2 as int / pow2(
            shift,
        ) as int,
        s3 == (b2 as int % pow2(shift) as int) * pow2((64 - shift) as nat) + b3 as int / pow2(
            shift,
        ) as int,
    ensures
        s0 * pow2(192) + s1 * pow2(128) + s2 * pow2(64) + s3 == word(b0, b1, b2, b3) as int / pow2(
            shift,
        ) as int,
{
    let p = pow2(shift) as int;
    let q = pow2((64 - shift) as nat) as int;
    let w = pow2(64) as int;
    lemma_pow2_pos(shift);
    lemma_pow2_adds(shift, (64 - shift) as nat);
    lemma_limb_base();
    lemma_fundamental_div_mod(b0 as int, p);
    lemma_fundamental_div_mod(b1 as int, p);
    lemma_fundamental_div_mod(b2 as int, p);
    lemma_fundamental_div_mod(b3 as int, p);
    let (d0, d1, d2, d3) = (b0 as int / p, b1 as int / p, b2 as int / p, b3 as int / p);
    let (r0, r1, r2, r3) = (b0 as int % p, b1 as int % p, b2 as int % p, b3 as int % p);
    let total = s0 * pow2(192) + s1 * pow2(128) + s2 * pow2(64) + s3;
    let value = word(b0, b1, b2, b3) as int;
    assert(p * total + r3 == value) by {
        assert(p * (r0 * q + d1) == r0 * w + p * d1) by (nonlinear_arith)
            requires
                p * q == w,
        ;
        assert(p * (r1 * q + d2) == r1 * w + p * d2) by (nonlinear_arith)
            requires
                p * q == w,
        ;
        assert(p * (r2 * q + d3) == r2 * w + p * d3) by (nonlinear_arith)
            requires
                p * q == w,
        ;
        assert(p * (s0 * (w * w * w) + s1 * (w * w) + s2 * w + s3) == (p * s0) * (w * w * w) + (p
            * s1) * (w * w) + (p * s2) * w + p * s3) by (nonlinear_arith);
        assert((p * s0) * (w * w * w) + (r0 * w + p * d1) * (w * w) + (r1 * w + p * d2) * w + (r2
            * w + p * d3) + r3 == (p * s0 + r0) * (w * w * w) + (p * d1 + r1) * (w * w) + (p * d2
            + r2) * w + (p * d3 + r3)) by (nonlinear_arith);
    }
    lemma_fundamental_div_mod_converse(value, p, total, r3);
}

/// Dropping whole limbs: the word without its lowest limb is the word divided by the base.
proof fn lemma_drop_limb(high: nat, low: u64, shift: nat)
    requires
        shift >= 64,
    ensures
        (high * pow2(64) + low) as nat / pow2(shift) == high / pow2((shift - 64) as nat),
{
    lemma_limb_base();
    lemma_pow2_pos((shift - 64) as nat);
    lemma_pow2_adds(64, (shift - 64) as nat);
    let value = (high * pow2(64) + low) as int;
    assert(value == pow2(64) as int * high as int + low as int) by (nonlinear_arith)
        requires
            value == high * pow2(64) + low,
    ;
    lemma_fundamental_div_mod_converse(value, pow2(64) as int, high as int, low as int);
    lemma_div_denominator(
        value,
        pow2(64) as int,
        pow2((shift - 64) as nat) as int,
    );
}

/// The four ways to place shifted limbs, joined into one quotient.
proof fn lemma_shift_right(
    amount: nat,
    b0: u64,
    b1: u64,
    b2: u64,
    b3: u64,
    s0: u64,
    s1: u64,
    s2: u64,
    s3: u64,
)
    requires
        amount < 256,
        ({
            let shift = (amount % 64) as nat;
            let p = pow2(shift) as int;
            let q = pow2((64 - shift) as nat);
            let t0 = b0 as int / p;
            let t1 = (b0 as int % p) * q + b1 as int / p;
            let t2 = (b1 as int % p) * q + b2 as int / p;
            let t3 = (b2 as int % p) * q + b3 as int / p;
            if amount >= 192 {
                s0 == 0 && s1 == 0 && s2 == 0 && s3 == t0
            } else if amount >= 128 {
                s0 == 0 && s1 == 0 && s2 == t0 && s3 == t1
            } else if amount >= 64 {
                s0 == 0 && s1 == t0 && s2 == t1 && s3 == t2
            } else {
                s0 == t0 && s1 == t1 && s2 == t2 && s3 == t3
            }
        }),
    ensures
        word(s0, s1, s2, s3) == word(b0, b1, b2, b3) / pow2(amount),
{
    lemma_word_low(s0, s1, s2, s3);
    lemma_limb_base();
    let shift = (amount % 64) as nat;
    let p = pow2(shift) as int;
    lemma_pow2_pos(shift);
    lemma_word_low(0, b0, b1, b2);
    lemma_word_low(0, 0, b0, b1);
    lemma_word_low(0, 0, 0, b0);
    assert(word(b0, b1, b2, b3) == word(0, b0, b1, b2) * pow2(64) + b3) by {
        let w = pow2(64) as int;
        assert((b0 * (w * w) + b1 * w + b2) * w == b0 * (w * w * w) + b1 * (w * w) + b2 * w)
            by (nonlinear_arith);
    }
    assert(word(0, b0, b1, b2) == word(0, 0, b0, b1) * pow2(64) + b2) by {
        let w = pow2(64) as int;
        assert((b0 * w + b1) * w == b0 * (w * w) + b1 * w) by (nonlinear_arith);
    }
    if amount >= 64 {
        lemma_drop_limb(word(0, b0, b1, b2), b3, amount);
    }
    if amount >= 128 {
        lemma_drop_limb(word(0, 0, b0, b1), b2, (amount - 64) as nat);
    }
    if amount >= 192 {
        lemma_drop_limb(word(0, 0, 0, b0), b1, (amount - 128) as nat);
    }
    assert(0int / p == 0 && 0int % p == 0) by {
        lemma_fundamental_div_mod_converse(0, p, 0, 0);
    }
    if amount >= 192 {
        lemma_shift_within_limb(0, 0, 0, b0, 0, 0, 0, s3 as int, shift);
    } else if amount >= 128 {
        lemma_shift_within_limb(0, 0, b0, b1, 0, 0, s2 as int, s3 as int, shift);
    } else if amount >= 64 {
        lemma_shift_within_limb(0, b0, b1, b2, 0, s1 as int, s2 as int, s3 as int, shift);
    } else {
        lemma_shift_within_limb(b0, b1, b2, b3, s0 as int, s1 as int, s2 as int, s3 as int, shift);
    }
}

/// Shifts the word `b` right by the number that the word `a` stands for: the result is the
/// quotient of `b` by that power of two, and zero once all 256 bits have gone.
///
/// A shift by a whole number of limbs has no bits to carry between neighbours, and the
/// carrying shift would then be one of all 64 bits of a limb. So of those, only a shift by
/// three limbs, which carries nothing, is taken.
pub fn bitwise_shr(
    a0: u64,
    a1: u64,
    a2: u64,
    a3: u64,
    b0: u64,
    b1: u64,
    b2: u64,
    b3: u64,
) -> (s: (u64, u64, u64, u64))
    requires
        word(a0, a1, a2, a3) != 0,
        word(a0, a1, a2, a3) != 64,
        word(a0, a1, a2, a3) != 128,
    ensures
        word(a0, a1, a2, a3) < 256 ==> word(s.0, s.1, s.2, s.3) == word(b0, b1, b2, b3) / pow2(
            word(a0, a1, a2, a3),
        ),
        word(a0, a1, a2, a3) >= 256 ==> s == (0u64, 0u64, 0u64, 0u64),
{
    let mut s0: u64 = 0;
    let mut s1: u64 = 0;
    let mut s2: u64 = 0;
    let mut s3: u64 = 0;
    proof {
        lemma_word_low(a0, a1, a2, a3);
        lemma_limb_base();
    }
    if a0 != 0 || a1 != 0 || a2 != 0 || a3 > BYTE_MAX_VAL {
    } else if a3 >= 192 {
        let shift: u64 = a3 - 192;
        s3 = b0 >> shift;
        proof {
            lemma_u64_shr_is_div(b0, shift);
        }
    } else if a3 >= 128 {
        let shift: u64 = a3 - 128;
        let shift_inv: u64 = 64 - shift;
        s2 = b0 >> shift;
        s3 = b0 << shift_inv | b1 >> shift;
        proof {
            lemma_u64_shr_is_div(b0, shift);
            lemma_spill(b0, b1, shift, shift_inv);
        }
    } else if a3 >= 64 {
        let shift: u64 = a3 - 64;
        let shift_inv: u64 = 64 - shift;
        s1 = b0 >> shift;
        s2 = b0 << shift_inv | b1 >> shift;
        s3 = b1 << shift_inv | b2 >> shift;
        proof {
            lemma_u64_shr_is_div(b0, shift);
            lemma_spill(b0, b1, shift, shift_inv);
            lemma_spill(b1, b2, shift, shift_inv);
        }
    } else {
        let shift: u64 = a3;
        let shift_inv: u64 = 64 - shift;
        s0 = b0 >> shift;
        s1 = b0 << shift_inv | b1 >> shift;
        s2 = b1 << shift_inv | b2 >> shift;
        s3 = b2 << shift_inv | b3 >> shift;
        proof {
            lemma_u64_shr_is_div(b0, shift);
            lemma_spill(b0, b1, shift, shift_inv);
            lemma_spill(b1, b2, shift, shift_inv);
            lemma_spill(b2, b3, shift, shift_inv);
        }
    }
    proof {
        if word(a0, a1, a2, a3) < 256 {
            lemma_shift_right(a3 as nat, b0, b1, b2, b3, s0, s1, s2, s3);
        }
    }
    (s0, s1, s2, s3)
}

/// Each limb counts for a whole limb base of the one behind it, and the first is the most
/// significant.
pub proof fn law_word_is_positional(w0: u64, w1: u64, w2: u64, w3: u64)
    ensures
        word(w0, w1, w2, w3) == ((w0 * 0x1_0000_0000_0000_0000 + w1) * 0x1_0000_0000_0000_0000 + w2)
            * 0x1_0000_0000_0000_0000 + w3,
{
    lemma_limb_base();
    let base = pow2(64) as int;
    assert(((w0 * base + w1) * base + w2) * base + w3 == w0 * (base * base * base) + w1 * (base
        * base) + w2 * base + w3) by (nonlinear_arith);
}

/// Limbs that stand for the same number are the same.
pub proof fn law_word_determines_limbs(
    v0: u64,
    v1: u64,
    v2: u64,
    v3: u64,
    w0: u64,
    w1: u64,
    w2: u64,
    w3: u64,
)
    requires
        word(v0, v1, v2, v3) == word(w0, w1, w2, w3),
    ensures
        v0 == w0 && v1 == w1 && v2 == w2 && v3 == w3,
{
    lemma_limb_base();
    let base = pow2(64) as int;
    let (v, w) = (word(v0, v1, v2, v3) as int, word(w0, w1, w2, w3) as int);
    let (vh, wh) = ((v0 * base + v1) * base + v2, (w0 * base + w1) * base + w2);
    assert(v == base * vh + v3) by (nonlinear_arith)
        requires
            v == v0 * (base * base * base) + v1 * (base * base) + v2 * base + v3,
            vh == (v0 * base + v1) * base + v2,
    ;
    assert(w == base * wh + w3) by (nonlinear_arith)
        requires
            w == w0 * (base * base * base) + w1 * (base * base) + w2 * base + w3,
            wh == (w0 * base + w1) * base + w2,
    ;
    lemma_fundamental_div_mod_converse(v, base, vh, v3 as int);
    lemma_fundamental_div_mod_converse(w, base, wh, w3 as int);
    lemma_fundamental_div_mod_converse(vh, base, v0 * base + v1, v2 as int);
    lemma_fundamental_div_mod_converse(wh, base, w0 * base + w1, w2 as int);
    lemma_fundamental_div_mod_converse(v0 * base + v1, base, v0 as int, v1 as int);
    lemma_fundamental_div_mod_converse(w0 * base + w1, base, w0 as int, w1 as int);
}

} // verus!
