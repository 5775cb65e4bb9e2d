//! IEEE-754 binary64 values held by their bit pattern, and the two questions
//! the library asks of them: what a saturating truncation to `u64` gives, and
//! whether the value is zero.
use vstd::prelude::*;
use vstd::arithmetic::power2::pow2;

verus! {

/// The sign bit.
pub open spec fn sign_bit(bits: u64) -> nat {
    bits as nat / pow2(63)
}

/// The biased exponent field (11 bits).
pub open spec fn exponent_field(bits: u64) -> nat {
    (bits as nat / pow2(52)) % 2048
}

/// The fraction field (52 bits).
pub open spec fn fraction_field(bits: u64) -> nat {
    bits as nat % pow2(52)
}

/// The value `x as u64` has for the binary64 value `x` with these bits: the
/// value truncated toward zero and clamped to `0..=u64::MAX`, with NaN giving 0.
pub open spec fn truncate_to_u64(bits: u64) -> u64 {
    let e = exponent_field(bits);
    let f = fraction_field(bits);
    if sign_bit(bits) == 1 {
        0
    } else if e == 2047 {
        if f == 0 {
            u64::MAX
        } else {
            0
        }
    } else if e < 1023 {
        0
    } else {
        let m = pow2(52) + f;
        let v: nat = if e >= 1075 {
            m * pow2((e - 1075) as nat)
        } else {
            m / pow2((1075 - e) as nat)
        };
        if v > u64::MAX {
            u64::MAX
        } else {
            v as u64
        }
    }
}

/// The binary64 value with these bits is +0 or -0.
pub open spec fn is_zero(bits: u64) -> bool {
    bits as nat % pow2(63) == 0
}

proof fn lemma_pow2_values()
    ensures
        pow2(52) == 0x10000000000000,
        pow2(63) == 0x8000000000000000,
        pow2(11) == 2048,
        pow2(12) == 4096,
{
    vstd::arithmetic::power2::lemma2_to64();
    vstd::arithmetic::power2::lemma2_to64_rest();
}

/// `x as u64` for the binary64 value `x` whose bits are `bits`.
pub fn truncate_to_u64_exec(bits: u64) -> (r: u64)
    ensures
        r == truncate_to_u64(bits),
{
    proof {
        lemma_pow2_values();
    }
    let e: u64 = (bits >> 52) & 0x7ff;
    let f: u64 = bits & 0xf_ffff_ffff_ffff;
    let s: u64 = bits >> 63;
    assert(e == (bits / 0x10000000000000) % 2048) by (bit_vector)
        requires
            e == (bits >> 52) & 0x7ff,
    ;
    assert(f == bits % 0x10000000000000) by (bit_vector)
        requires
            f == bits & 0xf_ffff_ffff_ffff,
    ;
    assert(s == bits / 0x8000000000000000) by (bit_vector)
        requires
            s == bits >> 63,
    ;
    assert(e < 2048 && f < 0x10000000000000 && s <= 1) by (bit_vector)
        requires
            e == (bits >> 52) & 0x7ff,
            f == bits & 0xf_ffff_ffff_ffff,
            s == bits >> 63,
    ;
    if s == 1 {
        0
    } else if e == 0x7ff {
        if f == 0 {
            u64::MAX
        } else {
            0
        }
    } else if e < 1023 {
        0
    } else {
        let m: u64 = f + 0x10000000000000;
        if e >= 1075 {
            let k: u64 = e - 1075;
            if k >= 12 {
                proof {
                    if k > 12 {
                        vstd::arithmetic::power2::lemma_pow2_strictly_increases(12, k as nat);
                    }
                    assert(m * pow2(k as nat) > u64::MAX) by (nonlinear_arith)
                        requires
                            m >= 0x10000000000000,
                            pow2(k as nat) >= 4096,
                    ;
                }
                u64::MAX
            } else {
                proof {
                    if k < 11 {
                        vstd::arithmetic::power2::lemma_pow2_strictly_increases(k as nat, 11);
                    }
                    assert(m * pow2(k as nat) <= u64::MAX) by (nonlinear_arith)
                        requires
                            m < 0x20000000000000,
                            pow2(k as nat) <= 2048,
                    ;
                    vstd::bits::lemma_u64_shl_is_mul(m, k);
                }
                m << k
            }
        } else {
            let k: u64 = 1075 - e;
            proof {
                vstd::bits::lemma_u64_shr_is_div(m, k);
            }
            m >> k
        }
    }
}

/// Whether the binary64 value whose bits are `bits` is zero.
pub fn is_zero_exec(bits: u64) -> (r: bool)
    ensures
        r == is_zero(bits),
{
    proof {
        lemma_pow2_values();
    }
    let low: u64 = bits & 0x7fff_ffff_ffff_ffff;
    assert(low == bits % 0x8000000000000000) by (bit_vector)
        requires
            low == bits & 0x7fff_ffff_ffff_ffff,
    ;
    low == 0
}

} // verus!
