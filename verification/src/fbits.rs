//! The bit-level model of the 64-bit and 32-bit IEEE 754 numbers that
//! cross the guest boundary. The runtime never computes with fractional
//! numbers; it only stores their bit patterns and decides the few
//! questions the protocol asks of them: comparisons against zero,
//! truncation to an integer, and the exact conversion of an integer to a
//! 64-bit pattern.

use vstd::prelude::*;

verus! {

/// Bit pattern of the 64-bit number minus one, the failure sentinel of the
/// fractional read operations.
pub const F64_NEG_ONE_BITS: u64 = 0xbff0000000000000;

/// Whether a 64-bit pattern denotes a NaN: all exponent bits set and a
/// nonzero mantissa.
pub open spec fn f64_is_nan(bits: u64) -> bool {
    (bits >> 52) & 0x7ff == 0x7ff && bits & 0xfffffffffffff != 0
}

/// Whether a 64-bit pattern compares `<= 0.0`: plus or minus zero, or a
/// negative non-NaN. A NaN compares false.
pub open spec fn f64_le_zero(bits: u64) -> bool {
    bits == 0 || ((bits >> 63) == 1 && !f64_is_nan(bits))
}

/// Whether a 64-bit pattern compares `> 0.0`: a positive non-NaN other
/// than zero. A NaN compares false.
pub open spec fn f64_gt_zero(bits: u64) -> bool {
    (bits >> 63) == 0 && bits != 0 && !f64_is_nan(bits)
}

/// Whether a 32-bit pattern denotes a NaN.
pub open spec fn f32_is_nan(bits: u32) -> bool {
    (bits >> 23) & 0xff == 0xff && bits & 0x7fffff != 0
}

/// Whether a 32-bit pattern compares `>= 0.0`: a non-negative non-NaN, or
/// minus zero. A NaN compares false.
pub open spec fn f32_ge_zero(bits: u32) -> bool {
    !f32_is_nan(bits) && ((bits >> 31) == 0 || bits == 0x80000000)
}

/// Decides `f64_is_nan`.
pub fn f64_is_nan_bits(bits: u64) -> (r: bool)
    ensures
        r == f64_is_nan(bits),
{
    (bits >> 52) & 0x7ff == 0x7ff && bits & 0xfffffffffffff != 0
}

/// Decides `f64_le_zero`.
pub fn f64_le_zero_bits(bits: u64) -> (r: bool)
    ensures
        r == f64_le_zero(bits),
{
    bits == 0 || ((bits >> 63) == 1 && !f64_is_nan_bits(bits))
}

/// Decides `f64_gt_zero`.
pub fn f64_gt_zero_bits(bits: u64) -> (r: bool)
    ensures
        r == f64_gt_zero(bits),
{
    (bits >> 63) == 0 && bits != 0 && !f64_is_nan_bits(bits)
}

/// Decides `f32_ge_zero`.
pub fn f32_ge_zero_bits(bits: u32) -> (r: bool)
    ensures
        r == f32_ge_zero(bits),
{
    let nan = (bits >> 23) & 0xff == 0xff && bits & 0x7fffff != 0;
    !nan && ((bits >> 31) == 0 || bits == 0x80000000)
}

/// The value a 64-bit pattern truncates to as a signed 64-bit integer,
/// with the saturating semantics of a numeric cast: a NaN gives 0,
/// overflow saturates at the integer bounds, and everything else rounds
/// toward zero.
pub open spec fn f64_trunc_int(bits: u64) -> int {
    let e = (bits >> 52) & 0x7ff;
    let m = bits & 0xfffffffffffff;
    let neg = (bits >> 63) == 1;
    if e == 0x7ff {
        if m != 0 {
            0
        } else if neg {
            i64::MIN as int
        } else {
            i64::MAX as int
        }
    } else if e < 1023 {
        0
    } else if e >= 1023 + 64 {
        if neg {
            i64::MIN as int
        } else {
            i64::MAX as int
        }
    } else {
        let p = (e - 1023) as u64;
        let full = m | 0x10000000000000u64;
        let mag = if p <= 52 {
            full >> ((52 - p) as u64)
        } else {
            full << ((p - 52) as u64)
        };
        if neg {
            if mag >= 0x8000000000000000u64 {
                i64::MIN as int
            } else {
                -(mag as int)
            }
        } else {
            if mag >= 0x8000000000000000u64 {
                i64::MAX as int
            } else {
                mag as int
            }
        }
    }
}

/// Truncates a 64-bit pattern to a signed 64-bit integer, saturating.
pub fn f64_trunc_i64(bits: u64) -> (r: i64)
    ensures
        r as int == f64_trunc_int(bits),
{
    let e = (bits >> 52) & 0x7ff;
    let m = bits & 0xfffffffffffff;
    let neg = (bits >> 63) == 1;
    if e == 0x7ff {
        if m != 0 {
            0
        } else if neg {
            i64::MIN
        } else {
            i64::MAX
        }
    } else if e < 1023 {
        0
    } else if e >= 1023 + 64 {
        if neg {
            i64::MIN
        } else {
            i64::MAX
        }
    } else {
        let p = e - 1023;
        let full = m | 0x10000000000000u64;
        let mag = if p <= 52 {
            full >> (52 - p)
        } else {
            full << (p - 52)
        };
        if neg {
            if mag >= 0x8000000000000000u64 {
                i64::MIN
            } else {
                proof {
                    assert(0 - (mag as int) >= i64::MIN);
                }
                -(mag as i64)
            }
        } else {
            if mag >= 0x8000000000000000u64 {
                i64::MAX
            } else {
                mag as i64
            }
        }
    }
}

/// The index of the highest set bit of `m` at or below `i`, or 0.
pub open spec fn msb64(m: u64, i: u64) -> u64
    decreases i,
{
    if i == 0 {
        0
    } else if (m >> i) & 1 == 1 {
        i
    } else {
        msb64(m, (i - 1) as u64)
    }
}

/// Finds the index of the highest set bit of `m` at or below `i`, or 0.
pub fn msb64_find(m: u64, i: u64) -> (r: u64)
    requires
        i < 64,
    ensures
        r == msb64(m, i),
        r <= i,
    decreases i,
{
    if i == 0 {
        0
    } else if (m >> i) & 1 == 1 {
        i
    } else {
        msb64_find(m, i - 1)
    }
}

/// The 64-bit pattern of the number a signed 64-bit integer converts to,
/// rounding to nearest with ties to even.
pub open spec fn i64_to_f64_bits(x: i64) -> u64 {
    if x == 0 {
        0
    } else {
        let neg: u64 = if x < 0 {
            1u64
        } else {
            0u64
        };
        let mag: u64 = if x >= 0 {
            x as u64
        } else {
            ((-((x as int) + 1)) + 1) as u64
        };
        let n = msb64(mag, 63);
        if n <= 52 {
            (neg << 63) | (((1023 + n) as u64) << 52) | ((mag << ((52 - n) as u64))
                & 0xfffffffffffff)
        } else {
            let shift = (n - 52) as u64;
            let keep = mag >> shift;
            let rest = mag & (((1u64 << shift) - 1) as u64);
            let half = 1u64 << ((shift - 1) as u64);
            let up = rest > half || (rest == half && keep & 1 == 1);
            let keep2: u64 = if up {
                (keep + 1) as u64
            } else {
                keep
            };
            if keep2 == 0x20000000000000u64 {
                (neg << 63) | (((1023 + n + 1) as u64) << 52) | ((keep2 >> 1) & 0xfffffffffffff)
            } else {
                (neg << 63) | (((1023 + n) as u64) << 52) | (keep2 & 0xfffffffffffff)
            }
        }
    }
}

/// Converts a signed 64-bit integer to the 64-bit pattern of the nearest
/// representable number, ties to even.
pub fn i64_to_f64(x: i64) -> (r: u64)
    ensures
        r == i64_to_f64_bits(x),
{
    if x == 0 {
        return 0;
    }
    let neg: u64 = if x < 0 {
        1u64
    } else {
        0u64
    };
    let mag: u64 = if x >= 0 {
        x as u64
    } else if x == i64::MIN {
        0x8000000000000000u64
    } else {
        (-x) as u64
    };
    proof {
        assert(mag == (if x >= 0 {
            x as int
        } else {
            -((x as int) + 1) + 1
        }));
        assert(mag > 0);
    }
    let n = msb64_find(mag, 63);
    proof {
        lemma_msb64_top(mag, 63);
    }
    if n <= 52 {
        (neg << 63) | ((1023 + n) << 52) | ((mag << (52 - n)) & 0xfffffffffffff)
    } else {
        let shift = n - 52;
        proof {
            assert(1u64 << ((n - 52) as u64) >= 1 && mag >> ((n - 52) as u64)
                < 0x20000000000000u64) by (bit_vector)
                requires
                    52 < n < 64 && mag >> n == 1,
            ;
        }
        let keep = mag >> shift;
        let rest = mag & ((1u64 << shift) - 1);
        let half = 1u64 << (shift - 1);
        let up = rest > half || (rest == half && keep & 1 == 1);
        let keep2: u64 = if up {
            keep + 1
        } else {
            keep
        };
        if keep2 == 0x20000000000000u64 {
            (neg << 63) | ((1023 + n + 1) << 52) | ((keep2 >> 1) & 0xfffffffffffff)
        } else {
            (neg << 63) | ((1023 + n) << 52) | (keep2 & 0xfffffffffffff)
        }
    }
}

/// Above the highest set bit everything is clear: shifting by its index
/// leaves exactly one.
proof fn lemma_msb64_top(m: u64, i: u64)
    requires
        i < 64,
        m > 0,
        i < 63 ==> m >> (i + 1) == 0,
    ensures
        msb64(m, i) <= i,
        m >> msb64(m, i) == 1,
    decreases i,
{
    let n = msb64(m, i);
    if i == 0 {
        assert(m >> 0u64 == 1) by (bit_vector)
            requires
                m > 0 && (0u64 < 63 ==> m >> (0u64 + 1) == 0),
        ;
    } else if (m >> i) & 1 == 1 {
        assert(m >> i == 1) by (bit_vector)
            requires
                i < 64 && (m >> i) & 1 == 1 && (i < 63 ==> m >> (i + 1) == 0),
        ;
    } else {
        assert(m >> (((i - 1) as u64) + 1) == 0) by (bit_vector)
            requires
                0 < i < 64 && (m >> i) & 1 != 1 && (i < 63 ==> m >> (i + 1) == 0),
        ;
        lemma_msb64_top(m, (i - 1) as u64);
    }
}

} // verus!
