//! Tone mapping: clamp to [0, 1], gamma-correct with exponent 1/2.2, and
//! quantize to an 8-bit channel.
//!
//! Since 1/2.2 equals 5/11 exactly, the mapped level is characterized
//! without real arithmetic: the output is the largest `k <= 255` with
//! `(k/255)^11 <= (x/65536)^5`, that is, with
//! `k^11 * 2^80 <= x^5 * 255^11` on the clamped input.  The comparison
//! is carried out exactly in 128-bit words.  The map is monotone and
//! sends 0 to 0 and 1 to 255.

use crate::fixed::clamp01_spec;
use vstd::arithmetic::div_mod::lemma_fundamental_div_mod;
use vstd::prelude::*;

verus! {

/// Fifth power of an integer.
pub open spec fn pow5(x: int) -> int {
    x * x * x * x * x
}

/// Eleventh power of an integer.
pub open spec fn pow11(k: int) -> int {
    k * k * k * k * k * k * k * k * k * k * k
}

/// Does quantized level `k` stay below the gamma curve at clamped
/// brightness `c`?
pub open spec fn tone_level_le(c: int, k: int) -> bool {
    pow11(k) * 0x1_0000_0000_0000_0000_0000 <= pow5(c) * pow11(255)
}

/// The tone-mapped 8-bit level of a linear Q16.16 channel value.
pub open spec fn tone_spec(x: int) -> int {
    let c = clamp01_spec(x);
    choose|k: int|
        0 <= k <= 255 && #[trigger] tone_level_le(c, k) && (k == 255 || !tone_level_le(c, k + 1))
}

/// Eleventh powers of nonnegative integers are monotone.
pub proof fn lemma_pow11_mono(a: int, b: int)
    requires
        0 <= a <= b,
    ensures
        0 <= pow11(a) <= pow11(b),
{
    assert(0 <= pow11(a) <= pow11(b)) by (nonlinear_arith)
        requires
            0 <= a <= b,
            pow11(a) == a * a * a * a * a * a * a * a * a * a * a,
            pow11(b) == b * b * b * b * b * b * b * b * b * b * b,
    ;
}

/// Fifth powers of nonnegative integers are monotone.
pub proof fn lemma_pow5_mono(a: int, b: int)
    requires
        0 <= a <= b,
    ensures
        0 <= pow5(a) <= pow5(b),
{
    assert(0 <= a * a * a * a * a <= b * b * b * b * b) by (nonlinear_arith)
        requires
            0 <= a <= b,
    ;
}

/// Some level satisfies the defining inequalities of `tone_spec`.
proof fn lemma_tone_level_exists(c: int, n: int)
    requires
        0 <= c,
        0 <= n <= 255,
    ensures
        exists|k: int|
            0 <= k <= n && #[trigger] tone_level_le(c, k) && (k == n || !tone_level_le(c, k + 1)),
    decreases n,
{
    lemma_pow11_mono(0, 255);
    lemma_pow5_mono(0, c);
    assert(pow11(0) == 0) by (nonlinear_arith);
    assert(pow5(c) * pow11(255) >= 0) by (nonlinear_arith)
        requires
            pow5(c) >= 0,
            pow11(255) >= 0,
    ;
    assert(pow11(0) * 0x1_0000_0000_0000_0000_0000 == 0) by (nonlinear_arith);
    if n == 0 {
        assert(tone_level_le(c, 0) && (0 == n || !tone_level_le(c, 0int + 1)));
    } else {
        lemma_tone_level_exists(c, n - 1);
        let k = choose|k: int|
            0 <= k <= n - 1 && #[trigger] tone_level_le(c, k) && (k == n - 1 || !tone_level_le(
                c,
                k + 1,
            ));
        if k == n - 1 && tone_level_le(c, n) {
            assert(tone_level_le(c, n) && (n == n || !tone_level_le(c, n + 1)));
        } else {
            assert(tone_level_le(c, k) && (k == n || !tone_level_le(c, k + 1)));
        }
    }
}

/// There is exactly one level satisfying the defining inequalities of
/// `tone_spec`, so any witness is the tone-mapped value.
pub proof fn lemma_tone_level_unique(x: int, k: int)
    requires
        0 <= k <= 255,
        tone_level_le(clamp01_spec(x), k),
        k == 255 || !tone_level_le(clamp01_spec(x), k + 1),
    ensures
        k == tone_spec(x),
{
    let c = clamp01_spec(x);
    lemma_tone_level_exists(c, 255);
    let w = tone_spec(x);
    assert(0 <= w <= 255 && tone_level_le(c, w) && (w == 255 || !tone_level_le(c, w + 1)));
    if w < k {
        lemma_pow11_mono(w + 1, k);
        assert(pow11(w + 1) * 0x1_0000_0000_0000_0000_0000 <= pow11(k)
            * 0x1_0000_0000_0000_0000_0000) by (nonlinear_arith)
            requires
                pow11(w + 1) <= pow11(k),
        ;
    }
    if k < w {
        lemma_pow11_mono(k + 1, w);
        assert(pow11(k + 1) * 0x1_0000_0000_0000_0000_0000 <= pow11(w)
            * 0x1_0000_0000_0000_0000_0000) by (nonlinear_arith)
            requires
                pow11(k + 1) <= pow11(w),
        ;
    }
}

/// Tone mapping is monotone, non-decreasing per channel.
pub proof fn lemma_tone_mono(x1: int, x2: int)
    requires
        x1 <= x2,
    ensures
        tone_spec(x1) <= tone_spec(x2),
{
    let c1 = clamp01_spec(x1);
    let c2 = clamp01_spec(x2);
    lemma_pow5_mono(c1, c2);
    lemma_tone_level_exists(c1, 255);
    lemma_tone_level_exists(c2, 255);
    let k1 = tone_spec(x1);
    let k2 = tone_spec(x2);
    assert(0 <= k1 <= 255 && tone_level_le(c1, k1) && (k1 == 255 || !tone_level_le(c1, k1 + 1)));
    assert(0 <= k2 <= 255 && tone_level_le(c2, k2) && (k2 == 255 || !tone_level_le(c2, k2 + 1)));
    if k2 < k1 {
        lemma_pow11_mono(0, 255);
        assert(pow5(c1) * pow11(255) <= pow5(c2) * pow11(255)) by (nonlinear_arith)
            requires
                pow5(c1) <= pow5(c2),
                0 <= pow11(255),
        ;
        lemma_pow11_mono(k2 + 1, k1);
        assert(pow11(k2 + 1) * 0x1_0000_0000_0000_0000_0000 <= pow11(k1)
            * 0x1_0000_0000_0000_0000_0000) by (nonlinear_arith)
            requires
                pow11(k2 + 1) <= pow11(k1),
        ;
    }
}

/// The ends of the unit interval map to the ends of the byte range.
pub proof fn lemma_tone_endpoints()
    ensures
        tone_spec(0) == 0,
        tone_spec(65536) == 255,
{
    assert(pow5(0) == 0 && pow11(0) == 0 && pow11(1) == 1) by (nonlinear_arith);
    assert(pow11(0) * 0x1_0000_0000_0000_0000_0000 <= pow5(0) * pow11(255)) by (nonlinear_arith)
        requires
            pow5(0) == 0 && pow11(0) == 0,
    ;
    assert(pow11(255) >= 1) by {
        lemma_pow11_mono(1, 255);
    }
    assert(!tone_level_le(0, 1)) by {
        assert(pow11(1) * 0x1_0000_0000_0000_0000_0000 > 0) by (nonlinear_arith)
            requires
                pow11(1) == 1,
        ;
    }
    lemma_tone_level_unique(0, 0);
    assert(pow5(65536) == 0x1_0000_0000_0000_0000_0000) by (nonlinear_arith);
    assert(tone_level_le(65536, 255)) by {
        assert(pow11(255) * 0x1_0000_0000_0000_0000_0000 == pow5(65536) * pow11(255))
            by (nonlinear_arith)
            requires
                pow5(65536) == 0x1_0000_0000_0000_0000_0000,
        ;
    }
    lemma_tone_level_unique(65536, 255);
}

/// Eleventh power of a small integer, exactly.
fn pow11_exec(k: u64) -> (r: u128)
    requires
        k <= 255,
    ensures
        r == pow11(k as int),
        r < 0x100_0000_0000_0000_0000_0000,
{
    proof {
        assert((k as int) * (k as int) <= 65025) by (nonlinear_arith)
            requires
                0 <= (k as int) <= 255,
        ;
    }
    let k2: u128 = (k as u128) * (k as u128);
    proof {
        assert(k2 * k2 <= 65025 * 65025) by (nonlinear_arith)
            requires
                0 <= k2 <= 65025,
        ;
    }
    let k4: u128 = k2 * k2;
    proof {
        assert(k4 * k4 <= (65025 * 65025) * (65025 * 65025)) by (nonlinear_arith)
            requires
                0 <= k4 <= 65025 * 65025,
        ;
    }
    let k8: u128 = k4 * k4;
    proof {
        assert(k8 * k2 <= 0x1_0000_0000_0000_0000_0000) by (nonlinear_arith)
            requires
                0 <= k8 <= (65025 * 65025) * (65025 * 65025),
                0 <= k2 <= 65025,
        ;
    }
    let k10: u128 = k8 * k2;
    proof {
        assert(k10 * (k as int) < 0x100_0000_0000_0000_0000_0000) by (nonlinear_arith)
            requires
                0 <= k10 <= 0x1_0000_0000_0000_0000_0000,
                0 <= (k as int) <= 255,
        ;
        assert(k10 * (k as int) == pow11(k as int)) by (nonlinear_arith)
            requires
                k2 == (k as int) * (k as int),
                k4 == k2 * k2,
                k8 == k4 * k4,
                k10 == k8 * k2,
        ;
    }
    k10 * (k as u128)
}

/// Decide `m * 2^80 <= n * c` exactly, though the products overflow
/// 128 bits, by splitting `n` at 2^40.
fn wide_le(m: u128, n: u128, c: u128) -> (r: bool)
    requires
        m < 0x100_0000_0000_0000_0000_0000,
        n <= 0x1_0000_0000_0000_0000_0000,
        c < 0x100_0000_0000_0000_0000_0000,
    ensures
        r == ((m as int) * 0x1_0000_0000_0000_0000_0000 <= (n as int) * (c as int)),
{
    let q: u128 = n / 0x100_0000_0000;
    let w: u128 = n % 0x100_0000_0000;
    proof {
        lemma_fundamental_div_mod(n as int, 0x100_0000_0000);
        assert((m as int) * 0x100_0000_0000 < 0x1_0000_0000_0000_0000_0000_0000_0000_0000
            && (q as int) * (c as int) < 0x1_0000_0000_0000_0000_0000_0000_0000_0000 && (w as int)
            * (c as int) < 0x1_0000_0000_0000_0000_0000_0000_0000_0000) by (nonlinear_arith)
            requires
                0 <= (m as int) < 0x100_0000_0000_0000_0000_0000,
                0 <= (q as int) <= 0x100_0000_0000,
                0 <= (w as int) < 0x100_0000_0000,
                0 <= (c as int) < 0x100_0000_0000_0000_0000_0000,
                (q as int) * 0x100_0000_0000 <= (n as int),
                n <= 0x1_0000_0000_0000_0000_0000,
        ;
        assert((q as int) <= 0x100_0000_0000) by (nonlinear_arith)
            requires
                (q as int) * 0x100_0000_0000 <= (n as int),
                n <= 0x1_0000_0000_0000_0000_0000,
                0 <= q as int,
        ;
        assert((n as int) * (c as int) == ((q as int) * (c as int)) * 0x100_0000_0000 + (w as int)
            * (c as int)) by (nonlinear_arith)
            requires
                (n as int) == (q as int) * 0x100_0000_0000 + (w as int),
        ;
        assert((m as int) * 0x1_0000_0000_0000_0000_0000 == ((m as int) * 0x100_0000_0000)
            * 0x100_0000_0000) by (nonlinear_arith);
    }
    let lhs: u128 = m * 0x100_0000_0000;
    let rhs: u128 = q * c;
    let low: u128 = w * c;
    if lhs <= rhs {
        proof {
            assert(((lhs as int)) * 0x100_0000_0000 <= ((rhs as int)) * 0x100_0000_0000 + (
            low as int)) by (nonlinear_arith)
                requires
                    (lhs as int) <= (rhs as int),
                    (low as int) >= 0,
            ;
        }
        true
    } else {
        let d: u128 = lhs - rhs;
        if d >= 0x100_0000_0000_0000_0000_0000 {
            proof {
                assert((d as int) * 0x100_0000_0000 > low as int) by (nonlinear_arith)
                    requires
                        (d as int) >= 0x100_0000_0000_0000_0000_0000,
                        (low as int) < 0x1_0000_0000_0000_0000_0000_0000_0000_0000,
                ;
                assert((lhs as int) * 0x100_0000_0000 > (rhs as int) * 0x100_0000_0000 + (
                low as int)) by (nonlinear_arith)
                    requires
                        (d as int) * 0x100_0000_0000 > low as int,
                        (d as int) == (lhs as int) - (rhs as int),
                ;
            }
            false
        } else {
            proof {
                assert(((d as int) * 0x100_0000_0000 <= low as int) == ((lhs as int)
                    * 0x100_0000_0000 <= (rhs as int) * 0x100_0000_0000 + (low as int)))
                    by (nonlinear_arith)
                    requires
                        (d as int) == (lhs as int) - (rhs as int),
                ;
                assert((d as int) * 0x100_0000_0000 < 0x1_0000_0000_0000_0000_0000_0000_0000_0000)
                    by (nonlinear_arith)
                    requires
                        0 <= (d as int) < 0x100_0000_0000_0000_0000_0000,
                ;
            }
            d * 0x100_0000_0000 <= low
        }
    }
}

/// Tone-map one linear Q16.16 channel to an 8-bit level: clamp, apply
/// gamma 1/2.2, scale by 255 and truncate.
pub fn tone_channel(x: i64) -> (r: u8)
    ensures
        r == tone_spec(x as int),
{
    let c: i64 = crate::fixed::fx_clamp01(x);
    let cu: u128 = c as u128;
    proof {
        assert(cu * cu <= 0x1_0000_0000) by (nonlinear_arith)
            requires
                0 <= cu <= 65536,
        ;
    }
    let c2: u128 = cu * cu;
    proof {
        assert(c2 * c2 <= 0x1_0000_0000_0000_0000) by (nonlinear_arith)
            requires
                0 <= c2 <= 0x1_0000_0000,
        ;
    }
    let c4: u128 = c2 * c2;
    proof {
        assert(c4 * cu <= 0x1_0000_0000_0000_0000_0000) by (nonlinear_arith)
            requires
                0 <= c4 <= 0x1_0000_0000_0000_0000,
                0 <= cu <= 65536,
        ;
    }
    let c5: u128 = c4 * cu;
    proof {
        assert(c5 == pow5(c as int)) by (nonlinear_arith)
            requires
                cu == c as int,
                c2 == cu * cu,
                c4 == c2 * c2,
                c5 == c4 * cu,
        ;
    }
    let big_c: u128 = pow11_exec(255);
    let mut lo: u64 = 0;
    let mut hi: u64 = 256;
    proof {
        assert(pow11(0) == 0) by (nonlinear_arith);
        assert(pow11(0) * 0x1_0000_0000_0000_0000_0000 == 0) by (nonlinear_arith);
        assert(pow5(c as int) * pow11(255) >= 0) by (nonlinear_arith)
            requires
                pow5(c as int) >= 0,
                pow11(255) >= 0,
        ;
        assert(tone_level_le(c as int, 0));
    }
    while lo + 1 < hi
        invariant
            lo < hi <= 256,
            tone_level_le(c as int, lo as int),
            hi <= 255 ==> !tone_level_le(c as int, hi as int),
            c5 == pow5(c as int),
            c5 <= 0x1_0000_0000_0000_0000_0000,
            big_c == pow11(255),
            big_c < 0x100_0000_0000_0000_0000_0000,
        decreases hi - lo,
    {
        let mid: u64 = lo + (hi - lo) / 2;
        let p: u128 = pow11_exec(mid);
        if wide_le(p, c5, big_c) {
            lo = mid;
        } else {
            hi = mid;
        }
    }
    proof {
        assert(lo + 1 == hi);
        assert(lo == 255 || !tone_level_le(c as int, lo + 1));
        assert(c as int == clamp01_spec(x as int));
        lemma_tone_level_unique(x as int, lo as int);
    }
    lo as u8
}

} // verus!
