//! Conversion of machine integers to double-precision bit patterns.
//!
//! Payload numbers are compared against double-precision thresholds the way
//! the values themselves would compare after an `as f64` cast, so integer
//! payload values must be rounded to the nearest double (ties to even).
//! The rounding is done here as integer logic on the bits.

use vstd::prelude::*;
use vstd::arithmetic::power2::{
    pow2,
    lemma_pow2_adds,
    lemma_pow2_pos,
    lemma_pow2_strictly_increases,
    lemma2_to64,
    lemma2_to64_rest,
};
use vstd::arithmetic::mul::{
    lemma_mul_inequality,
    lemma_mul_is_commutative,
    lemma_mul_is_distributive_sub,
    lemma_mul_is_associative,
    lemma_mul_basics,
};
use vstd::arithmetic::div_mod::{lemma_div_is_ordered, lemma_fundamental_div_mod_converse};

verus! {

/// The position of the highest set bit of `n` (zero for `n <= 1`).
pub open spec fn spec_floor_log2(n: int) -> nat
    decreases n,
{
    if n < 2 {
        0
    } else {
        1 + spec_floor_log2(n / 2)
    }
}

/// `spec_floor_log2` brackets its argument between two powers of two.
pub proof fn lemma_floor_log2_bounds(n: int)
    requires
        n >= 1,
    ensures
        pow2(spec_floor_log2(n)) <= n < pow2(spec_floor_log2(n) + 1),
    decreases n,
{
    if n < 2 {
        lemma2_to64();
    } else {
        lemma_floor_log2_bounds(n / 2);
        let p = spec_floor_log2(n / 2);
        assert(pow2(p + 1) == 2 * pow2(p)) by {
            lemma_pow2_adds(p, 1);
            lemma2_to64();
        }
        assert(pow2(p + 2) == 2 * pow2(p + 1)) by {
            lemma_pow2_adds(p + 1, 1);
            lemma2_to64();
        }
    }
}

/// The highest set bit position of `n`.
pub fn floor_log2(n: u64) -> (p: usize)
    requires
        n >= 1,
    ensures
        p == spec_floor_log2(n as int),
        p <= 63,
        pow2(p as nat) <= n < pow2(p as nat + 1),
{
    let mut m: u64 = n;
    let mut p: usize = 0;
    proof {
        lemma2_to64();
        lemma_mul_basics(m as int);
    }
    while m >= 2
        invariant
            m >= 1,
            p <= 63,
            pow2(p as nat) * m <= n,
            spec_floor_log2(n as int) == p + spec_floor_log2(m as int),
        decreases m,
    {
        proof {
            lemma_pow2_adds(p as nat, 1);
            lemma2_to64();
            // pow2(p + 1) * (m / 2) <= pow2(p) * m.
            lemma_mul_inequality(2 * (m as int / 2), m as int, pow2(p as nat) as int);
            lemma_mul_is_commutative(2 * (m as int / 2), pow2(p as nat) as int);
            lemma_mul_is_commutative(m as int, pow2(p as nat) as int);
            lemma_mul_is_associative(pow2(p as nat) as int, 2, m as int / 2);
            assert(pow2(p as nat + 1) * (m as int / 2) <= n);
            // The next position still fits: pow2(p + 1) <= n < pow2(64).
            lemma_mul_inequality(1, m as int / 2, pow2(p as nat + 1) as int);
            lemma_mul_is_commutative(1, pow2(p as nat + 1) as int);
            lemma_mul_is_commutative(m as int / 2, pow2(p as nat + 1) as int);
            lemma_mul_basics(pow2(p as nat + 1) as int);
            if p + 1 > 63 {
                lemma_pow2_strictly_increases(64, p as nat + 1);
                lemma2_to64_rest();
            }
        }
        m = m / 2;
        p = p + 1;
    }
    proof {
        lemma_floor_log2_bounds(n as int);
    }
    p
}

/// Two to the power `k`, as a machine word.
pub fn pow2_u64(k: usize) -> (r: u64)
    requires
        k <= 63,
    ensures
        r == pow2(k as nat),
        r >= 1,
{
    let mut i: usize = 0;
    let mut r: u64 = 1;
    proof {
        lemma2_to64();
    }
    while i < k
        invariant
            i <= k <= 63,
            r == pow2(i as nat),
        decreases k - i,
    {
        proof {
            lemma_pow2_adds(i as nat, 1);
            lemma2_to64();
            if i + 1 < 64 {
                lemma_pow2_strictly_increases(i as nat + 1, 64);
            }
            lemma2_to64_rest();
        }
        r = r * 2;
        i = i + 1;
    }
    proof {
        lemma_pow2_pos(k as nat);
    }
    r
}

/// The double-precision bit pattern nearest to `n`, ties to even: what the
/// value of `n as f64` carries.
pub open spec fn spec_f64_bits_of_u64(n: u64) -> int {
    if n == 0 {
        0
    } else {
        let p = spec_floor_log2(n as int) as int;
        if p <= 52 {
            (1022 + p) * 0x10_0000_0000_0000 + n * pow2((52 - p) as nat)
        } else {
            let pw = pow2((p - 52) as nat) as int;
            let m0 = n as int / pw;
            let rest = n as int % pw;
            let half = pw / 2;
            let m1 = if rest > half || (rest == half && m0 % 2 == 1) {
                m0 + 1
            } else {
                m0
            };
            if m1 == 0x20_0000_0000_0000 {
                (1024 + p) * 0x10_0000_0000_0000
            } else {
                (1022 + p) * 0x10_0000_0000_0000 + m1
            }
        }
    }
}

/// The double-precision bit pattern of `i as f64`: the magnitude rounded as
/// for an unsigned value, with the sign bit put back on top.
pub open spec fn spec_f64_bits_of_i64(i: i64) -> int {
    if i >= 0 {
        spec_f64_bits_of_u64(i as u64)
    } else {
        0x8000_0000_0000_0000 + spec_f64_bits_of_u64((-(i as int)) as u64)
    }
}

/// Round `n` to the nearest double, returning its bit pattern.
pub fn f64_bits_of_u64(n: u64) -> (r: u64)
    ensures
        r as int == spec_f64_bits_of_u64(n),
        r < 0x8000_0000_0000_0000,
{
    if n == 0 {
        return 0;
    }
    let p = floor_log2(n);
    if p <= 52 {
        let pw = pow2_u64(52 - p);
        proof {
            lemma_pow2_adds((52 - p) as nat, p as nat + 1);
            lemma_mul_inequality(n as int, pow2(p as nat + 1) as int - 1, pw as int);
            lemma_mul_is_commutative(n as int, pw as int);
            lemma_mul_is_commutative(pow2(p as nat + 1) as int - 1, pw as int);
            lemma_mul_is_distributive_sub(pw as int, pow2(p as nat + 1) as int, 1);
            lemma2_to64_rest();
            assert(n * pw <= pow2(53) - pw);
        }
        (1022 + p as u64) * 0x10_0000_0000_0000 + n * pw
    } else {
        let pw = pow2_u64(p - 52);
        let m0 = n / pw;
        let rest = n % pw;
        let half = pw / 2;
        proof {
            lemma_pow2_pos((p - 52) as nat);
            lemma2_to64_rest();
            // 2^52 <= m0 < 2^53.
            assert(m0 >= 0x10_0000_0000_0000) by {
                lemma_pow2_adds(52, (p - 52) as nat);
                lemma_fundamental_div_mod_converse(
                    pow2(p as nat) as int,
                    pw as int,
                    pow2(52) as int,
                    0,
                );
                lemma_div_is_ordered(pow2(p as nat) as int, n as int, pw as int);
                lemma2_to64_rest();
            }
            assert(m0 < 0x20_0000_0000_0000) by {
                lemma_pow2_adds(53, (p - 52) as nat);
                lemma_mul_is_distributive_sub(pw as int, pow2(53) as int, 1);
                lemma_mul_is_commutative(pw as int, pow2(53) as int);
                lemma_mul_is_commutative(pw as int, pow2(53) as int - 1);
                lemma_fundamental_div_mod_converse(
                    pow2(p as nat + 1) as int - 1,
                    pw as int,
                    pow2(53) as int - 1,
                    pw as int - 1,
                );
                lemma_div_is_ordered(n as int, pow2(p as nat + 1) as int - 1, pw as int);
                lemma2_to64_rest();
            }
        }
        let m1 = if rest > half || (rest == half && m0 % 2 == 1) {
            m0 + 1
        } else {
            m0
        };
        if m1 == 0x20_0000_0000_0000 {
            (1024 + p as u64) * 0x10_0000_0000_0000
        } else {
            (1022 + p as u64) * 0x10_0000_0000_0000 + m1
        }
    }
}

/// Round `i` to the nearest double, returning its bit pattern.
pub fn f64_bits_of_i64(i: i64) -> (r: u64)
    ensures
        r as int == spec_f64_bits_of_i64(i),
{
    if i >= 0 {
        f64_bits_of_u64(i as u64)
    } else {
        let mag: u64 = if i == i64::MIN {
            0x8000_0000_0000_0000
        } else {
            (-i) as u64
        };
        let body = f64_bits_of_u64(mag);
        0x8000_0000_0000_0000 + body
    }
}

} // verus!
