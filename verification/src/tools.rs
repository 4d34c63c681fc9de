//! The integer square root primitive used to weight votes.

use vstd::prelude::*;

verus! {

use vstd::arithmetic::div_mod::lemma_fundamental_div_mod;
use vstd::arithmetic::power2::{
    pow2, lemma_pow2_adds, lemma_pow2_unfold, lemma_pow2_pos, lemma_pow2_strictly_increases,
    lemma2_to64, lemma2_to64_rest,
};

/// Floor of the square root of `n`, defined by counting upward.
pub open spec fn isqrt(n: nat) -> nat
    decreases n,
{
    if n == 0 {
        0
    } else {
        let r = isqrt((n - 1) as nat);
        if (r + 1) * (r + 1) <= n {
            r + 1
        } else {
            r
        }
    }
}

/// The floor square root is exactly the value whose square is below `n`
/// while the next square is above it.
pub proof fn lemma_isqrt_bounds(n: nat)
    ensures
        isqrt(n) * isqrt(n) <= n,
        n < (isqrt(n) + 1) * (isqrt(n) + 1),
    decreases n,
{
    if n == 0 {
        let s = isqrt(n);
        assert(s == 0);
        assert((s + 1) * (s + 1) == 1) by (nonlinear_arith)
            requires s == 0;
    } else {
        lemma_isqrt_bounds((n - 1) as nat);
        let r = isqrt((n - 1) as nat);
        assert(r * r <= n - 1);
        assert(n - 1 < (r + 1) * (r + 1));
        if (r + 1) * (r + 1) <= n {
            assert(isqrt(n) == r + 1);
            assert((r + 1) * (r + 1) < (r + 2) * (r + 2)) by (nonlinear_arith)
                requires r >= 0;
            assert(n < (isqrt(n) + 1) * (isqrt(n) + 1));
        } else {
            assert(isqrt(n) == r);
            assert(n < (r + 1) * (r + 1));
        }
    }
}

/// Any value that sits between the two squares is the floor square root.
pub proof fn lemma_isqrt_unique(n: nat, r: nat)
    requires
        r * r <= n,
        n < (r + 1) * (r + 1),
    ensures
        r == isqrt(n),
{
    lemma_isqrt_bounds(n);
    let s = isqrt(n);
    if r < s {
        assert((r + 1) * (r + 1) <= s * s) by (nonlinear_arith)
            requires r + 1 <= s;
    }
    if s < r {
        assert((s + 1) * (s + 1) <= r * r) by (nonlinear_arith)
            requires s + 1 <= r;
    }
}

/// Computes the integer (floor) square root of a non-negative number with
/// the restoring bit-shifting method: no floating point, constant space.
#[verifier::loop_isolation(false)]
pub fn sqrt_fast(v: i64) -> (res: i64)
    requires
        v >= 0,
    ensures
        res >= 0,
        res as nat == isqrt(v as nat),
        res * res <= v,
        v < (res + 1) * (res + 1),
{
    let n: u64 = v as u64;
    let mut b: u64 = 1u64 << 62u64;
    let mut q: u64 = 0;
    let mut r: u64 = n;
    let ghost mut k: nat = 31;

    proof {
        lemma2_to64();
        lemma2_to64_rest();
        assert(1u64 << 62u64 == 0x4000000000000000u64) by (bit_vector);
    }

    while b > r
        invariant
            r == n,
            q == 0,
            k <= 31,
            b > 0 ==> b == pow2(2 * k),
            b > 0 ==> (n as nat) < pow2(2 * k + 2),
            b == 0 ==> n == 0,
        decreases b,
    {
        let ghost b0 = b;
        b = b >> 2u64;
        proof {
            lemma2_to64();
            assert(b0 >> 2u64 == b0 / 4) by (bit_vector);
            if k == 0 {
                // b0 == pow2(0) == 1 and the guard gives n < 1, so n == 0.
                assert(b == 0);
            } else {
                lemma_pow2_adds(2 * ((k - 1) as nat), 2);
                assert(b == pow2(2 * ((k - 1) as nat)));
                k = (k - 1) as nat;
                // the guard `b0 > n` is exactly the new upper bound
                assert((n as nat) < pow2(2 * k + 2));
            }
        }
    }

    let ghost mut p: nat = 0;
    proof {
        if b == 0 {
            assert((p + 1) * (p + 1) == 1) by (nonlinear_arith)
                requires p == 0;
        }
        if b > 0 {
            lemma_pow2_pos(k);
            lemma_pow2_adds(k, k);
            lemma_pow2_adds(2 * k, 2);
            let x = pow2(k);
            assert((2 * x) * (2 * x) == 4 * (x * x)) by (nonlinear_arith);
            assert(2 * p * x == 0) by (nonlinear_arith)
                requires p == 0;
            vstd::arithmetic::div_mod::lemma_small_mod(0, 2 * x);
            assert((n as nat) < (p + 2 * pow2(k)) * (p + 2 * pow2(k)));
        }
    }

    while b > 0
        invariant
            p * p <= n as nat,
            r as nat == n as nat - p * p,
            k <= 31,
            b > 0 ==> b == pow2(2 * k),
            b > 0 ==> q as nat == 2 * p * pow2(k),
            b > 0 ==> (n as nat) < (p + 2 * pow2(k)) * (p + 2 * pow2(k)),
            b > 0 ==> p % (2 * pow2(k)) == 0,
            b == 0 ==> q as nat == p,
            b == 0 ==> (n as nat) < (p + 1) * (p + 1),
        decreases b,
    {
        let ghost m = pow2(k);
        let ghost p0 = p;
        let ghost j = p0 / (2 * m);

        proof {
            lemma2_to64();
            lemma2_to64_rest();
            lemma_pow2_pos(k);
            lemma_pow2_adds(k, k);
            assert(b == m * m);
            lemma_fundamental_div_mod(p0 as int, (2 * m) as int);
            assert(p0 == 2 * m * j);
            // q + b fits in 64 bits: it is m^2 * (4j + 1), where 4 * m^2 * j
            // is at most p0^2 <= n and m^2 == b <= 2^62.
            assert(q as nat + b as nat == 4 * (m * m) * j + m * m) by (nonlinear_arith)
                requires q as nat == 2 * p0 * m, b as nat == m * m, p0 == 2 * m * j;
            if j > 0 {
                assert(4 * (m * m) * j <= (2 * m * j) * (2 * m * j)) by (nonlinear_arith)
                    requires j >= 1, m >= 1;
                assert(4 * (m * m) * j <= p0 * p0);
            } else {
                assert(4 * (m * m) * j == 0) by (nonlinear_arith)
                    requires j == 0;
            }
            assert(b <= 0x4000000000000000u64) by {
                if b > 0x4000000000000000u64 {
                    if 2 * k < 62 {
                        lemma_pow2_strictly_increases(2 * k, 62);
                    }
                    assert(false);
                }
            }
            assert(q as nat + b as nat <= n as nat + 0x4000000000000000);
        }

        let t: u64 = q + b;
        let ghost q0 = q;
        q = q >> 1u64;
        proof {
            assert(q0 >> 1u64 == q0 / 2) by (bit_vector);
            assert(q as nat == p0 * m) by (nonlinear_arith)
                requires q as nat == (2 * p0 * m) / 2;
        }

        if r >= t {
            r = r - t;
            q = q + b;
            proof {
                p = p0 + m;
                assert(p * p == p0 * p0 + (2 * p0 * m + m * m)) by (nonlinear_arith)
                    requires p == p0 + m;
                assert(q as nat == p * m) by (nonlinear_arith)
                    requires q as nat == p0 * m + m * m, p == p0 + m;
            }
        } else {
            proof {
                assert(q as nat == p * m);
                // the digit was not taken, so n stays below (p + m)^2
                assert(t as nat == 2 * p0 * m + m * m);
                assert((n as nat) < (p0 + m) * (p0 + m)) by (nonlinear_arith)
                    requires
                        (n as nat) - p0 * p0 == r as nat,
                        p0 * p0 <= n as nat,
                        (r as nat) < 2 * p0 * m + m * m;
            }
        }

        let ghost b1 = b;
        b = b >> 2u64;
        proof {
            lemma2_to64();
            assert(b1 >> 2u64 == b1 / 4) by (bit_vector);
            if k == 0 {
                // last digit: m == 1, so b becomes 0 and q holds the root.
                assert(p * m == p) by (nonlinear_arith)
                    requires m == 1;
                assert(q as nat == p);
                assert((n as nat) < (p + 1) * (p + 1)) by (nonlinear_arith)
                    requires
                        m == 1,
                        ((n as nat) < (p0 + 2 * m) * (p0 + 2 * m) && p == p0 + m)
                            || ((n as nat) < (p0 + m) * (p0 + m) && p == p0);
            } else {
                lemma_pow2_unfold(k);
                lemma_pow2_adds(2 * ((k - 1) as nat), 2);
                assert(b == pow2(2 * ((k - 1) as nat)));
                k = (k - 1) as nat;
                let ghost m1 = pow2(k);
                assert(m == 2 * m1);
                assert(q as nat == 2 * p * m1) by (nonlinear_arith)
                    requires q as nat == p * m, m == 2 * m1;
                assert((n as nat) < (p + 2 * m1) * (p + 2 * m1)) by (nonlinear_arith)
                    requires
                        m == 2 * m1,
                        ((n as nat) < (p0 + 2 * m) * (p0 + 2 * m) && p == p0 + m)
                            || ((n as nat) < (p0 + m) * (p0 + m) && p == p0);
                if p == p0 + m {
                    assert(p == (2 * j + 1) * (2 * m1)) by (nonlinear_arith)
                        requires p == 2 * m * j + m, m == 2 * m1;
                    vstd::arithmetic::div_mod::lemma_mod_multiples_basic(
                        (2 * j + 1) as int, (2 * m1) as int);
                } else {
                    assert(p == (2 * j) * (2 * m1)) by (nonlinear_arith)
                        requires p == 2 * m * j, m == 2 * m1;
                    vstd::arithmetic::div_mod::lemma_mod_multiples_basic(
                        (2 * j) as int, (2 * m1) as int);
                }
                assert(p % (2 * m1) == 0);
            }
        }
    }

    proof {
        // the root of a 63-bit value fits comfortably in an i64
        if p >= 0x100000000 {
            assert(p * p >= 0x100000000 * 0x100000000) by (nonlinear_arith)
                requires p >= 0x100000000;
        }
        lemma_isqrt_unique(n as nat, p);
    }
    q as i64
}

} // verus!
