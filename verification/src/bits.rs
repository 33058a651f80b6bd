//! Small verified arithmetic helpers: powers of two and base-2 logarithms,
//! stated against `vstd`'s `pow2`.

use vstd::prelude::*;
use vstd::arithmetic::power2::{
    pow2, is_pow2, lemma_pow2_pos, lemma_pow2_unfold, lemma_pow2_strictly_increases, lemma2_to64,
    is_pow2_equiv,
};

verus! {

/// The ceiling of the base-2 logarithm: the smallest `k` with `n <= 2^k`
/// (0 for `n <= 1`).
pub open spec fn log2_ceil_spec(n: nat) -> nat
    decreases n,
{
    if n <= 1 {
        0
    } else {
        1 + log2_ceil_spec(((n + 1) / 2) as nat)
    }
}

/// [`log2_ceil_spec`] is the ceiling of the base-2 logarithm: `2^k`
/// first reaches `n` at `k = log2_ceil_spec(n)`.
pub proof fn lemma_log2_ceil_bounds(n: nat)
    ensures
        n <= pow2(log2_ceil_spec(n)),
        log2_ceil_spec(n) > 0 ==> pow2((log2_ceil_spec(n) - 1) as nat) < n,
    decreases n,
{
    if n <= 1 {
        assert(pow2(0) == 1) by {
            lemma2_to64();
        }
    } else {
        let m = ((n + 1) / 2) as nat;
        assert(1 <= m < n);
        lemma_log2_ceil_bounds(m);
        let l = log2_ceil_spec(m);
        assert(log2_ceil_spec(n) == 1 + l);
        lemma_pow2_unfold((1 + l) as nat);
        assert(pow2(1 + l) == 2 * pow2(l));
        assert(2 * m >= n);
        assert(n <= pow2(1 + l));
        if m == 1 {
            assert(pow2(0) == 1) by {
                lemma2_to64();
            }
            assert(pow2(l) == 1);
        } else {
            assert(l > 0);
            lemma_pow2_unfold(l);
            assert(pow2((l - 1) as nat) < m);
            assert(pow2(l) == 2 * pow2((l - 1) as nat));
            assert(pow2(l) <= 2 * (m - 1));
            assert(2 * m <= n + 1);
        }
        assert(pow2(l) < n);
    }
}

/// The floor of the base-2 logarithm (0 for `n <= 1`); on powers of two,
/// the exact logarithm.
pub open spec fn log2_spec(n: nat) -> nat
    decreases n,
{
    if n <= 1 {
        0
    } else {
        1 + log2_spec(n / 2)
    }
}

/// On a power of two, [`log2_spec`] recovers the exponent.
pub proof fn lemma_log2_pow2(e: nat)
    ensures
        log2_spec(pow2(e)) == e,
    decreases e,
{
    if e == 0 {
        assert(pow2(0) == 1) by {
            lemma2_to64();
        }
    } else {
        lemma_pow2_unfold(e);
        lemma_pow2_pos((e - 1) as nat);
        assert(pow2(e) / 2 == pow2((e - 1) as nat));
        lemma_log2_pow2((e - 1) as nat);
    }
}

/// `pow2` is monotone.
pub proof fn lemma_pow2_le(e1: nat, e2: nat)
    requires
        e1 <= e2,
    ensures
        pow2(e1) <= pow2(e2),
{
    if e1 < e2 {
        lemma_pow2_strictly_increases(e1, e2);
    }
}

/// `pow2` is injective.
pub proof fn lemma_pow2_injective(e1: nat, e2: nat)
    requires
        pow2(e1) == pow2(e2),
    ensures
        e1 == e2,
{
    if e1 < e2 {
        lemma_pow2_strictly_increases(e1, e2);
    }
    if e2 < e1 {
        lemma_pow2_strictly_increases(e2, e1);
    }
}

/// Every value of `pow2` satisfies the recursive power-of-two predicate.
pub proof fn lemma_pow2_is_pow2(e: nat)
    ensures
        is_pow2(pow2(e) as int),
{
    vstd::arithmetic::power::lemma_pow_positive(2, e);
    assert(vstd::arithmetic::power::pow(2, e) == pow2(e));
    assert(vstd::arithmetic::power2::is_pow2_exists(pow2(e) as int));
    is_pow2_equiv(pow2(e) as int);
}

/// An odd number greater than one times a power of two is never itself a
/// power of two.
proof fn lemma_odd_factor_not_pow2(m: nat, k: nat)
    requires
        m % 2 == 1,
        m > 1,
    ensures
        !is_pow2((m * pow2(k)) as int),
    decreases k,
{
    reveal(is_pow2);
    if k == 0 {
        assert(pow2(0) == 1) by {
            lemma2_to64();
        }
    } else {
        lemma_pow2_unfold(k);
        let p = pow2((k - 1) as nat);
        lemma_pow2_pos((k - 1) as nat);
        assert(m * pow2(k) == 2 * (m * p)) by (nonlinear_arith)
            requires
                pow2(k) == 2 * p,
        ;
        assert(m * p > 0) by (nonlinear_arith)
            requires
                m > 1,
                p > 0,
        ;
        lemma_odd_factor_not_pow2(m, (k - 1) as nat);
        assert((2 * (m * p)) as int / 2 == m * p);
    }
}

/// Computes `2^e` exactly.
pub fn pow2_exec(e: usize) -> (r: usize)
    requires
        pow2(e as nat) <= usize::MAX,
    ensures
        r == pow2(e as nat),
{
    let mut r: usize = 1;
    let mut i: usize = 0;
    proof {
        lemma2_to64();
    }
    while i < e
        invariant
            i <= e,
            r == pow2(i as nat),
            pow2(e as nat) <= usize::MAX,
        decreases e - i,
    {
        proof {
            lemma_pow2_unfold((i + 1) as nat);
            lemma_pow2_le((i + 1) as nat, e as nat);
        }
        r = r * 2;
        i = i + 1;
    }
    r
}

/// Returns `Some(log2(n))` when `n` is a power of two, and `None`
/// otherwise.
pub fn checked_log2(n: usize) -> (r: Option<usize>)
    ensures
        match r {
            Some(k) => n == pow2(k as nat) && is_pow2(n as int),
            None => !is_pow2(n as int),
        },
{
    if n == 0 {
        proof {
            reveal(is_pow2);
        }
        return None;
    }
    let mut m: usize = n;
    let mut k: usize = 0;
    proof {
        lemma2_to64();
    }
    while m > 1
        invariant
            1 <= m <= n,
            (n as nat) == (m as nat) * pow2(k as nat),
            (k as nat) + (m as nat) <= n as nat,
        decreases m,
    {
        if m % 2 == 1 {
            proof {
                lemma_odd_factor_not_pow2(m as nat, k as nat);
            }
            return None;
        }
        proof {
            lemma_pow2_unfold((k + 1) as nat);
            lemma_pow2_pos(k as nat);
            assert(((m / 2) as nat) * pow2((k + 1) as nat) == (m as nat) * pow2(k as nat))
                by (nonlinear_arith)
                requires
                    m % 2 == 0,
                    m >= 2,
                    pow2((k + 1) as nat) == 2 * pow2(k as nat),
            ;
            assert((m as nat) * pow2(k as nat) >= m) by (nonlinear_arith)
                requires
                    pow2(k as nat) >= 1,
                    m >= 0,
            ;
        }
        m = m / 2;
        k = k + 1;
    }
    proof {
        assert(n == pow2(k as nat));
        vstd::arithmetic::power::lemma_pow_positive(2, k as nat);
        assert(vstd::arithmetic::power::pow(2, k as nat) == n);
        assert(vstd::arithmetic::power2::is_pow2_exists(n as int));
        is_pow2_equiv(n as int);
    }
    Some(k)
}

/// Computes [`log2_ceil_spec`].
pub fn log2_ceil(n: usize) -> (r: usize)
    ensures
        r == log2_ceil_spec(n as nat),
{
    let mut m: usize = n;
    let mut k: usize = 0;
    while m > 1
        invariant
            log2_ceil_spec(n as nat) == (k as nat) + log2_ceil_spec(m as nat),
            (k as nat) + (m as nat) <= (n as nat) + 1,
        decreases m,
    {
        proof {
            assert((m + 1) / 2 == m / 2 + m % 2);
            assert(m / 2 + m % 2 <= m - 1);
        }
        m = m / 2 + m % 2;
        k = k + 1;
    }
    k
}

} // verus!
