//! Powers of two: the arithmetic behind block sizes and size classes.

use vstd::prelude::*;

verus! {

/// Two to the power `k`.
pub open spec fn pow2(k: nat) -> nat
    decreases k,
{
    if k == 0 {
        1
    } else {
        2 * pow2((k - 1) as nat)
    }
}

/// `n` is a power of two.
pub open spec fn is_pow2(n: int) -> bool {
    exists|k: nat| n == #[trigger] pow2(k)
}

/// The least power of two that is not below `n`.
pub open spec fn next_pow2(n: nat) -> nat
    decreases n,
{
    if n <= 1 {
        1
    } else {
        2 * next_pow2(((n + 1) / 2) as nat)
    }
}

/// The base-two logarithm of `n`, rounded down; zero for `n == 0`.
pub open spec fn log2(n: nat) -> nat
    decreases n,
{
    if n <= 1 {
        0
    } else {
        1 + log2(n / 2)
    }
}

/// `a + b`, counted round from `usize::MAX` to zero as an atomic counter does.
pub open spec fn wrap_add(a: usize, b: usize) -> usize {
    if a + b <= usize::MAX {
        (a + b) as usize
    } else {
        (a + b - usize::MAX - 1) as usize
    }
}

/// `a - b`, counted round from zero to `usize::MAX` as an atomic counter does.
pub open spec fn wrap_sub(a: usize, b: usize) -> usize {
    if a >= b {
        (a - b) as usize
    } else {
        (a - b + usize::MAX + 1) as usize
    }
}

pub proof fn lemma_pow2_positive(k: nat)
    ensures
        pow2(k) >= 1,
    decreases k,
{
    if k > 0 {
        lemma_pow2_positive((k - 1) as nat);
    }
}

pub proof fn lemma_pow2_double(k: nat)
    ensures
        pow2(k + 1) == 2 * pow2(k),
{
}

pub proof fn lemma_pow2_monotonic(j: nat, k: nat)
    requires
        j <= k,
    ensures
        pow2(j) <= pow2(k),
    decreases k,
{
    lemma_pow2_positive(j);
    if j < k {
        lemma_pow2_monotonic(j, (k - 1) as nat);
    }
}

/// A power of two that exceeds another is at least twice as large.
pub proof fn lemma_pow2_gap(j: nat, k: nat)
    requires
        pow2(j) < pow2(k),
    ensures
        j < k,
        2 * pow2(j) <= pow2(k),
{
    if j >= k {
        lemma_pow2_monotonic(k, j);
    }
    lemma_pow2_monotonic(j + 1, k);
}

pub proof fn lemma_log2_of_pow2(k: nat)
    ensures
        log2(pow2(k)) == k,
    decreases k,
{
    lemma_pow2_positive(k);
    if k > 0 {
        lemma_pow2_positive((k - 1) as nat);
        lemma_log2_of_pow2((k - 1) as nat);
        assert(pow2(k) / 2 == pow2((k - 1) as nat));
    }
}

/// The power of a sum is the product of the powers.
pub proof fn lemma_pow2_adds(a: nat, b: nat)
    ensures
        pow2(a + b) == pow2(a) * pow2(b),
    decreases b,
{
    if b == 0 {
        assert(pow2(a) * 1 == pow2(a));
    } else {
        lemma_pow2_adds(a, (b - 1) as nat);
        assert(pow2(a + b) == 2 * pow2((a + b - 1) as nat));
        assert(2 * (pow2(a) * pow2((b - 1) as nat)) == pow2(a) * (2 * pow2((b - 1) as nat)))
            by (nonlinear_arith);
    }
}

/// Of two powers of two the smaller has the smaller logarithm, and the larger is
/// the smaller times the power of the difference.
pub proof fn lemma_pow2_ratio(a: nat, b: nat)
    requires
        is_pow2(a as int),
        is_pow2(b as int),
        a <= b,
    ensures
        log2(a) <= log2(b),
        a < b ==> log2(a) < log2(b),
        a * pow2((log2(b) - log2(a)) as nat) == b,
{
    let j = choose|j: nat| a as int == #[trigger] pow2(j);
    let k = choose|k: nat| b as int == #[trigger] pow2(k);
    lemma_log2_of_pow2(j);
    lemma_log2_of_pow2(k);
    if k < j {
        lemma_pow2_monotonic(k + 1, j);
        lemma_pow2_double(k);
        lemma_pow2_positive(k);
    }
    lemma_pow2_adds(j, (k - j) as nat);
}

/// Halving an even positive number keeps or loses the property together with it.
pub proof fn lemma_is_pow2_half(n: int)
    requires
        n >= 2,
        n % 2 == 0,
    ensures
        is_pow2(n) == is_pow2(n / 2),
{
    if is_pow2(n) {
        let k = choose|k: nat| n == #[trigger] pow2(k);
        assert(k > 0);
        assert(n / 2 == pow2((k - 1) as nat));
    }
    if is_pow2(n / 2) {
        let k = choose|k: nat| n / 2 == #[trigger] pow2(k);
        assert(n == pow2(k + 1));
    }
}

/// The only odd power of two is one.
pub proof fn lemma_odd_pow2(n: int)
    requires
        n % 2 == 1,
    ensures
        is_pow2(n) == (n == 1),
{
    if is_pow2(n) {
        let k = choose|k: nat| n == #[trigger] pow2(k);
        if k > 0 {
            assert(pow2(k) == 2 * pow2((k - 1) as nat));
        }
    }
    if n == 1 {
        assert(n == pow2(0));
    }
}

/// `next_pow2(n)` is a power of two, is not below `n`, and its half is below `n`
/// (unless it is one).
pub proof fn lemma_next_pow2(n: nat)
    ensures
        is_pow2(next_pow2(n) as int),
        next_pow2(n) >= n,
        next_pow2(n) >= 1,
        n >= 2 ==> next_pow2(n) < 2 * n,
        n <= 1 ==> next_pow2(n) == 1,
    decreases n,
{
    if n <= 1 {
        assert(next_pow2(n) == pow2(0));
    } else {
        let h = ((n + 1) / 2) as nat;
        lemma_next_pow2(h);
        let k = choose|k: nat| next_pow2(h) as int == #[trigger] pow2(k);
        assert(next_pow2(n) == pow2(k + 1));
    }
}

/// The three properties of `lemma_next_pow2` determine the value.
pub proof fn lemma_next_pow2_unique(n: nat, k: nat)
    requires
        pow2(k) >= n,
        k == 0 || pow2((k - 1) as nat) < n,
    ensures
        pow2(k) == next_pow2(n),
{
    lemma_next_pow2(n);
    let j = choose|j: nat| next_pow2(n) as int == #[trigger] pow2(j);
    if pow2(j) < pow2(k) {
        lemma_pow2_gap(j, k);
        assert(pow2(k) == 2 * pow2((k - 1) as nat));
    } else if pow2(k) < pow2(j) {
        lemma_pow2_gap(k, j);
        if n >= 2 {
            assert(false);
        } else {
            assert(false);
        }
    }
}

/// Where a power of two is below `n`, the round-up of `n` is at least its double.
pub proof fn lemma_next_pow2_above(n: nat, k: nat)
    requires
        pow2(k) < n,
    ensures
        next_pow2(n) >= 2 * pow2(k),
{
    lemma_next_pow2(n);
    let j = choose|j: nat| next_pow2(n) as int == #[trigger] pow2(j);
    lemma_pow2_gap(k, j);
}

/// A power of two is its own round-up.
pub proof fn lemma_next_pow2_of_pow2(k: nat)
    ensures
        next_pow2(pow2(k)) == pow2(k),
{
    lemma_pow2_positive(k);
    if k > 0 {
        lemma_pow2_positive((k - 1) as nat);
    }
    lemma_next_pow2_unique(pow2(k), k);
}

/// Whether `n` is a power of two.
pub fn is_power_of_two(n: usize) -> (r: bool)
    ensures
        r == is_pow2(n as int),
{
    if n == 0 {
        proof {
            assert forall|k: nat| 0 != #[trigger] pow2(k) by {
                lemma_pow2_positive(k);
            }
        }
        return false;
    }
    let mut m: usize = n;
    while m % 2 == 0
        invariant
            m >= 1,
            is_pow2(m as int) == is_pow2(n as int),
        decreases m,
    {
        proof {
            lemma_is_pow2_half(m as int);
        }
        m = m / 2;
    }
    proof {
        lemma_odd_pow2(m as int);
    }
    m == 1
}

/// The least power of two that is not below `n`, or `None` where it does not fit
/// in a `usize`.
pub fn checked_next_power_of_two(n: usize) -> (r: Option<usize>)
    ensures
        next_pow2(n as nat) <= usize::MAX ==> r == Some(next_pow2(n as nat) as usize),
        next_pow2(n as nat) > usize::MAX ==> r is None,
{
    let mut p: usize = 1;
    let ghost mut k: nat = 0;
    while p < n
        invariant
            p >= 1,
            p as nat == pow2(k),
            p == 1 || p / 2 < n,
        decreases usize::MAX - p,
    {
        if p > usize::MAX / 2 {
            proof {
                lemma_next_pow2_above(n as nat, k);
            }
            return None;
        }
        proof {
            lemma_pow2_double(k);
            k = k + 1;
        }
        p = p * 2;
    }
    proof {
        if k > 0 {
            lemma_pow2_double((k - 1) as nat);
        }
        lemma_next_pow2_unique(n as nat, k);
    }
    Some(p)
}

/// The base-two logarithm of `n`, rounded down; zero for `n == 0`.
pub fn floor_log2(n: usize) -> (r: usize)
    ensures
        r == log2(n as nat),
{
    let mut m: usize = n;
    let mut r: usize = 0;
    while m > 1
        invariant
            log2(n as nat) == r + log2(m as nat),
            r + m <= n || n == 0,
            n == 0 ==> m == 0,
        decreases m,
    {
        m = m / 2;
        r = r + 1;
    }
    r
}

} // verus!
