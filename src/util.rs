use vstd::arithmetic::div_mod::{
    lemma_div_pos_is_pos, lemma_fundamental_div_mod, lemma_mod_bound, lemma_mod_multiples_basic,
};
use vstd::arithmetic::mul::lemma_mul_is_commutative;
use vstd::prelude::*;

verus! {

/// Alignment, in bytes, that the vectorized kernels expect of each row.
pub const MAX_ALIGN: usize = 32;

/// `n - n % m` is a multiple of `m`, and `n % m` lies in `[0, m)`.
proof fn lemma_round_down(n: int, m: int)
    requires
        n >= 0,
        m > 0,
    ensures
        0 <= n % m < m,
        n % m <= n,
        (n - n % m) % m == 0,
        (n + (m - n % m)) % m == 0,
{
    lemma_mod_bound(n, m);
    lemma_fundamental_div_mod(n, m);
    lemma_mul_is_commutative(m, n / m);
    lemma_div_pos_is_pos(n, m);
    assert(m * (n / m) >= 0) by (nonlinear_arith)
        requires
            n / m >= 0,
            m > 0,
    ;
    lemma_mod_multiples_basic(n / m, m);
    lemma_mod_multiples_basic(n / m + 1, m);
    assert((n / m + 1) * m == m * (n / m) + m) by (nonlinear_arith);
}

/// Largest multiple of `m` that is at most `n`.
pub fn floorn(n: usize, m: usize) -> (r: usize)
    requires
        m > 0,
    ensures
        r == n - n % m,
        r % m == 0,
        r <= n < r + m,
{
    proof {
        lemma_round_down(n as int, m as int);
    }
    n - n % m
}

/// Smallest multiple of `m` that is at least `n`.
pub fn ceiln(n: usize, m: usize) -> (r: usize)
    requires
        m > 0,
        n + m <= usize::MAX,
    ensures
        r == if n % m > 0 { n + (m - n % m) } else { n as int },
        r % m == 0,
        n <= r < n + m,
{
    proof {
        lemma_round_down(n as int, m as int);
    }
    if n % m > 0 {
        n + (m - n % m)
    } else {
        n
    }
}

/// `x` rounded down to a multiple of [`MAX_ALIGN`].
pub fn align_floor(x: usize) -> (r: usize)
    ensures
        r == x - x % MAX_ALIGN,
        r % MAX_ALIGN == 0,
        r <= x < r + MAX_ALIGN,
{
    proof {
        lemma_round_down(x as int, MAX_ALIGN as int);
    }
    x - x % MAX_ALIGN
}

/// `x` rounded up to a multiple of [`MAX_ALIGN`].
pub fn align_ceil(x: usize) -> (r: usize)
    requires
        x + MAX_ALIGN <= usize::MAX,
    ensures
        r == x + if x % MAX_ALIGN > 0 { MAX_ALIGN - x % MAX_ALIGN } else { 0 },
        r % MAX_ALIGN == 0,
        x <= r < x + MAX_ALIGN,
{
    proof {
        lemma_round_down(x as int, MAX_ALIGN as int);
    }
    x + if x % MAX_ALIGN > 0 {
        MAX_ALIGN - x % MAX_ALIGN
    } else {
        0
    }
}

} // verus!
