//! Fixed-point numbers: an `i128` holding a real value times `ONE` (2 to the 56th).
use vstd::prelude::*;
use vstd::arithmetic::div_mod::lemma_fundamental_div_mod;

verus! {

/// The fixed-point representation of 1.
pub const ONE: i128 = 72057594037927936;

/// The fixed-point representation of 2.
pub const TWO: i128 = 144115188075855872;

/// The fixed-point representation of 4: the squared escape radius.
pub const FOUR: i128 = 288230376151711744;

/// Largest magnitude that `fx_product` accepts: 16.
pub const MUL_BOUND: i128 = 1152921504606846976;

pub open spec fn abs_int(a: int) -> int {
    if a < 0 {
        -a
    } else {
        a
    }
}

/// Fixed-point product, rounded toward zero.
pub open spec fn fx_mul(a: int, b: int) -> int {
    if (a < 0) == (b < 0) {
        (abs_int(a) * abs_int(b)) / (ONE as int)
    } else {
        -((abs_int(a) * abs_int(b)) / (ONE as int))
    }
}

/// `r` is the integer square root of `n`.
pub open spec fn is_sqrt_floor(n: int, r: int) -> bool {
    0 <= r && r * r <= n && n < (r + 1) * (r + 1)
}

/// The integer square root of a natural number.
pub open spec fn sqrt_floor(n: int) -> int {
    choose|r: int| is_sqrt_floor(n, r)
}

pub proof fn lemma_sqrt_floor_unique(n: int, r: int)
    requires
        is_sqrt_floor(n, r),
    ensures
        sqrt_floor(n) == r,
{
    let s = sqrt_floor(n);
    assert(is_sqrt_floor(n, s));
    if s < r {
        assert((s + 1) * (s + 1) <= r * r) by (nonlinear_arith)
            requires
                0 <= s < r,
        ;
    } else if r < s {
        assert((r + 1) * (r + 1) <= s * s) by (nonlinear_arith)
            requires
                0 <= r < s,
        ;
    }
}

/// The square root is monotonic.
pub proof fn lemma_sqrt_floor_monotonic(n: int, m: int)
    requires
        0 <= n <= m,
    ensures
        sqrt_floor(n) <= sqrt_floor(m),
{
    let a = isqrt_exists(n);
    let b = isqrt_exists(m);
    lemma_sqrt_floor_unique(n, a);
    lemma_sqrt_floor_unique(m, b);
    if b < a {
        assert((b + 1) * (b + 1) <= a * a) by (nonlinear_arith)
            requires
                0 <= b < a,
        ;
    }
}

/// The square root of `r * r` is `r`.
pub proof fn lemma_sqrt_floor_of_square(r: int)
    requires
        0 <= r,
    ensures
        sqrt_floor(r * r) == r,
{
    assert(r * r < (r + 1) * (r + 1)) by (nonlinear_arith)
        requires
            0 <= r,
    ;
    lemma_sqrt_floor_unique(r * r, r);
}

proof fn isqrt_exists(n: int) -> (r: int)
    requires
        0 <= n,
    ensures
        is_sqrt_floor(n, r),
    decreases n,
{
    if n == 0 {
        assert(is_sqrt_floor(0, 0));
        0
    } else {
        let p = isqrt_exists(n - 1);
        if (p + 1) * (p + 1) <= n {
            assert(n < (p + 2) * (p + 2)) by (nonlinear_arith)
                requires
                    n - 1 < (p + 1) * (p + 1),
                    0 <= p,
            ;
            p + 1
        } else {
            assert(is_sqrt_floor(n, p));
            p
        }
    }
}

/// A fixed-point square is never negative, and it exceeds 4 exactly when
/// the value's magnitude exceeds 2.
pub proof fn lemma_square_bound(a: int)
    ensures
        fx_mul(a, a) >= 0,
        fx_mul(a, a) <= FOUR <==> -TWO <= a <= TWO,
{
    let o = ONE as int;
    let u = abs_int(a);
    let p = u * u;
    assert(p >= 0) by (nonlinear_arith)
        requires
            u >= 0,
            p == u * u,
    ;
    assert(fx_mul(a, a) == p / o);
    lemma_fundamental_div_mod(p, o);
    let q = p / o;
    let r = p % o;
    if u > TWO {
        assert(p >= (2 * o + 1) * (2 * o + 1)) by (nonlinear_arith)
            requires
                u >= 2 * o + 1,
                p == u * u,
                o > 0,
        ;
        assert(q > 4 * o) by (nonlinear_arith)
            requires
                p >= (2 * o + 1) * (2 * o + 1),
                p == o * q + r,
                0 <= r < o,
                o > 0,
        ;
    } else {
        assert(p <= (2 * o) * (2 * o)) by (nonlinear_arith)
            requires
                0 <= u <= 2 * o,
                p == u * u,
        ;
        assert(q <= 4 * o) by (nonlinear_arith)
            requires
                p <= (2 * o) * (2 * o),
                p == o * q + r,
                0 <= r < o,
                o > 0,
        ;
    }
    assert(q >= 0) by (nonlinear_arith)
        requires
            p >= 0,
            p == o * q + r,
            0 <= r < o,
            o > 0,
    ;
}

/// The product of two values of magnitude at most 2 has magnitude at most 4.
pub proof fn lemma_product_bound(a: int, b: int)
    requires
        -TWO <= a <= TWO,
        -TWO <= b <= TWO,
    ensures
        -FOUR <= fx_mul(a, b) <= FOUR,
{
    let o = ONE as int;
    let p = abs_int(a) * abs_int(b);
    assert(0 <= p <= (2 * o) * (2 * o)) by (nonlinear_arith)
        requires
            0 <= abs_int(a) <= 2 * o,
            0 <= abs_int(b) <= 2 * o,
            p == abs_int(a) * abs_int(b),
    ;
    lemma_fundamental_div_mod(p, o);
    let q = p / o;
    assert(0 <= q <= 4 * o) by (nonlinear_arith)
        requires
            0 <= p <= (2 * o) * (2 * o),
            p == o * q + p % o,
            0 <= p % o < o,
            o > 0,
    ;
}

/// The square of a value of magnitude at most 16 is at most 256.
pub proof fn lemma_square_at_most(a: int)
    requires
        -MUL_BOUND <= a <= MUL_BOUND,
    ensures
        fx_mul(a, a) <= 256 * ONE,
{
    let o = ONE as int;
    let u = abs_int(a);
    let p = u * u;
    assert(0 <= p <= (16 * o) * (16 * o)) by (nonlinear_arith)
        requires
            0 <= u <= 16 * o,
            p == u * u,
    ;
    lemma_fundamental_div_mod(p, o);
    let q = p / o;
    assert(q <= 256 * o) by (nonlinear_arith)
        requires
            0 <= p <= (16 * o) * (16 * o),
            p == o * q + p % o,
            0 <= p % o < o,
            o > 0,
    ;
}

/// Integer square root by bisection.
pub fn isqrt(n: u128) -> (r: u128)
    requires
        n < 0x4000000000000000000000000000000,
    ensures
        is_sqrt_floor(n as int, r as int),
        r as int == sqrt_floor(n as int),
        r < 0x2000000000000000,
{
    let mut lo: u128 = 0;
    let mut hi: u128 = 0x2000000000000000;
    assert((hi as int) * (hi as int) == 0x4000000000000000000000000000000) by (nonlinear_arith)
        requires
            hi == 0x2000000000000000,
    ;
    while hi - lo > 1
        invariant
            lo < hi <= 0x2000000000000000,
            lo * lo <= n,
            n < (hi as int) * (hi as int),
        decreases hi - lo,
    {
        let mid: u128 = lo + (hi - lo) / 2;
        assert(mid * mid <= 0x2000000000000000 * 0x2000000000000000) by (nonlinear_arith)
            requires
                mid <= 0x2000000000000000,
        ;
        if mid * mid <= n {
            lo = mid;
        } else {
            hi = mid;
        }
    }
    assert(hi == lo + 1);
    proof {
        lemma_sqrt_floor_unique(n as int, lo as int);
    }
    lo
}

/// Fixed-point product of two values of magnitude at most 16.
pub fn fx_product(a: i128, b: i128) -> (r: i128)
    requires
        -MUL_BOUND <= a <= MUL_BOUND,
        -MUL_BOUND <= b <= MUL_BOUND,
    ensures
        r as int == fx_mul(a as int, b as int),
{
    let ua: i128 = if a < 0 {
        -a
    } else {
        a
    };
    let ub: i128 = if b < 0 {
        -b
    } else {
        b
    };
    assert(ua * ub <= MUL_BOUND * MUL_BOUND) by (nonlinear_arith)
        requires
            0 <= ua <= MUL_BOUND,
            0 <= ub <= MUL_BOUND,
    ;
    assert(0 <= ua * ub) by (nonlinear_arith)
        requires
            0 <= ua,
            0 <= ub,
    ;
    let q: i128 = ua * ub / ONE;
    if (a < 0) == (b < 0) {
        q
    } else {
        -q
    }
}

} // verus!
