//! The escape-time iterator with a smooth (fractional) escape count.
use vstd::prelude::*;
use crate::fixed::{
    ONE, TWO, FOUR, MUL_BOUND, fx_mul, sqrt_floor, isqrt, fx_product, lemma_square_bound, lemma_square_at_most,
    lemma_product_bound, lemma_sqrt_floor_monotonic, lemma_sqrt_floor_of_square,
};

verus! {

/// What the escape iterator finds for one point of the plane.
#[derive(Clone, Copy, Debug, PartialEq, Eq)]
pub enum Escape {
    /// The orbit stayed within radius 2 for the whole iteration budget.
    Bounded,
    /// The orbit left the radius-2 disc; the smooth escape count, in fixed point.
    Smooth(u128),
}

impl Escape {
    /// The smooth count, or `None` for a bounded orbit.
    pub open spec fn value(self) -> Option<int> {
        match self {
            Escape::Bounded => None,
            Escape::Smooth(s) => Some(s as int),
        }
    }
}

/// The orbit point after `k` steps of z := z * z + c, starting from z = c.
pub open spec fn orbit(x: int, y: int, k: nat) -> (int, int)
    decreases k,
{
    if k == 0 {
        (x, y)
    } else {
        let z = orbit(x, y, (k - 1) as nat);
        (fx_mul(z.0, z.0) - fx_mul(z.1, z.1) + x, 2 * fx_mul(z.0, z.1) + y)
    }
}

/// Squared magnitude of a point.
pub open spec fn magnitude(z: (int, int)) -> int {
    fx_mul(z.0, z.0) + fx_mul(z.1, z.1)
}

/// Squared magnitude seen before step `k`; before the first step, that of c.
pub open spec fn prev_magnitude(x: int, y: int, k: nat) -> int {
    if k == 0 {
        magnitude((x, y))
    } else {
        magnitude(orbit(x, y, (k - 1) as nat))
    }
}

/// Smooth count of an escape at step `k`: `k` plus the fraction of the way from
/// the previous magnitude to the current one at which radius 2 was crossed.
pub open spec fn smooth_count(k: int, prev: int, cur: int) -> int {
    let sp = sqrt_floor(prev * ONE);
    let sc = sqrt_floor(cur * ONE);
    let frac = if sc > sp {
        (TWO - sp) * ONE / (sc - sp)
    } else {
        0
    };
    k * ONE + frac
}

/// The result of the iteration from step `k` on, with steps `0..=n` allowed.
pub open spec fn escape_from(x: int, y: int, k: nat, n: nat) -> Option<int>
    decreases n + 1 - k,
{
    if k > n {
        None
    } else if magnitude(orbit(x, y, k)) > FOUR {
        Some(smooth_count(k as int, prev_magnitude(x, y, k), magnitude(orbit(x, y, k))))
    } else {
        escape_from(x, y, k + 1, n)
    }
}

/// The escape result of c = (x, y) under the iteration bound `n`: a point
/// outside radius 2 escapes at once with count 1.
pub open spec fn escape_value(x: int, y: int, n: nat) -> Option<int> {
    if magnitude((x, y)) > FOUR {
        Some(ONE as int)
    } else {
        escape_from(x, y, 0, n)
    }
}

/// Runs the escape-time iteration for c = (x, y) with up to `max_iter + 1` steps.
pub fn mand(x: i128, y: i128, max_iter: u64) -> (r: Escape)
    ensures
        r.value() == escape_value(x as int, y as int, max_iter as nat),
{
    if x > TWO || x < -TWO || y > TWO || y < -TWO {
        proof {
            lemma_square_bound(x as int);
            lemma_square_bound(y as int);
        }
        return Escape::Smooth(ONE as u128);
    }
    proof {
        lemma_square_bound(x as int);
        lemma_square_bound(y as int);
    }
    let mut prev: i128 = fx_product(x, x) + fx_product(y, y);
    if prev > FOUR {
        return Escape::Smooth(ONE as u128);
    }
    let mut zx: i128 = x;
    let mut zy: i128 = y;
    let mut k: u64 = 0;
    loop
        invariant
            -TWO <= x <= TWO,
            -TWO <= y <= TWO,
            k <= max_iter,
            -MUL_BOUND <= zx <= MUL_BOUND,
            -MUL_BOUND <= zy <= MUL_BOUND,
            (zx as int, zy as int) == orbit(x as int, y as int, k as nat),
            prev as int == prev_magnitude(x as int, y as int, k as nat),
            0 <= prev <= FOUR,
            escape_value(x as int, y as int, max_iter as nat) == escape_from(
                x as int,
                y as int,
                k as nat,
                max_iter as nat,
            ),
        decreases max_iter - k,
    {
        proof {
            lemma_square_bound(zx as int);
            lemma_square_bound(zy as int);
            lemma_square_at_most(zx as int);
            lemma_square_at_most(zy as int);
        }
        let zxx = fx_product(zx, zx);
        let zyy = fx_product(zy, zy);
        let d: i128 = zxx + zyy;
        if d > FOUR {
            let sp = isqrt((prev as u128) * (ONE as u128));
            let sc = isqrt((d as u128) * (ONE as u128));
            proof {
                lemma_sqrt_floor_monotonic(prev * ONE, FOUR * ONE);
                lemma_sqrt_floor_of_square(TWO as int);
                assert(TWO * TWO == FOUR * ONE);
            }
            let frac: u128 = if sc > sp {
                (TWO as u128 - sp) * (ONE as u128) / (sc - sp)
            } else {
                0
            };
            assert(frac <= (TWO as u128) * (ONE as u128)) by (nonlinear_arith)
                requires
                    sc > sp ==> frac == (TWO as u128 - sp) * (ONE as u128) / (sc - sp),
                    sc <= sp ==> frac == 0,
                    sp <= TWO,
            ;
            return Escape::Smooth((k as u128) * (ONE as u128) + frac);
        }
        assert(d as int == magnitude(orbit(x as int, y as int, k as nat)));
        if k == max_iter {
            assert(escape_from(x as int, y as int, (k + 1) as nat, max_iter as nat) == None::<int>);
            return Escape::Bounded;
        }
        proof {
            lemma_product_bound(zx as int, zy as int);
        }
        let zxy = fx_product(zx, zy);
        prev = d;
        zx = zxx - zyy + x;
        zy = 2 * zxy + y;
        k = k + 1;
    }
}

proof fn lemma_escape_from_stable(x: int, y: int, k: nat, n: nat, m: nat)
    requires
        n <= m,
    ensures
        escape_from(x, y, k, n) is Some ==> escape_from(x, y, k, m) == escape_from(x, y, k, n),
    decreases n + 1 - k,
{
    if k <= n && magnitude(orbit(x, y, k)) <= FOUR {
        lemma_escape_from_stable(x, y, k + 1, n, m);
    }
}

/// Raising the iteration bound never changes an escape: a point that escapes
/// under bound `n` escapes with the same smooth count under every bound `m >= n`;
/// so a point bounded under `m` is bounded under every smaller bound.
pub proof fn lemma_escape_stable(x: int, y: int, n: nat, m: nat)
    requires
        n <= m,
    ensures
        escape_value(x, y, n) is Some ==> escape_value(x, y, m) == escape_value(x, y, n),
        escape_value(x, y, m) is None ==> escape_value(x, y, n) is None,
{
    lemma_escape_from_stable(x, y, 0, n, m);
}

} // verus!
