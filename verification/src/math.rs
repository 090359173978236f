//! Integer helpers: the floor of a square root and powers that stay in range.

use vstd::prelude::*;
use vstd::arithmetic::power::{pow, lemma1_pow, lemma_pow0, lemma_pow_increases, lemma_pow_positive};

verus! {

/// `r` is the floor of the square root of `x`.
pub open spec fn is_floor_sqrt(x: int, r: int) -> bool {
    r >= 0 && r * r <= x < (r + 1) * (r + 1)
}

/// The floor of the square root of `x`, for `x` that is not negative.
pub open spec fn floor_sqrt(x: int) -> int {
    choose|r: int| is_floor_sqrt(x, r)
}

/// A number has at most one floor of its square root.
pub proof fn lemma_floor_sqrt_unique(x: int, r1: int, r2: int)
    requires
        is_floor_sqrt(x, r1),
        is_floor_sqrt(x, r2),
    ensures
        r1 == r2,
{
    if r1 < r2 {
        assert((r1 + 1) * (r1 + 1) <= r2 * r2) by (nonlinear_arith)
            requires
                0 <= r1 + 1 <= r2,
        ;
    }
    if r2 < r1 {
        assert((r2 + 1) * (r2 + 1) <= r1 * r1) by (nonlinear_arith)
            requires
                0 <= r2 + 1 <= r1,
        ;
    }
}

/// Every number that is not negative has a floor of its square root.
pub proof fn lemma_floor_sqrt_exists(x: int)
    requires
        x >= 0,
    ensures
        is_floor_sqrt(x, floor_sqrt(x)),
{
    assert(x < (x + 1) * (x + 1)) by (nonlinear_arith)
        requires
            x >= 0,
    ;
    lemma_root_below(x, x as nat);
}

/// Among the numbers up to `n` whose square is not above `x` there is a
/// floor of the square root of `x`, provided `x` is below the square of
/// `n + 1`.
proof fn lemma_root_below(x: int, n: nat)
    requires
        0 <= x < (n + 1) * (n + 1),
    ensures
        exists|r: int| is_floor_sqrt(x, r),
    decreases n,
{
    if n * n <= x {
        assert(is_floor_sqrt(x, n as int));
    } else {
        assert(n >= 1) by (nonlinear_arith)
            requires
                n * n > x,
                x >= 0,
        ;
        assert(((n - 1) as nat + 1) * ((n - 1) as nat + 1) == n * n);
        lemma_root_below(x, (n - 1) as nat);
    }
}

/// The floor of a square root is not above its argument.
pub proof fn lemma_floor_sqrt_bounded(x: int, r: int)
    requires
        is_floor_sqrt(x, r),
    ensures
        0 <= r <= x,
        x >= 1 ==> r >= 1,
{
    assert(r <= r * r) by (nonlinear_arith)
        requires
            r >= 0,
    ;
}

/// `num_integer::sqrt` on `i128`. The crate documents the result as the
/// truncated principal square root, with `r * r <= x < (r + 1) * (r + 1)`,
/// and panics on a negative argument, which is excluded here.
#[verifier::external_body]
fn root(x: i128) -> (r: i128)
    requires
        x >= 0,
    ensures
        is_floor_sqrt(x as int, r as int),
{
    num_integer::sqrt(x)
}

/// The floor of the square root of `x`.
pub fn isqrt(x: i128) -> (r: i128)
    requires
        x >= 0,
    ensures
        r == floor_sqrt(x as int),
        is_floor_sqrt(x as int, r as int),
{
    let r: i128 = root(x);
    proof {
        lemma_floor_sqrt_unique(x as int, r as int, floor_sqrt(x as int));
    }
    r
}

/// `base` to the power `e`, where it fits in 128 signed bits.
pub(crate) fn checked_pow(base: i128, e: u64) -> (r: Option<i128>)
    requires
        base >= 1,
    ensures
        r is Some <==> pow(base as int, e as nat) <= i128::MAX,
        r is Some ==> r->Some_0 == pow(base as int, e as nat) && r->Some_0 >= 1,
{
    if base == 1 {
        proof {
            lemma1_pow(e as nat);
        }
        return Some(1);
    }
    let mut acc: i128 = 1;
    let mut i: u64 = 0;
    proof {
        lemma_pow0(base as int);
    }
    while i < e
        invariant
            i <= e,
            base >= 2,
            acc == pow(base as int, i as nat),
            acc >= 1,
        decreases e - i,
    {
        proof {
            reveal(pow);
            assert(pow(base as int, (i + 1) as nat) == base * pow(base as int, i as nat));
            assert(base * acc >= 1) by (nonlinear_arith)
                requires
                    base >= 1,
                    acc >= 1,
            ;
        }
        match base.checked_mul(acc) {
            Some(v) => {
                acc = v;
            },
            None => {
                proof {
                    lemma_pow_increases(base as nat, (i + 1) as nat, e as nat);
                }
                return None;
            },
        }
        i = i + 1;
    }
    Some(acc)
}

/// Ten to the power `e`, where it fits in 128 signed bits.
pub fn pow10(e: u32) -> (r: Option<i128>)
    ensures
        r is Some <==> pow(10, e as nat) <= i128::MAX,
        r is Some ==> r->Some_0 == pow(10, e as nat),
{
    checked_pow(10, e as u64)
}

/// Powers of ten are positive.
pub proof fn lemma_pow10_positive(e: nat)
    ensures
        pow(10, e) >= 1,
{
    lemma_pow_positive(10, e);
}

} // verus!
