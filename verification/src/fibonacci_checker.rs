//! Fibonacci membership test based on perfect squares: a non-negative `n` is
//! a Fibonacci number exactly when `5*n*n + 4` or `5*n*n - 4` is a perfect
//! square; this module computes that test, with the square test decided by an
//! exact integer square root.

use vstd::prelude::*;

verus! {

/// `x` is the square of some non-negative integer.
pub open spec fn spec_is_perfect_square(x: int) -> bool {
    exists|r: int| 0 <= r && #[trigger] (r * r) == x
}

/// The largest `r` with `r * r <= x`, computed by binary search on `r`.
fn integer_sqrt(x: u128) -> (r: u128)
    ensures
        r * r <= x < (r + 1) * (r + 1),
{
    if x == 0 {
        return 0;
    }
    let mut lo: u128 = 0;
    let mut hi: u128 = if x < 18446744073709551616 {
        x + 1
    } else {
        18446744073709551616
    };
    proof {
        assert(x < hi * hi) by (nonlinear_arith)
            requires
                0 < x,
                x <= u128::MAX,
                hi == x + 1 || hi == 18446744073709551616u128,
        {
        }
    }
    while lo + 1 < hi
        invariant
            lo < hi <= 18446744073709551616,
            lo * lo <= x,
            x < hi * hi,
        decreases hi - lo,
    {
        let mid = lo + (hi - lo) / 2;
        proof {
            assert(mid * mid <= 18446744073709551615u128 * 18446744073709551615u128)
                by (nonlinear_arith)
                requires
                    0 <= mid <= 18446744073709551615u128,
            {
            }
        }
        if mid * mid <= x {
            lo = mid;
        } else {
            hi = mid;
        }
    }
    lo
}

/// Decides whether a (possibly wide) value is a perfect square.
fn is_perfect_square_wide(x: i128) -> (r: bool)
    ensures
        r == (x >= 0 && spec_is_perfect_square(x as int)),
{
    if x < 0 {
        return false;
    }
    let u = x as u128;
    let s = integer_sqrt(u);
    let hit = s * s == u;
    proof {
        if !hit {
            assert forall|r: int| 0 <= r && #[trigger] (r * r) == x as int implies false by {
                if r <= s {
                    assert(r * r <= s * s) by (nonlinear_arith)
                        requires
                            0 <= r <= s,
                    {
                    }
                } else {
                    assert((s + 1) * (s + 1) <= r * r) by (nonlinear_arith)
                        requires
                            s + 1 <= r,
                            0 <= s,
                    {
                    }
                }
            }
        }
    }
    hit
}

/// Check if a number is a perfect square.
pub fn is_perfect_square(x: i64) -> (r: bool)
    ensures
        r == (x >= 0 && spec_is_perfect_square(x as int)),
{
    is_perfect_square_wide(x as i128)
}

/// Check if a number belongs to the Fibonacci sequence: a non-negative `num`
/// does exactly when `5*num*num + 4` or `5*num*num - 4` is a perfect square;
/// a negative `num` never does.
pub fn fibonacci_checker(num: i32) -> (r: bool)
    ensures
        r == (num >= 0 && (spec_is_perfect_square(5 * (num * num) + 4)
            || spec_is_perfect_square(5 * (num * num) - 4))),
{
    if num < 0 {
        return false;
    }
    let n = num as i128;
    proof {
        assert(n * n <= 2147483647i128 * 2147483647i128) by (nonlinear_arith)
            requires
                0 <= n <= 2147483647i128,
        {
        }
    }
    let square: i128 = n * n;
    let expr1: i128 = 5 * square + 4;
    let expr2: i128 = 5 * square - 4;
    is_perfect_square_wide(expr1) || is_perfect_square_wide(expr2)
}

} // verus!
