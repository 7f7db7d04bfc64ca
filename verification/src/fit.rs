//! The size of the image that a payload needs.
//!
//! An image of `width` by `height` pixels with `width / height` equal to a
//! ratio `r` and `width * height` equal to a pixel count `c` has
//! `width = sqrt(c * r)` and `height = sqrt(c / r)`. Both are rounded up to
//! whole pixels, each on its own, so the image never has fewer than `c`
//! pixels and may have a row and a column more than it must.

use vstd::prelude::*;

verus! {

/// The ratio of an image's width to its height, as a fraction of whole
/// numbers: `num / den`.
#[derive(Debug, Clone, Copy, PartialEq, Eq, Structural)]
pub struct AspectRatio {
    /// The width's share.
    pub num: u32,
    /// The height's share.
    pub den: u32,
}

impl AspectRatio {
    /// A ratio is a positive number: neither share is zero.
    pub open spec fn is_valid(self) -> bool {
        self.num > 0 && self.den > 0
    }

    /// The ratio `num / den`, or `None` where one of the two is zero.
    pub fn new(num: u32, den: u32) -> (ratio: Option<Self>)
        ensures
            ratio is Some <==> num > 0 && den > 0,
            ratio is Some ==> ratio.unwrap().num == num && ratio.unwrap().den == den,
    {
        if num == 0 || den == 0 {
            None
        } else {
            Some(AspectRatio { num, den })
        }
    }
}

/// `root` is the square root of `c * num / den`, rounded up: the least whole
/// number whose square is not below `c * num / den`.
pub open spec fn is_ceil_sqrt(c: nat, num: nat, den: nat, root: nat) -> bool {
    &&& root * root * den >= c * num
    &&& root > 0 ==> (root - 1) * (root - 1) * den < c * num
}

/// The square root of `c * num / den`, rounded up.
pub open spec fn ceil_sqrt(c: nat, num: nat, den: nat) -> nat {
    choose|root: nat| is_ceil_sqrt(c, num, den, root)
}

/// `n`, or the largest `u32` where `n` is larger.
pub open spec fn saturate(n: nat) -> nat {
    if n > u32::MAX {
        u32::MAX as nat
    } else {
        n
    }
}

/// The width of an image of `c` pixels in the ratio `ratio`, as far as a
/// `u32` holds it.
pub open spec fn fit_width(c: nat, ratio: AspectRatio) -> nat {
    saturate(ceil_sqrt(c, ratio.num as nat, ratio.den as nat))
}

/// The height of an image of `c` pixels in the ratio `ratio`, as far as a
/// `u32` holds it.
pub open spec fn fit_height(c: nat, ratio: AspectRatio) -> nat {
    saturate(ceil_sqrt(c, ratio.den as nat, ratio.num as nat))
}

/// Squaring keeps the order of whole numbers, and so does a positive factor
/// behind the square.
proof fn lemma_square_order(a: nat, b: nat, den: nat)
    requires
        a <= b,
    ensures
        a * a * den <= b * b * den,
{
    assert(a * a <= b * b) by (nonlinear_arith)
        requires
            a <= b,
    ;
    assert(a * a * den <= b * b * den) by (nonlinear_arith)
        requires
            a * a <= b * b,
    ;
}

/// There is one rounded-up square root at most.
pub proof fn lemma_ceil_sqrt_unique(c: nat, num: nat, den: nat, a: nat, b: nat)
    requires
        is_ceil_sqrt(c, num, den, a),
        is_ceil_sqrt(c, num, den, b),
    ensures
        a == b,
{
    if a < b {
        lemma_square_order(a, (b - 1) as nat, den);
    }
    if b < a {
        lemma_square_order(b, (a - 1) as nat, den);
    }
}

/// Counts down from a number whose square is large enough to the least
/// such number.
proof fn lemma_ceil_sqrt_below(c: nat, num: nat, den: nat, upper: nat) -> (root: nat)
    requires
        upper * upper * den >= c * num,
    ensures
        is_ceil_sqrt(c, num, den, root),
        root <= upper,
    decreases upper,
{
    if upper == 0 {
        0
    } else if (upper - 1) * (upper - 1) * den >= c * num {
        lemma_ceil_sqrt_below(c, num, den, (upper - 1) as nat)
    } else {
        upper
    }
}

/// Every pixel count has a rounded-up square root in every ratio, and
/// `ceil_sqrt` is that number.
pub proof fn lemma_ceil_sqrt_exists(c: nat, num: nat, den: nat)
    requires
        den > 0,
    ensures
        is_ceil_sqrt(c, num, den, ceil_sqrt(c, num, den)),
{
    let upper = c * num;
    assert(upper * upper * den >= upper) by (nonlinear_arith)
        requires
            den > 0,
    ;
    let root = lemma_ceil_sqrt_below(c, num, den, upper);
    assert(is_ceil_sqrt(c, num, den, root));
}

/// More pixels never give a smaller root.
pub proof fn lemma_ceil_sqrt_monotone(c1: nat, c2: nat, num: nat, den: nat)
    requires
        den > 0,
        c1 <= c2,
    ensures
        ceil_sqrt(c1, num, den) <= ceil_sqrt(c2, num, den),
{
    lemma_ceil_sqrt_exists(c1, num, den);
    lemma_ceil_sqrt_exists(c2, num, den);
    let r1 = ceil_sqrt(c1, num, den);
    let r2 = ceil_sqrt(c2, num, den);
    if r2 < r1 {
        lemma_square_order(r2, (r1 - 1) as nat, den);
        assert(c1 * num <= c2 * num) by (nonlinear_arith)
            requires
                c1 <= c2,
        ;
    }
}

/// An image whose sides are the two rounded-up roots has `c` pixels at
/// least.
pub proof fn lemma_roots_cover(c: nat, num: nat, den: nat, w: nat, h: nat)
    requires
        num > 0,
        den > 0,
        is_ceil_sqrt(c, num, den, w),
        is_ceil_sqrt(c, den, num, h),
    ensures
        w * h >= c,
{
    if w * h < c {
        let a = w * w * den;
        let b = h * h * num;
        let area = w * h;
        assert(a * b >= (c * num) * (c * den)) by (nonlinear_arith)
            requires
                a >= c * num,
                b >= c * den,
        ;
        assert(a * b == area * area * (num * den)) by (nonlinear_arith)
            requires
                a == w * w * den,
                b == h * h * num,
                area == w * h,
        ;
        assert((c * num) * (c * den) == c * c * (num * den)) by (nonlinear_arith);
        assert(area * area < c * c) by (nonlinear_arith)
            requires
                area < c,
        ;
        assert(area * area * (num * den) < c * c * (num * den)) by (nonlinear_arith)
            requires
                area * area < c * c,
                num > 0,
                den > 0,
        ;
    }
}

/// Whether a square reaches a fraction can be told from the fraction
/// rounded up.
proof fn lemma_reach_rounded(square: nat, target: nat, den: nat, quotient: nat)
    requires
        den > 0,
        quotient == if target % den == 0 {
            target / den
        } else {
            target / den + 1
        },
    ensures
        square * den >= target <==> square >= quotient,
{
    let k = target / den;
    let r = target % den;
    assert(target == den * k + r && 0 <= r < den) by (nonlinear_arith)
        requires
            den > 0,
            k == target / den,
            r == target % den,
    ;
    if square >= quotient {
        assert(square * den >= quotient * den) by (nonlinear_arith)
            requires
                square >= quotient,
        ;
        assert(quotient * den >= target) by (nonlinear_arith)
            requires
                target == den * k + r,
                0 <= r < den,
                quotient == if r == 0 {
                    k
                } else {
                    k + 1
                },
        ;
    } else {
        assert(square * den <= (quotient - 1) * den) by (nonlinear_arith)
            requires
                square <= quotient - 1,
                den > 0,
        ;
        assert((quotient - 1) * den < target) by (nonlinear_arith)
            requires
                target == den * k + r,
                0 <= r < den,
                quotient >= 1,
                quotient == if r == 0 {
                    k
                } else {
                    k + 1
                },
        ;
    }
}

/// The square root of `c * num / den`, rounded up.
pub(crate) fn rounded_root(c: u128, num: u32, den: u32) -> (root: u64)
    requires
        num > 0,
        den > 0,
        c <= 0x1_0000_0000_0000_0008,
    ensures
        root == ceil_sqrt(c as nat, num as nat, den as nat),
        is_ceil_sqrt(c as nat, num as nat, den as nat, root as nat),
        root <= 0x2_0000_0000_0000,
{
    assert(c * num <= 0x1_0000_0000_0000_0008 * 0xffff_ffff) by (nonlinear_arith)
        requires
            c <= 0x1_0000_0000_0000_0008,
            num <= 0xffff_ffff,
    ;
    let target: u128 = c * (num as u128);
    let d = den as u128;
    let quotient: u128 = if target % d == 0 {
        target / d
    } else {
        target / d + 1
    };
    assert(quotient <= target) by (nonlinear_arith)
        requires
            d >= 1,
            target % d == 0 ==> quotient == target / d,
            target % d != 0 ==> quotient == target / d + 1,
    ;
    let mut low: u64 = 0;
    let mut high: u64 = 0x2_0000_0000_0000;
    while low < high
        invariant
            low <= high <= 0x2_0000_0000_0000,
            high * high >= quotient,
            low > 0 ==> (low - 1) * (low - 1) < quotient,
        decreases high - low,
    {
        let mid = low + (high - low) / 2;
        assert(mid * mid <= 0x2_0000_0000_0000 * 0x2_0000_0000_0000) by (nonlinear_arith)
            requires
                mid <= 0x2_0000_0000_0000,
        ;
        let square: u128 = (mid as u128) * (mid as u128);
        if square >= quotient {
            high = mid;
        } else {
            low = mid + 1;
        }
    }
    proof {
        lemma_reach_rounded((low * low) as nat, target as nat, den as nat, quotient as nat);
        if low > 0 {
            lemma_reach_rounded(
                ((low - 1) * (low - 1)) as nat,
                target as nat,
                den as nat,
                quotient as nat,
            );
        }
        assert(is_ceil_sqrt(c as nat, num as nat, den as nat, low as nat));
        lemma_ceil_sqrt_exists(c as nat, num as nat, den as nat);
        lemma_ceil_sqrt_unique(
            c as nat,
            num as nat,
            den as nat,
            low as nat,
            ceil_sqrt(c as nat, num as nat, den as nat),
        );
    }
    low
}

/// The sides of an image of `c` pixels in the ratio `ratio`.
pub(crate) fn fit(c: u128, ratio: AspectRatio) -> (dims: (u32, u32))
    requires
        ratio.is_valid(),
        c <= 0x1_0000_0000_0000_0008,
    ensures
        dims.0 == fit_width(c as nat, ratio),
        dims.1 == fit_height(c as nat, ratio),
{
    let x = rounded_root(c, ratio.num, ratio.den);
    let y = rounded_root(c, ratio.den, ratio.num);
    let width: u32 = if x > 0xffff_ffff {
        0xffff_ffff
    } else {
        x as u32
    };
    let height: u32 = if y > 0xffff_ffff {
        0xffff_ffff
    } else {
        y as u32
    };
    (width, height)
}

} // verus!
