//! Integer arithmetic behind the stick value: magnitudes, rounded-up square
//! roots and scaling of a vector by a ratio.

use vstd::prelude::*;

verus! {

/// The distance of `x` from zero.
pub open spec fn magnitude(x: int) -> nat {
    if x < 0 {
        (-x) as nat
    } else {
        x as nat
    }
}

/// The squared Euclidean length of the vector `(x, y)`.
pub open spec fn norm_sq(x: int, y: int) -> nat {
    (x * x + y * y) as nat
}

/// `r` is the least natural number whose square reaches `n`.
pub open spec fn is_ceil_sqrt(n: nat, r: nat) -> bool {
    &&& r * r >= n
    &&& r > 0 ==> (r - 1) * (r - 1) < n
}

/// The square root of `n`, rounded up.
pub open spec fn ceil_sqrt(n: nat) -> nat {
    choose|r: nat| is_ceil_sqrt(n, r)
}

/// `d * num / den` with the quotient rounded toward zero, so that a value and
/// its negation scale symmetrically.
pub open spec fn scale_toward_zero(d: int, num: nat, den: nat) -> int {
    if d >= 0 {
        (d * num) / (den as int)
    } else {
        -(((-d) * num) / (den as int))
    }
}

/// Squares grow with their base.
pub proof fn lemma_square_monotonic(a: nat, b: nat)
    requires
        a <= b,
    ensures
        a * a <= b * b,
{
    assert(a * a <= b * b) by (nonlinear_arith)
        requires
            a <= b,
    ;
}

/// A number has at most one rounded-up square root.
pub proof fn lemma_ceil_sqrt_unique(n: nat, r1: nat, r2: nat)
    requires
        is_ceil_sqrt(n, r1),
        is_ceil_sqrt(n, r2),
    ensures
        r1 == r2,
{
    if r1 < r2 {
        lemma_square_monotonic(r1, (r2 - 1) as nat);
    } else if r2 < r1 {
        lemma_square_monotonic(r2, (r1 - 1) as nat);
    }
}

/// Every number has a rounded-up square root, and `ceil_sqrt` is it.
pub proof fn lemma_ceil_sqrt_is_root(n: nat)
    ensures
        is_ceil_sqrt(n, ceil_sqrt(n)),
    decreases n,
{
    if n == 0 {
        assert(is_ceil_sqrt(0, 0));
    } else {
        lemma_ceil_sqrt_is_root((n - 1) as nat);
        let r = ceil_sqrt((n - 1) as nat);
        if r * r >= n {
            assert(is_ceil_sqrt(n, r));
        } else {
            assert((r + 1) * (r + 1) == r * r + 2 * r + 1) by (nonlinear_arith);
            assert(is_ceil_sqrt(n, r + 1));
        }
    }
}

/// Whatever meets the definition is the rounded-up square root.
pub proof fn lemma_ceil_sqrt_from_witness(n: nat, r: nat)
    requires
        is_ceil_sqrt(n, r),
    ensures
        ceil_sqrt(n) == r,
{
    lemma_ceil_sqrt_unique(n, r, ceil_sqrt(n));
}

/// The rounded-up root of a perfect square is its base.
pub proof fn lemma_ceil_sqrt_of_square(r: nat)
    ensures
        ceil_sqrt(r * r) == r,
{
    if r > 0 {
        lemma_square_monotonic((r - 1) as nat, r);
        assert((r - 1) * (r - 1) < r * r) by (nonlinear_arith)
            requires
                r > 0,
        ;
    }
    lemma_ceil_sqrt_from_witness(r * r, r);
}

/// Scaling never moves a value across zero, and with a ratio of at most one it
/// never moves it away from zero.
pub proof fn lemma_scale_toward_zero_bounds(d: int, num: nat, den: nat)
    requires
        den > 0,
    ensures
        d >= 0 ==> scale_toward_zero(d, num, den) >= 0,
        d <= 0 ==> scale_toward_zero(d, num, den) <= 0,
        magnitude(scale_toward_zero(d, num, den)) == (magnitude(d) * num) / den,
        num <= den ==> magnitude(scale_toward_zero(d, num, den)) <= magnitude(d),
        magnitude(d) <= den ==> magnitude(scale_toward_zero(d, num, den)) <= num,
{
    let m = magnitude(d);
    let q = (m * num) / den;
    assert(m * num >= 0) by (nonlinear_arith)
        requires
            m >= 0,
            num >= 0,
    ;
    assert(0 <= q && q * den <= m * num) by (nonlinear_arith)
        requires
            q == (m * num) / den,
            den > 0,
            m * num >= 0,
    ;
    if d == 0 {
        assert(m * num == 0) by (nonlinear_arith)
            requires
                m == 0,
        ;
    }
    if d >= 0 {
        assert(d * num == m * num);
    } else {
        assert((-d) * num == m * num);
    }
    if num <= den {
        assert(q <= m) by (nonlinear_arith)
            requires
                q * den <= m * num,
                num <= den,
                den > 0,
                q >= 0,
                m >= 0,
        ;
    }
    if m <= den {
        assert(q <= num) by (nonlinear_arith)
            requires
                q * den <= m * num,
                m <= den,
                den > 0,
                q >= 0,
                num >= 0,
        ;
    }
}

/// A vector no longer than `den`, scaled by `num / den` with both quotients
/// rounded toward zero, is no longer than `num`.
pub proof fn lemma_scaled_pair_bound(a: nat, b: nat, num: nat, den: nat)
    requires
        den > 0,
        a * a + b * b <= den * den,
    ensures
        ((a * num) / den) * ((a * num) / den) + ((b * num) / den) * ((b * num) / den) <= num * num,
{
    let p = (a * num) / den;
    let q = (b * num) / den;
    assert(0 <= p && p * den <= a * num) by (nonlinear_arith)
        requires
            p == (a * num) / den,
            den > 0,
    ;
    assert(0 <= q && q * den <= b * num) by (nonlinear_arith)
        requires
            q == (b * num) / den,
            den > 0,
    ;
    assert((p * p) * (den * den) <= (a * a) * (num * num)) by (nonlinear_arith)
        requires
            0 <= p,
            p * den <= a * num,
    ;
    assert((q * q) * (den * den) <= (b * b) * (num * num)) by (nonlinear_arith)
        requires
            0 <= q,
            q * den <= b * num,
    ;
    assert((a * a + b * b) * (num * num) <= (den * den) * (num * num)) by (nonlinear_arith)
        requires
            a * a + b * b <= den * den,
    ;
    assert((p * p + q * q) * (den * den) <= (num * num) * (den * den)) by (nonlinear_arith)
        requires
            (p * p) * (den * den) <= (a * a) * (num * num),
            (q * q) * (den * den) <= (b * b) * (num * num),
            (a * a + b * b) * (num * num) <= (den * den) * (num * num),
    ;
    assert(p * p + q * q <= num * num) by (nonlinear_arith)
        requires
            (p * p + q * q) * (den * den) <= (num * num) * (den * den),
            den > 0,
    ;
}

/// Scaling both components of a vector by one ratio, each quotient rounded
/// toward zero, hardly turns the vector: the cross product of the vector with
/// its image, which would be zero without rounding, is at most the larger
/// component of the vector.
pub proof fn lemma_scaled_pair_direction(a: nat, b: nat, num: nat, den: nat)
    requires
        den > 0,
    ensures
        ((a * num) / den) * b - ((b * num) / den) * a <= a,
        ((b * num) / den) * a - ((a * num) / den) * b <= b,
{
    let p = (a * num) / den;
    let q = (b * num) / den;
    assert(0 <= p && p * den <= a * num && a * num < p * den + den) by (nonlinear_arith)
        requires
            p == (a * num) / den,
            den > 0,
    ;
    assert(0 <= q && q * den <= b * num && b * num < q * den + den) by (nonlinear_arith)
        requires
            q == (b * num) / den,
            den > 0,
    ;
    assert((p * b - q * a) * den <= a * den) by (nonlinear_arith)
        requires
            p * den <= a * num,
            b * num <= q * den + den,
            0 <= a,
            0 <= b,
    ;
    assert((q * a - p * b) * den <= b * den) by (nonlinear_arith)
        requires
            q * den <= b * num,
            a * num <= p * den + den,
            0 <= a,
            0 <= b,
    ;
    assert(p * b - q * a <= a) by (nonlinear_arith)
        requires
            (p * b - q * a) * den <= a * den,
            den > 0,
    ;
    assert(q * a - p * b <= b) by (nonlinear_arith)
        requires
            (q * a - p * b) * den <= b * den,
            den > 0,
    ;
}

/// The cross product of `(x, y)` with its image under `scale_toward_zero`,
/// which measures how far the image points away from the vector, is at most
/// the larger component of the vector in magnitude.
pub proof fn lemma_scale_keeps_direction(x: int, y: int, num: nat, den: nat)
    requires
        den > 0,
    ensures
        ({
            let sx = scale_toward_zero(x, num, den);
            let sy = scale_toward_zero(y, num, den);
            &&& magnitude(sx * y - sy * x) <= magnitude(x) || magnitude(sx * y - sy * x)
                <= magnitude(y)
        }),
{
    let a = magnitude(x);
    let b = magnitude(y);
    let p = (a * num) / den;
    let q = (b * num) / den;
    let sx = scale_toward_zero(x, num, den);
    let sy = scale_toward_zero(y, num, den);
    lemma_scaled_pair_direction(a, b, num, den);
    lemma_scale_toward_zero_bounds(x, num, den);
    lemma_scale_toward_zero_bounds(y, num, den);
    assert(magnitude(sx) == p && magnitude(sy) == q);
    if x >= 0 && y >= 0 {
        assert(sx * y - sy * x == p * b - q * a) by (nonlinear_arith)
            requires
                sx == p,
                sy == q,
                x == a,
                y == b,
        ;
    } else if x >= 0 && y < 0 {
        assert(sx * y - sy * x == q * a - p * b) by (nonlinear_arith)
            requires
                sx == p,
                sy == -q,
                x == a,
                y == -b,
        ;
    } else if x < 0 && y >= 0 {
        assert(sx * y - sy * x == q * a - p * b) by (nonlinear_arith)
            requires
                sx == -p,
                sy == q,
                x == -a,
                y == b,
        ;
    } else {
        assert(sx * y - sy * x == p * b - q * a) by (nonlinear_arith)
            requires
                sx == -p,
                sy == -q,
                x == -a,
                y == -b,
        ;
    }
}

/// The largest number whose rounded-up square root still fits in 64 bits.
pub open spec fn max_rootable() -> nat {
    0xffff_ffff_ffff_ffff * 0xffff_ffff_ffff_ffff
}

/// Distance of a 64-bit signed number from zero.
pub fn magnitude_of(d: i64) -> (r: u64)
    requires
        d > i64::MIN,
    ensures
        r == magnitude(d as int),
{
    if d < 0 {
        (-d) as u64
    } else {
        d as u64
    }
}

/// Square root rounded up, by bisection.
pub fn ceil_sqrt_u128(n: u128) -> (r: u64)
    requires
        n <= max_rootable(),
    ensures
        r == ceil_sqrt(n as nat),
{
    let mut lo: u64 = 0;
    let mut hi: u64 = u64::MAX;
    while lo < hi
        invariant
            lo <= hi,
            hi * hi >= n,
            lo > 0 ==> (lo - 1) * (lo - 1) < n,
        decreases hi - lo,
    {
        let mid: u64 = lo + (hi - lo) / 2;
        assert(mid * mid <= 0xffff_ffff_ffff_ffff * 0xffff_ffff_ffff_ffff) by (nonlinear_arith)
            requires
                0 <= mid <= 0xffff_ffff_ffff_ffff,
        ;
        let sq: u128 = (mid as u128) * (mid as u128);
        if sq >= n {
            hi = mid;
        } else {
            lo = mid + 1;
        }
    }
    proof {
        lemma_ceil_sqrt_from_witness(n as nat, lo as nat);
    }
    lo
}

/// `d * num / den`, rounded toward zero.
pub fn scale_toward_zero_i64(d: i64, num: u32, den: u64) -> (r: i64)
    requires
        den > 0,
        magnitude(d as int) <= 0xffff_ffff,
        num <= den || magnitude(d as int) <= den,
    ensures
        r == scale_toward_zero(d as int, num as nat, den as nat),
{
    let m: u64 = magnitude_of(d);
    proof {
        lemma_scale_toward_zero_bounds(d as int, num as nat, den as nat);
        assert(m * num <= 0xffff_ffff * 0xffff_ffff) by (nonlinear_arith)
            requires
                0 <= m <= 0xffff_ffff,
                0 <= num <= 0xffff_ffff,
        ;
    }
    let q: u64 = (m * (num as u64)) / den;
    if d < 0 {
        -(q as i64)
    } else {
        q as i64
    }
}

} // verus!
