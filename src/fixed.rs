//! Fixed-point scalars and 2D vectors.
//!
//! Every length, speed, mass, coefficient and unit-vector component is an
//! integer count of thousandths (`SCALE` stands for 1.0).
use vstd::arithmetic::div_mod::{
    lemma_fundamental_div_mod, lemma_fundamental_div_mod_converse, lemma_mod_pos_bound,
};
use vstd::prelude::*;

verus! {

/// The fixed-point representation of 1.0.
pub const SCALE: i64 = 1000;

/// Largest magnitude of a coordinate or a velocity component.
pub const LIMIT: i64 = 1073741824;

/// Extra fractional precision used when measuring a length to rescale by it.
pub const PRECISION: i64 = 65536;

/// Division that rounds toward zero, as Rust's integer `/` does.
pub open spec fn tdiv(a: int, b: int) -> int {
    if a >= 0 {
        a / b
    } else {
        -((-a) / b)
    }
}

/// `r` is the integer square root of `n`, rounded down.
pub open spec fn is_floor_sqrt(r: int, n: int) -> bool {
    0 <= r && r * r <= n && n < (r + 1) * (r + 1)
}

/// The integer square root of `n >= 0`, rounded down.
pub open spec fn floor_sqrt(n: int) -> int {
    choose|r: int| is_floor_sqrt(r, n)
}

/// The integer square root of `n >= 0`, rounded up.
pub open spec fn ceil_sqrt(n: int) -> int {
    if floor_sqrt(n) * floor_sqrt(n) == n {
        floor_sqrt(n)
    } else {
        floor_sqrt(n) + 1
    }
}

pub proof fn lemma_floor_sqrt_unique(r: int, s: int, n: int)
    requires
        is_floor_sqrt(r, n),
        is_floor_sqrt(s, n),
    ensures
        r == s,
{
    if r < s {
        assert((r + 1) * (r + 1) <= s * s) by (nonlinear_arith)
            requires
                0 <= r,
                r + 1 <= s,
        ;
    } else if s < r {
        assert((s + 1) * (s + 1) <= r * r) by (nonlinear_arith)
            requires
                0 <= s,
                s + 1 <= r,
        ;
    }
}

/// Any witness is the floor square root.
pub proof fn lemma_floor_sqrt_is(r: int, n: int)
    requires
        is_floor_sqrt(r, n),
    ensures
        floor_sqrt(n) == r,
{
    lemma_floor_sqrt_unique(floor_sqrt(n), r, n);
}

/// The square root of a perfect square is exact.
pub proof fn lemma_floor_sqrt_square(k: int)
    requires
        0 <= k,
    ensures
        floor_sqrt(k * k) == k,
{
    assert(k * k < (k + 1) * (k + 1)) by (nonlinear_arith)
        requires
            0 <= k,
    ;
    lemma_floor_sqrt_is(k, k * k);
}

/// Integer square root, rounded down.
pub fn isqrt(n: u64) -> (r: u64)
    ensures
        is_floor_sqrt(r as int, n as int),
        r == floor_sqrt(n as int),
        r <= 4294967295,
{
    let mut lo: u64 = 0;
    let mut hi: u64 = 4294967296;
    assert(n < 4294967296 * 4294967296);
    while hi - lo > 1
        invariant
            lo < hi <= 4294967296,
            lo * lo <= n,
            n < hi * hi,
        decreases hi - lo,
    {
        let mid: u64 = lo + (hi - lo) / 2;
        assert(mid * mid <= 4294967296 * 4294967296) by (nonlinear_arith)
            requires
                mid <= 4294967296,
        ;
        if (mid as u128) * (mid as u128) <= n as u128 {
            lo = mid;
        } else {
            hi = mid;
        }
    }
    proof {
        lemma_floor_sqrt_is(lo as int, n as int);
    }
    lo
}

/// Facts about division that rounds toward zero: it keeps the sign, never
/// grows the magnitude, and `|q| * b <= |a| < (|q| + 1) * b`.
pub proof fn lemma_tdiv(a: int, b: int)
    requires
        b > 0,
    ensures
        a >= 0 ==> 0 <= tdiv(a, b) <= a,
        a <= 0 ==> a <= tdiv(a, b) <= 0,
        a >= 0 ==> tdiv(a, b) * b <= a < tdiv(a, b) * b + b,
        a <= 0 ==> tdiv(a, b) * b >= a > tdiv(a, b) * b - b,
{
    let m = if a >= 0 { a } else { -a };
    lemma_fundamental_div_mod(m, b);
    lemma_mod_pos_bound(m, b);
    let q = m / b;
    assert(q * b == b * q) by (nonlinear_arith);
    assert(q >= 0) by (nonlinear_arith)
        requires
            m == b * q + m % b,
            m % b < b,
            m >= 0,
            b > 0,
    ;
    assert(q <= m) by (nonlinear_arith)
        requires
            m == b * q + m % b,
            m % b >= 0,
            q >= 0,
            b > 0,
    ;
    if a < 0 {
        assert(tdiv(a, b) == -q);
        assert((-q) * b == -(q * b)) by (nonlinear_arith);
    }
}

/// A bound on the operand bounds the quotient.
pub proof fn lemma_tdiv_le(a: int, b: int, k: int)
    requires
        b > 0,
        k >= 0,
        -k * b <= a <= k * b,
    ensures
        -k <= tdiv(a, b) <= k,
{
    lemma_tdiv(a, b);
    let q = tdiv(a, b);
    if q > k {
        assert(q * b >= k * b + b) by (nonlinear_arith)
            requires
                q >= k + 1,
                b > 0,
        ;
    }
    if q < -k {
        assert(q * b <= -k * b - b) by (nonlinear_arith)
            requires
                q <= -k - 1,
                b > 0,
        ;
    }
}

/// Exact division.
pub proof fn lemma_tdiv_exact(k: int, b: int)
    requires
        b > 0,
    ensures
        tdiv(k * b, b) == k,
{
    lemma_tdiv(k * b, b);
    let q = tdiv(k * b, b);
    if k >= 0 {
        assert(k * b >= 0) by (nonlinear_arith)
            requires
                k >= 0,
                b > 0,
        ;
        assert(q == k) by (nonlinear_arith)
            requires
                q * b <= k * b,
                k * b < q * b + b,
                b > 0,
        ;
    } else {
        assert(k * b < 0) by (nonlinear_arith)
            requires
                k < 0,
                b > 0,
        ;
        assert(q == k) by (nonlinear_arith)
            requires
                q * b >= k * b,
                k * b > q * b - b,
                b > 0,
        ;
    }
}

/// Division rounding toward zero, as Rust's `/` on signed integers.
pub fn div_trunc(a: i128, b: i128) -> (r: i128)
    requires
        b > 0,
        -0x1_0000_0000_0000_0000_0000_0000_0000 <= a <= 0x1_0000_0000_0000_0000_0000_0000_0000,
    ensures
        r == tdiv(a as int, b as int),
{
    if a >= 0 {
        a / b
    } else {
        let m: i128 = -a;
        -(m / b)
    }
}

/// Integer square root, rounded up.
pub fn isqrt_ceil(n: u64) -> (r: u64)
    ensures
        r == ceil_sqrt(n as int),
        n <= r * r,
        r > 0 ==> (r - 1) * (r - 1) < n,
        r <= 4294967296,
{
    let s = isqrt(n);
    assert(s * s <= 4294967295 * 4294967295) by (nonlinear_arith)
        requires
            s <= 4294967295,
    ;
    if (s as u128) * (s as u128) == n as u128 {
        assert(s > 0 ==> (s - 1) * (s - 1) < s * s) by (nonlinear_arith);
        s
    } else {
        assert(s * s < n);
        s + 1
    }
}

/// A two-component fixed-point vector.
#[derive(Clone, Copy, PartialEq, Eq, Structural, Debug)]
pub struct Vec2 {
    pub x: i64,
    pub y: i64,
}

impl Vec2 {
    /// Both components lie in `[-k, k]`.
    pub open spec fn within(self, k: int) -> bool {
        -k <= self.x <= k && -k <= self.y <= k
    }

    pub fn new(x: i64, y: i64) -> (r: Vec2)
        ensures
            r.x == x,
            r.y == y,
    {
        Vec2 { x, y }
    }

    pub fn zero() -> (r: Vec2)
        ensures
            r.x == 0,
            r.y == 0,
    {
        Vec2 { x: 0, y: 0 }
    }
}

/// The squared length of `v`, in squared fixed-point units.
pub open spec fn len_sq(v: Vec2) -> int {
    v.x * v.x + v.y * v.y
}

/// The dot product of `a` and `b`, in squared fixed-point units.
pub open spec fn dot(a: Vec2, b: Vec2) -> int {
    a.x * b.x + a.y * b.y
}

/// The vector `v * m / d`, each component rounded toward zero.
pub open spec fn scale_div(v: Vec2, m: int, d: int) -> Vec2 {
    Vec2 { x: tdiv(v.x * m, d) as i64, y: tdiv(v.y * m, d) as i64 }
}

/// `v` with `PRECISION` times finer units.
pub open spec fn fine(v: Vec2) -> Vec2 {
    Vec2 { x: (v.x * PRECISION) as i64, y: (v.y * PRECISION) as i64 }
}

/// `v` rescaled to length `m`, each component rounded toward zero. The
/// length is measured in `PRECISION` times finer units and rounded up, so
/// the result never exceeds `m` and falls short of it by about one unit at
/// most; the zero vector stays zero.
pub open spec fn scaled_to(v: Vec2, m: int) -> Vec2 {
    if len_sq(v) == 0 {
        Vec2 { x: 0, y: 0 }
    } else {
        scale_div(fine(v), m, ceil_sqrt(len_sq(fine(v))))
    }
}

/// The unit vector along `v` (to within the rounding of `scaled_to`), or
/// zero for the zero vector.
pub open spec fn unit(v: Vec2) -> Vec2 {
    scaled_to(v, SCALE as int)
}

/// A square root taken of `x*x + y*y` is at least `|x|`.
pub proof fn lemma_sqrt_ge_component(x: int, y: int, s: int)
    requires
        0 <= s,
        x * x + y * y <= s * s,
    ensures
        -s <= x <= s,
{
    assert(y * y >= 0) by (nonlinear_arith);
    if x > s {
        assert(x * x > s * s) by (nonlinear_arith)
            requires
                x > s,
                s >= 0,
        ;
    }
    if x < -s {
        assert(x * x > s * s) by (nonlinear_arith)
            requires
                x < -s,
                s >= 0,
        ;
    }
}

/// `v` rescaled to length `m`; see `scaled_to`.
pub fn scale_to(v: Vec2, m: i64) -> (r: Vec2)
    requires
        v.within(2 * LIMIT),
        0 <= m <= 2 * LIMIT,
    ensures
        r == scaled_to(v, m as int),
        r.within(m as int),
{
    if v.x == 0 && v.y == 0 {
        return Vec2 { x: 0, y: 0 };
    }
    proof {
        lemma_fine(v);
        assert(len_sq(v) != 0) by (nonlinear_arith)
            requires
                v.x != 0 || v.y != 0,
        ;
    }
    let w = Vec2 { x: v.x * PRECISION, y: v.y * PRECISION };
    assert(w == fine(v));
    let wx = w.x as i128;
    let wy = w.y as i128;
    assert(0 <= wx * wx <= 0x1_0000_0000_0000 * 0x1_0000_0000_0000 && 0 <= wy * wy
        <= 0x1_0000_0000_0000 * 0x1_0000_0000_0000) by (nonlinear_arith)
        requires
            -0x1_0000_0000_0000 <= wx <= 0x1_0000_0000_0000,
            -0x1_0000_0000_0000 <= wy <= 0x1_0000_0000_0000,
    ;
    let n: u128 = (wx * wx + wy * wy) as u128;
    let d = isqrt_ceil_wide(n);
    proof {
        lemma_sqrt_ge_component(w.x as int, w.y as int, d as int);
        lemma_sqrt_ge_component(w.y as int, w.x as int, d as int);
        assert(-(m as int) * d <= w.x * m <= (m as int) * d) by (nonlinear_arith)
            requires
                -(d as int) <= w.x <= d,
                m >= 0,
        ;
        assert(-(m as int) * d <= w.y * m <= (m as int) * d) by (nonlinear_arith)
            requires
                -(d as int) <= w.y <= d,
                m >= 0,
        ;
        lemma_tdiv_le(w.x * m, d as int, m as int);
        lemma_tdiv_le(w.y * m, d as int, m as int);
    }
    assert(-0x1_0000_0000_0000 * 0x1_0000_0000 <= wx * m <= 0x1_0000_0000_0000 * 0x1_0000_0000 && -0x1_0000_0000_0000
        * 0x1_0000_0000 <= wy * m <= 0x1_0000_0000_0000 * 0x1_0000_0000) by (nonlinear_arith)
        requires
            -0x1_0000_0000_0000 <= wx <= 0x1_0000_0000_0000,
            -0x1_0000_0000_0000 <= wy <= 0x1_0000_0000_0000,
            0 <= m <= 0x1_0000_0000,
    ;
    let rx = div_trunc(wx * (m as i128), d as i128);
    let ry = div_trunc(wy * (m as i128), d as i128);
    Vec2 { x: rx as i64, y: ry as i64 }
}

/// Integer square root of a wide value, rounded down.
pub fn isqrt_wide(n: u128) -> (r: u128)
    requires
        n < 0x1_0000_0000_0000_0000_0000_0000_0000,
    ensures
        is_floor_sqrt(r as int, n as int),
        r == floor_sqrt(n as int),
        r < 0x1_0000_0000_0000_0000,
{
    let mut lo: u128 = 0;
    let mut hi: u128 = 0x1_0000_0000_0000_0000;
    assert(n < 0x1_0000_0000_0000_0000 * 0x1_0000_0000_0000_0000);
    while hi - lo > 1
        invariant
            lo < hi <= 0x1_0000_0000_0000_0000,
            lo * lo <= n,
            n < hi * hi,
        decreases hi - lo,
    {
        let mid: u128 = lo + (hi - lo) / 2;
        assert(mid * mid < 0x1_0000_0000_0000_0000 * 0x1_0000_0000_0000_0000) by (nonlinear_arith)
            requires
                mid < 0x1_0000_0000_0000_0000,
        ;
        if mid * mid <= n {
            lo = mid;
        } else {
            hi = mid;
        }
    }
    proof {
        lemma_floor_sqrt_is(lo as int, n as int);
    }
    lo
}

/// Integer square root of a wide value, rounded up.
pub fn isqrt_ceil_wide(n: u128) -> (r: u128)
    requires
        n < 0x1_0000_0000_0000_0000_0000_0000_0000,
    ensures
        r == ceil_sqrt(n as int),
        n <= r * r,
        r > 0 ==> (r - 1) * (r - 1) < n,
        r <= 0x1_0000_0000_0000_0000,
{
    let s = isqrt_wide(n);
    assert(s * s < 0x1_0000_0000_0000_0000 * 0x1_0000_0000_0000_0000) by (nonlinear_arith)
        requires
            s < 0x1_0000_0000_0000_0000,
    ;
    if s * s == n {
        assert(s > 0 ==> (s - 1) * (s - 1) < s * s) by (nonlinear_arith);
        s
    } else {
        s + 1
    }
}

/// Division rounding down, as `/` does in specifications.
pub fn div_floor(a: i128, b: i128) -> (r: i128)
    requires
        b > 0,
        -0x1_0000_0000_0000_0000_0000_0000_0000 <= a <= 0x1_0000_0000_0000_0000_0000_0000_0000,
        b <= 0x1_0000_0000_0000_0000_0000_0000_0000,
    ensures
        r == a / b,
{
    if a >= 0 {
        a / b
    } else {
        let m: i128 = -a;
        let q: i128 = (m + b - 1) / b;
        proof {
            let bi = b as int;
            let t: int = m + b - 1;
            let rem: int = t % bi;
            assert(q == t / bi);
            lemma_fundamental_div_mod(t, bi);
            lemma_mod_pos_bound(t, bi);
            assert(a == (-q) * bi + (bi - 1 - rem)) by (nonlinear_arith)
                requires
                    t == bi * q + rem,
                    t == m + bi - 1,
                    a == -m,
            ;
            lemma_fundamental_div_mod_converse(a as int, bi, -q, bi - 1 - rem);
        }
        -q
    }
}

/// Every `n >= 0` has an integer square root.
pub proof fn lemma_floor_sqrt_exists(n: int)
    requires
        n >= 0,
    ensures
        is_floor_sqrt(floor_sqrt(n), n),
    decreases n,
{
    if n == 0 {
        assert(is_floor_sqrt(0, 0));
    } else {
        lemma_floor_sqrt_exists(n - 1);
        let r = floor_sqrt(n - 1);
        if (r + 1) * (r + 1) <= n {
            assert((r + 1) * (r + 1) == n);
            assert(n < (r + 2) * (r + 2)) by (nonlinear_arith)
                requires
                    (r + 1) * (r + 1) == n,
                    r >= 0,
            ;
            assert(is_floor_sqrt(r + 1, n));
        } else {
            assert(is_floor_sqrt(r, n));
        }
    }
}

/// What the rounded-up square root satisfies.
pub proof fn lemma_ceil_sqrt(n: int)
    requires
        n >= 0,
    ensures
        0 <= ceil_sqrt(n),
        n <= ceil_sqrt(n) * ceil_sqrt(n),
        ceil_sqrt(n) > 0 ==> (ceil_sqrt(n) - 1) * (ceil_sqrt(n) - 1) < n,
        n > 0 ==> ceil_sqrt(n) > 0,
{
    lemma_floor_sqrt_exists(n);
    let s = floor_sqrt(n);
    if s == 0 {
        assert(s * s == 0);
    }
    if s * s != n {
        assert(n <= (s + 1) * (s + 1));
    } else if s > 0 {
        assert((s - 1) * (s - 1) < s * s) by (nonlinear_arith)
            requires
                s > 0,
        ;
    }
}

/// `0 <= p <= q` gives `p * p <= q * q`.
pub proof fn lemma_square_le(p: int, q: int)
    requires
        0 <= p <= q,
    ensures
        p * p <= q * q,
{
    assert(p * p <= q * q) by (nonlinear_arith)
        requires
            0 <= p <= q,
    ;
}

/// Rescaling to length `m` gives a vector no longer than `m`.
pub proof fn lemma_scaled_to_len(v: Vec2, m: int)
    requires
        0 <= m <= 2 * LIMIT,
        v.within(2 * LIMIT),
    ensures
        len_sq(scaled_to(v, m)) <= m * m,
{
    if len_sq(v) != 0 {
        lemma_fine(v);
        lemma_scale_div_len(fine(v), m);
    }
}

/// `fine(v)` is `v` scaled by `PRECISION`, and zero only when `v` is.
pub proof fn lemma_fine(v: Vec2)
    requires
        v.within(2 * LIMIT),
    ensures
        fine(v).x == v.x * PRECISION,
        fine(v).y == v.y * PRECISION,
        fine(v).within(2 * LIMIT * PRECISION),
        len_sq(fine(v)) == len_sq(v) * (PRECISION * PRECISION),
        len_sq(v) != 0 ==> len_sq(fine(v)) != 0,
        len_sq(v) >= 0,
{
    assert(-2 * LIMIT * PRECISION <= v.x * PRECISION <= 2 * LIMIT * PRECISION && -2 * LIMIT
        * PRECISION <= v.y * PRECISION <= 2 * LIMIT * PRECISION) by (nonlinear_arith)
        requires
            v.within(2 * LIMIT),
    ;
    let w = fine(v);
    assert(len_sq(w) == len_sq(v) * (PRECISION * PRECISION)) by (nonlinear_arith)
        requires
            w.x == v.x * PRECISION,
            w.y == v.y * PRECISION,
    ;
    assert(v.x * v.x >= 0 && v.y * v.y >= 0) by (nonlinear_arith);
    assert(len_sq(v) != 0 ==> len_sq(v) * (PRECISION * PRECISION) != 0) by (nonlinear_arith);
}

/// Dividing by the rounded-up length gives a vector no longer than `m`.
pub proof fn lemma_scale_div_len(v: Vec2, m: int)
    requires
        0 <= m <= 2 * LIMIT,
        len_sq(v) != 0,
    ensures
        len_sq(scale_div(v, m, ceil_sqrt(len_sq(v)))) <= m * m,
{
    let n = len_sq(v);
    assert(v.x * v.x >= 0 && v.y * v.y >= 0) by (nonlinear_arith);
    lemma_ceil_sqrt(n);
    let d = ceil_sqrt(n);
    let r = scale_div(v, m, d);
    let ax = if v.x >= 0 { v.x as int } else { -v.x };
    let ay = if v.y >= 0 { v.y as int } else { -v.y };
    assert(ax * ax == v.x * v.x && ay * ay == v.y * v.y) by (nonlinear_arith)
        requires
            ax == v.x || ax == -v.x,
            ay == v.y || ay == -v.y,
    ;
    lemma_sqrt_ge_component(v.x as int, v.y as int, d);
    lemma_sqrt_ge_component(v.y as int, v.x as int, d);
    assert(-m * d <= v.x * m <= m * d && -m * d <= v.y * m <= m * d) by (nonlinear_arith)
        requires
            -d <= v.x <= d,
            -d <= v.y <= d,
            m >= 0,
    ;
    lemma_tdiv_le(v.x * m, d, m);
    lemma_tdiv_le(v.y * m, d, m);
    let qx = tdiv(v.x * m, d);
    let qy = tdiv(v.y * m, d);
    assert(r.x == qx && r.y == qy);
    lemma_tdiv(v.x * m, d);
    lemma_tdiv(v.y * m, d);
    let bx = if qx >= 0 { qx } else { -qx };
    let by = if qy >= 0 { qy } else { -qy };
    assert(bx * d <= ax * m) by (nonlinear_arith)
        requires
            bx == qx || bx == -qx,
            bx >= 0,
            ax == v.x || ax == -v.x,
            ax >= 0,
            m >= 0,
            d > 0,
            v.x * m >= 0 ==> qx * d <= v.x * m,
            v.x * m <= 0 ==> qx * d >= v.x * m,
            v.x * m >= 0 ==> qx >= 0,
            v.x * m <= 0 ==> qx <= 0,
    ;
    assert(by * d <= ay * m) by (nonlinear_arith)
        requires
            by == qy || by == -qy,
            by >= 0,
            ay == v.y || ay == -v.y,
            ay >= 0,
            m >= 0,
            d > 0,
            v.y * m >= 0 ==> qy * d <= v.y * m,
            v.y * m <= 0 ==> qy * d >= v.y * m,
            v.y * m >= 0 ==> qy >= 0,
            v.y * m <= 0 ==> qy <= 0,
    ;
    assert(bx * d >= 0 && by * d >= 0) by (nonlinear_arith)
        requires
            bx >= 0,
            by >= 0,
            d > 0,
    ;
    lemma_square_le(bx * d, ax * m);
    lemma_square_le(by * d, ay * m);
    assert((bx * d) * (bx * d) == (bx * bx) * (d * d)) by (nonlinear_arith);
    assert((by * d) * (by * d) == (by * by) * (d * d)) by (nonlinear_arith);
    assert((ax * m) * (ax * m) == (ax * ax) * (m * m)) by (nonlinear_arith);
    assert((ay * m) * (ay * m) == (ay * ay) * (m * m)) by (nonlinear_arith);
    assert((bx * bx + by * by) * (d * d) == (bx * bx) * (d * d) + (by * by) * (d * d))
        by (nonlinear_arith);
    assert((ax * ax + ay * ay) * (m * m) == (ax * ax) * (m * m) + (ay * ay) * (m * m))
        by (nonlinear_arith);
    assert((ax * ax + ay * ay) * (m * m) <= (d * d) * (m * m)) by (nonlinear_arith)
        requires
            ax * ax + ay * ay <= d * d,
            m >= 0,
    ;
    assert(bx * bx + by * by <= m * m) by (nonlinear_arith)
        requires
            (bx * bx + by * by) * (d * d) <= (d * d) * (m * m),
            d > 0,
    ;
    assert(qx * qx == bx * bx && qy * qy == by * by) by (nonlinear_arith)
        requires
            bx == qx || bx == -qx,
            by == qy || by == -qy,

}

/// `c` held within `[-LIMIT, LIMIT]`.
pub open spec fn clamp_limit(c: int) -> int {
    if c > LIMIT {
        LIMIT as int
    } else if c < -LIMIT {
        -LIMIT
    } else {
        c
    }
}

/// `v` with each component held within `[-LIMIT, LIMIT]`.
pub open spec fn clamp_vec(x: int, y: int) -> Vec2 {
    Vec2 { x: clamp_limit(x) as i64, y: clamp_limit(y) as i64 }
}

/// Holds `c` within `[-LIMIT, LIMIT]`.
pub fn clamp_coord(c: i64) -> (r: i64)
    ensures
        r == clamp_limit(c as int),
{
    if c > LIMIT {
        LIMIT
    } else if c < -LIMIT {
        -LIMIT
    } else {
        c
    }
}

/// Holds a wide `c` within `[-LIMIT, LIMIT]`.
pub fn clamp_wide(c: i128) -> (r: i64)
    ensures
        r == clamp_limit(c as int),
{
    if c > LIMIT as i128 {
        LIMIT
    } else if c < -(LIMIT as i128) {
        -LIMIT
    } else {
        c as i64
    }
}

/// Rounding down moves a quotient by less than one from the exact value.
pub proof fn lemma_floor_div_bound(a: int, b: int)
    requires
        b > 0,
    ensures
        (a / b) * b <= a < (a / b) * b + b,
        a >= 0 ==> 0 <= a / b <= a,
        a <= 0 ==> a <= a / b <= 0,
{
    lemma_fundamental_div_mod(a, b);
    vstd::arithmetic::div_mod::lemma_mod_bound(a, b);
    let q = a / b;
    assert(q * b == b * q) by (nonlinear_arith);
    assert(a >= 0 ==> 0 <= q <= a) by (nonlinear_arith)
        requires
            a == b * q + a % b,
            0 <= a % b < b,
            b > 0,
    ;
    assert(a <= 0 ==> a <= q <= 0) by (nonlinear_arith)
        requires
            a == b * q + a % b,
            0 <= a % b < b,
            b > 0,
    ;
}

} // verus!
