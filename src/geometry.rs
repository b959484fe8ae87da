//! Fixed-point plane geometry: points, integer square root, scaled offsets
//! and a rational sine.
use vstd::prelude::*;

verus! {

/// The fixed-point value that stands for 1.0.
pub const ONE: i64 = 65536;

/// Largest magnitude of a coordinate that the tessellator accepts.
pub const COORD_MAX: i64 = 0x1000_0000;

/// Largest magnitude of a vector that may be scaled by `offset`.
pub const DIR_MAX: i64 = 0x4000_0000;

/// Largest stroke half-thickness or radius.
pub const RADIUS_MAX: i64 = 0x100_0000;

/// A point or vector of the plane in fixed point.
#[derive(Clone, Copy, Debug, PartialEq, Eq, Structural)]
pub struct Vec2 {
    pub x: i64,
    pub y: i64,
}

/// A point of space in fixed point.
#[derive(Clone, Copy, Debug, PartialEq, Eq, Structural)]
pub struct Vec3 {
    pub x: i64,
    pub y: i64,
    pub z: i64,
}

pub open spec fn within(v: int, bound: int) -> bool {
    -bound <= v <= bound
}

impl Vec2 {
    /// Both coordinates lie within `bound` of zero.
    pub open spec fn bounded(self, bound: int) -> bool {
        within(self.x as int, bound) && within(self.y as int, bound)
    }

    pub open spec fn spec_new(x: int, y: int) -> Vec2 {
        Vec2 { x: x as i64, y: y as i64 }
    }

    pub fn new(x: i64, y: i64) -> (r: Vec2)
        ensures
            r.x == x,
            r.y == y,
    {
        Vec2 { x, y }
    }
}

impl Vec3 {
    pub fn new(x: i64, y: i64, z: i64) -> (r: Vec3)
        ensures
            r.x == x,
            r.y == y,
            r.z == z,
    {
        Vec3 { x, y, z }
    }
}

pub open spec fn add_spec(a: Vec2, b: Vec2) -> Vec2 {
    Vec2::spec_new(a.x + b.x, a.y + b.y)
}

pub open spec fn sub_spec(a: Vec2, b: Vec2) -> Vec2 {
    Vec2::spec_new(a.x - b.x, a.y - b.y)
}

pub open spec fn neg_spec(a: Vec2) -> Vec2 {
    Vec2::spec_new(-a.x, -a.y)
}

/// The vector turned a quarter turn counter-clockwise.
pub open spec fn perp_spec(a: Vec2) -> Vec2 {
    Vec2::spec_new(-a.y, a.x as int)
}

pub open spec fn dot_spec(a: Vec2, b: Vec2) -> int {
    a.x * b.x + a.y * b.y
}

/// The z component of the cross product.
pub open spec fn cross_spec(a: Vec2, b: Vec2) -> int {
    a.x * b.y - a.y * b.x
}

impl Vec2 {
    pub fn add(self, b: Vec2) -> (r: Vec2)
        requires
            self.bounded(DIR_MAX as int),
            b.bounded(DIR_MAX as int),
        ensures
            r == add_spec(self, b),
            r.x == self.x + b.x,
            r.y == self.y + b.y,
    {
        Vec2 { x: self.x + b.x, y: self.y + b.y }
    }

    pub fn sub(self, b: Vec2) -> (r: Vec2)
        requires
            self.bounded(DIR_MAX as int),
            b.bounded(DIR_MAX as int),
        ensures
            r == sub_spec(self, b),
            r.x == self.x - b.x,
            r.y == self.y - b.y,
    {
        Vec2 { x: self.x - b.x, y: self.y - b.y }
    }

    pub fn neg(self) -> (r: Vec2)
        requires
            self.bounded(DIR_MAX as int),
        ensures
            r == neg_spec(self),
            r.x == -self.x,
            r.y == -self.y,
    {
        Vec2 { x: -self.x, y: -self.y }
    }

    pub fn perp(self) -> (r: Vec2)
        requires
            self.bounded(DIR_MAX as int),
        ensures
            r == perp_spec(self),
            r.x == -self.y,
            r.y == self.x,
    {
        Vec2 { x: -self.y, y: self.x }
    }

    pub fn dot(self, b: Vec2) -> (r: i128)
        requires
            self.bounded(DIR_MAX as int),
            b.bounded(DIR_MAX as int),
        ensures
            r == dot_spec(self, b),
    {
        proof {
            lemma_mul_within(self.x as int, b.x as int, DIR_MAX as int, DIR_MAX as int);
            lemma_mul_within(self.y as int, b.y as int, DIR_MAX as int, DIR_MAX as int);
        }
        (self.x as i128) * (b.x as i128) + (self.y as i128) * (b.y as i128)
    }

    pub fn cross(self, b: Vec2) -> (r: i128)
        requires
            self.bounded(DIR_MAX as int),
            b.bounded(DIR_MAX as int),
        ensures
            r == cross_spec(self, b),
    {
        proof {
            lemma_mul_within(self.x as int, b.y as int, DIR_MAX as int, DIR_MAX as int);
            lemma_mul_within(self.y as int, b.x as int, DIR_MAX as int, DIR_MAX as int);
        }
        (self.x as i128) * (b.y as i128) - (self.y as i128) * (b.x as i128)
    }
}

pub proof fn lemma_mul_within(a: int, b: int, ba: int, bb: int)
    requires
        within(a, ba),
        within(b, bb),
    ensures
        within(a * b, ba * bb),
{
    assert(within(a * b, ba * bb)) by (nonlinear_arith)
        requires
            -ba <= a <= ba,
            -bb <= b <= bb,
    ;
}

/// `r` is the integer square root of `x`, rounded down.
pub open spec fn is_sqrt_floor(x: int, r: int) -> bool {
    0 <= r && r * r <= x && x < (r + 1) * (r + 1)
}

pub open spec fn sqrt_floor(x: int) -> int {
    choose|r: int| is_sqrt_floor(x, r)
}

proof fn lemma_sqrt_floor_unique(x: int, r: int)
    requires
        is_sqrt_floor(x, r),
    ensures
        sqrt_floor(x) == r,
{
    let s = sqrt_floor(x);
    assert(is_sqrt_floor(x, s));
    if s < r {
        assert((s + 1) * (s + 1) <= r * r) by (nonlinear_arith)
            requires
                0 <= s,
                s + 1 <= r,
        ;
    } else if r < s {
        assert((r + 1) * (r + 1) <= s * s) by (nonlinear_arith)
            requires
                0 <= r,
                r + 1 <= s,
        ;
    }
}

/// Integer square root by bisection.
pub fn isqrt(x: u128) -> (r: u128)
    requires
        x < 0x1000_0000_0000_0000_0000_0000_0000_0000,
    ensures
        is_sqrt_floor(x as int, r as int),
        r == sqrt_floor(x as int),
        r <= 0x4000_0000_0000_0000,
{
    let mut lo: u128 = 0;
    let mut hi: u128 = 0x4000_0000_0000_0000;
    assert(0x4000_0000_0000_0000u128 * 0x4000_0000_0000_0000u128
        == 0x1000_0000_0000_0000_0000_0000_0000_0000u128);
    while hi - lo > 1
        invariant
            lo < hi <= 0x4000_0000_0000_0000,
            lo * lo <= x,
            x < hi * hi,
        decreases hi - lo,
    {
        let mid: u128 = lo + (hi - lo) / 2;
        assert(mid * mid <= 0x4000_0000_0000_0000u128 * 0x4000_0000_0000_0000u128) by (nonlinear_arith)
            requires
                mid <= 0x4000_0000_0000_0000u128,
        ;
        if mid * mid <= x {
            lo = mid;
        } else {
            hi = mid;
        }
    }
    proof {
        lemma_sqrt_floor_unique(x as int, lo as int);
    }
    lo
}

/// Division rounded toward negative infinity, for a positive divisor.
pub fn floor_div(a: i128, b: i128) -> (q: i128)
    requires
        b > 0,
        a > i128::MIN,
    ensures
        q == a / b,
{
    if a >= 0 {
        a / b
    } else {
        let m: i128 = -a - 1;
        let q: i128 = m / b;
        proof {
            let r = m % b;
            vstd::arithmetic::div_mod::lemma_fundamental_div_mod(m as int, b as int);
            vstd::arithmetic::div_mod::lemma_mod_bound(m as int, b as int);
            assert(a == (-q - 1) * b + (b - r - 1)) by (nonlinear_arith)
                requires
                    m == b * q + r,
                    a == -m - 1,
            ;
            vstd::arithmetic::div_mod::lemma_fundamental_div_mod_converse_div(
                a as int,
                b as int,
                -q - 1,
                b - r - 1,
            );
        }
        -q - 1
    }
}

pub open spec fn norm_sq(v: Vec2) -> int {
    v.x * v.x + v.y * v.y
}

/// Squared lengths are brought to at least this before their square root
/// is taken, so that the root is exact to a part in 2^60.
pub const NORM_TARGET: u128 = 0x100_0000_0000_0000_0000_0000_0000_0000;

/// The power of two that brings the squared length `m` to at least
/// `NORM_TARGET` when applied to the vector (that is, `m * s * s`).
pub open spec fn scale_of(m: int) -> int
    decreases 0x1000_0000_0000_0000_0000_0000_0000_0000 - m,
{
    if m <= 0 || m >= NORM_TARGET {
        1
    } else {
        2 * scale_of(4 * m)
    }
}

/// `v` scaled to length `h`, rounded toward negative infinity per
/// coordinate; the zero vector stays zero. The length of `v` is taken at a
/// precision of a part in 2^60: `v` is first scaled by `scale_of`.
pub open spec fn offset_spec(v: Vec2, h: int) -> Vec2 {
    let n = norm_sq(v);
    if n == 0 {
        Vec2::spec_new(0, 0)
    } else {
        let s = scale_of(n);
        let len = sqrt_floor(n * s * s);
        Vec2::spec_new((v.x * s * h) / len, (v.y * s * h) / len)
    }
}

proof fn lemma_coord_le_len(c: int, x: int, len: int)
    requires
        0 <= c * c <= x,
        is_sqrt_floor(x, len),
    ensures
        within(c, len),
{
    if c > len {
        assert((len + 1) * (len + 1) <= c * c) by (nonlinear_arith)
            requires
                0 <= len,
                len + 1 <= c,
        ;
    }
    if c < -len {
        assert((len + 1) * (len + 1) <= c * c) by (nonlinear_arith)
            requires
                0 <= len,
                c <= -len - 1,
        ;
    }
}

proof fn lemma_scaled_within(c: int, h: int, len: int)
    requires
        within(c, len),
        0 <= h,
        len > 0,
    ensures
        within((c * h) / len, h),
{
    assert(within(c * h, len * h)) by (nonlinear_arith)
        requires
            within(c, len),
            0 <= h,
    ;
    vstd::arithmetic::div_mod::lemma_fundamental_div_mod(c * h, len);
    vstd::arithmetic::div_mod::lemma_mod_bound(c * h, len);
    let q = (c * h) / len;
    let r = (c * h) % len;
    assert(within(q, h)) by (nonlinear_arith)
        requires
            c * h == len * q + r,
            0 <= r < len,
            within(c * h, len * h),
            len > 0,
    ;
}

proof fn lemma_abs_sq(a: int, aa: int)
    requires
        aa == a || aa == -a,
    ensures
        aa * aa == a * a,
{
    assert(aa * aa == a * a) by (nonlinear_arith)
        requires
            aa == a || aa == -a,
    ;
}

/// Bounds on the square of `x = a - e` for `0 <= e < len`.
proof fn lemma_rounded_sq(a: int, x: int, e: int, aa: int, len: int)
    requires
        a == x + e,
        0 <= e < len,
        aa >= a,
        aa >= -a,
    ensures
        x * x <= a * a + 2 * (aa * len) + len * len,
        x * x >= a * a - 2 * (aa * len),
{
    assert(x * x == a * a - 2 * (a * e) + e * e) by (nonlinear_arith)
        requires
            x == a - e,
    ;
    assert(-(a * e) <= aa * len && a * e <= aa * len) by (nonlinear_arith)
        requires
            aa >= a,
            aa >= -a,
            0 <= e < len,
    ;
    assert(0 <= e * e <= len * len) by (nonlinear_arith)
        requires
            0 <= e < len,
    ;
}

proof fn lemma_upper_margin(h: int, l: int)
    requires
        h >= 0,
        l >= 3 * h + 4,
    ensures
        h * h * ((l + 1) * (l + 1)) + 3 * h * (l + 1) * l + 2 * (l * l) <= (h + 2) * (h + 2) * (l * l),
{
    assert(h * h * ((l + 1) * (l + 1)) + 3 * h * (l + 1) * l + 2 * (l * l) <= (h + 2) * (h + 2) * (l * l))
        by (nonlinear_arith)
        requires
            h >= 0,
            l >= 3 * h + 4,
    ;
}

proof fn lemma_lower_margin(h: int, l: int)
    requires
        h >= 5,
        l >= 3 * h + 4,
    ensures
        h * h * (l * l) - 3 * h * (l + 1) * l >= (h - 2) * (h - 2) * (l * l),
{
    assert(h * h * (l * l) - 3 * h * (l + 1) * l >= (h - 2) * (h - 2) * (l * l)) by (nonlinear_arith)
        requires
            h >= 5,
            l >= 3 * h + 4,
    ;
}

/// Rounding each coordinate of a vector of length `h` down moves it by
/// less than one unit on each axis: its length stays within 2 of `h`.
/// Here `(a, b) / len` has length `h` up to the precision of `len`.
proof fn lemma_rounded_length(a: int, b: int, h: int, m: int, len: int, rx: int, ry: int)
    requires
        a * a + b * b == h * h * m,
        is_sqrt_floor(m, len),
        0 <= h,
        len >= 3 * h + 4,
        rx == a / len,
        ry == b / len,
    ensures
        rx * rx + ry * ry <= (h + 2) * (h + 2),
        h >= 5 ==> (h - 2) * (h - 2) <= rx * rx + ry * ry,
{
    vstd::arithmetic::div_mod::lemma_fundamental_div_mod(a, len);
    vstd::arithmetic::div_mod::lemma_mod_bound(a, len);
    vstd::arithmetic::div_mod::lemma_fundamental_div_mod(b, len);
    vstd::arithmetic::div_mod::lemma_mod_bound(b, len);
    let ex = a % len;
    let ey = b % len;
    let x = rx * len;
    let y = ry * len;
    assert(x == len * rx && y == len * ry) by (nonlinear_arith)
        requires
            x == rx * len,
            y == ry * len,
    ;
    let aa = if a >= 0 { a } else { -a };
    let ab = if b >= 0 { b } else { -b };
    lemma_abs_sq(a, aa);
    lemma_abs_sq(b, ab);
    lemma_rounded_sq(a, x, ex, aa, len);
    lemma_rounded_sq(b, y, ey, ab, len);
    let sum = aa + ab;
    let w = h * (len + 1);
    assert((aa + ab) * (aa + ab) <= 2 * (aa * aa + ab * ab)) by (nonlinear_arith);
    assert(h * h * m <= w * w) by (nonlinear_arith)
        requires
            w == h * (len + 1),
            m < (len + 1) * (len + 1),
            h >= 0,
    ;
    assert(h * h * (len * len) <= h * h * m) by (nonlinear_arith)
        requires
            len * len <= m,
    ;
    assert(2 * sum <= 3 * w) by (nonlinear_arith)
        requires
            sum * sum <= 2 * (h * h * m),
            h * h * m <= w * w,
            sum >= 0,
            w >= 0,
    ;
    assert(2 * (sum * len) <= 3 * h * (len + 1) * len) by (nonlinear_arith)
        requires
            2 * sum <= 3 * w,
            w == h * (len + 1),
            len >= 0,
    ;
    assert(h * h * m <= h * h * ((len + 1) * (len + 1))) by (nonlinear_arith)
        requires
            m < (len + 1) * (len + 1),
    ;
    assert(aa * len + ab * len == sum * len) by (nonlinear_arith)
        requires
            sum == aa + ab,
    ;
    lemma_upper_margin(h, len);
    let p = x * x + y * y;
    assert(p <= (h + 2) * (h + 2) * (len * len));
    assert(rx * rx + ry * ry <= (h + 2) * (h + 2)) by (nonlinear_arith)
        requires
            p <= (h + 2) * (h + 2) * (len * len),
            p == x * x + y * y,
            x == rx * len,
            y == ry * len,
            len > 0,
    ;
    if h >= 5 {
        lemma_lower_margin(h, len);
        assert(p >= (h - 2) * (h - 2) * (len * len));
        assert((h - 2) * (h - 2) <= rx * rx + ry * ry) by (nonlinear_arith)
            requires
                p >= (h - 2) * (h - 2) * (len * len),
                p == x * x + y * y,
                x == rx * len,
                y == ry * len,
                len > 0,
        ;
    }
}

/// Scales `v` to length `h` (see `offset_spec`): the result's length is
/// within 2 of `h` (for `h >= 5` from below), and no coordinate exceeds `h`.
pub fn offset(v: Vec2, h: i64) -> (r: Vec2)
    requires
        v.bounded(DIR_MAX as int),
        0 <= h <= RADIUS_MAX,
    ensures
        r == offset_spec(v, h as int),
        r.bounded(h as int),
        norm_sq(v) > 0 ==> norm_sq(r) <= (h + 2) * (h + 2),
        norm_sq(v) > 0 && h >= 5 ==> (h - 2) * (h - 2) <= norm_sq(r),
{
    proof {
        lemma_mul_within(v.x as int, v.x as int, DIR_MAX as int, DIR_MAX as int);
        lemma_mul_within(v.y as int, v.y as int, DIR_MAX as int, DIR_MAX as int);
        assert(0 <= v.x * v.x && 0 <= v.y * v.y) by (nonlinear_arith);
    }
    let n: u128 = ((v.x as i128) * (v.x as i128) + (v.y as i128) * (v.y as i128)) as u128;
    if n == 0 {
        Vec2 { x: 0, y: 0 }
    } else {
        let mut m: u128 = n;
        let mut s: u128 = 1;
        while m < NORM_TARGET
            invariant
                0 < n <= 2 * DIR_MAX * DIR_MAX,
                n == norm_sq(v),
                m == n * s * s,
                1 <= s,
                m < 4 * NORM_TARGET,
                0 < m,
                s * s <= m,
                s * scale_of(m as int) == scale_of(n as int),
            decreases 0x1000_0000_0000_0000_0000_0000_0000_0000 - m,
        {
            proof {
                assert(4 * m == n * (2 * s) * (2 * s) && (2 * s) * (2 * s) <= 4 * m && 0 < 4 * m) by (nonlinear_arith)
                    requires
                        m == n * s * s,
                        s * s <= m,
                        m > 0,
                ;
                assert(s < 0x1000_0000_0000_0000) by (nonlinear_arith)
                    requires
                        s * s <= m,
                        m < 0x100_0000_0000_0000_0000_0000_0000_0000,
                        s >= 1,
                ;
                assert(scale_of(m as int) == 2 * scale_of(4 * (m as int)));
                assert((2 * s) * scale_of(4 * (m as int)) == s * (2 * scale_of(4 * (m as int)))) by (nonlinear_arith);
            }
            m = m * 4;
            s = s * 2;
        }
        let len: u128 = isqrt(m);
        let ghost a = v.x * s * h;
        let ghost b = v.y * s * h;
        proof {
            assert(scale_of(m as int) == 1);
            let xs = v.x * s;
            let ys = v.y * s;
            assert(xs * xs == (v.x * v.x) * (s * s) && ys * ys == (v.y * v.y) * (s * s)) by (nonlinear_arith)
                requires
                    xs == v.x * s,
                    ys == v.y * s,
            ;
            assert(m == (v.x * v.x) * (s * s) + (v.y * v.y) * (s * s)) by (nonlinear_arith)
                requires
                    m == n * s * s,
                    n == v.x * v.x + v.y * v.y,
            ;
            assert(0 <= (v.x * v.x) * (s * s) && 0 <= (v.y * v.y) * (s * s)) by (nonlinear_arith);
            lemma_coord_le_len(xs, m as int, len as int);
            lemma_coord_le_len(ys, m as int, len as int);
            if len < 0x1000_0000_0000_0000 {
                assert((len + 1) * (len + 1) <= 0x1000_0000_0000_0000 * 0x1000_0000_0000_0000)
                    by (nonlinear_arith)
                    requires
                        0 <= len < 0x1000_0000_0000_0000,
                ;
            }
            assert(len >= 0x1000_0000_0000_0000);
            assert(s < 0x4000_0000_0000_0000) by (nonlinear_arith)
                requires
                    s * s <= m,
                    m < 0x1000_0000_0000_0000_0000_0000_0000_0000,
                    s >= 1,
            ;
            lemma_mul_within(xs, h as int, 0x4000_0000_0000_0000, RADIUS_MAX as int);
            lemma_mul_within(ys, h as int, 0x4000_0000_0000_0000, RADIUS_MAX as int);
            lemma_scaled_within(xs, h as int, len as int);
            lemma_scaled_within(ys, h as int, len as int);
            assert(a * a + b * b == h * h * (xs * xs + ys * ys)) by (nonlinear_arith)
                requires
                    a == xs * h,
                    b == ys * h,
            ;
            lemma_rounded_length(a, b, h as int, m as int, len as int, a / (len as int), b / (len as int));
        }
        let xs: i128 = (v.x as i128) * (s as i128);
        let ys: i128 = (v.y as i128) * (s as i128);
        let x: i128 = floor_div(xs * (h as i128), len as i128);
        let y: i128 = floor_div(ys * (h as i128), len as i128);
        Vec2 { x: x as i64, y: y as i64 }
    }
}

/// One arch of the rational sine approximation: the value at `q/n` of a
/// half turn, scaled by `ONE`.
pub open spec fn half_wave(q: int, n: int) -> int {
    (ONE * 16 * q * (n - q)) / (5 * n * n - 4 * q * (n - q))
}

/// Sine of `k/n` of a full turn, scaled by `ONE` (Bhaskara's rational
/// approximation on each half turn, within 0.0017 of the sine). It steers
/// the wind's sway at any angle; shapes sampled at 36ths of a turn use the
/// rounded values of `sin_step_spec` instead.
pub open spec fn sin_spec(k: int, n: int) -> int {
    if 2 * k < n {
        half_wave(2 * k, n)
    } else {
        -half_wave(2 * k - n, n)
    }
}

/// Cosine of `k/n` of a full turn: the sine a quarter turn further on.
pub open spec fn cos_spec(k: int, n: int) -> int {
    sin_spec((4 * k + n) % (4 * n), 4 * n)
}

/// Largest number of steps per turn for the sine functions.
pub const TURN_STEPS_MAX: i64 = 0x10_0000;

fn half_wave_exec(q: i64, n: i64) -> (r: i64)
    requires
        0 <= q <= n,
        1 <= n <= 4 * TURN_STEPS_MAX,
    ensures
        r == half_wave(q as int, n as int),
        0 <= r <= ONE,
{
    proof {
        lemma_mul_within(q as int, n - q, 0x40_0000, 0x40_0000);
        assert(5 * n * n <= 5 * 0x40_0000 * 0x40_0000) by (nonlinear_arith)
            requires
                1 <= n <= 0x40_0000,
        ;
    }
    let u: i128 = (q as i128) * ((n - q) as i128);
    proof {
        assert(0 <= u && 4 * u <= n * n) by (nonlinear_arith)
            requires
                u == q * (n - q),
                0 <= q <= n,
        ;
        assert(n * n <= 0x40_0000 * 0x40_0000) by (nonlinear_arith)
            requires
                1 <= n <= 0x40_0000,
        ;
    }
    let num: i128 = 65536 * 16 * u;
    let den: i128 = 5 * (n as i128) * (n as i128) - 4 * u;
    proof {
        assert(ONE * 16 * q * (n - q) == num) by (nonlinear_arith)
            requires
                u == q * (n - q),
                num == 65536 * 16 * u,
        ;
        assert(5 * n * n - 4 * q * (n - q) == den) by (nonlinear_arith)
            requires
                u == q * (n - q),
                den == 5 * n * n - 4 * u,
        ;
        assert(num <= ONE * den) by (nonlinear_arith)
            requires
                num == 65536 * 16 * u,
                den == 5 * n * n - 4 * u,
                4 * u <= n * n,
        ;
        assert(den > 0) by (nonlinear_arith)
            requires
                den == 5 * n * n - 4 * u,
                4 * u <= n * n,
                n >= 1,
        ;
        vstd::arithmetic::div_mod::lemma_div_is_ordered(num as int, ONE * den, den as int);
        vstd::arithmetic::div_mod::lemma_div_multiples_vanish(ONE as int, den as int);
        vstd::arithmetic::div_mod::lemma_div_pos_is_pos(num as int, den as int);
    }
    (num / den) as i64
}

/// Sine of `k/n` of a turn (see `sin_spec`).
pub fn sin_turns(k: i64, n: i64) -> (r: i64)
    requires
        1 <= n <= TURN_STEPS_MAX,
        0 <= k < n,
    ensures
        r == sin_spec(k as int, n as int),
        within(r as int, ONE as int),
{
    if 2 * k < n {
        half_wave_exec(2 * k, n)
    } else {
        let w: i64 = half_wave_exec(2 * k - n, n);
        -w
    }
}

/// Cosine of `k/n` of a turn (see `cos_spec`).
pub fn cos_turns(k: i64, n: i64) -> (r: i64)
    requires
        1 <= n <= TURN_STEPS_MAX,
        0 <= k < n,
    ensures
        r == cos_spec(k as int, n as int),
        within(r as int, ONE as int),
{
    let m: i64 = 4 * n;
    let j: i64 = (4 * k + n) % m;
    if 2 * j < m {
        half_wave_exec(2 * j, m)
    } else {
        let w: i64 = half_wave_exec(2 * j - m, m);
        -w
    }
}

/// The sine of `k` tenths of a quarter turn (`k * 10` degrees), `0 <= k <= 9`,
/// scaled by `ONE` and rounded to the nearest integer.
pub open spec fn quarter_sin(k: int) -> int {
    if k == 0 {
        0

    } else if k == 1 {
        11380

    } else if k == 2 {
        22415

    } else if k == 3 {
        32768

    } else if k == 4 {
        42126

    } else if k == 5 {
        50203

    } else if k == 6 {
        56756

    } else if k == 7 {
        61584

    } else if k == 8 {
        64540
    } else {
        65536
    }
}

/// The sine of `k` 36ths of a turn, scaled by `ONE` and rounded to the
/// nearest integer.
pub open spec fn sin_step_spec(k: int) -> int {
    if k <= 9 {
        quarter_sin(k)
    } else if k <= 18 {
        quarter_sin(18 - k)
    } else if k <= 27 {
        -quarter_sin(k - 18)
    } else {
        -quarter_sin(36 - k)
    }
}

/// The cosine of `k` 36ths of a turn: the sine a quarter turn further on.
pub open spec fn cos_step_spec(k: int) -> int {
    sin_step_spec(if k + 9 < 36 { k + 9 } else { k - 27 })
}

fn quarter_sin_exec(k: i64) -> (r: i64)
    requires
        0 <= k <= 9,
    ensures
        r == quarter_sin(k as int),
        0 <= r <= ONE,
{
    if k == 0 {
        0

    } else if k == 1 {
        11380

    } else if k == 2 {
        22415

    } else if k == 3 {
        32768

    } else if k == 4 {
        42126

    } else if k == 5 {
        50203

    } else if k == 6 {
        56756

    } else if k == 7 {
        61584

    } else if k == 8 {
        64540
    } else {
        65536
    }
}

/// The sine of `k` 36ths of a turn (see `sin_step_spec`).
pub fn sin_step(k: i64) -> (r: i64)
    requires
        0 <= k < 36,
    ensures
        r == sin_step_spec(k as int),
        within(r as int, ONE as int),
{
    if k <= 9 {
        quarter_sin_exec(k)
    } else if k <= 18 {
        quarter_sin_exec(18 - k)
    } else if k <= 27 {
        -quarter_sin_exec(k - 18)
    } else {
        -quarter_sin_exec(36 - k)
    }
}

/// The cosine of `k` 36ths of a turn (see `cos_step_spec`).
pub fn cos_step(k: i64) -> (r: i64)
    requires
        0 <= k < 36,
    ensures
        r == cos_step_spec(k as int),
        within(r as int, ONE as int),
{
    sin_step(if k + 9 < 36 { k + 9 } else { k - 27 })
}

/// A pixel position or size on the screen.
#[derive(Clone, Copy, Debug, PartialEq, Eq, Structural)]
pub struct Vec2i {
    pub x: i32,
    pub y: i32,
}

/// The canvas point under pixel `v` of a screen of size `screen`: the
/// screen's height spans -1 to 1 (`-ONE` to `ONE`) bottom to top, its width
/// the same scale centered on zero.
pub open spec fn screen_to_gl_spec(screen: Vec2i, v: Vec2i) -> Vec2 {
    Vec2::spec_new(
        ((2 * v.x - screen.x) * ONE) / (screen.y as int),
        ((screen.y - 2 * v.y) * ONE) / (screen.y as int),
    )
}

/// Maps pixel `v` of a screen of size `screen` to the canvas (see
/// `screen_to_gl_spec`).
pub fn screen_to_gl(screen_size: Vec2i, v: Vec2i) -> (r: Vec2)
    requires
        screen_size.y > 0,
    ensures
        r == screen_to_gl_spec(screen_size, v),
{
    let sy: i128 = screen_size.y as i128;
    let nx: i128 = (2 * (v.x as i128) - screen_size.x as i128) * 65536;
    let ny: i128 = (sy - 2 * (v.y as i128)) * 65536;
    proof {
        vstd::arithmetic::div_mod::lemma_fundamental_div_mod(nx as int, sy as int);
        vstd::arithmetic::div_mod::lemma_mod_bound(nx as int, sy as int);
        vstd::arithmetic::div_mod::lemma_fundamental_div_mod(ny as int, sy as int);
        vstd::arithmetic::div_mod::lemma_mod_bound(ny as int, sy as int);
        let qx = nx / sy;
        let qy = ny / sy;
        assert(within(qx, 0x4_0000_0000_0000)) by (nonlinear_arith)
            requires
                nx == sy * qx + nx % sy,
                0 <= nx % sy < sy,
                within(nx as int, 0x4_0000_0000_0000),
                sy >= 1,
        ;
        assert(within(qy, 0x4_0000_0000_0000)) by (nonlinear_arith)
            requires
                ny == sy * qy + ny % sy,
                0 <= ny % sy < sy,
                within(ny as int, 0x4_0000_0000_0000),
                sy >= 1,
        ;
    }
    let x: i128 = floor_div(nx, sy);
    let y: i128 = floor_div(ny, sy);
    Vec2 { x: x as i64, y: y as i64 }
}

} // verus!
