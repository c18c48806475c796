//! Fixed-point plane geometry: vectors, rotations and vector length.
use vstd::prelude::*;

verus! {

/// One unit of length, angle cosine or weight, in milli-units.
pub const UNIT: i64 = 1000;

/// Largest chunk side length (milli-units) the kernel admits.
pub const MAX_CHUNK_SIZE: i64 = 1_000_000_000;

/// A vector of the plane, each component in milli-units.
#[derive(Clone, Copy, Debug, PartialEq, Eq, Structural)]
pub struct Vec2 {
    pub x: i64,
    pub y: i64,
}

impl Vec2 {
    pub fn new(x: i64, y: i64) -> (r: Vec2)
        ensures
            r.x == x,
            r.y == y,
    {
        Vec2 { x, y }
    }

    /// Squared length of the vector.
    pub open spec fn norm2(self) -> int {
        self.x * self.x + self.y * self.y
    }

    /// Both components lie in `[-bound, bound]`.
    pub open spec fn within(self, bound: int) -> bool {
        -bound <= self.x <= bound && -bound <= self.y <= bound
    }
}

/// A rotation by a fixed angle, held as its cosine and sine in milli-units.
/// Rounding is always towards zero, so a valid rotation never lengthens a
/// vector.
#[derive(Clone, Copy, Debug, PartialEq, Eq, Structural)]
pub struct Turn {
    pub cos: i64,
    pub sin: i64,
}

impl Turn {
    pub open spec fn wf(self) -> bool {
        self.cos * self.cos + self.sin * self.sin <= UNIT * UNIT
    }

    /// A rotation from its cosine and sine (milli-units); `None` where the
    /// pair lies outside the unit circle.
    pub fn new(cos: i64, sin: i64) -> (r: Option<Turn>)
        ensures
            r is Some <==> cos * cos + sin * sin <= UNIT * UNIT,
            r is Some ==> r->0 == (Turn { cos, sin }),
    {
        if cos < -UNIT || cos > UNIT || sin < -UNIT || sin > UNIT {
            proof {
                assert(cos * cos + sin * sin > UNIT * UNIT) by (nonlinear_arith)
                    requires cos < -1000 || cos > 1000 || sin < -1000 || sin > 1000;
            }
            return None;
        }
        proof {
            assert(0 <= cos * cos <= 1000 * 1000) by (nonlinear_arith)
                requires -1000 <= cos <= 1000;
            assert(0 <= sin * sin <= 1000 * 1000) by (nonlinear_arith)
                requires -1000 <= sin <= 1000;
        }
        if cos * cos + sin * sin <= UNIT * UNIT {
            Some(Turn { cos, sin })
        } else {
            None
        }
    }

    /// The rotation by no angle.
    pub fn identity() -> (r: Turn)
        ensures
            r.wf(),
            r.cos == UNIT && r.sin == 0,
    {
        Turn { cos: UNIT, sin: 0 }
    }

    /// The rotation by the opposite angle.
    pub fn inverse(&self) -> (r: Turn)
        requires
            self.wf(),
        ensures
            r.wf(),
            r.cos == self.cos,
            r.sin == -self.sin,
    {
        proof {
            assert((-self.sin) * (-self.sin) == self.sin * self.sin) by (nonlinear_arith);
            assert(self.sin * self.sin <= 1000 * 1000) by (nonlinear_arith)
                requires self.cos * self.cos + self.sin * self.sin <= 1000 * 1000;
            assert(-1000 <= self.sin <= 1000) by (nonlinear_arith)
                requires self.sin * self.sin <= 1000 * 1000;
        }
        Turn { cos: self.cos, sin: -self.sin }
    }
}

/// Integer division rounding towards zero.
pub open spec fn div_trunc(a: int, b: int) -> int {
    if a >= 0 {
        a / b
    } else {
        -((-a) / b)
    }
}

proof fn lemma_div_trunc_square(a: int, b: int)
    requires
        b > 0,
    ensures
        div_trunc(a, b) * div_trunc(a, b) * (b * b) <= a * a,
        a >= 0 ==> 0 <= div_trunc(a, b) <= a,
        a < 0 ==> a <= div_trunc(a, b) <= 0,
{
    let m = if a >= 0 { a } else { -a };
    let q = m / b;
    vstd::arithmetic::div_mod::lemma_fundamental_div_mod(m, b);
    vstd::arithmetic::div_mod::lemma_mod_bound(m, b);
    assert(0 <= q) by {
        vstd::arithmetic::div_mod::lemma_div_pos_is_pos(m, b);
    }
    assert(q * b <= m) by (nonlinear_arith)
        requires m == b * q + m % b, m % b >= 0;
    assert(q * q * (b * b) <= m * m) by (nonlinear_arith)
        requires 0 <= q * b <= m, q >= 0, b > 0;
    assert(q <= m) by (nonlinear_arith)
        requires q * b <= m, q >= 0, b > 0;
    assert(m * m == a * a) by (nonlinear_arith)
        requires m == a || m == -a;
    assert(div_trunc(a, b) * div_trunc(a, b) == q * q) by (nonlinear_arith)
        requires div_trunc(a, b) == q || div_trunc(a, b) == -q;
}

proof fn lemma_square_of_sum(p: int, q: int)
    ensures
        (p + q) * (p + q) == p * p + 2 * (p * q) + q * q,
{
    vstd::arithmetic::mul::lemma_mul_is_distributive_add(p + q, p, q);
    vstd::arithmetic::mul::lemma_mul_is_distributive_add_other_way(p, p, q);
    vstd::arithmetic::mul::lemma_mul_is_distributive_add_other_way(q, p, q);
    vstd::arithmetic::mul::lemma_mul_is_commutative(p, q);
}

proof fn lemma_product_square(a: int, b: int)
    ensures
        (a * b) * (a * b) == (a * a) * (b * b),
{
    vstd::arithmetic::mul::lemma_mul_is_associative(a * b, a, b);
    vstd::arithmetic::mul::lemma_mul_is_associative(a, b, a);
    vstd::arithmetic::mul::lemma_mul_is_commutative(a, b);
    vstd::arithmetic::mul::lemma_mul_is_associative(a, a, b);
    vstd::arithmetic::mul::lemma_mul_is_associative(a * a, b, b);
}

proof fn lemma_cross_terms(c: int, s: int, x: int, y: int)
    ensures
        (c * x) * (-(s * y)) + (s * x) * (c * y) == 0,
{
    assert((c * x) * (s * y) == (s * x) * (c * y)) by (nonlinear_arith);
    assert((c * x) * (-(s * y)) == -((c * x) * (s * y))) by (nonlinear_arith);
}

proof fn lemma_rotation_norm(c: int, s: int, x: int, y: int)
    ensures
        (c * x - s * y) * (c * x - s * y) + (s * x + c * y) * (s * x + c * y)
            == (c * c + s * s) * (x * x + y * y),
{
    lemma_square_of_sum(c * x, -(s * y));
    lemma_square_of_sum(s * x, c * y);
    lemma_product_square(c, x);
    lemma_product_square(s, y);
    lemma_product_square(s, x);
    lemma_product_square(c, y);
    assert((-(s * y)) * (-(s * y)) == (s * y) * (s * y)) by (nonlinear_arith);
    lemma_cross_terms(c, s, x, y);
    assert((c * c + s * s) * (x * x + y * y) == (c * c) * (x * x) + (c * c) * (y * y)
        + (s * s) * (x * x) + (s * s) * (y * y)) by (nonlinear_arith);
}

/// `v` rotated by `t`, each component rounded towards zero.
pub open spec fn rotated(v: Vec2, t: Turn) -> Vec2 {
    Vec2 {
        x: div_trunc(t.cos * v.x - t.sin * v.y, UNIT as int) as i64,
        y: div_trunc(t.sin * v.x + t.cos * v.y, UNIT as int) as i64,
    }
}

fn div_trunc_exec(a: i64, b: i64) -> (r: i64)
    requires
        b > 0,
        a > i64::MIN,
    ensures
        r == div_trunc(a as int, b as int),
{
    if a >= 0 {
        a / b
    } else {
        -((-a) / b)
    }
}

/// Rotates `v` by `t`; the result is never longer than `v`.
pub fn rotate(v: Vec2, t: Turn) -> (r: Vec2)
    requires
        t.wf(),
        v.within(MAX_CHUNK_SIZE as int),
    ensures
        r == rotated(v, t),
        r.norm2() <= v.norm2(),
        r.within(MAX_CHUNK_SIZE as int) || v.norm2() > MAX_CHUNK_SIZE * MAX_CHUNK_SIZE,
{
    let c = t.cos;
    let s = t.sin;
    proof {
        assert(-1000 <= c <= 1000 && -1000 <= s <= 1000) by (nonlinear_arith)
            requires c * c + s * s <= 1000 * 1000;
        assert(-1_000_000_000_000 <= c * v.x <= 1_000_000_000_000) by (nonlinear_arith)
            requires -1000 <= c <= 1000, -1_000_000_000 <= v.x <= 1_000_000_000;
        assert(-1_000_000_000_000 <= s * v.y <= 1_000_000_000_000) by (nonlinear_arith)
            requires -1000 <= s <= 1000, -1_000_000_000 <= v.y <= 1_000_000_000;
        assert(-1_000_000_000_000 <= s * v.x <= 1_000_000_000_000) by (nonlinear_arith)
            requires -1000 <= s <= 1000, -1_000_000_000 <= v.x <= 1_000_000_000;
        assert(-1_000_000_000_000 <= c * v.y <= 1_000_000_000_000) by (nonlinear_arith)
            requires -1000 <= c <= 1000, -1_000_000_000 <= v.y <= 1_000_000_000;
    }
    let a = c * v.x - s * v.y;
    let b = s * v.x + c * v.y;
    let qx = div_trunc_exec(a, UNIT);
    let qy = div_trunc_exec(b, UNIT);
    proof {
        let ai = a as int;
        let bi = b as int;
        let vx = v.x as int;
        let vy = v.y as int;
        lemma_div_trunc_square(ai, 1000);
        lemma_div_trunc_square(bi, 1000);
        let ci = c as int;
        let si = s as int;
        lemma_rotation_norm(ci, si, vx, vy);
        assert((c * c + s * s) * (vx * vx + vy * vy) <= (1000 * 1000) * (vx * vx + vy * vy))
            by (nonlinear_arith)
            requires c * c + s * s <= 1000 * 1000;
        let qxi = qx as int;
        let qyi = qy as int;
        assert((qxi * qxi + qyi * qyi) * (1000 * 1000) <= (1000 * 1000) * (vx * vx + vy * vy))
            by (nonlinear_arith)
            requires
                qxi * qxi * (1000 * 1000) <= ai * ai,
                qyi * qyi * (1000 * 1000) <= bi * bi,
                ai * ai + bi * bi <= (1000 * 1000) * (vx * vx + vy * vy);
        assert(qxi * qxi + qyi * qyi <= vx * vx + vy * vy) by (nonlinear_arith)
            requires (qxi * qxi + qyi * qyi) * (1000 * 1000) <= (1000 * 1000) * (vx * vx + vy * vy);
        if vx * vx + vy * vy <= 1_000_000_000 * 1_000_000_000 {
            assert(-1_000_000_000 <= qxi <= 1_000_000_000 && -1_000_000_000 <= qyi <= 1_000_000_000)
                by (nonlinear_arith)
                requires
                    qxi * qxi + qyi * qyi <= vx * vx + vy * vy,
                    vx * vx + vy * vy <= 1_000_000_000 * 1_000_000_000;
        }
    }
    Vec2 { x: qx, y: qy }
}

/// Integer square root: the largest `r` with `r * r <= n`.
pub fn isqrt(n: u64) -> (r: u64)
    ensures
        r * r <= n,
        n < (r + 1) * (r + 1),
{
    let mut lo: u64 = 0;
    let mut hi: u64 = 4_294_967_296;
    proof {
        assert(n < 4_294_967_296 * 4_294_967_296);
    }
    while hi - lo > 1
        invariant
            lo < hi <= 4_294_967_296,
            lo * lo <= n,
            n < hi * hi,
        decreases hi - lo,
    {
        let mid: u64 = lo + (hi - lo) / 2;
        proof {
            assert(mid * mid <= 4_294_967_296 * 4_294_967_296) by (nonlinear_arith)
                requires mid <= 4_294_967_296;
        }
        if (mid as u128) * (mid as u128) <= n as u128 {
            lo = mid;
        } else {
            hi = mid;
        }
    }
    lo
}

/// `v` scaled to length `range`, with the length rounded down to an
/// integer and each component rounded towards zero; the zero vector where
/// `v` is shorter than one milli-unit.
pub open spec fn scaled_to(v: Vec2, range: int, len: int) -> Vec2 {
    if len == 0 {
        Vec2 { x: 0, y: 0 }
    } else {
        Vec2 {
            x: div_trunc(v.x * range, len) as i64,
            y: div_trunc(v.y * range, len) as i64,
        }
    }
}

/// `r` is the square root of `n` rounded down.
pub open spec fn is_sqrt_floor(n: int, r: int) -> bool {
    r >= 0 && r * r <= n && n < (r + 1) * (r + 1)
}

/// The square root of `n` rounded down.
pub open spec fn sqrt_floor(n: int) -> int {
    choose|r: int| is_sqrt_floor(n, r)
}

proof fn lemma_sqrt_floor_unique(n: int, r: int)
    requires
        is_sqrt_floor(n, r),
    ensures
        sqrt_floor(n) == r,
{
    let q = sqrt_floor(n);
    assert(is_sqrt_floor(n, q));
    if q < r {
        assert((q + 1) * (q + 1) <= r * r) by (nonlinear_arith)
            requires 0 <= q + 1 <= r;
    } else if r < q {
        assert((r + 1) * (r + 1) <= q * q) by (nonlinear_arith)
            requires 0 <= r + 1 <= q;
    }
}

/// Length of `v` rounded down to an integer.
pub open spec fn length_of(v: Vec2) -> int {
    sqrt_floor(v.norm2())
}

/// Length of a vector no longer than `MAX_CHUNK_SIZE` on either axis,
/// rounded down.
pub fn length(v: Vec2) -> (r: u64)
    requires
        v.within(MAX_CHUNK_SIZE as int),
    ensures
        r == length_of(v),
        r * r <= v.norm2() < (r + 1) * (r + 1),
{
    proof {
        assert(0 <= v.x * v.x <= 1_000_000_000 * 1_000_000_000) by (nonlinear_arith)
            requires -1_000_000_000 <= v.x <= 1_000_000_000;
        assert(0 <= v.y * v.y <= 1_000_000_000 * 1_000_000_000) by (nonlinear_arith)
            requires -1_000_000_000 <= v.y <= 1_000_000_000;
    }
    let n: u64 = (v.x * v.x + v.y * v.y) as u64;
    let len = isqrt(n);
    proof {
        lemma_sqrt_floor_unique(v.norm2(), len as int);
    }
    len
}

/// `v` scaled to length `range` (see `scaled_to`), for a vector no longer
/// than `MAX_CHUNK_SIZE` on either axis.
pub fn direction(v: Vec2, range: i64) -> (r: Vec2)
    requires
        v.within(MAX_CHUNK_SIZE as int),
        0 <= range <= MAX_CHUNK_SIZE,
    ensures
        r == scaled_to(v, range as int, length_of(v)),
        r.within(range as int),
{
    proof {
        assert(0 <= v.x * v.x <= 1_000_000_000 * 1_000_000_000) by (nonlinear_arith)
            requires -1_000_000_000 <= v.x <= 1_000_000_000;
        assert(0 <= v.y * v.y <= 1_000_000_000 * 1_000_000_000) by (nonlinear_arith)
            requires -1_000_000_000 <= v.y <= 1_000_000_000;
    }
    let len = length(v);
    if len == 0 {
        return Vec2 { x: 0, y: 0 };
    }
    proof {
        let l = len as int;
        assert(l <= 2_000_000_000) by (nonlinear_arith)
            requires l * l <= v.x * v.x + v.y * v.y, v.x * v.x + v.y * v.y <= 2_000_000_000_000_000_000,
                l >= 0;
        assert(-l <= v.x <= l) by (nonlinear_arith)
            requires v.x * v.x + v.y * v.y < (l + 1) * (l + 1), v.y * v.y >= 0, l >= 0;
        assert(-l <= v.y <= l) by (nonlinear_arith)
            requires v.x * v.x + v.y * v.y < (l + 1) * (l + 1), v.x * v.x >= 0, l >= 0;
        lemma_scaled_bound(v.x as int, range as int, l);
        lemma_scaled_bound(v.y as int, range as int, l);
        assert(-1_000_000_000_000_000_000 <= v.x * range <= 1_000_000_000_000_000_000) by (nonlinear_arith)
            requires -1_000_000_000 <= v.x <= 1_000_000_000, 0 <= range <= 1_000_000_000;
        assert(-1_000_000_000_000_000_000 <= v.y * range <= 1_000_000_000_000_000_000) by (nonlinear_arith)
            requires -1_000_000_000 <= v.y <= 1_000_000_000, 0 <= range <= 1_000_000_000;
    }
    let x = div_trunc_exec(v.x * range, len as i64);
    let y = div_trunc_exec(v.y * range, len as i64);
    Vec2 { x, y }
}

proof fn lemma_scaled_bound(a: int, range: int, l: int)
    requires
        -l <= a <= l,
        range >= 0,
        l > 0,
    ensures
        -range <= div_trunc(a * range, l) <= range,
{
    let m = if a * range >= 0 { a * range } else { -(a * range) };
    assert(0 <= m <= l * range) by (nonlinear_arith)
        requires -l <= a <= l, range >= 0, m == a * range || m == -(a * range), m >= 0;
    vstd::arithmetic::div_mod::lemma_div_is_ordered(m, l * range, l);
    vstd::arithmetic::div_mod::lemma_div_multiples_vanish(range, l);
    vstd::arithmetic::div_mod::lemma_div_pos_is_pos(m, l);
    assert(l * range == range * l) by (nonlinear_arith);
}

} // verus!
