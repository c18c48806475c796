//! Decay model: how a marker's influence radius and weight depend on its age.
use vstd::prelude::*;

verus! {

/// Number of ticks a marker lives; a marker of this age is culled.
pub const PHEROMONE_LIFETIME: u64 = 100;

/// Number of control points in the decay table.
pub const PHEROMONE_STATES: usize = 5;

/// Radius (milli-units) of control point `i` of the decay table.
pub open spec fn point_radius(i: int) -> int {
    if i <= 0 {
        1000
    } else if i == 1 {
        1500
    } else if i == 2 {
        2250
    } else if i == 3 {
        3000
    } else {
        3500
    }
}

/// Weight (milli-units) of control point `i` of the decay table.
pub open spec fn point_weight(i: int) -> int {
    if i <= 0 {
        1000
    } else if i == 1 {
        400
    } else if i == 2 {
        150
    } else if i == 3 {
        50
    } else {
        0
    }
}

/// Length of every segment of the table but the last.
pub open spec fn segment() -> int {
    PHEROMONE_LIFETIME as int / (PHEROMONE_STATES as int - 1)
}

/// Index of the segment that holds `age`.
pub open spec fn segment_index(age: int) -> int {
    let i = age * (PHEROMONE_STATES as int - 1) / PHEROMONE_LIFETIME as int;
    if i < 0 {
        0
    } else if i > PHEROMONE_STATES as int - 2 {
        PHEROMONE_STATES as int - 2
    } else {
        i
    }
}

/// Length of segment `i`; the last one absorbs the remainder of the division.
pub open spec fn segment_len(i: int) -> int {
    if i == PHEROMONE_STATES as int - 2 {
        PHEROMONE_LIFETIME as int - segment() * (PHEROMONE_STATES as int - 2)
    } else {
        segment()
    }
}

/// Time elapsed since the start of the segment that holds `age`.
pub open spec fn segment_offset(age: int) -> int {
    age - segment_index(age) * segment()
}

/// Influence radius of a marker of the given age (linear interpolation, rounded down).
pub open spec fn decay_radius(age: int) -> int {
    let i = segment_index(age);
    point_radius(i) + (point_radius(i + 1) - point_radius(i)) * segment_offset(age) / segment_len(i)
}

/// Weight of a marker of the given age (linear interpolation, rounded up).
pub open spec fn decay_weight(age: int) -> int {
    let i = segment_index(age);
    point_weight(i) - (point_weight(i) - point_weight(i + 1)) * segment_offset(age) / segment_len(i)
}

/// Control point `i` of the decay table, as `(radius, weight)`.
pub fn control_point(i: usize) -> (r: (u64, u64))
    requires
        i < PHEROMONE_STATES,
    ensures
        r.0 == point_radius(i as int),
        r.1 == point_weight(i as int),
{
    if i == 0 {
        (1000, 1000)
    } else if i == 1 {
        (1500, 400)
    } else if i == 2 {
        (2250, 150)
    } else if i == 3 {
        (3000, 50)
    } else {
        (3500, 0)
    }
}

/// Radius and weight of a marker of age `age`; a marker older than the
/// lifetime must have been culled before, so such an age is not admitted.
pub fn decay(age: u64) -> (r: (u64, u64))
    requires
        age <= PHEROMONE_LIFETIME,
    ensures
        r.0 == decay_radius(age as int),
        r.1 == decay_weight(age as int),
        r.0 <= 3500,
        r.1 <= 1000,
{
    let pairs: u64 = (PHEROMONE_STATES - 1) as u64;
    let mut index: u64 = age * pairs / PHEROMONE_LIFETIME;
    if index > pairs - 1 {
        index = pairs - 1;
    }
    let seg: u64 = PHEROMONE_LIFETIME / pairs;
    let len: u64 = if index == pairs - 1 {
        PHEROMONE_LIFETIME - seg * (pairs - 1)
    } else {
        seg
    };
    let offset: u64 = age - index * seg;
    assert(offset <= len);
    let (r0, w0) = control_point(index as usize);
    let (r1, w1) = control_point(index as usize + 1);
    assert((r1 - r0) * offset <= 3500 * 100) by (nonlinear_arith)
        requires r1 - r0 <= 3500, offset <= 100, r1 >= r0;
    assert((w0 - w1) * offset <= 1000 * 100) by (nonlinear_arith)
        requires w0 - w1 <= 1000, offset <= 100, w0 >= w1;
    let radius = r0 + (r1 - r0) * offset / len;
    proof {
        let d = (w0 - w1) as int;
        let o = offset as int;
        let l = len as int;
        assert(d * o <= d * l) by (nonlinear_arith)
            requires o <= l, d >= 0;
        vstd::arithmetic::div_mod::lemma_div_is_ordered(d * o, d * l, l);
        vstd::arithmetic::div_mod::lemma_div_multiples_vanish(d, l);
        assert(d * l == l * d) by (nonlinear_arith);
        let e = (r1 - r0) as int;
        assert(e * o <= e * l) by (nonlinear_arith)
            requires o <= l, e >= 0;
        vstd::arithmetic::div_mod::lemma_div_is_ordered(e * o, e * l, l);
        vstd::arithmetic::div_mod::lemma_div_multiples_vanish(e, l);
        assert(e * l == l * e) by (nonlinear_arith);
    }
    let weight = w0 - (w0 - w1) * offset / len;
    (radius, weight)
}

proof fn lemma_interp_step(d: int, t: int, l: int)
    requires
        d >= 0,
        0 <= t,
        t + 1 <= l,
    ensures
        d * t / l <= d * (t + 1) / l,
        d * (t + 1) / l <= d,
{
    assert(d * t <= d * (t + 1)) by (nonlinear_arith)
        requires d >= 0;
    assert(d * (t + 1) <= d * l) by (nonlinear_arith)
        requires d >= 0, t + 1 <= l;
    vstd::arithmetic::div_mod::lemma_div_is_ordered(d * t, d * (t + 1), l);
    vstd::arithmetic::div_mod::lemma_div_is_ordered(d * (t + 1), d * l, l);
    vstd::arithmetic::div_mod::lemma_div_multiples_vanish(d, l);
    assert(d * l == l * d) by (nonlinear_arith);
}

proof fn lemma_decay_step(a: int)
    requires
        0 <= a < PHEROMONE_LIFETIME,
    ensures
        decay_weight(a + 1) <= decay_weight(a),
        decay_radius(a + 1) >= decay_radius(a),
{
    let i = segment_index(a);
    let j = segment_index(a + 1);
    let t = segment_offset(a);
    assert(0 <= i <= 3);
    assert(i * 25 <= a);
    if i == j {
        assert(segment_offset(a + 1) == t + 1);
        assert(t + 1 <= segment_len(i));
        lemma_interp_step(point_weight(i) - point_weight(i + 1), t, segment_len(i));
        lemma_interp_step(point_radius(i + 1) - point_radius(i), t, segment_len(i));
    } else {
        assert(j == i + 1);
        assert(segment_offset(a + 1) == 0);
        assert(t + 1 == segment_len(i));
        lemma_interp_step(point_weight(i) - point_weight(i + 1), t, segment_len(i));
        lemma_interp_step(point_radius(i + 1) - point_radius(i), t, segment_len(i));
    }
}

/// As a marker ages, its weight never grows and its radius never shrinks:
/// for ages `a1 < a2` up to the lifetime, `weight(a2) <= weight(a1)` and
/// `radius(a2) >= radius(a1)`.
pub proof fn lemma_decay_monotonic(a1: int, a2: int)
    requires
        0 <= a1 < a2 <= PHEROMONE_LIFETIME,
    ensures
        decay_weight(a2) <= decay_weight(a1),
        decay_radius(a2) >= decay_radius(a1),
    decreases a2 - a1,
{
    lemma_decay_step(a2 - 1);
    if a1 < a2 - 1 {
        lemma_decay_monotonic(a1, a2 - 1);
    }
}

/// A fresh marker has exactly the first control point; a marker one tick
/// short of its lifetime lies strictly between the last two control points.
pub proof fn lemma_decay_boundary()
    ensures
        decay_radius(0) == point_radius(0),
        decay_weight(0) == point_weight(0),
        point_radius(PHEROMONE_STATES as int - 2) < decay_radius(PHEROMONE_LIFETIME - 1)
            < point_radius(PHEROMONE_STATES as int - 1),
        point_weight(PHEROMONE_STATES as int - 1) < decay_weight(PHEROMONE_LIFETIME - 1)
            < point_weight(PHEROMONE_STATES as int - 2),
        decay_radius(PHEROMONE_LIFETIME as int) == point_radius(PHEROMONE_STATES as int - 1),
        decay_weight(PHEROMONE_LIFETIME as int) == point_weight(PHEROMONE_STATES as int - 1),
{
    assert(segment_index(0) == 0);
    assert(segment_offset(0) == 0);
    assert((point_radius(1) - point_radius(0)) * 0 == 0);
    assert((point_weight(0) - point_weight(1)) * 0 == 0);
    assert(segment_index(99) == 3);
    assert(segment_offset(99) == 24);
    assert(segment_index(100) == 3);
    assert(segment_offset(100) == 25);
}

} // verus!
