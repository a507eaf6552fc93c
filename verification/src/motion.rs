//! Kinematic state and the per-tick integrator.
//!
//! Each tick, every body's linear and angular velocity is first attenuated by
//! `1 - drag * dt` (fixed point, truncating toward zero), then its translation
//! and rotation advance by the attenuated velocity times the elapsed time.
//! Drag beyond `1/dt` inverts the velocity sign — except that a component
//! whose scaled magnitude truncates below one micro-unit per millisecond
//! becomes zero; nothing is clamped.
use vstd::arithmetic::div_mod::{
    lemma_div_is_ordered, lemma_div_pos_is_pos, lemma_fundamental_div_mod,
    lemma_fundamental_div_mod_converse, lemma_multiply_divide_lt,
};
use vstd::arithmetic::mul::{lemma_mul_inequality, lemma_mul_strictly_positive};
use vstd::prelude::*;

verus! {

/// Fixed-point denominator of the drag attenuation: a drag coefficient in
/// milli-per-second times an elapsed time in milliseconds is a fraction of
/// this denominator.
pub const DRAG_DEN: i64 = 1_000_000;

/// Largest elapsed time, in milliseconds, accepted for one tick.
pub const DT_MAX_MS: i64 = 60_000;

/// Largest velocity magnitude, in micro-units per millisecond, accepted by
/// the integrator.
pub const VEL_MAX: i64 = 1_000_000_000;

/// Largest drag coefficient, in milli-per-second.
pub const DRAG_MAX: i64 = 1_000_000;

/// Largest translation or rotation magnitude, in micro-units, accepted by
/// the integrator.
pub const POS_MAX: i64 = 2_000_000_000_000_000_000;

/// Magnitude of an integer.
pub open spec fn abs_val(a: int) -> int {
    if a >= 0 {
        a
    } else {
        -a
    }
}

/// `a * b / den`, truncating toward zero as Rust's integer division does.
pub open spec fn mul_div_trunc(a: int, b: int, den: int) -> int
    recommends
        den > 0,
{
    if a * b >= 0 {
        (a * b) / den
    } else {
        -((-(a * b)) / den)
    }
}

/// A 2D vector of fixed-point coordinates.
#[derive(Clone, Copy, PartialEq, Eq, Structural, Debug)]
pub struct Vec2i {
    pub x: i64,
    pub y: i64,
}

/// A body's placement: translation in micro-units, rotation in micro-radians.
/// Rotation is not wrapped; it may grow without bound.
#[derive(Clone, Copy, PartialEq, Eq, Structural, Debug)]
pub struct Transform2 {
    pub translation: Vec2i,
    pub rotation: i64,
}

/// A body's rates of change: linear velocity in micro-units per millisecond,
/// angular velocity in micro-radians per millisecond, and the per-axis linear
/// and scalar angular drag coefficients in milli-per-second.
#[derive(Clone, Copy, PartialEq, Eq, Structural, Debug)]
pub struct Velocity {
    pub linear: Vec2i,
    pub linear_drag: Vec2i,
    pub angular: i64,
    pub angular_drag: i64,
}

impl Default for Velocity {
    /// A body at rest with a drag of one half per second on every axis.
    fn default() -> (r: Velocity)
        ensures
            r == (Velocity {
                linear: Vec2i { x: 0, y: 0 },
                linear_drag: Vec2i { x: 500, y: 500 },
                angular: 0,
                angular_drag: 500,
            }),
    {
        Velocity {
            linear: Vec2i { x: 0, y: 0 },
            linear_drag: Vec2i { x: 500, y: 500 },
            angular: 0,
            angular_drag: 500,
        }
    }
}

impl Velocity {
    /// Velocities within the integrator's range, drags non-negative and
    /// within range.
    pub open spec fn wf(self) -> bool {
        &&& -VEL_MAX <= self.linear.x <= VEL_MAX
        &&& -VEL_MAX <= self.linear.y <= VEL_MAX
        &&& -VEL_MAX <= self.angular <= VEL_MAX
        &&& 0 <= self.linear_drag.x <= DRAG_MAX
        &&& 0 <= self.linear_drag.y <= DRAG_MAX
        &&& 0 <= self.angular_drag <= DRAG_MAX
    }
}

/// One simulated body: its placement and its rates of change.
#[derive(Clone, Copy, PartialEq, Eq, Structural, Debug)]
pub struct Mover {
    pub transform: Transform2,
    pub velocity: Velocity,
}

impl Mover {
    pub open spec fn wf(self) -> bool {
        &&& self.velocity.wf()
        &&& -POS_MAX <= self.transform.translation.x <= POS_MAX
        &&& -POS_MAX <= self.transform.translation.y <= POS_MAX
        &&& -POS_MAX <= self.transform.rotation <= POS_MAX
    }
}

/// One velocity component after drag attenuation over `dt` milliseconds:
/// `v * (1 - drag * dt)` in fixed point, truncating toward zero.
pub open spec fn drag_scaled(v: int, drag: int, dt: int) -> int {
    mul_div_trunc(v, DRAG_DEN - drag * dt, DRAG_DEN as int)
}

/// `m1` is `m0` advanced by one tick of `dt` milliseconds: velocities
/// attenuated by drag, then translation and rotation moved by the attenuated
/// velocity times `dt`. Drag coefficients are untouched.
pub open spec fn is_integrated(m0: Mover, m1: Mover, dt: int) -> bool {
    &&& m1.velocity.linear.x == drag_scaled(
        m0.velocity.linear.x as int,
        m0.velocity.linear_drag.x as int,
        dt,
    )
    &&& m1.velocity.linear.y == drag_scaled(
        m0.velocity.linear.y as int,
        m0.velocity.linear_drag.y as int,
        dt,
    )
    &&& m1.velocity.angular == drag_scaled(
        m0.velocity.angular as int,
        m0.velocity.angular_drag as int,
        dt,
    )
    &&& m1.velocity.linear_drag == m0.velocity.linear_drag
    &&& m1.velocity.angular_drag == m0.velocity.angular_drag
    &&& m1.transform.translation.x == m0.transform.translation.x + m1.velocity.linear.x * dt
    &&& m1.transform.translation.y == m0.transform.translation.y + m1.velocity.linear.y * dt
    &&& m1.transform.rotation == m0.transform.rotation + m1.velocity.angular * dt
}

/// The magnitude of a truncating scaled product is the scaled magnitude.
proof fn lemma_mul_div_trunc_abs(a: int, b: int, den: int)
    requires
        den > 0,
    ensures
        abs_val(mul_div_trunc(a, b, den)) == abs_val(a * b) / den,
        mul_div_trunc(a, b, den) >= 0 <==> (a * b >= 0 || abs_val(a * b) / den == 0),
{
    let p = a * b;
    if p >= 0 {
        lemma_div_pos_is_pos(p, den);
    } else {
        lemma_div_pos_is_pos(-p, den);
    }
}

/// A cap on the numerator magnitude caps the truncating quotient.
pub proof fn lemma_mul_div_trunc_bound(a: int, b: int, den: int, cap: int)
    requires
        den > 0,
        0 <= cap,
        abs_val(a * b) < (cap + 1) * den,
    ensures
        abs_val(mul_div_trunc(a, b, den)) <= cap,
{
    lemma_mul_div_trunc_abs(a, b, den);
    assert(den * (cap + 1) == (cap + 1) * den) by (nonlinear_arith);
    lemma_multiply_divide_lt(abs_val(a * b), den, cap + 1);
}

/// `a * b / den`, truncating toward zero, computed through unsigned
/// magnitudes so that the intermediate product cannot overflow.
pub(crate) fn mul_div(a: i64, b: i64, den: i64) -> (r: i64)
    requires
        den > 0,
        a > i64::MIN,
        b > i64::MIN,
        abs_val(a as int * b as int) < (i64::MAX + 1) * den,
    ensures
        r == mul_div_trunc(a as int, b as int, den as int),
{
    let am: u64 = if a >= 0 {
        a as u64
    } else {
        (-a) as u64
    };
    let bm: u64 = if b >= 0 {
        b as u64
    } else {
        (-b) as u64
    };
    proof {
        assert((am as int) * (bm as int) < 0x1_0000_0000_0000_0000_0000_0000_0000_0000int)
            by (nonlinear_arith)
            requires
                am <= 0xffff_ffff_ffff_ffffu64,
                bm <= 0xffff_ffff_ffff_ffffu64,
        ;
    }
    let mag: u128 = (am as u128) * (bm as u128);
    assert(mag == abs_val(a as int * b as int)) by (nonlinear_arith)
        requires
            am == abs_val(a as int),
            bm == abs_val(b as int),
            mag == am as int * bm as int,
    ;
    let q: u128 = mag / (den as u128);
    proof {
        assert((den as int) * (i64::MAX + 1) == (i64::MAX + 1) * (den as int)) by (nonlinear_arith);
        lemma_multiply_divide_lt(mag as int, den as int, i64::MAX + 1);
        lemma_mul_div_trunc_abs(a as int, b as int, den as int);
    }
    let qi: i64 = q as i64;
    if (a >= 0) == (b >= 0) {
        assert(a as int * b as int >= 0) by (nonlinear_arith)
            requires
                (a >= 0) == (b >= 0),
        ;
        qi
    } else {
        assert(a as int * b as int <= 0) by (nonlinear_arith)
            requires
                (a >= 0) != (b >= 0),
        ;
        -qi
    }
}

/// Advance one body by one tick of `dt_ms` milliseconds.
pub fn integrate_mover(m: &mut Mover, dt_ms: i64)
    requires
        0 <= dt_ms <= DT_MAX_MS,
        old(m).wf(),
    ensures
        is_integrated(*old(m), *final(m), dt_ms as int),
        old(m).velocity.linear_drag.x * dt_ms <= 2 * DRAG_DEN && old(m).velocity.linear_drag.y
            * dt_ms <= 2 * DRAG_DEN && old(m).velocity.angular_drag * dt_ms <= 2 * DRAG_DEN
            ==> final(m).velocity.wf(),
{
    let v = m.velocity;
    proof {
        lemma_scale_fits(v.linear.x as int, v.linear_drag.x as int, dt_ms as int);
        lemma_scale_fits(v.linear.y as int, v.linear_drag.y as int, dt_ms as int);
        lemma_scale_fits(v.angular as int, v.angular_drag as int, dt_ms as int);
        if v.linear_drag.x * dt_ms <= 2 * DRAG_DEN && v.linear_drag.y * dt_ms <= 2 * DRAG_DEN
            && v.angular_drag * dt_ms <= 2 * DRAG_DEN {
            lemma_drag_scaled_within(v.linear.x as int, v.linear_drag.x as int, dt_ms as int);
            lemma_drag_scaled_within(v.linear.y as int, v.linear_drag.y as int, dt_ms as int);
            lemma_drag_scaled_within(v.angular as int, v.angular_drag as int, dt_ms as int);
        }
    }
    let vx = mul_div(v.linear.x, DRAG_DEN - v.linear_drag.x * dt_ms, DRAG_DEN);
    let vy = mul_div(v.linear.y, DRAG_DEN - v.linear_drag.y * dt_ms, DRAG_DEN);
    let va = mul_div(v.angular, DRAG_DEN - v.angular_drag * dt_ms, DRAG_DEN);
    proof {
        lemma_step_fits(vx as int, dt_ms as int);
        lemma_step_fits(vy as int, dt_ms as int);
        lemma_step_fits(va as int, dt_ms as int);
    }
    m.velocity.linear.x = vx;
    m.velocity.linear.y = vy;
    m.velocity.angular = va;
    m.transform.translation.x = m.transform.translation.x + vx * dt_ms;
    m.transform.translation.y = m.transform.translation.y + vy * dt_ms;
    m.transform.rotation = m.transform.rotation + va * dt_ms;
}

/// One tick's displacement by a drag-attenuated velocity stays well inside
/// `i64`, so adding it to a well-formed translation cannot overflow.
proof fn lemma_step_fits(v: int, dt: int)
    requires
        -100_000_000_000_000 <= v <= 100_000_000_000_000,
        0 <= dt <= DT_MAX_MS,
    ensures
        -6_000_000_000_000_000_000 <= v * dt <= 6_000_000_000_000_000_000,
{
    assert(-6_000_000_000_000_000_000 <= v * dt <= 6_000_000_000_000_000_000) by (nonlinear_arith)
        requires
            -100_000_000_000_000 <= v <= 100_000_000_000_000,
            0 <= dt <= 60_000,
    ;
}

/// Within the integrator's ranges the scaled velocity stays well inside
/// `i64`, and small enough that moving by it for one tick fits too.
proof fn lemma_scale_fits(v: int, drag: int, dt: int)
    requires
        -VEL_MAX <= v <= VEL_MAX,
        0 <= drag <= DRAG_MAX,
        0 <= dt <= DT_MAX_MS,
    ensures
        0 <= drag * dt <= 60_000_000_000,
        abs_val(v * (DRAG_DEN - drag * dt)) < (i64::MAX + 1) * DRAG_DEN,
        abs_val(mul_div_trunc(v, DRAG_DEN - drag * dt, DRAG_DEN as int)) <= 100_000_000_000_000,
{
    assert(0 <= drag * dt <= 60_000_000_000) by (nonlinear_arith)
        requires
            0 <= drag <= 1_000_000,
            0 <= dt <= 60_000,
    ;
    let f = DRAG_DEN - drag * dt;
    assert(abs_val(v * f) <= 60_001_000_000_000_000_000) by (nonlinear_arith)
        requires
            -1_000_000_000 <= v <= 1_000_000_000,
            -60_000_000_000 <= f <= 1_000_000,
    ;
    lemma_mul_div_trunc_bound(v, f, DRAG_DEN as int, 100_000_000_000_000);
}

/// Advance every body by one tick of `dt_ms` milliseconds.
pub fn apply_velocity(movers: &mut Vec<Mover>, dt_ms: i64)
    requires
        0 <= dt_ms <= DT_MAX_MS,
        forall|i: int| 0 <= i < old(movers)@.len() ==> (#[trigger] old(movers)@[i]).wf(),
    ensures
        final(movers)@.len() == old(movers)@.len(),
        forall|i: int|
            0 <= i < old(movers)@.len() ==> is_integrated(
                old(movers)@[i],
                #[trigger] final(movers)@[i],
                dt_ms as int,
            ),
{
    let n = movers.len();
    let mut idx: usize = 0;
    while idx < n
        invariant
            0 <= dt_ms <= DT_MAX_MS,
            n == old(movers)@.len(),
            movers@.len() == n,
            idx <= n,
            forall|i: int| 0 <= i < n ==> (#[trigger] old(movers)@[i]).wf(),
            forall|i: int| idx <= i < n ==> movers@[i] == old(movers)@[i],
            forall|i: int|
                0 <= i < idx ==> is_integrated(old(movers)@[i], #[trigger] movers@[i], dt_ms as int),
        decreases n - idx,
    {
        let mut mv = movers[idx];
        integrate_mover(&mut mv, dt_ms);
        movers.set(idx, mv);
        idx = idx + 1;
    }
}

/// Integrating a body whose linear and angular velocity are both zero leaves
/// its transform unchanged, whatever the elapsed time and drag coefficients.
pub proof fn lemma_integrate_zero_velocity_fixes_transform(m0: Mover, m1: Mover, dt: int)
    requires
        is_integrated(m0, m1, dt),
        m0.velocity.linear == (Vec2i { x: 0, y: 0 }),
        m0.velocity.angular == 0,
    ensures
        m1.transform == m0.transform,
        m1.velocity == m0.velocity,
{
    lemma_drag_scaled_of_zero(m0.velocity.linear_drag.x as int, dt);
    lemma_drag_scaled_of_zero(m0.velocity.linear_drag.y as int, dt);
    lemma_drag_scaled_of_zero(m0.velocity.angular_drag as int, dt);
}

/// Drag leaves a zero velocity component at zero.
proof fn lemma_drag_scaled_of_zero(drag: int, dt: int)
    ensures
        drag_scaled(0, drag, dt) == 0,
{
    let f = DRAG_DEN - drag * dt;
    assert(0 * f == 0) by (nonlinear_arith);
    assert(0int / (DRAG_DEN as int) == 0);
}

/// With a zero drag coefficient, drag leaves a velocity component unchanged.
pub proof fn lemma_drag_scaled_zero_drag(v: int, dt: int)
    ensures
        drag_scaled(v, 0, dt) == v,
{
    assert(0 * dt == 0) by (nonlinear_arith);
    let p = v * (DRAG_DEN as int);
    assert(p == 1_000_000 * v && -p == 1_000_000 * (-v)) by (nonlinear_arith)
        requires
            p == v * 1_000_000,
    ;
    if v >= 0 {
        lemma_fundamental_div_mod_converse(p, DRAG_DEN as int, v, 0);
    } else {
        lemma_fundamental_div_mod_converse(-p, DRAG_DEN as int, -v, 0);
    }
}

/// With zero drag, two consecutive integration ticks keep the velocity
/// constant and advance the transform linearly: the total displacement is the
/// velocity times the total elapsed time.
pub proof fn lemma_integrate_zero_drag_linear(m0: Mover, m1: Mover, m2: Mover, dt1: int, dt2: int)
    requires
        is_integrated(m0, m1, dt1),
        is_integrated(m1, m2, dt2),
        m0.velocity.linear_drag == (Vec2i { x: 0, y: 0 }),
        m0.velocity.angular_drag == 0,
    ensures
        m1.velocity.linear == m0.velocity.linear,
        m2.velocity.linear == m0.velocity.linear,
        m2.velocity.angular == m0.velocity.angular,
        m2.transform.translation.x == m0.transform.translation.x + m0.velocity.linear.x * (dt1
            + dt2),
        m2.transform.translation.y == m0.transform.translation.y + m0.velocity.linear.y * (dt1
            + dt2),
        m2.transform.rotation == m0.transform.rotation + m0.velocity.angular * (dt1 + dt2),
{
    lemma_drag_scaled_zero_drag(m0.velocity.linear.x as int, dt1);
    lemma_drag_scaled_zero_drag(m0.velocity.linear.y as int, dt1);
    lemma_drag_scaled_zero_drag(m0.velocity.angular as int, dt1);
    lemma_drag_scaled_zero_drag(m1.velocity.linear.x as int, dt2);
    lemma_drag_scaled_zero_drag(m1.velocity.linear.y as int, dt2);
    lemma_drag_scaled_zero_drag(m1.velocity.angular as int, dt2);
    assert(m0.velocity.linear.x * dt1 + m0.velocity.linear.x * dt2 == m0.velocity.linear.x * (dt1
        + dt2)) by (nonlinear_arith);
    assert(m0.velocity.linear.y * dt1 + m0.velocity.linear.y * dt2 == m0.velocity.linear.y * (dt1
        + dt2)) by (nonlinear_arith);
    assert(m0.velocity.angular * dt1 + m0.velocity.angular * dt2 == m0.velocity.angular * (dt1
        + dt2)) by (nonlinear_arith);
}

/// The motion trace `ms` records `dts.len()` consecutive integration ticks:
/// each next state is the previous one integrated by the next elapsed time.
pub open spec fn is_integrated_chain(ms: Seq<Mover>, dts: Seq<int>) -> bool {
    &&& ms.len() == dts.len() + 1
    &&& forall|i: int| 0 <= i < dts.len() ==> is_integrated(ms[i], ms[i + 1], #[trigger] dts[i])
}

pub open spec fn sum_of(dts: Seq<int>) -> int
    decreases dts.len(),
{
    if dts.len() == 0 {
        0
    } else {
        dts[0] + sum_of(dts.subrange(1, dts.len() as int))
    }
}

/// With zero drag, any number of consecutive integration ticks keeps the
/// velocity constant and advances the transform linearly: the total
/// displacement is the velocity times the total elapsed time.
pub proof fn lemma_integrate_zero_drag_linear_chain(ms: Seq<Mover>, dts: Seq<int>)
    requires
        is_integrated_chain(ms, dts),
        ms[0].velocity.linear_drag == (Vec2i { x: 0, y: 0 }),
        ms[0].velocity.angular_drag == 0,
    ensures
        ms.last().velocity.linear == ms[0].velocity.linear,
        ms.last().velocity.angular == ms[0].velocity.angular,
        ms.last().transform.translation.x == ms[0].transform.translation.x
            + ms[0].velocity.linear.x * sum_of(dts),
        ms.last().transform.translation.y == ms[0].transform.translation.y
            + ms[0].velocity.linear.y * sum_of(dts),
        ms.last().transform.rotation == ms[0].transform.rotation + ms[0].velocity.angular * sum_of(
            dts,
        ),
    decreases dts.len(),
{
    if dts.len() == 0 {
        assert(ms.last() == ms[0]);
        assert(ms[0].velocity.linear.x * 0 == 0) by (nonlinear_arith);
        assert(ms[0].velocity.linear.y * 0 == 0) by (nonlinear_arith);
        assert(ms[0].velocity.angular * 0 == 0) by (nonlinear_arith);
    } else {
        let v = ms[0].velocity;
        assert(is_integrated(ms[0], ms[1], dts[0]));
        lemma_drag_scaled_zero_drag(v.linear.x as int, dts[0]);
        lemma_drag_scaled_zero_drag(v.linear.y as int, dts[0]);
        lemma_drag_scaled_zero_drag(v.angular as int, dts[0]);
        let ms1 = ms.subrange(1, ms.len() as int);
        let dts1 = dts.subrange(1, dts.len() as int);
        assert forall|i: int| 0 <= i < dts1.len() implies is_integrated(
            ms1[i],
            ms1[i + 1],
            #[trigger] dts1[i],
        ) by {
            assert(ms1[i] == ms[i + 1]);
            assert(ms1[i + 1] == ms[i + 2]);
            assert(dts1[i] == dts[i + 1]);
        }
        lemma_integrate_zero_drag_linear_chain(ms1, dts1);
        assert(ms.last() == ms1.last());
        let vx = v.linear.x as int;
        let vy = v.linear.y as int;
        let va = v.angular as int;
        let d0 = dts[0];
        let rest = sum_of(dts1);
        assert(vx * d0 + vx * rest == vx * (d0 + rest)) by (nonlinear_arith);
        assert(vy * d0 + vy * rest == vy * (d0 + rest)) by (nonlinear_arith);
        assert(va * d0 + va * rest == va * (d0 + rest)) by (nonlinear_arith);
    }
}

/// Helper for the drag monotonicity law, for a strictly positive component.
proof fn lemma_drag_reduces_positive(v: int, drag: int, dt: int)
    requires
        v > 0,
        0 < drag * dt < DRAG_DEN,
    ensures
        0 <= drag_scaled(v, drag, dt) < v,
{
    let den = DRAG_DEN as int;
    let f = den - drag * dt;
    let p = v * f;
    lemma_mul_strictly_positive(v, f);
    lemma_div_pos_is_pos(p, den);
    lemma_mul_inequality(f, den - 1, v);
    assert(f * v == v * f) by (nonlinear_arith)
        requires
            f == den - drag * dt,
            p == v * f,
    ;
    assert((den - 1) * v == v * den - v) by (nonlinear_arith)
        requires
            den == 1_000_000,
    ;
    assert(p <= v * den - 1);
    lemma_div_is_ordered(p, v * den - 1, den);
    assert(v * den - 1 == den * (v - 1) + (den - 1)) by (nonlinear_arith)
        requires
            den == 1_000_000,
    ;
    lemma_fundamental_div_mod_converse(v * den - 1, den, v - 1, den - 1);
}

/// Truncating scaling is odd in its first argument.
proof fn lemma_mul_div_trunc_negate(a: int, b: int, den: int)
    requires
        den > 0,
    ensures
        mul_div_trunc(-a, b, den) == -mul_div_trunc(a, b, den),
{
    assert((-a) * b == -(a * b)) by (nonlinear_arith);
    if a * b == 0 {
        assert(0int / den == 0);
    }
}

/// While the drag–time product lies strictly between zero and one (in fixed
/// point: strictly between 0 and `DRAG_DEN`), one tick of drag strictly
/// reduces the magnitude of a nonzero velocity component, and never increases
/// any component's magnitude.
pub proof fn lemma_drag_reduces_speed(v: int, drag: int, dt: int)
    requires
        0 < drag * dt < DRAG_DEN,
    ensures
        abs_val(drag_scaled(v, drag, dt)) <= abs_val(v),
        v != 0 ==> abs_val(drag_scaled(v, drag, dt)) < abs_val(v),
{
    if v > 0 {
        lemma_drag_reduces_positive(v, drag, dt);
    } else if v < 0 {
        lemma_drag_reduces_positive(-v, drag, dt);
        lemma_mul_div_trunc_negate(-v, DRAG_DEN - drag * dt, DRAG_DEN as int);
    } else {
        lemma_drag_scaled_of_zero(drag, dt);
    }
}

/// Squaring is monotone in magnitude.
proof fn lemma_sq_monotone(a: int, b: int)
    requires
        abs_val(a) <= abs_val(b),
    ensures
        a * a <= b * b,
        abs_val(a) < abs_val(b) ==> a * a < b * b,
{
    assert(a * a <= b * b && (abs_val(a) < abs_val(b) ==> a * a < b * b)) by (nonlinear_arith)
        requires
            (if a >= 0 {
                a
            } else {
                -a
            }) <= (if b >= 0 {
                b
            } else {
                -b
            }),
    ;
}

/// One integration tick under a drag–time product strictly between zero and
/// one (in fixed point: strictly between 0 and `DRAG_DEN`) on both axes
/// never increases the linear velocity's squared magnitude, and strictly
/// reduces it while the body still moves.
pub proof fn lemma_drag_reduces_velocity_magnitude(m0: Mover, m1: Mover, dt: int)
    requires
        is_integrated(m0, m1, dt),
        0 < m0.velocity.linear_drag.x * dt < DRAG_DEN,
        0 < m0.velocity.linear_drag.y * dt < DRAG_DEN,
    ensures
        m1.velocity.linear.x * m1.velocity.linear.x + m1.velocity.linear.y * m1.velocity.linear.y
            <= m0.velocity.linear.x * m0.velocity.linear.x + m0.velocity.linear.y
            * m0.velocity.linear.y,
        m0.velocity.linear.x != 0 || m0.velocity.linear.y != 0 ==> m1.velocity.linear.x
            * m1.velocity.linear.x + m1.velocity.linear.y * m1.velocity.linear.y
            < m0.velocity.linear.x * m0.velocity.linear.x + m0.velocity.linear.y
            * m0.velocity.linear.y,
{
    lemma_drag_reduces_speed(
        m0.velocity.linear.x as int,
        m0.velocity.linear_drag.x as int,
        dt,
    );
    lemma_drag_reduces_speed(
        m0.velocity.linear.y as int,
        m0.velocity.linear_drag.y as int,
        dt,
    );
    lemma_sq_monotone(m1.velocity.linear.x as int, m0.velocity.linear.x as int);
    lemma_sq_monotone(m1.velocity.linear.y as int, m0.velocity.linear.y as int);
}

/// As long as the drag–time product stays below two (in fixed point: at most
/// `2 * DRAG_DEN`), drag never increases a velocity component's magnitude, so
/// integration keeps a well-formed velocity well-formed.
pub proof fn lemma_drag_scaled_within(v: int, drag: int, dt: int)
    requires
        0 <= drag * dt <= 2 * DRAG_DEN,
    ensures
        abs_val(drag_scaled(v, drag, dt)) <= abs_val(v),
{
    let den = DRAG_DEN as int;
    let f = den - drag * dt;
    lemma_mul_div_trunc_abs(v, f, den);
    assert(abs_val(v * f) <= abs_val(v) * den) by (nonlinear_arith)
        requires
            -den <= f <= den,
            den == 1_000_000,
    ;
    lemma_div_is_ordered(abs_val(v * f), abs_val(v) * den, den);
    assert(abs_val(v) * den == den * abs_val(v)) by (nonlinear_arith);
    lemma_fundamental_div_mod_converse(abs_val(v) * den, den, abs_val(v), 0);
}

} // verus!
