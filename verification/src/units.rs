//! Fixed-point scalars and the bounds the simulation keeps them in.
//!
//! One metre, one second, or one metre-per-second is `SCALE` units; every
//! kinematic quantity is an `i64` count of such units, so positions order
//! totally and no value can be a NaN by construction.

use vstd::prelude::*;

verus! {

/// Fixed-point scale: units per metre, per second, per metre-per-second.
pub const SCALE: i64 = 1000;

/// `SCALE` squared, for products of two scaled quantities.
pub const SCALE_SQUARED: i64 = 1_000_000;

/// `SCALE` to the fourth power.
pub const SCALE_FOURTH: i64 = 1_000_000_000_000;

/// Largest time step a tick may carry: ten seconds.
pub const MAX_DT: i64 = 10_000;

/// Largest magnitude of a finite velocity.
pub const MAX_VELOCITY: i64 = 1_000_000_000;

/// Largest magnitude of a position stored on a lane or sent in a message.
pub const MAX_POSITION: i64 = 1_000_000_000_000;

/// Largest magnitude of an acceleration stored on a car.
pub const MAX_ACCELERATION: i64 = 1_000_000;

/// Largest length of a lane.
pub const MAX_LANE_LENGTH: i64 = 1_000_000_000;

/// Largest magnitude of a finite position the car-following law accepts.
pub const MAX_IDM_POSITION: i64 = 1_000_000_000_000_000;

/// Largest magnitude of one integration step:
/// `MAX_DT * MAX_POSITION / SCALE`.
pub const MAX_STEP: i64 = 10_000_000_000_000;

/// Sentinel position of the obstacle infinitely far ahead.
pub const FAR_AHEAD_POSITION: i64 = 1_000_000_000_000_000_000;

/// Sentinel position of the obstacle infinitely far behind.
pub const FAR_BEHIND_POSITION: i64 = -1_000_000_000_000_000_000;

/// `dt * x / SCALE`, rounded towards zero: the distance covered in `dt`
/// at signed rate `x`.
pub open spec fn spec_scaled(dt: i64, x: i64) -> int {
    if x >= 0 {
        (dt * x) / (SCALE as int)
    } else {
        -((dt * -(x as int)) / (SCALE as int))
    }
}

/// The integration step stays within `MAX_STEP` and keeps the sign of its
/// rate.
pub proof fn lemma_spec_scaled_bounds(dt: i64, x: i64)
    requires
        0 <= dt <= MAX_DT,
        -MAX_POSITION <= x <= MAX_POSITION,
    ensures
        -MAX_STEP <= spec_scaled(dt, x) <= MAX_STEP,
        x >= 0 ==> spec_scaled(dt, x) >= 0,
        x < 0 ==> spec_scaled(dt, x) <= 0,
{
    if x >= 0 {
        assert(0 <= dt * x <= MAX_DT * MAX_POSITION) by (nonlinear_arith)
            requires
                0 <= dt <= MAX_DT,
                0 <= x <= MAX_POSITION,
        ;
        vstd::arithmetic::div_mod::lemma_div_is_ordered(
            dt * x,
            (MAX_DT * MAX_POSITION) as int,
            SCALE as int,
        );
        vstd::arithmetic::div_mod::lemma_div_pos_is_pos(dt * x, SCALE as int);
    } else {
        assert(0 <= dt * -(x as int) <= MAX_DT * MAX_POSITION) by (nonlinear_arith)
            requires
                0 <= dt <= MAX_DT,
                -MAX_POSITION <= x < 0,
        ;
        vstd::arithmetic::div_mod::lemma_div_is_ordered(
            dt * -(x as int),
            (MAX_DT * MAX_POSITION) as int,
            SCALE as int,
        );
        vstd::arithmetic::div_mod::lemma_div_pos_is_pos(dt * -(x as int), SCALE as int);
    }
}

/// The integration step `dt * x / SCALE`, as executable code.
pub fn scaled(dt: i64, x: i64) -> (r: i64)
    requires
        0 <= dt <= MAX_DT,
        -MAX_POSITION <= x <= MAX_POSITION,
    ensures
        r == spec_scaled(dt, x),
        -MAX_STEP <= r <= MAX_STEP,
        x >= 0 ==> r >= 0,
        x < 0 ==> r <= 0,
{
    if x >= 0 {
        assert(0 <= dt * x <= MAX_DT * MAX_POSITION) by (nonlinear_arith)
            requires
                0 <= dt <= MAX_DT,
                0 <= x <= MAX_POSITION,
        ;
        let p: i64 = dt * x;
        proof {
            vstd::arithmetic::div_mod::lemma_div_is_ordered(p as int, (MAX_DT * MAX_POSITION) as int, SCALE as int);
            vstd::arithmetic::div_mod::lemma_div_pos_is_pos(p as int, SCALE as int);
        }
        p / SCALE
    } else {
        assert(0 <= dt * -x <= MAX_DT * MAX_POSITION) by (nonlinear_arith)
            requires
                0 <= dt <= MAX_DT,
                -MAX_POSITION <= x < 0,
        ;
        let p: i64 = dt * (-x);
        proof {
            vstd::arithmetic::div_mod::lemma_div_is_ordered(p as int, (MAX_DT * MAX_POSITION) as int, SCALE as int);
            vstd::arithmetic::div_mod::lemma_div_pos_is_pos(p as int, SCALE as int);
        }
        -(p / SCALE)
    }
}

} // verus!
