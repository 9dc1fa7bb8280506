//! The intelligent-driver car-following law: a pure function from the
//! kinematic state of a follower and its leader to the follower's signed
//! acceleration.

use vstd::prelude::*;

use crate::obstacle::Obstacle;
use crate::units::FAR_AHEAD_POSITION;
use crate::units::FAR_BEHIND_POSITION;
use crate::units::MAX_IDM_POSITION;
use crate::units::MAX_VELOCITY;
use crate::units::SCALE;
use crate::units::SCALE_SQUARED;
use crate::units::SCALE_FOURTH;

verus! {

/// Comfortable braking deceleration, exported for other components' safety
/// checks.
pub const COMFORTABLE_BREAKING_DECELERATION: i64 = 2_000;

/// Maximum acceleration of a free car.
pub const MAX_IDM_ACCELERATION: i64 = 1_000;

/// Hardest deceleration the law will ever demand.
pub const MAX_DECELERATION: i64 = 12_000;

/// Minimum gap a follower wants to keep, bumper to bumper.
pub const MINIMUM_SPACING: i64 = 2_000;

/// Desired time headway.
pub const SAFE_TIME_HEADWAY: i64 = 1_000;

/// Twice the square root of the product of maximum acceleration and
/// comfortable braking deceleration, in scale units.
pub const TWO_SQRT_ACCEL_BRAKE: i64 = 2_828;

/// Once the desired gap exceeds this many thousandths of the actual gap, the
/// law already demands more than `MAX_DECELERATION`.
pub const GAP_RATIO_CUTOFF: i64 = 4_000;

/// A follower the law accepts: a finite obstacle or the far-behind sentinel,
/// moving forward no faster than `MAX_VELOCITY`.
pub open spec fn idm_follower_ok(f: Obstacle) -> bool {
    &&& f.position == FAR_BEHIND_POSITION || -MAX_IDM_POSITION <= f.position <= MAX_IDM_POSITION
    &&& 0 <= f.velocity <= MAX_VELOCITY
    &&& 0 <= f.max_velocity
}

/// A leader the law accepts: a finite obstacle, or the far-ahead sentinel.
pub open spec fn idm_leader_ok(l: Obstacle) -> bool {
    ||| l.position == FAR_AHEAD_POSITION
    ||| (-MAX_IDM_POSITION <= l.position <= MAX_IDM_POSITION && 0 <= l.velocity <= MAX_VELOCITY)
}

/// Signed division by `TWO_SQRT_ACCEL_BRAKE`, rounded towards zero.
pub open spec fn spec_braking_share(product: int) -> int {
    if product >= 0 {
        product / (TWO_SQRT_ACCEL_BRAKE as int)
    } else {
        -((-product) / (TWO_SQRT_ACCEL_BRAKE as int))
    }
}

/// The free-flow term: maximum acceleration scaled down by the fourth power
/// of the ratio of current to desired velocity.
pub open spec fn spec_free_flow(f: Obstacle) -> int {
    let ratio: int = if f.max_velocity <= 0 {
        SCALE as int
    } else if f.velocity * SCALE / (f.max_velocity as int) > SCALE {
        SCALE as int
    } else {
        f.velocity * SCALE / (f.max_velocity as int)
    };
    let squared: int = ratio * ratio;
    MAX_IDM_ACCELERATION - (MAX_IDM_ACCELERATION * (squared * squared)) / (SCALE_FOURTH as int)
}

/// The desired dynamic gap: minimum spacing plus headway and braking shares,
/// never less than the minimum spacing.
pub open spec fn spec_desired_gap(f: Obstacle, l: Obstacle) -> int {
    let headway: int = f.velocity * SAFE_TIME_HEADWAY / (SCALE as int);
    let share: int = spec_braking_share(f.velocity * (f.velocity - l.velocity));
    if headway + share >= 0 {
        MINIMUM_SPACING + headway + share
    } else {
        MINIMUM_SPACING as int
    }
}

/// The intelligent-driver acceleration of `f` following `l`.  Against the
/// far-ahead sentinel only the free-flow term remains; a vanished or negative
/// gap demands the hardest deceleration; otherwise the interaction term is
/// subtracted and the result clipped to `-MAX_DECELERATION`.
pub open spec fn spec_idm(f: Obstacle, l: Obstacle) -> int {
    if l.position >= FAR_AHEAD_POSITION {
        spec_free_flow(f)
    } else {
        let gap: int = l.position - f.position;
        if gap <= 0 {
            -MAX_DECELERATION as int
        } else {
            let ratio: int = spec_desired_gap(f, l) * SCALE / gap;
            let raw: int = spec_free_flow(f) - (MAX_IDM_ACCELERATION * (ratio * ratio)) / (
            SCALE_SQUARED as int);
            if raw >= -MAX_DECELERATION {
                raw
            } else {
                -MAX_DECELERATION as int
            }
        }
    }
}

/// The free-flow term, as executable code.
fn free_flow(f: &Obstacle) -> (r: i64)
    requires
        idm_follower_ok(*f),
    ensures
        r == spec_free_flow(*f),
        0 <= r <= MAX_IDM_ACCELERATION,
{
    let ratio: i64 = if f.max_velocity <= 0 {
        SCALE
    } else {
        assert(0 <= f.velocity * SCALE <= MAX_VELOCITY * SCALE) by (nonlinear_arith)
            requires
                0 <= f.velocity <= MAX_VELOCITY,
        ;
        let q: i64 = (f.velocity * SCALE) / f.max_velocity;
        if q > SCALE {
            SCALE
        } else {
            q
        }
    };
    assert(0 <= ratio * ratio <= SCALE * SCALE) by (nonlinear_arith)
        requires
            0 <= ratio <= SCALE,
    ;
    let r2: i64 = ratio * ratio;
    assert(0 <= r2 * r2 <= SCALE_FOURTH) by (nonlinear_arith)
        requires
            0 <= r2 <= SCALE_SQUARED,
    ;
    let r4: i64 = r2 * r2;
    assert(0 <= MAX_IDM_ACCELERATION * r4 <= MAX_IDM_ACCELERATION * SCALE_FOURTH)
        by (nonlinear_arith)
        requires
            0 <= r4 <= SCALE_FOURTH,
    ;
    let scaled_term: i64 = MAX_IDM_ACCELERATION * r4;
    proof {
        vstd::arithmetic::div_mod::lemma_div_is_ordered(
            scaled_term as int,
            (MAX_IDM_ACCELERATION * SCALE_FOURTH) as int,
            SCALE_FOURTH as int,
        );
        vstd::arithmetic::div_mod::lemma_div_pos_is_pos(scaled_term as int, SCALE_FOURTH as int);
    }
    MAX_IDM_ACCELERATION - scaled_term / SCALE_FOURTH
}

/// The intelligent-driver acceleration, as executable code.
pub fn intelligent_acceleration(f: &Obstacle, l: &Obstacle) -> (r: i64)
    requires
        idm_follower_ok(*f),
        idm_leader_ok(*l),
    ensures
        r == spec_idm(*f, *l),
        -MAX_DECELERATION <= r <= MAX_IDM_ACCELERATION,
{
    if l.position >= FAR_AHEAD_POSITION {
        free_flow(f)
    } else {
        let gap: i64 = l.position - f.position;
        if gap <= 0 {
            -MAX_DECELERATION
        } else {
            let dv: i64 = f.velocity - l.velocity;
            assert(-(MAX_VELOCITY * MAX_VELOCITY) <= f.velocity * dv <= MAX_VELOCITY
                * MAX_VELOCITY) by (nonlinear_arith)
                requires
                    0 <= f.velocity <= MAX_VELOCITY,
                    -MAX_VELOCITY <= dv <= MAX_VELOCITY,
            ;
            let product: i64 = f.velocity * dv;
            let share: i64 = if product >= 0 {
                proof {
                    vstd::arithmetic::div_mod::lemma_div_is_ordered(
                        product as int,
                        (MAX_VELOCITY * MAX_VELOCITY) as int,
                        TWO_SQRT_ACCEL_BRAKE as int,
                    );
                }
                product / TWO_SQRT_ACCEL_BRAKE
            } else {
                proof {
                    vstd::arithmetic::div_mod::lemma_div_is_ordered(
                        (-product) as int,
                        (MAX_VELOCITY * MAX_VELOCITY) as int,
                        TWO_SQRT_ACCEL_BRAKE as int,
                    );
                }
                -((-product) / TWO_SQRT_ACCEL_BRAKE)
            };
            assert(0 <= f.velocity * SAFE_TIME_HEADWAY <= MAX_VELOCITY * SAFE_TIME_HEADWAY)
                by (nonlinear_arith)
                requires
                    0 <= f.velocity <= MAX_VELOCITY,
            ;
            let headway: i64 = (f.velocity * SAFE_TIME_HEADWAY) / SCALE;
            proof {
                vstd::arithmetic::div_mod::lemma_div_is_ordered(
                    (f.velocity * SAFE_TIME_HEADWAY) as int,
                    (MAX_VELOCITY * SAFE_TIME_HEADWAY) as int,
                    SCALE as int,
                );
            }
            let desired: i64 = if headway + share >= 0 {
                MINIMUM_SPACING + (headway + share)
            } else {
                MINIMUM_SPACING
            };
            assert(desired * SCALE <= (MINIMUM_SPACING + 1_000_000_000 + 400_000_000_000_000)
                * SCALE && desired * SCALE >= 0) by (nonlinear_arith)
                requires
                    0 <= desired <= MINIMUM_SPACING + 1_000_000_000 + 400_000_000_000_000,
            ;
            let scaled_desired: i64 = desired * SCALE;
            proof {
                vstd::arithmetic::div_mod::lemma_div_pos_is_pos(scaled_desired as int, gap as int);
            }
            let ratio: i64 = scaled_desired / gap;
            let free: i64 = free_flow(f);
            if ratio >= GAP_RATIO_CUTOFF {
                proof {
                    assert(ratio * ratio >= GAP_RATIO_CUTOFF * GAP_RATIO_CUTOFF)
                        by (nonlinear_arith)
                        requires
                            ratio >= GAP_RATIO_CUTOFF,
                    ;
                    assert(MAX_IDM_ACCELERATION * (ratio * ratio) >= MAX_IDM_ACCELERATION * (
                    GAP_RATIO_CUTOFF * GAP_RATIO_CUTOFF)) by (nonlinear_arith)
                        requires
                            ratio * ratio >= GAP_RATIO_CUTOFF * GAP_RATIO_CUTOFF,
                    ;
                    vstd::arithmetic::div_mod::lemma_div_is_ordered(
                        (MAX_IDM_ACCELERATION * (GAP_RATIO_CUTOFF * GAP_RATIO_CUTOFF)) as int,
                        MAX_IDM_ACCELERATION * ((ratio as int) * (ratio as int)),
                        SCALE_SQUARED as int,
                    );
                }
                -MAX_DECELERATION
            } else {
                assert(0 <= ratio * ratio < GAP_RATIO_CUTOFF * GAP_RATIO_CUTOFF)
                    by (nonlinear_arith)
                    requires
                        0 <= ratio < GAP_RATIO_CUTOFF,
                ;
                let r2: i64 = ratio * ratio;
                assert(0 <= MAX_IDM_ACCELERATION * r2 <= MAX_IDM_ACCELERATION * (GAP_RATIO_CUTOFF
                    * GAP_RATIO_CUTOFF)) by (nonlinear_arith)
                    requires
                        0 <= r2 <= GAP_RATIO_CUTOFF * GAP_RATIO_CUTOFF,
                ;
                let interaction: i64 = (MAX_IDM_ACCELERATION * r2) / SCALE_SQUARED;
                proof {
                    vstd::arithmetic::div_mod::lemma_div_is_ordered(
                        (MAX_IDM_ACCELERATION * r2) as int,
                        (MAX_IDM_ACCELERATION * (GAP_RATIO_CUTOFF * GAP_RATIO_CUTOFF)) as int,
                        SCALE_SQUARED as int,
                    );
                    vstd::arithmetic::div_mod::lemma_div_pos_is_pos(
                        (MAX_IDM_ACCELERATION * r2) as int,
                        SCALE_SQUARED as int,
                    );
                }
                let raw: i64 = free - interaction;
                if raw >= -MAX_DECELERATION {
                    raw
                } else {
                    -MAX_DECELERATION
                }
            }
        }
    }
}

} // verus!
