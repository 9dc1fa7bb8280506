//! The transfer-lane actor: a short sliver between two parallel lanes on
//! which cars move laterally while moving longitudinally, modelling a lane
//! change.

use vstd::prelude::*;

use crate::idm::COMFORTABLE_BREAKING_DECELERATION;
use crate::idm::intelligent_acceleration;
use crate::idm::spec_idm;
use crate::ids::ActorId;
use crate::ids::Fate;
use crate::lane::lemma_multiset_elements_hold;
use crate::messages::Add;
use crate::messages::Effect;
use crate::messages::Tick;
use crate::messages::tick_valid;
use crate::obstacle::LaneCar;
use crate::obstacle::MAX_TRANSFER_VELOCITY;
use crate::obstacle::Obstacle;
use crate::obstacle::TransferringLaneCar;
use crate::obstacle::car_valid;
use crate::obstacle::obstacle_valid;
use crate::obstacle::spec_far_ahead;
use crate::obstacle::spec_far_behind;
use crate::obstacle::spec_offset_car;
use crate::obstacle::spec_offset_obstacle;
use crate::obstacle::transfer_car_valid;
use crate::sorting::sort_obstacles;
use crate::sorting::sort_transfer_cars;
use crate::sorting::transfer_cars_sorted;
use crate::units::MAX_DT;
use crate::units::MAX_LANE_LENGTH;
use crate::units::MAX_ACCELERATION;
use crate::units::MAX_POSITION;
use crate::units::MAX_STEP;
use crate::units::SCALE;
use crate::units::spec_scaled;
use crate::units::scaled;

verus! {

/// Weight of the follower behind when a transferring car mixes courtesy
/// into its own acceleration, in thousandths.
pub const POLITENESS: i64 = 300;

/// Lateral acceleration a freshly added car starts with.
pub const LATERAL_A_DEFAULT: i64 = 100;

/// Lateral acceleration used to bail out of a dangerous slot.
pub const LATERAL_EVASION: i64 = 300;

/// Ratio of longitudinal velocity to the lateral speed limit.
pub const LATERAL_SPEED_CAP_DIVISOR: i64 = 12;

/// Every transferring car is a value the lane may store.
pub open spec fn transfer_cars_all_valid(s: Seq<TransferringLaneCar>) -> bool {
    forall|i: int| 0 <= i < s.len() ==> transfer_car_valid(#[trigger] s[i])
}

/// Index of the first obstacle strictly past `p`, from `i` on; the length
/// when there is none.
pub open spec fn first_above(obs: Seq<Obstacle>, i: int, p: i64) -> int
    decreases obs.len() - i,
{
    if 0 <= i < obs.len() && !(obs[i].position > p) {
        first_above(obs, i + 1, p)
    } else {
        i
    }
}

/// The transient obstacle just ahead of a car at `p`, or the far-ahead
/// sentinel.
pub open spec fn spec_next_io(obs: Seq<Obstacle>, p: i64) -> Obstacle {
    let j = first_above(obs, 0, p);
    if j < obs.len() {
        obs[j]
    } else {
        spec_far_ahead()
    }
}

/// The transient obstacle just behind a car at `p`, or the far-behind
/// sentinel.
pub open spec fn spec_prev_io(obs: Seq<Obstacle>, p: i64) -> Obstacle {
    let j = first_above(obs, 0, p);
    if 1 <= j < obs.len() {
        obs[j - 1]
    } else {
        spec_far_behind()
    }
}

/// The forward acceleration demand on car `c`: following the next car on
/// this lane and the next transient obstacle, whichever is stricter.
pub open spec fn spec_a_next(
    cars: Seq<TransferringLaneCar>,
    obs: Seq<Obstacle>,
    c: int,
) -> int {
    let own = cars[c].as_lane_car.as_obstacle;
    let next = if c + 1 < cars.len() {
        cars[c + 1].as_lane_car.as_obstacle
    } else {
        spec_far_ahead()
    };
    vstd::math::min(spec_idm(own, next), spec_idm(own, spec_next_io(obs, own.position)))
}

/// The retrograde courtesy demand: how hard whoever is behind car `c` would
/// have to brake for it.
pub open spec fn spec_a_prev(
    cars: Seq<TransferringLaneCar>,
    obs: Seq<Obstacle>,
    c: int,
) -> int {
    let own = cars[c].as_lane_car.as_obstacle;
    let prev = if c >= 1 {
        cars[c - 1].as_lane_car.as_obstacle
    } else {
        spec_far_behind()
    };
    vstd::math::min(spec_idm(prev, own), spec_idm(spec_prev_io(obs, own.position), own))
}

/// Signed division by `SCALE`, rounded towards zero.
pub open spec fn spec_div_scale(x: int) -> int {
    if x >= 0 {
        x / (SCALE as int)
    } else {
        -((-x) / (SCALE as int))
    }
}

/// The acceleration the pass writes to car `c`: its own demand, blended
/// with the follower's when the follower would have to brake.
pub open spec fn spec_transfer_accel(
    cars: Seq<TransferringLaneCar>,
    obs: Seq<Obstacle>,
    c: int,
) -> int {
    let a_next = spec_a_next(cars, obs, c);
    let a_prev = spec_a_prev(cars, obs, c);
    if a_prev < 0 {
        spec_div_scale((SCALE - POLITENESS) * a_next + POLITENESS * a_prev)
    } else {
        a_next
    }
}

/// `-0.9` times the lateral velocity, rounded towards zero: the arrival
/// damping term.
pub open spec fn spec_arrival_damping(tv: i64) -> int {
    if tv >= 0 {
        -((900 * tv) / (SCALE as int))
    } else {
        (900 * -(tv as int)) / (SCALE as int)
    }
}

/// The lateral acceleration the pass writes to car `c`: bail towards the
/// side the car leans to when its slot is dangerous, and damp the lateral
/// velocity when it is about to arrive on the far side.
pub open spec fn spec_transfer_lateral(
    cars: Seq<TransferringLaneCar>,
    obs: Seq<Obstacle>,
    c: int,
) -> int {
    let a_next = spec_a_next(cars, obs, c);
    let a_prev = spec_a_prev(cars, obs, c);
    let dangerous = a_next < -2 * COMFORTABLE_BREAKING_DECELERATION || a_prev < -2
        * COMFORTABLE_BREAKING_DECELERATION;
    let tp = cars[c].transfer_position;
    let tv = cars[c].transfer_velocity;
    let base: int = if dangerous {
        if tp >= 0 {
            LATERAL_EVASION as int
        } else {
            -LATERAL_EVASION as int
        }
    } else {
        cars[c].transfer_acceleration as int
    };
    let arriving = (tv > 100 || tv < -100) && (tp > 500 || tp < -500) && ((tp > 0 && tv > 0) || (
    tp < 0 && tv < 0));
    if arriving {
        spec_arrival_damping(tv)
    } else {
        base
    }
}

/// The whole column after the pass has written both accelerations.
pub open spec fn spec_transfer_pass(
    cars: Seq<TransferringLaneCar>,
    obs: Seq<Obstacle>,
) -> Seq<TransferringLaneCar> {
    Seq::new(
        cars.len(),
        |i: int|
            TransferringLaneCar {
                as_lane_car: LaneCar {
                    trip: cars[i].as_lane_car.trip,
                    as_obstacle: cars[i].as_lane_car.as_obstacle,
                    acceleration: spec_transfer_accel(cars, obs, i) as i64,
                },
                transfer_position: cars[i].transfer_position,
                transfer_velocity: cars[i].transfer_velocity,
                transfer_acceleration: spec_transfer_lateral(cars, obs, i) as i64,
            },
    )
}

/// One integration step of a transferring car: longitudinal kinematics as
/// on a plain lane, lateral kinematics integrated and then capped at a
/// twelfth of the longitudinal velocity.
pub open spec fn spec_integrate_transfer_car(car: TransferringLaneCar, dt: i64) -> TransferringLaneCar {
    let o = car.as_lane_car.as_obstacle;
    let p2 = o.position + spec_scaled(dt, o.velocity);
    let vsum = o.velocity + spec_scaled(dt, car.as_lane_car.acceleration);
    let v2: int = if vsum < 0 {
        0
    } else if vsum > o.max_velocity {
        o.max_velocity as int
    } else {
        vsum
    };
    let tp2 = car.transfer_position + spec_scaled(dt, car.transfer_velocity);
    let tvsum = car.transfer_velocity + spec_scaled(dt, car.transfer_acceleration);
    let cap = v2 / (LATERAL_SPEED_CAP_DIVISOR as int);
    let tv2: int = if tvsum > cap {
        cap
    } else if tvsum < -cap {
        -cap
    } else {
        tvsum
    };
    TransferringLaneCar {
        as_lane_car: LaneCar {
            trip: car.as_lane_car.trip,
            as_obstacle: Obstacle {
                position: p2 as i64,
                velocity: v2 as i64,
                max_velocity: o.max_velocity,
            },
            acceleration: car.as_lane_car.acceleration,
        },
        transfer_position: tp2 as i64,
        transfer_velocity: tv2 as i64,
        transfer_acceleration: car.transfer_acceleration,
    }
}

/// One integration step of the whole column.
pub open spec fn spec_integrate_transfer(
    cars: Seq<TransferringLaneCar>,
    dt: i64,
) -> Seq<TransferringLaneCar> {
    Seq::new(cars.len(), |i: int| spec_integrate_transfer_car(cars[i], dt))
}

/// What the handoff walk keeps and sends: a car past `-SCALE` leaves to the
/// left lane, one past `SCALE` to the right, each shifted by that side's
/// entry offset; the rest stay in order.
pub open spec fn spec_handoff(
    cars: Seq<TransferringLaneCar>,
    left: ActorId,
    left_start: i64,
    right: ActorId,
    right_start: i64,
) -> (Seq<TransferringLaneCar>, Seq<Effect>)
    decreases cars.len(),
{
    if cars.len() == 0 {
        (cars, Seq::empty())
    } else {
        let head = cars[0];
        let rest = spec_handoff(cars.drop_first(), left, left_start, right, right_start);
        if head.transfer_position < -SCALE {
            (
                rest.0,
                seq![
                    Effect::AddCarTo {
                        lane: left,
                        car: spec_offset_car(head.as_lane_car, left_start as int),
                    },
                ] + rest.1,
            )
        } else if head.transfer_position > SCALE {
            (
                rest.0,
                seq![
                    Effect::AddCarTo {
                        lane: right,
                        car: spec_offset_car(head.as_lane_car, right_start as int),
                    },
                ] + rest.1,
            )
        } else {
            (seq![head] + rest.0, rest.1)
        }
    }
}

/// What every remaining car broadcasts: its obstacle to the left lane when
/// it leans or moves left of the threshold, to the right lane when it leans
/// or moves right — a car near the centre appears on both.
pub open spec fn spec_presence(
    cars: Seq<TransferringLaneCar>,
    left: ActorId,
    left_start: i64,
    right: ActorId,
    right_start: i64,
) -> Seq<Effect>
    decreases cars.len(),
{
    if cars.len() == 0 {
        Seq::empty()
    } else {
        let head = cars[0];
        let to_left: Seq<Effect> = if head.transfer_position < 300 || head.transfer_velocity < 0 {
            seq![
                Effect::AddObstacleTo {
                    lane: left,
                    obstacle: spec_offset_obstacle(
                        head.as_lane_car.as_obstacle,
                        left_start as int,
                    ),
                },
            ]
        } else {
            Seq::empty()
        };
        let to_right: Seq<Effect> = if head.transfer_position > -300 || head.transfer_velocity
            > 0 {
            seq![
                Effect::AddObstacleTo {
                    lane: right,
                    obstacle: spec_offset_obstacle(
                        head.as_lane_car.as_obstacle,
                        right_start as int,
                    ),
                },
            ]
        } else {
            Seq::empty()
        };
        to_left + to_right + spec_presence(
            cars.drop_first(),
            left,
            left_start,
            right,
            right_start,
        )
    }
}

/// Where a transferring car will be after this step.
pub open spec fn transfer_moved_position(car: TransferringLaneCar, dt: i64) -> int {
    car.as_lane_car.as_obstacle.position + spec_scaled(dt, car.as_lane_car.as_obstacle.velocity)
}

/// No transferring car would pass the car ahead of it within this step.
pub open spec fn transfer_no_overtake(cars: Seq<TransferringLaneCar>, dt: i64) -> bool {
    forall|i: int|
        0 <= i && i + 1 < cars.len() ==> transfer_moved_position(#[trigger] cars[i], dt)
            <= transfer_moved_position(cars[i + 1], dt)
}

/// Every position stays within the stored bound over this step.
pub open spec fn transfer_positions_within(cars: Seq<TransferringLaneCar>, dt: i64) -> bool {
    forall|i: int|
        0 <= i < cars.len() ==> -MAX_POSITION <= transfer_moved_position(#[trigger] cars[i], dt)
            <= MAX_POSITION
}

/// Under the no-overtake hypothesis, this step's new positions are ordered
/// across any pair of cars.
pub proof fn lemma_transfer_moved_order(cars: Seq<TransferringLaneCar>, dt: i64, a: int, b: int)
    requires
        transfer_no_overtake(cars, dt),
        0 <= a < b < cars.len(),
    ensures
        transfer_moved_position(cars[a], dt) <= transfer_moved_position(cars[b], dt),
    decreases b - a,
{
    if a + 1 < b {
        lemma_transfer_moved_order(cars, dt, a + 1, b);
    }
}

/// What the handoff keeps is drawn from what it was given, in order.
pub proof fn lemma_handoff_kept(
    cars: Seq<TransferringLaneCar>,
    left: ActorId,
    left_start: i64,
    right: ActorId,
    right_start: i64,
)
    ensures
        forall|k: int|
            0 <= k < spec_handoff(cars, left, left_start, right, right_start).0.len()
                ==> cars.contains(
                #[trigger] spec_handoff(cars, left, left_start, right, right_start).0[k],
            ),
        forall|k: int|
            0 <= k < spec_handoff(cars, left, left_start, right, right_start).0.len() ==> -SCALE
                <= (#[trigger] spec_handoff(
                cars,
                left,
                left_start,
                right,
                right_start,
            ).0[k]).transfer_position <= SCALE,
        transfer_cars_sorted(cars) ==> transfer_cars_sorted(
            spec_handoff(cars, left, left_start, right, right_start).0,
        ),
    decreases cars.len(),
{
    if cars.len() > 0 {
        let rest_cars = cars.drop_first();
        lemma_handoff_kept(rest_cars, left, left_start, right, right_start);
        let kept = spec_handoff(cars, left, left_start, right, right_start).0;
        let rest_kept = spec_handoff(rest_cars, left, left_start, right, right_start).0;
        assert forall|k: int| 0 <= k < kept.len() implies cars.contains(#[trigger] kept[k]) by {
            if -SCALE <= cars[0].transfer_position <= SCALE {
                if k > 0 {
                    assert(kept[k] == rest_kept[k - 1]);
                    assert(rest_cars.contains(rest_kept[k - 1]));
                    let j = choose|j: int|
                        0 <= j < rest_cars.len() && rest_cars[j] == rest_kept[k - 1];
                    assert(cars[j + 1] == rest_kept[k - 1]);
                }
            } else {
                assert(kept[k] == rest_kept[k]);
                assert(rest_cars.contains(rest_kept[k]));
                let j = choose|j: int| 0 <= j < rest_cars.len() && rest_cars[j] == rest_kept[k];
                assert(cars[j + 1] == rest_kept[k]);
            }
        }
        if transfer_cars_sorted(cars) {
            assert forall|a: int, b: int|
                0 <= a < b < rest_cars.len() implies rest_cars[a].as_lane_car.as_obstacle.position
                    <= rest_cars[b].as_lane_car.as_obstacle.position by {
                assert(rest_cars[a] == cars[a + 1]);
                assert(rest_cars[b] == cars[b + 1]);
            }
            assert(transfer_cars_sorted(rest_cars));
            if -SCALE <= cars[0].transfer_position <= SCALE {
                assert forall|a: int, b: int|
                    0 <= a < b < kept.len() implies kept[a].as_lane_car.as_obstacle.position
                        <= kept[b].as_lane_car.as_obstacle.position by {
                    if a > 0 {
                        assert(kept[a] == rest_kept[a - 1]);
                        assert(kept[b] == rest_kept[b - 1]);
                    } else {
                        assert(kept[0] == cars[0]);
                        assert(kept[b] == rest_kept[b - 1]);
                        assert(rest_cars.contains(rest_kept[b - 1]));
                        let j = choose|j: int|
                            0 <= j < rest_cars.len() && rest_cars[j] == rest_kept[b - 1];
                        assert(cars[0].as_lane_car.as_obstacle.position
                            <= cars[j + 1].as_lane_car.as_obstacle.position);
                    }
                }
            }
        }
    }
}

/// Writes both accelerations of every transferring car.
#[verifier::rlimit(100)]
fn transfer_pass(cars: &mut Vec<TransferringLaneCar>, obs: &Vec<Obstacle>)
    requires
        transfer_cars_all_valid(old(cars)@),
        crate::lane::obstacles_all_valid(obs@),
    ensures
        final(cars)@.len() == old(cars)@.len(),
        final(cars)@ == spec_transfer_pass(old(cars)@, obs@),
        transfer_cars_all_valid(final(cars)@),
{
    let ghost cars0 = cars@;
    let n: usize = cars.len();
    let mut c: usize = 0;
    while c < n
        invariant
            0 <= c <= n,
            n == cars@.len(),
            cars0.len() == n,
            transfer_cars_all_valid(cars0),
            crate::lane::obstacles_all_valid(obs@),
            forall|k: int| c <= k < n ==> #[trigger] cars@[k] == cars0[k],
            forall|k: int|
                0 <= k < c ==> #[trigger] cars@[k] == spec_transfer_pass(cars0, obs@)[k],
            forall|k: int| 0 <= k < c ==> transfer_car_valid(#[trigger] cars@[k]),
        decreases n - c,
    {
        let car: TransferringLaneCar = cars[c];
        let mut j: usize = 0;
        while j < obs.len() && !(obs[j].position > car.as_lane_car.as_obstacle.position)
            invariant
                0 <= j <= obs@.len(),
                first_above(obs@, 0, car.as_lane_car.as_obstacle.position) == first_above(
                    obs@,
                    j as int,
                    car.as_lane_car.as_obstacle.position,
                ),
            decreases obs@.len() - j,
        {
            j = j + 1;
        }
        let next_car_obstacle: Obstacle = if c + 1 < n {
            cars[c + 1].as_lane_car.as_obstacle
        } else {
            Obstacle::far_ahead()
        };
        let prev_car_obstacle: Obstacle = if c >= 1 {
            cars[c - 1].as_lane_car.as_obstacle
        } else {
            Obstacle::far_behind()
        };
        let next_io: Obstacle = if j < obs.len() {
            obs[j]
        } else {
            Obstacle::far_ahead()
        };
        let prev_io: Obstacle = if j < obs.len() && j >= 1 {
            obs[j - 1]
        } else {
            Obstacle::far_behind()
        };
        let own: Obstacle = car.as_lane_car.as_obstacle;
        let an1: i64 = intelligent_acceleration(&own, &next_car_obstacle);
        let an2: i64 = intelligent_acceleration(&own, &next_io);
        let a_next: i64 = if an1 <= an2 {
            an1
        } else {
            an2
        };
        let ap1: i64 = intelligent_acceleration(&prev_car_obstacle, &own);
        let ap2: i64 = intelligent_acceleration(&prev_io, &own);
        let a_prev: i64 = if ap1 <= ap2 {
            ap1
        } else {
            ap2
        };
        let acceleration: i64 = if a_prev < 0 {
            proof {
                assert((SCALE - POLITENESS) * (-12000) <= (SCALE - POLITENESS) * a_next <= (SCALE
                    - POLITENESS) * 1000) by (nonlinear_arith)
                    requires
                        -12000 <= a_next <= 1000,
                ;
                assert(POLITENESS * (-12000) <= POLITENESS * a_prev <= POLITENESS * 1000)
                    by (nonlinear_arith)
                    requires
                        -12000 <= a_prev <= 1000,
                ;
            }
            let mixed: i64 = (SCALE - POLITENESS) * a_next + POLITENESS * a_prev;
            if mixed >= 0 {
                mixed / SCALE
            } else {
                -((-mixed) / SCALE)
            }
        } else {
            a_next
        };
        let dangerous: bool = a_next < -2 * COMFORTABLE_BREAKING_DECELERATION || a_prev < -2
            * COMFORTABLE_BREAKING_DECELERATION;
        let mut lateral: i64 = car.transfer_acceleration;
        if dangerous {
            lateral = if car.transfer_position >= 0 {
                LATERAL_EVASION
            } else {
                -LATERAL_EVASION
            };
        }
        let tv: i64 = car.transfer_velocity;
        let tp: i64 = car.transfer_position;
        let arriving: bool = (tv > 100 || tv < -100) && (tp > 500 || tp < -500) && ((tp > 0 && tv
            > 0) || (tp < 0 && tv < 0));
        if arriving {
            lateral = if tv >= 0 {
                -((900 * tv) / SCALE)
            } else {
                (900 * (-tv)) / SCALE
            };
            proof {
                if tv >= 0 {
                    vstd::arithmetic::div_mod::lemma_div_pos_is_pos((900 * tv) as int, SCALE as int);
                    vstd::arithmetic::div_mod::lemma_div_is_ordered(
                        (900 * tv) as int,
                        (900 * MAX_TRANSFER_VELOCITY) as int,
                        SCALE as int,
                    );
                } else {
                    vstd::arithmetic::div_mod::lemma_div_pos_is_pos(
                        (900 * (-tv)) as int,
                        SCALE as int,
                    );
                    vstd::arithmetic::div_mod::lemma_div_is_ordered(
                        (900 * (-tv)) as int,
                        (900 * MAX_TRANSFER_VELOCITY) as int,
                        SCALE as int,
                    );
                }
            }
        }
        cars[c] = TransferringLaneCar {
            as_lane_car: LaneCar { trip: car.as_lane_car.trip, as_obstacle: own, acceleration },
            transfer_position: car.transfer_position,
            transfer_velocity: car.transfer_velocity,
            transfer_acceleration: lateral,
        };
        proof {
            assert(cars@[c as int] == spec_transfer_pass(cars0, obs@)[c as int]);
        }
        c = c + 1;
    }
    proof {
        assert(cars@ =~= spec_transfer_pass(cars0, obs@));
    }
}

/// Integrates every transferring car by one step.
fn integrate_transfer_cars(cars: &mut Vec<TransferringLaneCar>, dt: i64)
    requires
        transfer_cars_all_valid(old(cars)@),
        0 <= dt <= MAX_DT,
    ensures
        final(cars)@.len() == old(cars)@.len(),
        forall|i: int|
            0 <= i < old(cars)@.len() ==> #[trigger] final(cars)@[i]
                == spec_integrate_transfer_car(old(cars)@[i], dt),
        final(cars)@ == spec_integrate_transfer(old(cars)@, dt),
{
    let ghost cars0 = cars@;
    let n: usize = cars.len();
    let mut i: usize = 0;
    while i < n
        invariant
            0 <= i <= n,
            n == cars@.len(),
            cars0.len() == n,
            transfer_cars_all_valid(cars0),
            0 <= dt <= MAX_DT,
            forall|k: int| i <= k < n ==> #[trigger] cars@[k] == cars0[k],
            forall|k: int|
                0 <= k < i ==> #[trigger] cars@[k] == spec_integrate_transfer_car(cars0[k], dt),
        decreases n - i,
    {
        let car: TransferringLaneCar = cars[i];
        let o: Obstacle = car.as_lane_car.as_obstacle;
        let p2: i64 = o.position + scaled(dt, o.velocity);
        let vsum: i64 = o.velocity + scaled(dt, car.as_lane_car.acceleration);
        let v2: i64 = if vsum < 0 {
            0
        } else if vsum > o.max_velocity {
            o.max_velocity
        } else {
            vsum
        };
        let tp2: i64 = car.transfer_position + scaled(dt, car.transfer_velocity);
        let tvsum: i64 = car.transfer_velocity + scaled(dt, car.transfer_acceleration);
        let cap: i64 = v2 / LATERAL_SPEED_CAP_DIVISOR;
        let tv2: i64 = if tvsum > cap {
            cap
        } else if tvsum < -cap {
            -cap
        } else {
            tvsum
        };
        cars[i] = TransferringLaneCar {
            as_lane_car: LaneCar {
                trip: car.as_lane_car.trip,
                as_obstacle: Obstacle { position: p2, velocity: v2, max_velocity: o.max_velocity },
                acceleration: car.as_lane_car.acceleration,
            },
            transfer_position: tp2,
            transfer_velocity: tv2,
            transfer_acceleration: car.transfer_acceleration,
        };
        i = i + 1;
    }
    proof {
        assert(cars@ =~= spec_integrate_transfer(cars0, dt));
    }
}

/// Walks the column and hands cars past either lateral edge to that side's
/// lane.
#[verifier::loop_isolation(false)]
fn handoff_cars(
    cars: &mut Vec<TransferringLaneCar>,
    left: ActorId,
    left_start: i64,
    right: ActorId,
    right_start: i64,
    effects: &mut Vec<Effect>,
)
    requires
        forall|i: int|
            0 <= i < old(cars)@.len() ==> -MAX_POSITION - MAX_STEP <= (#[trigger] old(
                cars,
            )@[i]).as_lane_car.as_obstacle.position <= MAX_POSITION + MAX_STEP,
        -MAX_POSITION <= left_start <= MAX_POSITION,
        -MAX_POSITION <= right_start <= MAX_POSITION,
    ensures
        final(cars)@ == spec_handoff(old(cars)@, left, left_start, right, right_start).0,
        final(effects)@ == old(effects)@ + spec_handoff(
            old(cars)@,
            left,
            left_start,
            right,
            right_start,
        ).1,
{
    let ghost cars0 = cars@;
    let ghost effects0 = effects@;
    let mut i: usize = 0;
    proof {
        assert(cars@.skip(0) =~= cars@);
        assert(cars@.take(0) =~= Seq::<TransferringLaneCar>::empty());
    }
    while i < cars.len()
        invariant
            0 <= i <= cars@.len(),
            cars@.len() <= cars0.len(),
            forall|k: int|
                0 <= k < cars@.len() ==> -MAX_POSITION - MAX_STEP <= (#[trigger] cars@[k]).as_lane_car.as_obstacle.position
                    <= MAX_POSITION + MAX_STEP,
            spec_handoff(cars0, left, left_start, right, right_start).0 == cars@.take(i as int)
                + spec_handoff(cars@.skip(i as int), left, left_start, right, right_start).0,
            effects0 + spec_handoff(cars0, left, left_start, right, right_start).1 == effects@
                + spec_handoff(cars@.skip(i as int), left, left_start, right, right_start).1,
        decreases cars@.len() - i,
    {
        let car: TransferringLaneCar = cars[i];
        let ghost pre = cars@;
        proof {
            assert(pre.skip(i as int)[0] == car);
            assert(pre.skip(i as int).drop_first() =~= pre.skip(i as int + 1));
        }
        if car.transfer_position < -SCALE {
            effects.push(
                Effect::AddCarTo { lane: left, car: car.as_lane_car.offset_by(left_start) },
            );
            self_remove(cars, i);
            proof {
                assert(cars@.take(i as int) =~= pre.take(i as int));
                assert(cars@.skip(i as int) =~= pre.skip(i as int + 1));
                assert(effects0 + spec_handoff(cars0, left, left_start, right, right_start).1
                    =~= effects@ + spec_handoff(
                    cars@.skip(i as int),
                    left,
                    left_start,
                    right,
                    right_start,
                ).1);
            }
        } else if car.transfer_position > SCALE {
            effects.push(
                Effect::AddCarTo { lane: right, car: car.as_lane_car.offset_by(right_start) },
            );
            self_remove(cars, i);
            proof {
                assert(cars@.take(i as int) =~= pre.take(i as int));
                assert(cars@.skip(i as int) =~= pre.skip(i as int + 1));
                assert(effects0 + spec_handoff(cars0, left, left_start, right, right_start).1
                    =~= effects@ + spec_handoff(
                    cars@.skip(i as int),
                    left,
                    left_start,
                    right,
                    right_start,
                ).1);
            }
        } else {
            proof {
                assert(pre.take(i as int + 1) =~= pre.take(i as int) + seq![car]);
                assert(pre.take(i as int) + (seq![car] + spec_handoff(
                    pre.skip(i as int + 1),
                    left,
                    left_start,
                    right,
                    right_start,
                ).0) =~= pre.take(i as int + 1) + spec_handoff(
                    pre.skip(i as int + 1),
                    left,
                    left_start,
                    right,
                    right_start,
                ).0);
            }
            i = i + 1;
        }
    }
    proof {
        assert(cars@.skip(i as int) =~= Seq::<TransferringLaneCar>::empty());
        assert(cars@.take(i as int) =~= cars@);
        assert(effects0 + spec_handoff(cars0, left, left_start, right, right_start).1
            =~= effects@);
    }
}

/// Removes the element at `i`, keeping order.
fn self_remove(cars: &mut Vec<TransferringLaneCar>, i: usize)
    requires
        i < old(cars)@.len(),
    ensures
        final(cars)@ == old(cars)@.remove(i as int),
{
    cars.remove(i);
}

/// Broadcasts every remaining car's presence to the neighbours it leans
/// towards.
#[verifier::loop_isolation(false)]
fn presence_broadcast(
    cars: &Vec<TransferringLaneCar>,
    left: ActorId,
    left_start: i64,
    right: ActorId,
    right_start: i64,
    effects: &mut Vec<Effect>,
)
    requires
        forall|i: int|
            0 <= i < cars@.len() ==> -MAX_POSITION - MAX_STEP <= (#[trigger] cars@[i]).as_lane_car.as_obstacle.position
                <= MAX_POSITION + MAX_STEP,
        -MAX_POSITION <= left_start <= MAX_POSITION,
        -MAX_POSITION <= right_start <= MAX_POSITION,
    ensures
        final(effects)@ == old(effects)@ + spec_presence(
            cars@,
            left,
            left_start,
            right,
            right_start,
        ),
{
    let ghost effects0 = effects@;
    let n: usize = cars.len();
    proof {
        assert(cars@.skip(0) =~= cars@);
    }
    let mut i: usize = 0;
    while i < n
        invariant
            0 <= i <= n,
            effects0 + spec_presence(cars@, left, left_start, right, right_start) == effects@
                + spec_presence(cars@.skip(i as int), left, left_start, right, right_start),
        decreases n - i,
    {
        let car: TransferringLaneCar = cars[i];
        proof {
            assert(cars@.skip(i as int)[0] == car);
            assert(cars@.skip(i as int).drop_first() =~= cars@.skip(i as int + 1));
        }
        if car.transfer_position < 300 || car.transfer_velocity < 0 {
            effects.push(
                Effect::AddObstacleTo {
                    lane: left,
                    obstacle: car.as_lane_car.as_obstacle.offset_by(left_start),
                },
            );
        }
        if car.transfer_position > -300 || car.transfer_velocity > 0 {
            effects.push(
                Effect::AddObstacleTo {
                    lane: right,
                    obstacle: car.as_lane_car.as_obstacle.offset_by(right_start),
                },
            );
        }
        proof {
            assert(effects0 + spec_presence(cars@, left, left_start, right, right_start)
                =~= effects@ + spec_presence(
                cars@.skip(i as int + 1),
                left,
                left_start,
                right,
                right_start,
            ));
        }
        i = i + 1;
    }
    proof {
        assert(cars@.skip(n as int) =~= Seq::<TransferringLaneCar>::empty());
        assert(effects0 + spec_presence(cars@, left, left_start, right, right_start) =~= effects@);
    }
}

/// A transfer lane: a bidirectional sliver between two parallel lanes,
/// carrying the cars that are changing between them.
pub struct TransferLane {
    /// Identity under which the substrate delivers messages to this lane.
    pub id: ActorId,
    /// Arc-length of the sliver's path.
    pub length: i64,
    /// The left neighbour lane.
    pub left: ActorId,
    /// Arc-length offset at which a car leaving here enters the left lane.
    pub left_start: i64,
    /// The right neighbour lane.
    pub right: ActorId,
    /// Arc-length offset at which a car leaving here enters the right lane.
    pub right_start: i64,
    /// Obstacles received from the neighbours since the last tick.
    pub interaction_obstacles: Vec<Obstacle>,
    /// The transferring cars, sorted by position.
    pub cars: Vec<TransferringLaneCar>,
}

impl TransferLane {
    /// The transfer lane's internal invariant.
    pub open spec fn wf(self) -> bool {
        &&& 0 <= self.length <= MAX_LANE_LENGTH
        &&& -MAX_POSITION <= self.left_start <= MAX_POSITION
        &&& -MAX_POSITION <= self.right_start <= MAX_POSITION
        &&& transfer_cars_all_valid(self.cars@)
        &&& transfer_cars_sorted(self.cars@)
        &&& crate::lane::obstacles_all_valid(self.interaction_obstacles@)
    }

    /// A fresh, empty transfer lane between the two given neighbours.
    pub fn new(
        id: ActorId,
        length: i64,
        left: ActorId,
        left_start: i64,
        right: ActorId,
        right_start: i64,
    ) -> (r: TransferLane)
        requires
            0 <= length <= MAX_LANE_LENGTH,
            -MAX_POSITION <= left_start <= MAX_POSITION,
            -MAX_POSITION <= right_start <= MAX_POSITION,
        ensures
            r.wf(),
            r.id == id,
            r.length == length,
            r.left == left,
            r.left_start == left_start,
            r.right == right,
            r.right_start == right_start,
            r.interaction_obstacles@.len() == 0,
            r.cars@.len() == 0,
    {
        TransferLane {
            id,
            length,
            left,
            left_start,
            right,
            right_start,
            interaction_obstacles: Vec::new(),
            cars: Vec::new(),
        }
    }

    /// Accepts a car — which starts fully on the left lane, at rest
    /// laterally, drifting gently rightwards — or a transient obstacle.
    pub fn receive_add(&mut self, msg: Add) -> (fate: Fate)
        requires
            old(self).wf(),
            match msg {
                Add::Car(car) => car_valid(car),
                Add::InteractionObstacle(o) => obstacle_valid(o),
            },
        ensures
            fate == Fate::Live,
            final(self).wf(),
            final(self).id == old(self).id,
            final(self).length == old(self).length,
            final(self).left == old(self).left,
            final(self).left_start == old(self).left_start,
            final(self).right == old(self).right,
            final(self).right_start == old(self).right_start,
            match msg {
                Add::Car(car) => {
                    &&& final(self).cars@.to_multiset() == old(self).cars@.to_multiset().insert(
                        TransferringLaneCar {
                            as_lane_car: car,
                            transfer_position: (-SCALE) as i64,
                            transfer_velocity: 0,
                            transfer_acceleration: LATERAL_A_DEFAULT,
                        },
                    )
                    &&& final(self).interaction_obstacles@ == old(self).interaction_obstacles@
                },
                Add::InteractionObstacle(o) => {
                    &&& final(self).interaction_obstacles@ == old(
                        self,
                    ).interaction_obstacles@.push(o)
                    &&& final(self).cars@ == old(self).cars@
                },
            },
    {
        broadcast use vstd::seq_lib::group_to_multiset_ensures;

        match msg {
            Add::Car(car) => {
                let wrapped = TransferringLaneCar {
                    as_lane_car: car,
                    transfer_position: -SCALE,
                    transfer_velocity: 0,
                    transfer_acceleration: LATERAL_A_DEFAULT,
                };
                let ghost pre = self.cars@;
                self.cars.push(wrapped);
                assert(self.cars@.to_multiset() == pre.to_multiset().insert(wrapped));
                sort_transfer_cars(&mut self.cars);
                proof {
                    lemma_multiset_elements_hold(
                        pre.push(wrapped),
                        self.cars@,
                        |c: TransferringLaneCar| transfer_car_valid(c),
                    );
                }
            },
            Add::InteractionObstacle(o) => {
                self.interaction_obstacles.push(o);
            },
        }
        Fate::Live
    }

    /// Advances the transfer lane by one step: obstacles sort, both
    /// accelerations are recomputed for every car, kinematics integrate with
    /// the lateral speed cap, cars past either lateral edge leave to that
    /// side, every remaining car broadcasts its presence, and the obstacle
    /// list is cleared.
    #[verifier::rlimit(100)]
    pub fn receive_tick(&mut self, msg: Tick) -> (r: (Fate, Vec<Effect>))
        requires
            old(self).wf(),
            tick_valid(msg),
        ensures
            r.0 == Fate::Live,
            final(self).id == old(self).id,
            final(self).length == old(self).length,
            final(self).left == old(self).left,
            final(self).left_start == old(self).left_start,
            final(self).right == old(self).right,
            final(self).right_start == old(self).right_start,
            final(self).interaction_obstacles@.len() == 0,
            forall|i: int|
                0 <= i < final(self).cars@.len() ==> {
                    let car = #[trigger] final(self).cars@[i];
                    &&& 0 <= car.as_lane_car.as_obstacle.velocity
                        <= car.as_lane_car.as_obstacle.max_velocity
                    &&& -SCALE <= car.transfer_position <= SCALE
                    &&& -((car.as_lane_car.as_obstacle.velocity as int) / (LATERAL_SPEED_CAP_DIVISOR as int))
                        <= car.transfer_velocity <= (car.as_lane_car.as_obstacle.velocity as int) / (
                    LATERAL_SPEED_CAP_DIVISOR as int)
                },
            transfer_no_overtake(old(self).cars@, msg.dt) ==> transfer_cars_sorted(
                final(self).cars@,
            ),
            (transfer_no_overtake(old(self).cars@, msg.dt) && transfer_positions_within(
                old(self).cars@,
                msg.dt,
            )) ==> final(self).wf(),
            exists|obs_sorted: Seq<Obstacle>|
                {
                    &&& crate::sorting::obstacles_sorted(obs_sorted)
                    &&& obs_sorted.to_multiset() == old(self).interaction_obstacles@.to_multiset()
                    &&& ({
                        let moved = spec_integrate_transfer(
                            spec_transfer_pass(old(self).cars@, obs_sorted),
                            msg.dt,
                        );
                        let ho = spec_handoff(
                            moved,
                            old(self).left,
                            old(self).left_start,
                            old(self).right,
                            old(self).right_start,
                        );
                        final(self).cars@ == ho.0 && r.1@ == ho.1 + spec_presence(
                            ho.0,
                            old(self).left,
                            old(self).left_start,
                            old(self).right,
                            old(self).right_start,
                        )
                    })
                },
    {
        let mut effects: Vec<Effect> = Vec::new();
        let ghost cars0 = self.cars@;
        let ghost obs0 = self.interaction_obstacles@;
        sort_obstacles(&mut self.interaction_obstacles);
        let ghost sorted_obs = self.interaction_obstacles@;
        proof {
            lemma_multiset_elements_hold(obs0, sorted_obs, |o: Obstacle| obstacle_valid(o));
        }
        transfer_pass(&mut self.cars, &self.interaction_obstacles);
        let ghost passed = self.cars@;
        integrate_transfer_cars(&mut self.cars, msg.dt);
        let ghost moved = self.cars@;
        proof {
            assert forall|i: int| 0 <= i < moved.len() implies {
                &&& -MAX_POSITION - MAX_STEP <= (
                #[trigger] moved[i]).as_lane_car.as_obstacle.position <= MAX_POSITION + MAX_STEP
                &&& moved[i].as_lane_car.as_obstacle.position == transfer_moved_position(
                    passed[i],
                    msg.dt,
                )
            } by {
                crate::units::lemma_spec_scaled_bounds(
                    msg.dt,
                    passed[i].as_lane_car.as_obstacle.velocity,
                );
            }
        }
        handoff_cars(
            &mut self.cars,
            self.left,
            self.left_start,
            self.right,
            self.right_start,
            &mut effects,
        );
        proof {
            lemma_handoff_kept(moved, self.left, self.left_start, self.right, self.right_start);
            assert forall|i: int| 0 <= i < self.cars@.len() implies {
                let car = #[trigger] self.cars@[i];
                &&& 0 <= car.as_lane_car.as_obstacle.velocity
                    <= car.as_lane_car.as_obstacle.max_velocity
                &&& -SCALE <= car.transfer_position <= SCALE
                &&& -((car.as_lane_car.as_obstacle.velocity as int) / (LATERAL_SPEED_CAP_DIVISOR as int))
                    <= car.transfer_velocity <= (car.as_lane_car.as_obstacle.velocity as int) / (
                LATERAL_SPEED_CAP_DIVISOR as int)
                &&& -MAX_POSITION - MAX_STEP <= car.as_lane_car.as_obstacle.position
                    <= MAX_POSITION + MAX_STEP
                &&& -MAX_ACCELERATION <= car.as_lane_car.acceleration <= MAX_ACCELERATION
                &&& -MAX_TRANSFER_VELOCITY <= car.transfer_velocity <= MAX_TRANSFER_VELOCITY
                &&& -MAX_TRANSFER_VELOCITY <= car.transfer_acceleration <= MAX_TRANSFER_VELOCITY
            } by {
                let car = self.cars@[i];
                assert(moved.contains(car));
                let j = choose|j: int| 0 <= j < moved.len() && moved[j] == car;
                assert(moved[j] == spec_integrate_transfer_car(passed[j], msg.dt));
                assert(transfer_car_valid(passed[j]));
                crate::units::lemma_spec_scaled_bounds(msg.dt, passed[j].transfer_acceleration);
                vstd::arithmetic::div_mod::lemma_div_pos_is_pos(
                    spec_integrate_transfer_car(passed[j], msg.dt).as_lane_car.as_obstacle.velocity
                        as int,
                    LATERAL_SPEED_CAP_DIVISOR as int,
                );
            }
        }
        presence_broadcast(
            &self.cars,
            self.left,
            self.left_start,
            self.right,
            self.right_start,
            &mut effects,
        );
        self.interaction_obstacles.clear();
        proof {
            if transfer_no_overtake(cars0, msg.dt) {
                assert forall|a: int, b: int|
                    0 <= a < b < moved.len() implies (
                #[trigger] moved[a]).as_lane_car.as_obstacle.position <= (
                #[trigger] moved[b]).as_lane_car.as_obstacle.position by {
                    lemma_transfer_moved_order(cars0, msg.dt, a, b);
                    assert(transfer_moved_position(passed[a], msg.dt) == transfer_moved_position(
                        cars0[a],
                        msg.dt,
                    ));
                    assert(transfer_moved_position(passed[b], msg.dt) == transfer_moved_position(
                        cars0[b],
                        msg.dt,
                    ));
                }
                assert(transfer_cars_sorted(moved));
            }
            if transfer_no_overtake(cars0, msg.dt) && transfer_positions_within(cars0, msg.dt) {
                assert forall|i: int| 0 <= i < self.cars@.len() implies transfer_car_valid(
                    #[trigger] self.cars@[i],
                ) by {
                    let car = self.cars@[i];
                    assert(moved.contains(car));
                    let j = choose|j: int| 0 <= j < moved.len() && moved[j] == car;
                    assert(moved[j] == spec_integrate_transfer_car(passed[j], msg.dt));
                    assert(transfer_car_valid(passed[j]));
                    crate::units::lemma_spec_scaled_bounds(
                        msg.dt,
                        passed[j].transfer_acceleration,
                    );
                    assert(transfer_moved_position(passed[j], msg.dt) == transfer_moved_position(
                        cars0[j],
                        msg.dt,
                    ));
                }
            }
        }
        (Fate::Live, effects)
    }
}

} // verus!
