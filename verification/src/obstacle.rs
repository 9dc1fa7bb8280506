//! The kinematic value types: a leader on a lane, a lane-resident car, and a
//! car transferring between two parallel lanes.

use vstd::prelude::*;

use crate::ids::ActorId;
use crate::units::FAR_AHEAD_POSITION;
use crate::units::FAR_BEHIND_POSITION;
use crate::units::MAX_ACCELERATION;
use crate::units::MAX_POSITION;
use crate::units::MAX_VELOCITY;

verus! {

/// A lightweight kinematic descriptor of a leader: position as arc-length
/// along a lane, a velocity, and the velocity it will not exceed.
#[derive(Clone, Copy, PartialEq, Eq, Structural, Debug)]
pub struct Obstacle {
    pub position: i64,
    pub velocity: i64,
    pub max_velocity: i64,
}

/// The sentinel obstacle infinitely far ahead.
pub open spec fn spec_far_ahead() -> Obstacle {
    Obstacle {
        position: FAR_AHEAD_POSITION,
        velocity: FAR_AHEAD_POSITION,
        max_velocity: FAR_AHEAD_POSITION,
    }
}

/// The sentinel obstacle infinitely far behind: at rest, with a modest
/// velocity ceiling.
pub open spec fn spec_far_behind() -> Obstacle {
    Obstacle { position: FAR_BEHIND_POSITION, velocity: 0, max_velocity: 20_000 }
}

/// A copy of `o` shifted along the lane by `delta`, velocities untouched.
pub open spec fn spec_offset_obstacle(o: Obstacle, delta: int) -> Obstacle {
    Obstacle { position: (o.position + delta) as i64, ..o }
}

/// An obstacle a lane may store or send: finite position, and velocities in
/// the range the car-following law accepts.
pub open spec fn obstacle_valid(o: Obstacle) -> bool {
    &&& -MAX_POSITION <= o.position <= MAX_POSITION
    &&& 0 <= o.velocity <= MAX_VELOCITY
    &&& 0 <= o.max_velocity <= MAX_VELOCITY
}

impl Obstacle {
    pub fn far_ahead() -> (r: Obstacle)
        ensures
            r == spec_far_ahead(),
    {
        Obstacle {
            position: FAR_AHEAD_POSITION,
            velocity: FAR_AHEAD_POSITION,
            max_velocity: FAR_AHEAD_POSITION,
        }
    }

    pub fn far_behind() -> (r: Obstacle)
        ensures
            r == spec_far_behind(),
    {
        Obstacle { position: FAR_BEHIND_POSITION, velocity: 0, max_velocity: 20_000 }
    }

    pub fn offset_by(&self, delta: i64) -> (r: Obstacle)
        requires
            i64::MIN <= self.position + delta <= i64::MAX,
        ensures
            r == spec_offset_obstacle(*self, delta as int),
    {
        Obstacle { position: self.position + delta, velocity: self.velocity, max_velocity: self.max_velocity }
    }
}

/// A car resident on a lane: an obstacle plus the trip it serves and its
/// current signed acceleration.
#[derive(Clone, Copy, PartialEq, Eq, Structural, Debug)]
pub struct LaneCar {
    pub trip: ActorId,
    pub as_obstacle: Obstacle,
    pub acceleration: i64,
}

/// A copy of `car` shifted along the lane by `delta`.
pub open spec fn spec_offset_car(car: LaneCar, delta: int) -> LaneCar {
    LaneCar { as_obstacle: spec_offset_obstacle(car.as_obstacle, delta), ..car }
}

/// A car a lane may store: a valid obstacle with a bounded acceleration.
pub open spec fn car_valid(car: LaneCar) -> bool {
    &&& obstacle_valid(car.as_obstacle)
    &&& -MAX_ACCELERATION <= car.acceleration <= MAX_ACCELERATION
}

impl LaneCar {
    pub fn offset_by(&self, delta: i64) -> (r: LaneCar)
        requires
            i64::MIN <= self.as_obstacle.position + delta <= i64::MAX,
        ensures
            r == spec_offset_car(*self, delta as int),
    {
        LaneCar { trip: self.trip, as_obstacle: self.as_obstacle.offset_by(delta), acceleration: self.acceleration }
    }
}

/// A lane car together with its lateral sub-state while it changes lanes:
/// `transfer_position` runs from `-SCALE` (fully on the left lane) through
/// zero (centre) to `SCALE` (fully on the right lane).
#[derive(Clone, Copy, PartialEq, Eq, Structural, Debug)]
pub struct TransferringLaneCar {
    pub as_lane_car: LaneCar,
    pub transfer_position: i64,
    pub transfer_velocity: i64,
    pub transfer_acceleration: i64,
}

/// Largest magnitude of a lateral velocity or acceleration.
pub const MAX_TRANSFER_VELOCITY: i64 = 100_000_000;

/// A transferring car a transfer lane may store: laterally within the two
/// neighbour lanes, with bounded lateral rates.
pub open spec fn transfer_car_valid(car: TransferringLaneCar) -> bool {
    &&& car_valid(car.as_lane_car)
    &&& -crate::units::SCALE <= car.transfer_position <= crate::units::SCALE
    &&& -MAX_TRANSFER_VELOCITY <= car.transfer_velocity <= MAX_TRANSFER_VELOCITY
    &&& -MAX_TRANSFER_VELOCITY <= car.transfer_acceleration <= MAX_TRANSFER_VELOCITY
}

} // verus!
