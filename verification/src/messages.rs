//! The messages a lane accepts, the geometry facts a `Connect` carries, and
//! the outgoing messages a handler asks the substrate to deliver.

use vstd::prelude::*;

use crate::ids::ActorId;
use crate::ids::BuildableRef;
use crate::obstacle::LaneCar;
use crate::obstacle::Obstacle;
use crate::units::MAX_DT;
use crate::units::MAX_LANE_LENGTH;
use crate::units::MAX_POSITION;

verus! {

/// Something to place on a lane: a car, or a transient obstacle from a
/// neighbour.
#[derive(Clone, Copy, PartialEq, Eq, Structural, Debug)]
pub enum Add {
    Car(LaneCar),
    InteractionObstacle(Obstacle),
}

/// One simulation step: a time step and the current tick number.
#[derive(Clone, Copy, PartialEq, Eq, Structural, Debug)]
pub struct Tick {
    pub dt: i64,
    pub current_tick: u64,
}

/// A tick payload the handlers accept.
pub open spec fn tick_valid(t: Tick) -> bool {
    0 <= t.dt <= MAX_DT
}

/// One crossing of two lanes' band outlines, mapped back from the outlines
/// to arc-lengths on the two centre paths.
#[derive(Clone, Copy, PartialEq, Eq, Structural, Debug)]
pub struct BandCrossing {
    pub self_distance: i64,
    pub partner_distance: i64,
}

/// What the geometry collaborator found out about the sender's path,
/// relative to the receiving lane.  Projections are reported only when the
/// projected point lies within the connection tolerance.
#[derive(Clone, PartialEq, Debug)]
pub struct ConnectionGeometry {
    /// The sender's start touches this lane's end.
    pub start_touches_end: bool,
    /// Arc-length on the sender at which this lane's end projects onto it.
    pub end_on_other: Option<i64>,
    /// The sender's end touches this lane's start.
    pub end_touches_start: bool,
    /// Arc-length on this lane at which the sender's end projects onto it.
    pub other_end_on_self: Option<i64>,
    /// The sender's length.
    pub other_length: i64,
    /// Crossings of the two lanes' width-bands.
    pub intersections: Vec<BandCrossing>,
}

/// Geometry facts the handlers accept.
pub open spec fn geometry_valid(g: ConnectionGeometry) -> bool {
    &&& match g.end_on_other {
        Some(s) => 0 <= s <= MAX_POSITION,
        None => true,
    }
    &&& match g.other_end_on_self {
        Some(s) => 0 <= s <= MAX_POSITION,
        None => true,
    }
    &&& 0 <= g.other_length <= MAX_LANE_LENGTH
    &&& forall|i: int|
        0 <= i < g.intersections@.len() ==> {
            &&& 0 <= #[trigger] g.intersections@[i].self_distance <= MAX_POSITION
            &&& 0 <= g.intersections@[i].partner_distance <= MAX_POSITION
        }
}

/// A lane introducing itself: its identity, what its path looks like from
/// the receiver, and whether the receiver should introduce itself back.
#[derive(Clone, PartialEq, Debug)]
pub struct Connect {
    pub other_id: ActorId,
    pub geometry: ConnectionGeometry,
    pub reply_needed: bool,
}

/// A lane asking to be forgotten.
#[derive(Clone, Copy, PartialEq, Eq, Structural, Debug)]
pub struct Disconnect {
    pub other_id: ActorId,
}

/// The request a freshly built lane receives once: broadcast `Connect` to
/// every lane, then report back to the planning layer.
#[derive(Clone, Copy, PartialEq, Eq, Structural, Debug)]
pub struct AdvertiseForConnectionAndReport(pub ActorId, pub BuildableRef);

/// The request to tear a lane down.
#[derive(Clone, Copy, PartialEq, Eq, Structural, Debug)]
pub struct Unbuild;

/// An outgoing message a handler asks the substrate to deliver.
#[derive(Clone, Copy, PartialEq, Eq, Structural, Debug)]
pub enum Effect {
    /// Send `Add::Car(car)` to `lane`.
    AddCarTo { lane: ActorId, car: LaneCar },
    /// Send `Add::InteractionObstacle(obstacle)` to `lane`.
    AddObstacleTo { lane: ActorId, obstacle: Obstacle },
    /// Broadcast `Connect{reply_needed: true}` from `from` to every lane.
    BroadcastConnect { from: ActorId },
    /// Send `Connect{reply_needed: false}` from `from` back to `to`.
    ConnectReply { to: ActorId, from: ActorId },
    /// Broadcast `Disconnect{other_id: from}` to every lane.
    BroadcastDisconnect { from: ActorId },
    /// Tell the planning layer that the lane stands.
    ReportBuilt { to: ActorId, lane: ActorId, as_buildable: BuildableRef },
}

} // verus!
