//! The lane actor: a path's length, the cars on it, its relationships with
//! neighbour lanes, and the handlers for every message it accepts.

use vstd::prelude::*;

use crate::ids::ActorId;
use crate::ids::Fate;
use crate::interaction::Interaction;
use crate::interaction::InteractionKind;
use crate::interaction::OverlapKind;
use crate::interaction::interaction_valid;
use crate::messages::Add;
use crate::messages::AdvertiseForConnectionAndReport;
use crate::messages::BandCrossing;
use crate::messages::Connect;
use crate::messages::ConnectionGeometry;
use crate::messages::Disconnect;
use crate::messages::Effect;
use crate::messages::Tick;
use crate::messages::Unbuild;
use crate::messages::geometry_valid;
use crate::messages::tick_valid;
use crate::obstacle::LaneCar;
use crate::obstacle::Obstacle;
use crate::obstacle::car_valid;
use crate::obstacle::obstacle_valid;
use crate::sorting::cars_sorted;
use crate::sorting::obstacles_sorted;
use crate::sorting::sort_cars;
use crate::sorting::sort_obstacles;
use crate::idm::intelligent_acceleration;
use crate::idm::spec_idm;
use crate::obstacle::spec_far_ahead;
use crate::obstacle::spec_offset_car;
use crate::obstacle::spec_offset_obstacle;
use crate::units::MAX_DT;
use crate::units::MAX_LANE_LENGTH;
use crate::units::MAX_POSITION;
use crate::units::MAX_STEP;
use crate::units::spec_scaled;
use crate::units::scaled;

verus! {

/// Traffic-logic phase period: each lane recomputes accelerations and emits
/// obstacles once this many ticks.
pub const TRAFFIC_LOGIC_THROTTLING: u64 = 60;

/// Whether a lane whose identity carries `instance` runs its traffic logic
/// on tick `current_tick`.
pub open spec fn phase_matches(current_tick: u64, instance: u64) -> bool {
    current_tick % TRAFFIC_LOGIC_THROTTLING == instance % TRAFFIC_LOGIC_THROTTLING
}

/// Every car on the lane is a value the lane may store.
pub open spec fn cars_all_valid(s: Seq<LaneCar>) -> bool {
    forall|i: int| 0 <= i < s.len() ==> car_valid(#[trigger] s[i])
}

/// Every stored obstacle is a value the lane may store.
pub open spec fn obstacles_all_valid(s: Seq<Obstacle>) -> bool {
    forall|i: int| 0 <= i < s.len() ==> obstacle_valid(#[trigger] s[i])
}

/// Every interaction carries bounded, ordered windows.
pub open spec fn interactions_all_valid(s: Seq<Interaction>) -> bool {
    forall|i: int| 0 <= i < s.len() ==> interaction_valid(#[trigger] s[i])
}

/// A lane of road: an independent actor owning its cars and relationships.
pub struct Lane {
    /// Identity under which the substrate delivers messages to this lane.
    pub id: ActorId,
    /// Arc-length of the lane's path.
    pub length: i64,
    /// How much of the lane is built so far, for construction animation.
    pub in_construction: i64,
    /// Relationships with neighbour lanes, in insertion order; the first
    /// `Next` is the canonical successor.
    pub interactions: Vec<Interaction>,
    /// Obstacles received from neighbours since the last traffic phase.
    pub interaction_obstacles: Vec<Obstacle>,
    /// The cars resident on this lane, sorted by position.
    pub cars: Vec<LaneCar>,
}

impl Lane {
    /// The lane's internal invariant.
    pub open spec fn wf(self) -> bool {
        &&& 0 <= self.length <= MAX_LANE_LENGTH
        &&& 0 <= self.in_construction <= self.length
        &&& cars_all_valid(self.cars@)
        &&& cars_sorted(self.cars@)
        &&& obstacles_all_valid(self.interaction_obstacles@)
        &&& interactions_all_valid(self.interactions@)
    }

    /// A fresh, empty lane over a path of the given length.
    pub fn new(id: ActorId, length: i64) -> (r: Lane)
        requires
            0 <= length <= MAX_LANE_LENGTH,
        ensures
            r.wf(),
            r.id == id,
            r.length == length,
            r.in_construction == 0,
            r.interactions@.len() == 0,
            r.interaction_obstacles@.len() == 0,
            r.cars@.len() == 0,
    {
        Lane {
            id,
            length,
            in_construction: 0,
            interactions: Vec::new(),
            interaction_obstacles: Vec::new(),
            cars: Vec::new(),
        }
    }

    /// Accepts a car or a transient obstacle.  A car is inserted in position
    /// order; an obstacle is appended to the transient list.
    pub fn receive_add(&mut self, msg: Add) -> (fate: Fate)
        requires
            old(self).wf(),
            match msg {
                Add::Car(car) => car_valid(car),
                Add::InteractionObstacle(o) => obstacle_valid(o),
            },
        ensures
            fate == Fate::Live,
            final(self).wf(),
            final(self).id == old(self).id,
            final(self).length == old(self).length,
            final(self).in_construction == old(self).in_construction,
            final(self).interactions@ == old(self).interactions@,
            match msg {
                Add::Car(car) => {
                    &&& final(self).cars@.to_multiset() == old(self).cars@.to_multiset().insert(
                        car,
                    )
                    &&& final(self).interaction_obstacles@ == old(self).interaction_obstacles@
                },
                Add::InteractionObstacle(o) => {
                    &&& final(self).interaction_obstacles@ == old(
                        self,
                    ).interaction_obstacles@.push(o)
                    &&& final(self).cars@ == old(self).cars@
                },
            },
    {
        broadcast use vstd::seq_lib::group_to_multiset_ensures;

        match msg {
            Add::Car(car) => {
                let ghost pre = self.cars@;
                self.cars.push(car);
                assert(self.cars@.to_multiset() == pre.to_multiset().insert(car));
                sort_cars(&mut self.cars);
                proof {
                    lemma_multiset_elements_hold(
                        pre.push(car),
                        self.cars@,
                        |c: LaneCar| car_valid(c),
                    );
                }
            },
            Add::InteractionObstacle(o) => {
                self.interaction_obstacles.push(o);
            },
        }
        Fate::Live
    }

    /// Forgets every interaction whose partner is the disconnecting lane.
    pub fn receive_disconnect(&mut self, msg: Disconnect) -> (fate: Fate)
        requires
            old(self).wf(),
        ensures
            fate == Fate::Live,
            final(self).wf(),
            final(self).id == old(self).id,
            final(self).length == old(self).length,
            final(self).in_construction == old(self).in_construction,
            final(self).cars@ == old(self).cars@,
            final(self).interaction_obstacles@ == old(self).interaction_obstacles@,
            final(self).interactions@ == spec_retained(old(self).interactions@, msg.other_id),
            forall|i: int|
                0 <= i < final(self).interactions@.len()
                    ==> (#[trigger] final(self).interactions@[i]).partner_lane != msg.other_id,
    {
        let n: usize = self.interactions.len();
        let mut kept: Vec<Interaction> = Vec::new();
        let mut k: usize = 0;
        while k < n
            invariant
                0 <= k <= n,
                n == self.interactions@.len(),
                interactions_all_valid(self.interactions@),
                kept@ == spec_retained(self.interactions@.take(k as int), msg.other_id),
                forall|i: int|
                    0 <= i < kept@.len() ==> (#[trigger] kept@[i]).partner_lane != msg.other_id,
                forall|i: int|
                    0 <= i < kept@.len() ==> interaction_valid(#[trigger] kept@[i]),
            decreases n - k,
        {
            let inter: Interaction = self.interactions[k];
            proof {
                assert(self.interactions@.take(k as int + 1).drop_last() =~= self.interactions@
                    .take(k as int));
                assert(self.interactions@.take(k as int + 1).last() == inter);
            }
            if !(inter.partner_lane == msg.other_id) {
                kept.push(inter);
            }
            k = k + 1;
        }
        proof {
            assert(self.interactions@.take(n as int) =~= self.interactions@);
        }
        self.interactions = kept;
        Fate::Live
    }

    /// Introduces the lane to every other lane and reports it built.
    pub fn receive_advertise(&self, msg: AdvertiseForConnectionAndReport) -> (r: (
        Fate,
        Vec<Effect>,
    ))
        ensures
            r.0 == Fate::Live,
            r.1@ == seq![
                Effect::BroadcastConnect { from: self.id },
                Effect::ReportBuilt { to: msg.0, lane: self.id, as_buildable: msg.1 },
            ],
    {
        let mut effects: Vec<Effect> = Vec::new();
        effects.push(Effect::BroadcastConnect { from: self.id });
        effects.push(Effect::ReportBuilt { to: msg.0, lane: self.id, as_buildable: msg.1 });
        (Fate::Live, effects)
    }

    /// Advances the lane by one simulation step.  Construction grows; on
    /// the lane's own traffic phase the obstacle list is sorted, every car's
    /// acceleration is recomputed and the obstacle list cleared; kinematics
    /// integrate; cars past the end are handed to the successor; and each
    /// partner whose phase is due receives its obstacles.
    pub fn receive_tick(&mut self, msg: Tick) -> (r: (Fate, Vec<Effect>))
        requires
            old(self).wf(),
            tick_valid(msg),
        ensures
            r.0 == Fate::Live,
            final(self).id == old(self).id,
            final(self).length == old(self).length,
            final(self).interactions@ == old(self).interactions@,
            final(self).in_construction == spec_construction_after(
                old(self).in_construction,
                old(self).length,
                msg.dt,
            ),
            old(self).in_construction <= final(self).in_construction <= old(self).length,
            phase_matches(msg.current_tick, old(self).id.instance) ==> final(self).interaction_obstacles@.len() == 0,
            !phase_matches(msg.current_tick, old(self).id.instance) ==> final(self).interaction_obstacles@ == old(self).interaction_obstacles@,
            cars_all_valid(final(self).cars@),
            forall|i: int|
                0 <= i < final(self).cars@.len() ==> 0 <= (#[trigger] final(self).cars@[i]).as_obstacle.velocity <= final(self).cars@[i].as_obstacle.max_velocity,
            forall|i: int|
                0 <= i < final(self).cars@.len() ==> (#[trigger] final(self).cars@[i]).as_obstacle.position <= old(self).length,
            cars_no_overtake(old(self).cars@, msg.dt) ==> cars_sorted(final(self).cars@),
            cars_no_overtake(old(self).cars@, msg.dt) ==> final(self).wf(),
            !phase_matches(msg.current_tick, old(self).id.instance) ==> ({
                let moved = spec_integrate_cars(old(self).cars@, msg.dt);
                let drained = spec_drain(
                    moved,
                    old(self).length,
                    spec_first_next(old(self).interactions@),
                );
                final(self).cars@ == drained.0 && r.1@ == drained.1 + spec_emissions(
                    drained.0,
                    old(self).interactions@,
                    msg.current_tick,
                )
            }),
            phase_matches(msg.current_tick, old(self).id.instance) ==> (exists|
                obs_sorted: Seq<Obstacle>,
            |
                {
                    &&& obstacles_sorted(obs_sorted)
                    &&& obs_sorted.to_multiset() == old(self).interaction_obstacles@.to_multiset()
                    &&& ({
                        let moved = spec_integrate_cars(
                            spec_accel_cars(old(self).cars@, obs_sorted),
                            msg.dt,
                        );
                        let drained = spec_drain(
                            moved,
                            old(self).length,
                            spec_first_next(old(self).interactions@),
                        );
                        final(self).cars@ == drained.0 && r.1@ == drained.1 + spec_emissions(
                            drained.0,
                            old(self).interactions@,
                            msg.current_tick,
                        )
                    })
                }),
    {
        let mut effects: Vec<Effect> = Vec::new();
        let increment: i64 = scaled(msg.dt, IN_CONSTRUCTION_RATE);
        let grown: i64 = self.in_construction + increment;
        self.in_construction = if grown > self.length {
            self.length
        } else {
            grown
        };
        let run_traffic: bool = msg.current_tick % TRAFFIC_LOGIC_THROTTLING == self.id.instance
            % TRAFFIC_LOGIC_THROTTLING;
        let ghost cars0 = self.cars@;
        let ghost mut sorted_obs: Seq<Obstacle> = Seq::empty();
        if run_traffic {
            let ghost obs0 = self.interaction_obstacles@;
            sort_obstacles(&mut self.interaction_obstacles);
            proof {
                sorted_obs = self.interaction_obstacles@;
                lemma_multiset_elements_hold(
                    obs0,
                    sorted_obs,
                    |o: Obstacle| obstacle_valid(o),
                );
            }
            accel_pass(&mut self.cars, &self.interaction_obstacles);
            self.interaction_obstacles.clear();
            proof {
                assert(self.cars@ =~= spec_accel_cars(cars0, sorted_obs));
            }
        }
        let ghost base = self.cars@;
        integrate_cars(&mut self.cars, msg.dt);
        let ghost moved = self.cars@;
        proof {
            assert forall|i: int| 0 <= i < moved.len() implies {
                &&& -MAX_POSITION - MAX_STEP <= (#[trigger] moved[i]).as_obstacle.position
                    <= MAX_POSITION + MAX_STEP
                &&& moved[i].as_obstacle.position >= base[i].as_obstacle.position
                &&& 0 <= moved[i].as_obstacle.velocity <= moved[i].as_obstacle.max_velocity
                &&& moved[i].as_obstacle.max_velocity == base[i].as_obstacle.max_velocity
                &&& moved[i].acceleration == base[i].acceleration
                &&& moved[i].as_obstacle.position == moved_position(base[i], msg.dt)
            } by {
                crate::units::lemma_spec_scaled_bounds(msg.dt, base[i].as_obstacle.velocity);
                crate::units::lemma_spec_scaled_bounds(msg.dt, base[i].acceleration);
            }
        }
        let nxt: Option<(ActorId, i64)> = first_next_interaction(&self.interactions);
        proof {
            lemma_first_next_valid(self.interactions@);
        }
        drain_cars(&mut self.cars, self.length, nxt, &mut effects);
        proof {
            assert forall|i: int|
                0 <= i < self.cars@.len() implies -MAX_POSITION - MAX_STEP <= (
            #[trigger] self.cars@[i]).as_obstacle.position <= MAX_POSITION + MAX_STEP by {
                assert(self.cars@[i] == moved[i]);
            }
            assert(cars_positions_drifted(self.cars@));
        }
        emit_all(&self.cars, &self.interactions, msg.current_tick, &mut effects);
        proof {
            let drained = self.cars@;
            assert forall|i: int| 0 <= i < drained.len() implies car_valid(
                #[trigger] drained[i],
            ) && 0 <= drained[i].as_obstacle.velocity <= drained[i].as_obstacle.max_velocity by {
                assert(drained[i] == moved[i]);
                assert(car_valid(base[i]));
            }
            if cars_no_overtake(cars0, msg.dt) {
                assert forall|a: int, b: int|
                    0 <= a < b < drained.len() implies (#[trigger] drained[a]).as_obstacle.position
                        <= (#[trigger] drained[b]).as_obstacle.position by {
                    assert(drained[a] == moved[a]);
                    assert(drained[b] == moved[b]);
                    lemma_moved_order(cars0, msg.dt, a, b);
                    assert(moved_position(base[a], msg.dt) == moved_position(cars0[a], msg.dt));
                    assert(moved_position(base[b], msg.dt) == moved_position(cars0[b], msg.dt));
                }
            }
            if run_traffic {
                assert(obstacles_sorted(sorted_obs));
            }
        }
        (Fate::Live, effects)
    }

    /// Registers what the sender's path means for this lane: a successor at
    /// the head, a predecessor at the tail, an overlap where the two bands
    /// cross — and introduces this lane back when asked to.
    #[verifier::rlimit(60)]
    pub fn receive_connect(&mut self, msg: &Connect) -> (r: (Fate, Vec<Effect>))
        requires
            old(self).wf(),
            geometry_valid(msg.geometry),
        ensures
            r.0 == Fate::Live,
            final(self).wf(),
            final(self).id == old(self).id,
            final(self).length == old(self).length,
            final(self).in_construction == old(self).in_construction,
            final(self).cars@ == old(self).cars@,
            final(self).interaction_obstacles@ == old(self).interaction_obstacles@,
            final(self).interactions@ == old(self).interactions@ + spec_connect_added(
                old(self).id,
                msg.other_id,
                msg.geometry,
            ),
            r.1@ == if msg.reply_needed && msg.other_id != old(self).id {
                seq![Effect::ConnectReply { to: msg.other_id, from: old(self).id }]
            } else {
                Seq::<Effect>::empty()
            },
    {
        let mut effects: Vec<Effect> = Vec::new();
        if msg.other_id == self.id {
            proof {
                assert(self.interactions@ + spec_connect_added(
                    self.id,
                    msg.other_id,
                    msg.geometry,
                ) =~= self.interactions@);
            }
            return (Fate::Live, effects);
        }
        let ghost pre = self.interactions@;
        if msg.geometry.start_touches_end {
            self.interactions.push(
                Interaction {
                    partner_lane: msg.other_id,
                    kind: InteractionKind::Next { partner_start: 0 },
                },
            );
        } else if let Some(s) = msg.geometry.end_on_other {
            self.interactions.push(
                Interaction {
                    partner_lane: msg.other_id,
                    kind: InteractionKind::Next { partner_start: s },
                },
            );
        }
        if msg.geometry.end_touches_start {
            self.interactions.push(
                Interaction {
                    partner_lane: msg.other_id,
                    kind: InteractionKind::Previous {
                        start: 0,
                        partner_length: msg.geometry.other_length,
                    },
                },
            );
        } else if let Some(s) = msg.geometry.other_end_on_self {
            self.interactions.push(
                Interaction {
                    partner_lane: msg.other_id,
                    kind: InteractionKind::Previous {
                        start: s,
                        partner_length: msg.geometry.other_length,
                    },
                },
            );
        }
        let n: usize = msg.geometry.intersections.len();
        if n >= 2 {
            let ghost s = msg.geometry.intersections@;
            let mut entry: usize = 0;
            let mut exit: usize = 0;
            let mut k: usize = 1;
            while k < n
                invariant
                    1 <= k <= n,
                    n == s.len(),
                    s == msg.geometry.intersections@,
                    0 <= entry < k,
                    0 <= exit < k,
                    entry == entry_crossing(s.take(k as int)),
                    exit == exit_crossing(s.take(k as int)),
                decreases n - k,
            {
                proof {
                    assert(s.take(k as int + 1).drop_last() =~= s.take(k as int));
                    assert(s.take(k as int + 1).last() == s[k as int]);
                }
                if msg.geometry.intersections[k].self_distance
                    < msg.geometry.intersections[entry].self_distance {
                    entry = k;
                }
                if msg.geometry.intersections[k].self_distance
                    >= msg.geometry.intersections[exit].self_distance {
                    exit = k;
                }
                k = k + 1;
            }
            proof {
                assert(s.take(n as int) =~= s);
                lemma_entry_crossing(s);
                lemma_exit_crossing(s);
            }
            let e: BandCrossing = msg.geometry.intersections[entry];
            let x: BandCrossing = msg.geometry.intersections[exit];
            if e.partner_distance < x.partner_distance {
                self.interactions.push(
                    Interaction {
                        partner_lane: msg.other_id,
                        kind: InteractionKind::Overlap {
                            start: e.self_distance,
                            end: x.self_distance,
                            partner_start: e.partner_distance,
                            partner_end: x.partner_distance,
                            kind: OverlapKind::Parallel,
                        },
                    },
                );
            } else {
                self.interactions.push(
                    Interaction {
                        partner_lane: msg.other_id,
                        kind: InteractionKind::Overlap {
                            start: e.self_distance,
                            end: x.self_distance,
                            partner_start: x.partner_distance,
                            partner_end: e.partner_distance,
                            kind: OverlapKind::Conflicting,
                        },
                    },
                );
            }
        }
        proof {
            assert(self.interactions@ =~= pre + spec_connect_added(
                self.id,
                msg.other_id,
                msg.geometry,
            ));
        }
        if msg.reply_needed {
            effects.push(Effect::ConnectReply { to: msg.other_id, from: self.id });
        }
        (Fate::Live, effects)
    }

    /// Asks every peer to forget this lane, then ceases to exist.
    pub fn receive_unbuild(&self, _msg: Unbuild) -> (r: (Fate, Vec<Effect>))
        ensures
            r.0 == Fate::Die,
            r.1@ == seq![Effect::BroadcastDisconnect { from: self.id }],
    {
        let mut effects: Vec<Effect> = Vec::new();
        effects.push(Effect::BroadcastDisconnect { from: self.id });
        (Fate::Die, effects)
    }
}

/// How fast the construction animation proceeds, in units of length per
/// second.
pub const IN_CONSTRUCTION_RATE: i64 = 400_000;

/// Construction progress after one tick: grown by the rate, capped at the
/// lane's length.
pub open spec fn spec_construction_after(in_construction: i64, length: i64, dt: i64) -> int {
    let grown = in_construction + spec_scaled(dt, IN_CONSTRUCTION_RATE);
    if grown > length {
        length as int
    } else {
        grown
    }
}

/// First obstacle index at or after `j` whose position is at least `p`.
pub open spec fn cursor_next(obs: Seq<Obstacle>, j: int, p: i64) -> int
    decreases obs.len() - j,
{
    if j < obs.len() && obs[j].position < p {
        cursor_next(obs, j + 1, p)
    } else {
        j
    }
}

/// The obstacle cursor after the walk has handled cars `0..=c`: a single
/// forward cursor, advanced for each car in turn to the first obstacle not
/// behind it.
pub open spec fn cursor_used(cars: Seq<LaneCar>, obs: Seq<Obstacle>, c: int) -> int
    decreases c,
{
    let prev = if c <= 0 {
        0
    } else {
        cursor_used(cars, obs, c - 1)
    };
    cursor_next(obs, prev, cars[c].as_obstacle.position)
}

/// The acceleration the traffic phase writes to car `c`: the lesser of
/// following the next car on the lane (or free flow) and following the
/// obstacle under the cursor, if one remains.
pub open spec fn spec_lane_accel(cars: Seq<LaneCar>, obs: Seq<Obstacle>, c: int) -> int {
    let own = cars[c].as_obstacle;
    let next = if c + 1 < cars.len() {
        cars[c + 1].as_obstacle
    } else {
        spec_far_ahead()
    };
    let a1 = spec_idm(own, next);
    let j = cursor_used(cars, obs, c);
    if j < obs.len() {
        vstd::math::min(a1, spec_idm(own, obs[j]))
    } else {
        a1
    }
}

/// The whole column after the traffic phase has written accelerations.
pub open spec fn spec_accel_cars(cars: Seq<LaneCar>, obs: Seq<Obstacle>) -> Seq<LaneCar> {
    Seq::new(
        cars.len(),
        |i: int|
            LaneCar {
                trip: cars[i].trip,
                as_obstacle: cars[i].as_obstacle,
                acceleration: spec_lane_accel(cars, obs, i) as i64,
            },
    )
}

/// A found successor carries a bounded entry arc-length.
pub proof fn lemma_first_next_valid(s: Seq<Interaction>)
    requires
        interactions_all_valid(s),
    ensures
        match spec_first_next(s) {
            Some((partner, partner_start)) => 0 <= partner_start <= MAX_POSITION,
            None => true,
        },
    decreases s.len(),
{
    if s.len() > 0 {
        match s[0].kind {
            InteractionKind::Next { .. } => {
                assert(interaction_valid(s[0]));
            },
            _ => {
                assert forall|i: int|
                    0 <= i < s.drop_first().len() implies interaction_valid(
                    #[trigger] s.drop_first()[i],
                ) by {
                    assert(s.drop_first()[i] == s[i + 1]);
                }
                lemma_first_next_valid(s.drop_first());
            },
        }
    }
}

/// Under the no-overtake hypothesis, this step's new positions are ordered
/// across any pair of cars, not only adjacent ones.
pub proof fn lemma_moved_order(cars: Seq<LaneCar>, dt: i64, a: int, b: int)
    requires
        cars_no_overtake(cars, dt),
        0 <= a < b < cars.len(),
    ensures
        moved_position(cars[a], dt) <= moved_position(cars[b], dt),
    decreases b - a,
{
    if a + 1 < b {
        lemma_moved_order(cars, dt, a + 1, b);
    }
}

/// One integration step of a single car: position moves with the old
/// velocity, the velocity follows the acceleration and is clamped to
/// `[0, max_velocity]`.
pub open spec fn spec_integrate_car(car: LaneCar, dt: i64) -> LaneCar {
    let o = car.as_obstacle;
    let p2 = o.position + spec_scaled(dt, o.velocity);
    let vsum = o.velocity + spec_scaled(dt, car.acceleration);
    let v2: int = if vsum < 0 {
        0
    } else if vsum > o.max_velocity {
        o.max_velocity as int
    } else {
        vsum
    };
    LaneCar {
        trip: car.trip,
        as_obstacle: Obstacle { position: p2 as i64, velocity: v2 as i64, max_velocity: o.max_velocity },
        acceleration: car.acceleration,
    }
}

/// One integration step of a whole column of cars.
pub open spec fn spec_integrate_cars(cars: Seq<LaneCar>, dt: i64) -> Seq<LaneCar> {
    Seq::new(cars.len(), |i: int| spec_integrate_car(cars[i], dt))
}

/// Where car `i` will be after this step.
pub open spec fn moved_position(car: LaneCar, dt: i64) -> int {
    car.as_obstacle.position + spec_scaled(dt, car.as_obstacle.velocity)
}

/// No car would pass the car ahead of it within this step: under this
/// hypothesis one tick keeps the column sorted.
pub open spec fn cars_no_overtake(cars: Seq<LaneCar>, dt: i64) -> bool {
    forall|i: int|
        0 <= i && i + 1 < cars.len() ==> moved_position(#[trigger] cars[i], dt) <= moved_position(
            cars[i + 1],
            dt,
        )
}

/// Index of the last car past the lane's end, or `-1`: the drain always
/// looks from the rear.
pub open spec fn last_over_end(cars: Seq<LaneCar>, length: i64) -> int
    decreases cars.len(),
{
    if cars.len() == 0 {
        -1
    } else if cars.last().as_obstacle.position > length {
        cars.len() - 1
    } else {
        last_over_end(cars.drop_last(), length)
    }
}

/// When a rearmost car past the end exists, it is a real index and it is
/// past the end.
pub proof fn lemma_over_end_found(cars: Seq<LaneCar>, length: i64)
    requires
        last_over_end(cars, length) >= 0,
    ensures
        last_over_end(cars, length) < cars.len(),
        cars[last_over_end(cars, length)].as_obstacle.position > length,
    decreases cars.len(),
{
    if cars.len() > 0 && !(cars.last().as_obstacle.position > length) {
        lemma_over_end_found(cars.drop_last(), length);
        assert(cars.drop_last()[last_over_end(cars.drop_last(), length)] == cars[last_over_end(
            cars,
            length,
        )]);
    }
}

/// When no car is past the end, every car is within the lane.
pub proof fn lemma_no_over_end(cars: Seq<LaneCar>, length: i64)
    requires
        last_over_end(cars, length) == -1,
    ensures
        forall|i: int| 0 <= i < cars.len() ==> (#[trigger] cars[i]).as_obstacle.position <= length,
    decreases cars.len(),
{
    if cars.len() > 0 {
        lemma_no_over_end(cars.drop_last(), length);
        assert forall|i: int|
            0 <= i < cars.len() implies (#[trigger] cars[i]).as_obstacle.position <= length by {
            if i < cars.len() - 1 {
                assert(cars.drop_last()[i] == cars[i]);
            }
        }
    }
}

/// The first `Next` interaction: the canonical successor lane and where
/// cars enter it.
pub open spec fn spec_first_next(s: Seq<Interaction>) -> Option<(ActorId, i64)>
    decreases s.len(),
{
    if s.len() == 0 {
        None
    } else {
        match s[0].kind {
            InteractionKind::Next { partner_start } => Some((s[0].partner_lane, partner_start)),
            _ => spec_first_next(s.drop_first()),
        }
    }
}

/// What the drain pass leaves and sends: as long as some car stands past the
/// lane's end, the rearmost such car is handed to the successor (when there
/// is one) shifted into the successor's frame, and the last car is popped.
pub open spec fn spec_drain(cars: Seq<LaneCar>, length: i64, nxt: Option<(ActorId, i64)>) -> (
    Seq<LaneCar>,
    Seq<Effect>,
)
    decreases cars.len(),
{
    if cars.len() == 0 {
        (cars, Seq::empty())
    } else {
        let over = last_over_end(cars, length);
        if over < 0 {
            (cars, Seq::empty())
        } else {
            let sent: Seq<Effect> = match nxt {
                Some((partner, partner_start)) => seq![
                    Effect::AddCarTo {
                        lane: partner,
                        car: spec_offset_car(cars[over], partner_start - length),
                    },
                ],
                None => Seq::empty(),
            };
            let rest = spec_drain(cars.drop_last(), length, nxt);
            (rest.0, sent + rest.1)
        }
    }
}

/// Writes each car's acceleration for this traffic phase.
fn accel_pass(cars: &mut Vec<LaneCar>, obs: &Vec<Obstacle>)
    requires
        cars_all_valid(old(cars)@),
        obstacles_all_valid(obs@),
    ensures
        final(cars)@.len() == old(cars)@.len(),
        forall|i: int|
            0 <= i < old(cars)@.len() ==> (#[trigger] final(cars)@[i]).as_obstacle == old(
                cars,
            )@[i].as_obstacle && final(cars)@[i].trip == old(cars)@[i].trip,
        forall|i: int|
            0 <= i < old(cars)@.len() ==> (#[trigger] final(cars)@[i]).acceleration
                == spec_lane_accel(old(cars)@, obs@, i),
        cars_all_valid(final(cars)@),
{
    let ghost cars0 = cars@;
    let n: usize = cars.len();
    let mut c: usize = 0;
    let mut j: usize = 0;
    while c < n
        invariant
            0 <= c <= n,
            n == cars@.len(),
            cars0.len() == n,
            cars_all_valid(cars0),
            obstacles_all_valid(obs@),
            0 <= j <= obs@.len(),
            j as int == (if c == 0 {
                0int
            } else {
                cursor_used(cars0, obs@, c as int - 1)
            }),
            forall|k: int| c <= k < n ==> #[trigger] cars@[k] == cars0[k],
            forall|k: int|
                0 <= k < c ==> (#[trigger] cars@[k]).as_obstacle == cars0[k].as_obstacle
                    && cars@[k].trip == cars0[k].trip,
            forall|k: int|
                0 <= k < c ==> (#[trigger] cars@[k]).acceleration == spec_lane_accel(
                    cars0,
                    obs@,
                    k,
                ),
            forall|k: int| 0 <= k < c ==> car_valid(#[trigger] cars@[k]),
        decreases n - c,
    {
        let car: LaneCar = cars[c];
        let ghost j0 = j as int;
        while j < obs.len() && obs[j].position < car.as_obstacle.position
            invariant
                0 <= j0 <= j <= obs@.len(),
                cursor_next(obs@, j0, car.as_obstacle.position) == cursor_next(
                    obs@,
                    j as int,
                    car.as_obstacle.position,
                ),
            decreases obs@.len() - j,
        {
            j = j + 1;
        }
        assert(j as int == cursor_used(cars0, obs@, c as int));
        let next_obstacle: Obstacle = if c + 1 < n {
            cars[c + 1].as_obstacle
        } else {
            Obstacle::far_ahead()
        };
        let a1: i64 = intelligent_acceleration(&car.as_obstacle, &next_obstacle);
        let acc: i64 = if j < obs.len() {
            let a2: i64 = intelligent_acceleration(&car.as_obstacle, &obs[j]);
            if a1 <= a2 {
                a1
            } else {
                a2
            }
        } else {
            a1
        };
        cars[c] = LaneCar { trip: car.trip, as_obstacle: car.as_obstacle, acceleration: acc };
        c = c + 1;
    }
}

/// Integrates every car's kinematics by one step.
fn integrate_cars(cars: &mut Vec<LaneCar>, dt: i64)
    requires
        cars_all_valid(old(cars)@),
        0 <= dt <= MAX_DT,
    ensures
        final(cars)@.len() == old(cars)@.len(),
        forall|i: int|
            0 <= i < old(cars)@.len() ==> #[trigger] final(cars)@[i] == spec_integrate_car(
                old(cars)@[i],
                dt,
            ),
        final(cars)@ == spec_integrate_cars(old(cars)@, dt),
{
    let ghost cars0 = cars@;
    let n: usize = cars.len();
    let mut i: usize = 0;
    while i < n
        invariant
            0 <= i <= n,
            n == cars@.len(),
            cars0.len() == n,
            cars_all_valid(cars0),
            0 <= dt <= MAX_DT,
            forall|k: int| i <= k < n ==> #[trigger] cars@[k] == cars0[k],
            forall|k: int|
                0 <= k < i ==> #[trigger] cars@[k] == spec_integrate_car(cars0[k], dt),
        decreases n - i,
    {
        let car: LaneCar = cars[i];
        let dp: i64 = scaled(dt, car.as_obstacle.velocity);
        let p2: i64 = car.as_obstacle.position + dp;
        let dv: i64 = scaled(dt, car.acceleration);
        let vsum: i64 = car.as_obstacle.velocity + dv;
        let v2: i64 = if vsum < 0 {
            0
        } else if vsum > car.as_obstacle.max_velocity {
            car.as_obstacle.max_velocity
        } else {
            vsum
        };
        cars[i] = LaneCar {
            trip: car.trip,
            as_obstacle: Obstacle {
                position: p2,
                velocity: v2,
                max_velocity: car.as_obstacle.max_velocity,
            },
            acceleration: car.acceleration,
        };
        i = i + 1;
    }
    proof {
        assert(cars@ =~= spec_integrate_cars(cars0, dt));
    }
}

/// Finds the rearmost car past the lane's end.
fn find_over_end(cars: &Vec<LaneCar>, length: i64) -> (r: Option<usize>)
    ensures
        match r {
            Some(u) => u as int == last_over_end(cars@, length),
            None => last_over_end(cars@, length) == -1,
        },
{
    let n: usize = cars.len();
    proof {
        assert(cars@.take(n as int) =~= cars@);
    }
    let mut t: usize = n;
    while t > 0
        invariant
            0 <= t <= n,
            n == cars@.len(),
            last_over_end(cars@, length) == last_over_end(cars@.take(t as int), length),
        decreases t,
    {
        proof {
            assert(cars@.take(t as int).drop_last() =~= cars@.take(t as int - 1));
            assert(cars@.take(t as int).last() == cars@[t as int - 1]);
        }
        if cars[t - 1].as_obstacle.position > length {
            return Some(t - 1);
        }
        t = t - 1;
    }
    None
}

/// Pops cars past the lane's end off the rear, handing each found car to
/// the canonical successor.
#[verifier::loop_isolation(false)]
fn drain_cars(
    cars: &mut Vec<LaneCar>,
    length: i64,
    nxt: Option<(ActorId, i64)>,
    effects: &mut Vec<Effect>,
)
    requires
        forall|i: int|
            0 <= i < old(cars)@.len() ==> -MAX_POSITION - MAX_STEP <= (#[trigger] old(
                cars,
            )@[i]).as_obstacle.position <= MAX_POSITION + MAX_STEP,
        match nxt {
            Some((partner, partner_start)) => 0 <= partner_start <= MAX_POSITION,
            None => true,
        },
        0 <= length <= MAX_LANE_LENGTH,
    ensures
        final(cars)@ == spec_drain(old(cars)@, length, nxt).0,
        final(effects)@ == old(effects)@ + spec_drain(old(cars)@, length, nxt).1,
        final(cars)@ == old(cars)@.take(final(cars)@.len() as int),
        final(cars)@.len() <= old(cars)@.len(),
        forall|i: int|
            0 <= i < final(cars)@.len()
                ==> (#[trigger] final(cars)@[i]).as_obstacle.position <= length,
{
    let ghost cars0 = cars@;
    let ghost effects0 = effects@;
    proof {
        assert(cars0.take(cars0.len() as int) =~= cars0);
    }
    loop
        invariant
            cars@.len() <= cars0.len(),
            cars@ == cars0.take(cars@.len() as int),
            spec_drain(cars0, length, nxt).0 == spec_drain(cars@, length, nxt).0,
            effects0 + spec_drain(cars0, length, nxt).1 == effects@ + spec_drain(
                cars@,
                length,
                nxt,
            ).1,
            forall|i: int|
                0 <= i < cars@.len() ==> -MAX_POSITION - MAX_STEP <= (#[trigger] cars@[i]).as_obstacle.position
                    <= MAX_POSITION + MAX_STEP,
            match nxt {
                Some((partner, partner_start)) => 0 <= partner_start <= MAX_POSITION,
                None => true,
            },
            0 <= length <= MAX_LANE_LENGTH,
        decreases cars@.len(),
    {
        let found = find_over_end(cars, length);
        match found {
            None => {
                proof {
                    lemma_no_over_end(cars@, length);
                    assert(spec_drain(cars@, length, nxt).0 =~= cars@);
                    assert(spec_drain(cars@, length, nxt).1 =~= Seq::<Effect>::empty());
                    assert(effects@ + spec_drain(cars@, length, nxt).1 =~= effects@);
                }
                return ;
            },
            Some(u) => {
                let ghost pre = cars@;
                proof {
                    lemma_over_end_found(pre, length);
                }
                match nxt {
                    Some((partner, partner_start)) => {
                        let car: LaneCar = cars[u];
                        let sent: LaneCar = car.offset_by(partner_start - length);
                        effects.push(Effect::AddCarTo { lane: partner, car: sent });
                    },
                    None => {},
                }
                cars.pop();
                proof {
                    assert(cars@ =~= pre.drop_last());
                    assert forall|i: int| 0 <= i < cars@.len() implies cars@[i] == cars0[i] by {
                        assert(cars@[i] == pre[i]);
                        assert(pre[i] == cars0.take(pre.len() as int)[i]);
                    }
                    assert(cars@ =~= cars0.take(cars@.len() as int));
                    assert(spec_drain(pre, length, nxt).0 == spec_drain(cars@, length, nxt).0);
                    assert(effects0 + spec_drain(cars0, length, nxt).1 =~= effects@ + spec_drain(
                        cars@,
                        length,
                        nxt,
                    ).1);
                }
            },
        }
    }
}

/// The cars taken once a parallel emission has started: every car from `i`
/// on, up to the first one at or past the window's end, each sent as an
/// obstacle shifted into the partner's frame.
pub open spec fn spec_parallel_take(
    cars: Seq<LaneCar>,
    i: int,
    end: i64,
    delta: int,
    partner: ActorId,
) -> Seq<Effect>
    decreases cars.len() - i,
{
    if 0 <= i < cars.len() && cars[i].as_obstacle.position < end {
        seq![
            Effect::AddObstacleTo {
                lane: partner,
                obstacle: spec_offset_obstacle(cars[i].as_obstacle, delta),
            },
        ] + spec_parallel_take(cars, i + 1, end, delta, partner)
    } else {
        Seq::empty()
    }
}

/// A parallel overlap's emissions: skip the cars before the window's start,
/// then take until its end.
pub open spec fn spec_parallel_emit(
    cars: Seq<LaneCar>,
    i: int,
    start: i64,
    end: i64,
    delta: int,
    partner: ActorId,
) -> Seq<Effect>
    decreases cars.len() - i,
{
    if 0 <= i < cars.len() && cars[i].as_obstacle.position < start {
        spec_parallel_emit(cars, i + 1, start, end, delta, partner)
    } else {
        spec_parallel_take(cars, i, end, delta, partner)
    }
}

/// Whether some car lies strictly inside the window.
pub open spec fn spec_blocked(cars: Seq<LaneCar>, start: i64, end: i64) -> bool {
    exists|k: int|
        0 <= k < cars.len() && start < (#[trigger] cars[k]).as_obstacle.position < end
}

/// Index of the first car strictly past `start`, from `i` on; the length
/// when there is none.
pub open spec fn first_beyond(cars: Seq<LaneCar>, i: int, start: i64) -> int
    decreases cars.len() - i,
{
    if 0 <= i < cars.len() && !(cars[i].as_obstacle.position > start) {
        first_beyond(cars, i + 1, start)
    } else {
        i
    }
}

/// What one interaction makes the lane send this tick.  Nothing, unless the
/// partner's traffic phase is due; then a parallel overlap forwards the cars
/// inside its window, a conflicting overlap sends one stationary blocker
/// when a car is strictly inside, and a predecessor link forwards the first
/// car past its start.
pub open spec fn spec_emit_one(cars: Seq<LaneCar>, inter: Interaction, current_tick: u64) -> Seq<
    Effect,
> {
    if !phase_matches(current_tick, inter.partner_lane.instance) {
        Seq::empty()
    } else {
        match inter.kind {
            InteractionKind::Overlap { start, end, partner_start, partner_end, kind } => {
                match kind {
                    OverlapKind::Parallel => spec_parallel_emit(
                        cars,
                        0,
                        start,
                        end,
                        partner_start - start,
                        inter.partner_lane,
                    ),
                    OverlapKind::Conflicting => {
                        if spec_blocked(cars, start, end) {
                            seq![
                                Effect::AddObstacleTo {
                                    lane: inter.partner_lane,
                                    obstacle: Obstacle {
                                        position: partner_start,
                                        velocity: 0,
                                        max_velocity: 0,
                                    },
                                },
                            ]
                        } else {
                            Seq::empty()
                        }
                    },
                }
            },
            InteractionKind::Previous { start, partner_length } => {
                let j = first_beyond(cars, 0, start);
                if j < cars.len() {
                    seq![
                        Effect::AddObstacleTo {
                            lane: inter.partner_lane,
                            obstacle: spec_offset_obstacle(
                                cars[j].as_obstacle,
                                partner_length - start,
                            ),
                        },
                    ]
                } else {
                    Seq::empty()
                }
            },
            InteractionKind::Next { .. } => Seq::empty(),
        }
    }
}

/// Everything the lane sends for its interactions this tick, in interaction
/// order.
pub open spec fn spec_emissions(
    cars: Seq<LaneCar>,
    inters: Seq<Interaction>,
    current_tick: u64,
) -> Seq<Effect>
    decreases inters.len(),
{
    if inters.len() == 0 {
        Seq::empty()
    } else {
        spec_emissions(cars, inters.drop_last(), current_tick) + spec_emit_one(
            cars,
            inters.last(),
            current_tick,
        )
    }
}

/// Cars whose positions a mid-tick pass may still see: within one step of
/// the stored bound.
pub open spec fn cars_positions_drifted(s: Seq<LaneCar>) -> bool {
    forall|i: int|
        0 <= i < s.len() ==> -MAX_POSITION - MAX_STEP <= (#[trigger] s[i]).as_obstacle.position
            <= MAX_POSITION + MAX_STEP
}

/// Sends what one interaction owes the partner this tick.
#[verifier::loop_isolation(false)]
fn emit_interaction(
    cars: &Vec<LaneCar>,
    inter: &Interaction,
    current_tick: u64,
    effects: &mut Vec<Effect>,
)
    requires
        cars_positions_drifted(cars@),
        interaction_valid(*inter),
    ensures
        final(effects)@ == old(effects)@ + spec_emit_one(cars@, *inter, current_tick),
{
    let ghost effects0 = effects@;
    if !(current_tick % TRAFFIC_LOGIC_THROTTLING == inter.partner_lane.instance
        % TRAFFIC_LOGIC_THROTTLING) {
        proof {
            assert(effects@ =~= effects0 + spec_emit_one(cars@, *inter, current_tick));
        }
        return ;
    }
    let n: usize = cars.len();
    match inter.kind {
        InteractionKind::Overlap { start, end, partner_start, partner_end: _, kind } => {
            match kind {
                OverlapKind::Parallel => {
                    let delta: i64 = partner_start - start;
                    let mut i: usize = 0;
                    while i < n && cars[i].as_obstacle.position < start
                        invariant
                            0 <= i <= n,
                            spec_parallel_emit(cars@, 0, start, end, delta as int, inter.partner_lane)
                                == spec_parallel_emit(
                                cars@,
                                i as int,
                                start,
                                end,
                                delta as int,
                                inter.partner_lane,
                            ),
                        decreases n - i,
                    {
                        i = i + 1;
                    }
                    while i < n && cars[i].as_obstacle.position < end
                        invariant
                            0 <= i <= n,
                            effects0 + spec_parallel_emit(
                                cars@,
                                0,
                                start,
                                end,
                                delta as int,
                                inter.partner_lane,
                            ) == effects@ + spec_parallel_take(
                                cars@,
                                i as int,
                                end,
                                delta as int,
                                inter.partner_lane,
                            ),
                        decreases n - i,
                    {
                        let ghost mid = effects@;
                        effects.push(
                            Effect::AddObstacleTo {
                                lane: inter.partner_lane,
                                obstacle: cars[i].as_obstacle.offset_by(delta),
                            },
                        );
                        proof {
                            assert(effects0 + spec_parallel_emit(
                                cars@,
                                0,
                                start,
                                end,
                                delta as int,
                                inter.partner_lane,
                            ) =~= effects@ + spec_parallel_take(
                                cars@,
                                i as int + 1,
                                end,
                                delta as int,
                                inter.partner_lane,
                            ));
                        }
                        i = i + 1;
                    }
                    proof {
                        assert(effects@ =~= effects0 + spec_emit_one(cars@, *inter, current_tick));
                    }
                },
                OverlapKind::Conflicting => {
                    let mut found: bool = false;
                    let mut i: usize = 0;
                    while i < n
                        invariant
                            0 <= i <= n,
                            found <==> exists|k: int|
                                0 <= k < i && start < (#[trigger] cars@[k]).as_obstacle.position
                                    < end,
                        decreases n - i,
                    {
                        if cars[i].as_obstacle.position > start && cars[i].as_obstacle.position
                            < end {
                            found = true;
                        }
                        i = i + 1;
                    }
                    if found {
                        effects.push(
                            Effect::AddObstacleTo {
                                lane: inter.partner_lane,
                                obstacle: Obstacle {
                                    position: partner_start,
                                    velocity: 0,
                                    max_velocity: 0,
                                },
                            },
                        );
                    }
                    proof {
                        assert(effects@ =~= effects0 + spec_emit_one(cars@, *inter, current_tick));
                    }
                },
            }
        },
        InteractionKind::Previous { start, partner_length } => {
            let mut i: usize = 0;
            while i < n && !(cars[i].as_obstacle.position > start)
                invariant
                    0 <= i <= n,
                    first_beyond(cars@, 0, start) == first_beyond(cars@, i as int, start),
                decreases n - i,
            {
                i = i + 1;
            }
            if i < n {
                effects.push(
                    Effect::AddObstacleTo {
                        lane: inter.partner_lane,
                        obstacle: cars[i].as_obstacle.offset_by(partner_length - start),
                    },
                );
            }
            proof {
                assert(effects@ =~= effects0 + spec_emit_one(cars@, *inter, current_tick));
            }
        },
        InteractionKind::Next { .. } => {
            proof {
                assert(effects@ =~= effects0 + spec_emit_one(cars@, *inter, current_tick));
            }
        },
    }
}

/// Sends what every interaction owes this tick, in order.
#[verifier::loop_isolation(false)]
fn emit_all(
    cars: &Vec<LaneCar>,
    inters: &Vec<Interaction>,
    current_tick: u64,
    effects: &mut Vec<Effect>,
)
    requires
        cars_positions_drifted(cars@),
        interactions_all_valid(inters@),
    ensures
        final(effects)@ == old(effects)@ + spec_emissions(cars@, inters@, current_tick),
{
    let ghost effects0 = effects@;
    let n: usize = inters.len();
    let mut k: usize = 0;
    while k < n
        invariant
            0 <= k <= n,
            effects@ == effects0 + spec_emissions(cars@, inters@.take(k as int), current_tick),
        decreases n - k,
    {
        let inter: Interaction = inters[k];
        emit_interaction(cars, &inter, current_tick, effects);
        proof {
            assert(inters@.take(k as int + 1).drop_last() =~= inters@.take(k as int));
            assert(inters@.take(k as int + 1).last() == inter);
            assert(effects@ =~= effects0 + spec_emissions(
                cars@,
                inters@.take(k as int + 1),
                current_tick,
            ));
        }
        k = k + 1;
    }
    proof {
        assert(inters@.take(n as int) =~= inters@);
    }
}

/// Finds the canonical successor: the first `Next` interaction.
#[verifier::loop_isolation(false)]
fn first_next_interaction(inters: &Vec<Interaction>) -> (r: Option<(ActorId, i64)>)
    ensures
        r == spec_first_next(inters@),
{
    let n: usize = inters.len();
    proof {
        assert(inters@.skip(0) =~= inters@);
    }
    let mut k: usize = 0;
    while k < n
        invariant
            0 <= k <= n,
            spec_first_next(inters@) == spec_first_next(inters@.skip(k as int)),
        decreases n - k,
    {
        let inter: Interaction = inters[k];
        proof {
            assert(inters@.skip(k as int)[0] == inter);
            assert(inters@.skip(k as int).drop_first() =~= inters@.skip(k as int + 1));
        }
        match inter.kind {
            InteractionKind::Next { partner_start } => {
                return Some((inter.partner_lane, partner_start));
            },
            _ => {},
        }
        k = k + 1;
    }
    None
}

/// Index of the first crossing with the smallest self-distance.
pub open spec fn entry_crossing(s: Seq<BandCrossing>) -> int
    decreases s.len(),
{
    if s.len() <= 1 {
        0
    } else {
        let r = entry_crossing(s.drop_last());
        if s.last().self_distance < s[r].self_distance {
            s.len() - 1
        } else {
            r
        }
    }
}

/// Index of the last crossing with the largest self-distance.
pub open spec fn exit_crossing(s: Seq<BandCrossing>) -> int
    decreases s.len(),
{
    if s.len() <= 1 {
        0
    } else {
        let r = exit_crossing(s.drop_last());
        if s.last().self_distance >= s[r].self_distance {
            s.len() - 1
        } else {
            r
        }
    }
}

/// The entry crossing is a first minimum of the self-distances.
pub proof fn lemma_entry_crossing(s: Seq<BandCrossing>)
    requires
        s.len() > 0,
    ensures
        0 <= entry_crossing(s) < s.len(),
        forall|k: int|
            0 <= k < s.len() ==> s[entry_crossing(s)].self_distance <= (
            #[trigger] s[k]).self_distance,
        forall|k: int|
            0 <= k < entry_crossing(s) ==> (#[trigger] s[k]).self_distance
                > s[entry_crossing(s)].self_distance,
    decreases s.len(),
{
    if s.len() > 1 {
        lemma_entry_crossing(s.drop_last());
        assert forall|k: int| 0 <= k < s.len() - 1 implies s.drop_last()[k] == s[k] by {
        }
    }
}

/// The exit crossing is a last maximum of the self-distances.
pub proof fn lemma_exit_crossing(s: Seq<BandCrossing>)
    requires
        s.len() > 0,
    ensures
        0 <= exit_crossing(s) < s.len(),
        forall|k: int|
            0 <= k < s.len() ==> s[exit_crossing(s)].self_distance >= (
            #[trigger] s[k]).self_distance,
        forall|k: int|
            exit_crossing(s) < k < s.len() ==> (#[trigger] s[k]).self_distance
                < s[exit_crossing(s)].self_distance,
    decreases s.len(),
{
    if s.len() > 1 {
        lemma_exit_crossing(s.drop_last());
        assert forall|k: int| 0 <= k < s.len() - 1 implies s.drop_last()[k] == s[k] by {
        }
    }
}

/// The `Next` interaction a `Connect` adds, if any: the sender continues
/// this lane at its head, either because the endpoints touch or because this
/// lane's end projects onto the sender within tolerance.
pub open spec fn spec_next_added(other: ActorId, g: ConnectionGeometry) -> Seq<Interaction> {
    if g.start_touches_end {
        seq![
            Interaction { partner_lane: other, kind: InteractionKind::Next { partner_start: 0 } },
        ]
    } else {
        match g.end_on_other {
            Some(s) => seq![
                Interaction {
                    partner_lane: other,
                    kind: InteractionKind::Next { partner_start: s },
                },
            ],
            None => Seq::empty(),
        }
    }
}

/// The `Previous` interaction a `Connect` adds, if any: symmetric to
/// `spec_next_added`, at this lane's tail.
pub open spec fn spec_previous_added(other: ActorId, g: ConnectionGeometry) -> Seq<Interaction> {
    if g.end_touches_start {
        seq![
            Interaction {
                partner_lane: other,
                kind: InteractionKind::Previous { start: 0, partner_length: g.other_length },
            },
        ]
    } else {
        match g.other_end_on_self {
            Some(s) => seq![
                Interaction {
                    partner_lane: other,
                    kind: InteractionKind::Previous { start: s, partner_length: g.other_length },
                },
            ],
            None => Seq::empty(),
        }
    }
}

/// The `Overlap` interaction a `Connect` adds, if any: with at least two
/// band crossings, entry is the crossing nearest along this lane and exit
/// the farthest; the partner's window decides parallel against conflicting,
/// and a conflicting window is put in ascending order.
pub open spec fn spec_overlap_added(other: ActorId, g: ConnectionGeometry) -> Seq<Interaction> {
    let s = g.intersections@;
    if s.len() >= 2 {
        let entry = s[entry_crossing(s)];
        let exit = s[exit_crossing(s)];
        if entry.partner_distance < exit.partner_distance {
            seq![
                Interaction {
                    partner_lane: other,
                    kind: InteractionKind::Overlap {
                        start: entry.self_distance,
                        end: exit.self_distance,
                        partner_start: entry.partner_distance,
                        partner_end: exit.partner_distance,
                        kind: OverlapKind::Parallel,
                    },
                },
            ]
        } else {
            seq![
                Interaction {
                    partner_lane: other,
                    kind: InteractionKind::Overlap {
                        start: entry.self_distance,
                        end: exit.self_distance,
                        partner_start: exit.partner_distance,
                        partner_end: entry.partner_distance,
                        kind: OverlapKind::Conflicting,
                    },
                },
            ]
        }
    } else {
        Seq::empty()
    }
}

/// Everything a `Connect` from `other` adds to a lane whose identity is
/// `own`: nothing when a lane hears its own broadcast.
pub open spec fn spec_connect_added(own: ActorId, other: ActorId, g: ConnectionGeometry) -> Seq<
    Interaction,
> {
    if other == own {
        Seq::empty()
    } else {
        spec_next_added(other, g) + spec_previous_added(other, g) + spec_overlap_added(other, g)
    }
}

/// The interactions that survive a disconnect: those whose partner is not
/// `other`.
pub open spec fn spec_retained(s: Seq<Interaction>, other: ActorId) -> Seq<Interaction>
    decreases s.len(),
{
    if s.len() == 0 {
        s
    } else {
        let rest = spec_retained(s.drop_last(), other);
        if s.last().partner_lane == other {
            rest
        } else {
            rest.push(s.last())
        }
    }
}

/// Whatever holds of every element of a sequence holds of every element of
/// any rearrangement of it.
pub proof fn lemma_multiset_elements_hold<T>(a: Seq<T>, b: Seq<T>, pred: spec_fn(T) -> bool)
    requires
        forall|i: int| 0 <= i < a.len() ==> pred(#[trigger] a[i]),
        a.to_multiset() == b.to_multiset(),
    ensures
        forall|i: int| 0 <= i < b.len() ==> pred(#[trigger] b[i]),
{
    broadcast use vstd::seq_lib::group_to_multiset_ensures;

    assert forall|i: int| 0 <= i < b.len() implies pred(#[trigger] b[i]) by {
        let x = b[i];
        assert(b.contains(x));
        assert(b.to_multiset().count(x) > 0);
        assert(a.to_multiset().count(x) > 0);
        assert(a.contains(x));
        let j = choose|j: int| 0 <= j < a.len() && a[j] == x;
        assert(pred(a[j]));
    }
}

} // verus!
