use lane_traffic::ids::ActorId;
use lane_traffic::ids::BuildableRef;
use lane_traffic::ids::Fate;
use lane_traffic::interaction::InteractionKind;
use lane_traffic::interaction::OverlapKind;
use lane_traffic::lane::Lane;
use lane_traffic::messages::Add;
use lane_traffic::messages::AdvertiseForConnectionAndReport;
use lane_traffic::messages::BandCrossing;
use lane_traffic::messages::Connect;
use lane_traffic::messages::ConnectionGeometry;
use lane_traffic::messages::Disconnect;
use lane_traffic::messages::Effect;
use lane_traffic::messages::Tick;
use lane_traffic::messages::Unbuild;
use lane_traffic::obstacle::LaneCar;
use lane_traffic::obstacle::Obstacle;

fn id(n: u64) -> ActorId {
    ActorId { instance: n }
}

fn car(position: i64, velocity: i64, max_velocity: i64, acceleration: i64) -> LaneCar {
    LaneCar {
        trip: id(99),
        as_obstacle: Obstacle { position, velocity, max_velocity },
        acceleration,
    }
}

fn empty_geometry() -> ConnectionGeometry {
    ConnectionGeometry {
        start_touches_end: false,
        end_on_other: None,
        end_touches_start: false,
        other_end_on_self: None,
        other_length: 100_000,
        intersections: Vec::new(),
    }
}

#[test]
fn straight_handoff_connects_head_to_tail() {
    // Two 100 m lanes laid end to end: the first sees the second's start at
    // its own end, and nothing else.
    let mut a = Lane::new(id(0), 100_000);
    let geometry = ConnectionGeometry { start_touches_end: true, ..empty_geometry() };
    let (fate, replies) = a.receive_connect(
        &Connect { other_id: id(1), geometry, reply_needed: false },
    );
    assert_eq!(fate, Fate::Live);
    assert!(replies.is_empty());
    assert_eq!(a.interactions.len(), 1);
    assert_eq!(a.interactions[0].partner_lane, id(1));
    assert!(matches!(a.interactions[0].kind, InteractionKind::Next { partner_start: 0 }));

    // The second lane sees the first's end at its own start.
    let mut b = Lane::new(id(1), 100_000);
    let geometry_back = ConnectionGeometry { end_touches_start: true, ..empty_geometry() };
    b.receive_connect(&Connect { other_id: id(0), geometry: geometry_back, reply_needed: false });
    assert_eq!(b.interactions.len(), 1);
    assert!(matches!(
        b.interactions[0].kind,
        InteractionKind::Previous { start: 0, partner_length: 100_000 }
    ));
}

#[test]
fn straight_handoff_moves_car_across() {
    // A car near the end of the first lane integrates past it and arrives on
    // the second lane shifted into its frame, kinematic state intact.
    let mut a = Lane::new(id(0), 100_000);
    let geometry = ConnectionGeometry { start_touches_end: true, ..empty_geometry() };
    a.receive_connect(&Connect { other_id: id(1), geometry, reply_needed: false });
    a.receive_add(Add::Car(car(98_000, 10_000, 10_000, 0)));

    let (_, effects) = a.receive_tick(Tick { dt: 500, current_tick: 0 });
    assert_eq!(a.cars.len(), 0);
    assert_eq!(effects.len(), 1);
    match effects[0] {
        Effect::AddCarTo { lane, car: sent } => {
            assert_eq!(lane, id(1));
            assert_eq!(sent.as_obstacle.position, 3_000);
            assert_eq!(sent.as_obstacle.velocity, 10_000);
        }
        _ => panic!("expected a car handoff"),
    }

    let mut b = Lane::new(id(1), 100_000);
    if let Effect::AddCarTo { car: sent, .. } = effects[0] {
        b.receive_add(Add::Car(sent));
    }
    assert_eq!(b.cars.len(), 1);
    assert_eq!(b.cars[0].as_obstacle.position, 3_000);
    assert_eq!(b.cars[0].as_obstacle.velocity, 10_000);
}

#[test]
fn conflicting_overlap_is_symmetric() {
    // Perpendicular lanes crossing near their midpoints: both sides register
    // one conflicting overlap with matching windows.
    let mut a = Lane::new(id(0), 100_000);
    let mut ga = empty_geometry();
    ga.intersections = vec![
        BandCrossing { self_distance: 45_000, partner_distance: 55_000 },
        BandCrossing { self_distance: 55_000, partner_distance: 45_000 },
    ];
    a.receive_connect(&Connect { other_id: id(120), geometry: ga, reply_needed: false });
    assert_eq!(a.interactions.len(), 1);
    match a.interactions[0].kind {
        InteractionKind::Overlap { start, end, partner_start, partner_end, kind } => {
            assert_eq!((start, end, partner_start, partner_end), (45_000, 55_000, 45_000, 55_000));
            assert_eq!(kind, OverlapKind::Conflicting);
        }
        _ => panic!("expected an overlap"),
    }

    let mut b = Lane::new(id(120), 100_000);
    let mut gb = empty_geometry();
    gb.intersections = vec![
        BandCrossing { self_distance: 55_000, partner_distance: 45_000 },
        BandCrossing { self_distance: 45_000, partner_distance: 55_000 },
    ];
    b.receive_connect(&Connect { other_id: id(0), geometry: gb, reply_needed: false });
    match b.interactions[0].kind {
        InteractionKind::Overlap { start, end, partner_start, partner_end, kind } => {
            assert_eq!((start, end, partner_start, partner_end), (45_000, 55_000, 45_000, 55_000));
            assert_eq!(kind, OverlapKind::Conflicting);
        }
        _ => panic!("expected an overlap"),
    }
}

#[test]
fn parallel_overlap_is_symmetric() {
    // Side-by-side lanes running the same way: both sides register a
    // parallel overlap, each window the mirror of the other.
    let mut a = Lane::new(id(0), 100_000);
    let mut ga = empty_geometry();
    ga.intersections = vec![
        BandCrossing { self_distance: 10_000, partner_distance: 12_000 },
        BandCrossing { self_distance: 20_000, partner_distance: 22_000 },
    ];
    a.receive_connect(&Connect { other_id: id(1), geometry: ga, reply_needed: false });
    match a.interactions[0].kind {
        InteractionKind::Overlap { start, end, partner_start, partner_end, kind } => {
            assert_eq!((start, end, partner_start, partner_end), (10_000, 20_000, 12_000, 22_000));
            assert_eq!(kind, OverlapKind::Parallel);
        }
        _ => panic!("expected an overlap"),
    }

    let mut b = Lane::new(id(1), 100_000);
    let mut gb = empty_geometry();
    gb.intersections = vec![
        BandCrossing { self_distance: 12_000, partner_distance: 10_000 },
        BandCrossing { self_distance: 22_000, partner_distance: 20_000 },
    ];
    b.receive_connect(&Connect { other_id: id(0), geometry: gb, reply_needed: false });
    match b.interactions[0].kind {
        InteractionKind::Overlap { start, end, partner_start, partner_end, kind } => {
            assert_eq!((start, end, partner_start, partner_end), (12_000, 22_000, 10_000, 20_000));
            assert_eq!(kind, OverlapKind::Parallel);
        }
        _ => panic!("expected an overlap"),
    }
}

#[test]
fn conflicting_overlap_blocks_partner() {
    // A car inside the conflicting window makes the lane send one stationary
    // blocker; the partner's next traffic phase brakes hard against it.
    let mut a = Lane::new(id(0), 100_000);
    let mut ga = empty_geometry();
    ga.intersections = vec![
        BandCrossing { self_distance: 45_000, partner_distance: 55_000 },
        BandCrossing { self_distance: 55_000, partner_distance: 45_000 },
    ];
    a.receive_connect(&Connect { other_id: id(120), geometry: ga, reply_needed: false });
    a.receive_add(Add::Car(car(50_000, 0, 10_000, 0)));

    let (_, effects) = a.receive_tick(Tick { dt: 0, current_tick: 0 });
    let blocker = Obstacle { position: 45_000, velocity: 0, max_velocity: 0 };
    assert!(effects.contains(&Effect::AddObstacleTo { lane: id(120), obstacle: blocker }));

    let mut b = Lane::new(id(120), 100_000);
    b.receive_add(Add::Car(car(30_000, 10_000, 10_000, 0)));
    b.receive_add(Add::InteractionObstacle(blocker));
    b.receive_tick(Tick { dt: 0, current_tick: 60 });
    assert_eq!(b.cars[0].acceleration, -9_966);
    assert_eq!(b.interaction_obstacles.len(), 0);
}

#[test]
fn emission_waits_for_partner_phase() {
    // Emissions to a partner are gated on the partner's traffic phase, not
    // on the emitter's.
    let mut a = Lane::new(id(0), 100_000);
    let mut ga = empty_geometry();
    ga.intersections = vec![
        BandCrossing { self_distance: 10_000, partner_distance: 12_000 },
        BandCrossing { self_distance: 60_000, partner_distance: 62_000 },
    ];
    a.receive_connect(&Connect { other_id: id(30), geometry: ga, reply_needed: false });
    a.receive_add(Add::Car(car(20_000, 0, 10_000, 0)));

    let (_, at_zero) = a.receive_tick(Tick { dt: 0, current_tick: 0 });
    assert!(at_zero.iter().all(|e| !matches!(e, Effect::AddObstacleTo { .. })));

    let (_, at_thirty) = a.receive_tick(Tick { dt: 0, current_tick: 30 });
    assert!(at_thirty.iter().any(|e| matches!(e, Effect::AddObstacleTo { lane, .. } if *lane == id(30))));
}

#[test]
fn parallel_overlap_emits_exactly_the_window() {
    // Cars inside [start, end) are forwarded, shifted into the partner's
    // frame; cars outside are not.
    let mut a = Lane::new(id(0), 100_000);
    let mut ga = empty_geometry();
    ga.intersections = vec![
        BandCrossing { self_distance: 20_000, partner_distance: 5_000 },
        BandCrossing { self_distance: 60_000, partner_distance: 45_000 },
    ];
    a.receive_connect(&Connect { other_id: id(60), geometry: ga, reply_needed: false });
    a.receive_add(Add::Car(car(10_000, 0, 10_000, 0)));
    a.receive_add(Add::Car(car(30_000, 0, 10_000, 0)));
    a.receive_add(Add::Car(car(50_000, 0, 10_000, 0)));

    let (_, effects) = a.receive_tick(Tick { dt: 0, current_tick: 0 });
    let obstacles: Vec<&Effect> = effects
        .iter()
        .filter(|e| matches!(e, Effect::AddObstacleTo { .. }))
        .collect();
    assert_eq!(obstacles.len(), 2);
    match obstacles[0] {
        Effect::AddObstacleTo { lane, obstacle } => {
            assert_eq!(*lane, id(60));
            assert_eq!(obstacle.position, 15_000);
        }
        _ => unreachable!(),
    }
    match obstacles[1] {
        Effect::AddObstacleTo { obstacle, .. } => assert_eq!(obstacle.position, 35_000),
        _ => unreachable!(),
    }
}

#[test]
fn previous_link_forwards_first_car_beyond() {
    let mut a = Lane::new(id(0), 100_000);
    let mut ga = empty_geometry();
    ga.other_end_on_self = Some(20_000);
    ga.other_length = 80_000;
    a.receive_connect(&Connect { other_id: id(60), geometry: ga, reply_needed: false });
    a.receive_add(Add::Car(car(15_000, 0, 10_000, 0)));
    a.receive_add(Add::Car(car(25_000, 0, 10_000, 0)));

    let (_, effects) = a.receive_tick(Tick { dt: 0, current_tick: 0 });
    let forwarded = Obstacle { position: 85_000, velocity: 0, max_velocity: 10_000 };
    assert!(effects.contains(&Effect::AddObstacleTo { lane: id(60), obstacle: forwarded }));
}

#[test]
fn unbuild_disconnects_every_peer() {
    // Tearing one lane down leaves no peer holding an interaction to it.
    let mut a = Lane::new(id(0), 100_000);
    let mut b = Lane::new(id(1), 100_000);
    let mut c = Lane::new(id(2), 100_000);
    let touch = ConnectionGeometry { start_touches_end: true, ..empty_geometry() };
    b.receive_connect(&Connect { other_id: id(0), geometry: touch.clone(), reply_needed: false });
    b.receive_connect(&Connect { other_id: id(2), geometry: touch.clone(), reply_needed: false });
    c.receive_connect(&Connect { other_id: id(0), geometry: touch.clone(), reply_needed: false });
    a.receive_connect(&Connect { other_id: id(1), geometry: touch, reply_needed: false });

    let (fate, effects) = a.receive_unbuild(Unbuild);
    assert_eq!(fate, Fate::Die);
    assert_eq!(effects.len(), 1);
    assert_eq!(effects[0], Effect::BroadcastDisconnect { from: id(0) });

    b.receive_disconnect(Disconnect { other_id: id(0) });
    c.receive_disconnect(Disconnect { other_id: id(0) });
    assert!(b.interactions.iter().all(|i| i.partner_lane != id(0)));
    assert!(c.interactions.iter().all(|i| i.partner_lane != id(0)));
    assert_eq!(b.interactions.len(), 1);
    assert_eq!(b.interactions[0].partner_lane, id(2));
    assert_eq!(c.interactions.len(), 0);
}

#[test]
fn connect_replies_when_asked() {
    let mut a = Lane::new(id(7), 100_000);
    let (_, replies) = a.receive_connect(
        &Connect { other_id: id(8), geometry: empty_geometry(), reply_needed: true },
    );
    assert_eq!(replies.len(), 1);
    assert_eq!(replies[0], Effect::ConnectReply { to: id(8), from: id(7) });

    // A lane hearing its own broadcast ignores it.
    let (_, own) = a.receive_connect(
        &Connect { other_id: id(7), geometry: empty_geometry(), reply_needed: true },
    );
    assert!(own.is_empty());
    assert!(a.interactions.is_empty());
}

#[test]
fn advertise_broadcasts_and_reports() {
    let a = Lane::new(id(5), 100_000);
    let (fate, effects) = a.receive_advertise(
        AdvertiseForConnectionAndReport(id(77), BuildableRef { index: 3 }),
    );
    assert_eq!(fate, Fate::Live);
    assert_eq!(effects.len(), 2);
    assert_eq!(effects[0], Effect::BroadcastConnect { from: id(5) });
    assert_eq!(
        effects[1],
        Effect::ReportBuilt { to: id(77), lane: id(5), as_buildable: BuildableRef { index: 3 } },
    );
}

#[test]
fn car_integration_accelerates_and_saturates() {
    // An isolated car under constant acceleration: velocity grows linearly,
    // then saturates at its ceiling.
    let mut lane = Lane::new(id(1), 1_000_000_000);
    lane.receive_add(Add::Car(car(0, 0, 10_000, 2_000)));

    lane.receive_tick(Tick { dt: 100, current_tick: 0 });
    assert_eq!(lane.cars[0].as_obstacle.position, 0);
    assert_eq!(lane.cars[0].as_obstacle.velocity, 200);

    for _ in 1..100 {
        lane.receive_tick(Tick { dt: 100, current_tick: 0 });
    }
    assert_eq!(lane.cars[0].as_obstacle.velocity, 10_000);
    assert_eq!(lane.cars[0].as_obstacle.position, 74_500);
}

#[test]
fn construction_grows_and_is_capped() {
    let mut lane = Lane::new(id(1), 100_000);
    lane.receive_tick(Tick { dt: 100, current_tick: 0 });
    assert_eq!(lane.in_construction, 40_000);
    lane.receive_tick(Tick { dt: 100, current_tick: 0 });
    assert_eq!(lane.in_construction, 80_000);
    lane.receive_tick(Tick { dt: 100, current_tick: 0 });
    assert_eq!(lane.in_construction, 100_000);
    lane.receive_tick(Tick { dt: 100, current_tick: 0 });
    assert_eq!(lane.in_construction, 100_000);
}

#[test]
fn obstacles_accumulate_until_the_phase_and_then_clear() {
    let mut lane = Lane::new(id(0), 100_000);
    let o = Obstacle { position: 5_000, velocity: 0, max_velocity: 0 };
    lane.receive_add(Add::InteractionObstacle(o));
    lane.receive_add(Add::InteractionObstacle(o));

    lane.receive_tick(Tick { dt: 100, current_tick: 7 });
    assert_eq!(lane.interaction_obstacles.len(), 2);

    lane.receive_tick(Tick { dt: 100, current_tick: 60 });
    assert_eq!(lane.interaction_obstacles.len(), 0);
}

#[test]
fn cars_stay_sorted_and_within_speed_bounds() {
    let mut lane = Lane::new(id(0), 1_000_000);
    lane.receive_add(Add::Car(car(30_000, 5_000, 9_000, 0)));
    lane.receive_add(Add::Car(car(10_000, 2_000, 9_000, 50_000)));
    lane.receive_add(Add::Car(car(20_000, 1_000, 500, 0)));
    assert!(lane.cars.windows(2).all(|w| {
        w[0].as_obstacle.position <= w[1].as_obstacle.position
    }));

    lane.receive_tick(Tick { dt: 1_000, current_tick: 0 });
    assert!(lane.cars.windows(2).all(|w| {
        w[0].as_obstacle.position <= w[1].as_obstacle.position
    }));
    for c in &lane.cars {
        assert!(0 <= c.as_obstacle.velocity);
        assert!(c.as_obstacle.velocity <= c.as_obstacle.max_velocity);
    }
}

#[test]
fn free_flow_acceleration_has_the_exact_idm_value() {
    // A lone car at half its desired speed: the free-flow term is the
    // maximum acceleration scaled down by the fourth power of the ratio.
    let mut lane = Lane::new(id(0), 1_000_000);
    lane.receive_add(Add::Car(car(0, 5_000, 10_000, 0)));
    lane.receive_tick(Tick { dt: 0, current_tick: 0 });
    assert_eq!(lane.cars[0].acceleration, 938);
}

#[test]
fn empty_lane_ticks_quietly() {
    let mut lane = Lane::new(id(0), 100_000);
    let (fate, effects) = lane.receive_tick(Tick { dt: 500, current_tick: 0 });
    assert_eq!(fate, Fate::Live);
    assert!(effects.is_empty());
    assert!(lane.cars.is_empty());
}

#[test]
fn far_sentinels_and_offsets() {
    let ahead = Obstacle::far_ahead();
    let behind = Obstacle::far_behind();
    assert!(ahead.position > 0);
    assert!(behind.position < 0);
    assert_eq!(behind.velocity, 0);

    let o = Obstacle { position: 4_000, velocity: 7, max_velocity: 9 };
    let shifted = o.offset_by(-1_500);
    assert_eq!(shifted.position, 2_500);
    assert_eq!(shifted.velocity, 7);
    assert_eq!(shifted.max_velocity, 9);

    let c = car(4_000, 7, 9, -2);
    let moved = c.offset_by(500);
    assert_eq!(moved.as_obstacle.position, 4_500);
    assert_eq!(moved.acceleration, -2);
    assert_eq!(moved.trip, c.trip);
}
