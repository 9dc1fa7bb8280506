use lane_traffic::ids::ActorId;
use lane_traffic::messages::Add;
use lane_traffic::messages::Effect;
use lane_traffic::messages::Tick;
use lane_traffic::obstacle::LaneCar;
use lane_traffic::obstacle::Obstacle;
use lane_traffic::obstacle::TransferringLaneCar;
use lane_traffic::transfer::TransferLane;

fn id(n: u64) -> ActorId {
    ActorId { instance: n }
}

fn car(position: i64, velocity: i64, max_velocity: i64, acceleration: i64) -> LaneCar {
    LaneCar {
        trip: id(99),
        as_obstacle: Obstacle { position, velocity, max_velocity },
        acceleration,
    }
}

fn sliver() -> TransferLane {
    TransferLane::new(id(9), 50_000, id(1), 10_000, id(2), 10_000)
}

#[test]
fn added_car_starts_fully_on_the_left() {
    let mut t = sliver();
    t.receive_add(Add::Car(car(5_000, 3_000, 10_000, 0)));
    assert_eq!(t.cars.len(), 1);
    assert_eq!(t.cars[0].transfer_position, -1_000);
    assert_eq!(t.cars[0].transfer_velocity, 0);
    assert_eq!(t.cars[0].transfer_acceleration, 100);
    assert_eq!(t.cars[0].as_lane_car.as_obstacle.position, 5_000);
}

#[test]
fn centred_car_broadcasts_to_both_neighbours() {
    // A car at the lateral centre appears as an obstacle on both lanes —
    // intended double-counting for safety.
    let mut t = sliver();
    t.cars.push(TransferringLaneCar {
        as_lane_car: car(5_000, 12_000, 12_000, 0),
        transfer_position: 0,
        transfer_velocity: 0,
        transfer_acceleration: 0,
    });
    let (_, effects) = t.receive_tick(Tick { dt: 0, current_tick: 0 });
    let to_left = effects.iter().any(
        |e| matches!(e, Effect::AddObstacleTo { lane, .. } if *lane == id(1)),
    );
    let to_right = effects.iter().any(
        |e| matches!(e, Effect::AddObstacleTo { lane, .. } if *lane == id(2)),
    );
    assert!(to_left && to_right);
}

#[test]
fn leaning_car_broadcasts_to_one_side_only() {
    // Leaning well left and still moving left: the right lane hears nothing.
    let mut t = sliver();
    t.cars.push(TransferringLaneCar {
        as_lane_car: car(5_000, 12_000, 12_000, 0),
        transfer_position: -500,
        transfer_velocity: -100,
        transfer_acceleration: 0,
    });
    let (_, effects) = t.receive_tick(Tick { dt: 100, current_tick: 0 });
    let to_left = effects.iter().any(
        |e| matches!(e, Effect::AddObstacleTo { lane, .. } if *lane == id(1)),
    );
    let to_right = effects.iter().any(
        |e| matches!(e, Effect::AddObstacleTo { lane, .. } if *lane == id(2)),
    );
    assert!(to_left);
    assert!(!to_right);
}

#[test]
fn lateral_velocity_is_capped_at_a_twelfth() {
    let mut t = sliver();
    t.cars.push(TransferringLaneCar {
        as_lane_car: car(5_000, 12_000, 12_000, 0),
        transfer_position: 0,
        transfer_velocity: 5_000,
        transfer_acceleration: 0,
    });
    t.receive_tick(Tick { dt: 100, current_tick: 0 });
    let kept = t.cars[0];
    assert_eq!(kept.transfer_velocity, 1_000);
    assert!(kept.transfer_velocity.abs() <= kept.as_lane_car.as_obstacle.velocity / 12);
}

#[test]
fn car_past_the_right_edge_leaves_to_the_right_lane() {
    let mut t = sliver();
    t.cars.push(TransferringLaneCar {
        as_lane_car: car(5_000, 12_000, 12_000, 0),
        transfer_position: 995,
        transfer_velocity: 1_000,
        transfer_acceleration: 0,
    });
    // One step of 100 ms at full lateral speed moves 0.1 lateral units.
    let (_, effects) = t.receive_tick(Tick { dt: 100, current_tick: 0 });
    assert_eq!(t.cars.len(), 0);
    let handed = effects.iter().find_map(|e| match e {
        Effect::AddCarTo { lane, car } => Some((*lane, *car)),
        _ => None,
    });
    let (lane, sent) = handed.expect("expected a handoff");
    assert_eq!(lane, id(2));
    // The car left at 5 m plus one step, shifted by the right entry offset.
    assert_eq!(sent.as_obstacle.position, 5_000 + 1_200 + 10_000);
}

#[test]
fn transferring_cars_stay_sorted() {
    let mut t = sliver();
    t.receive_add(Add::Car(car(30_000, 1_000, 10_000, 0)));
    t.receive_add(Add::Car(car(10_000, 1_000, 10_000, 0)));
    t.receive_add(Add::Car(car(20_000, 1_000, 10_000, 0)));
    assert!(t.cars.windows(2).all(|w| {
        w[0].as_lane_car.as_obstacle.position <= w[1].as_lane_car.as_obstacle.position
    }));
    t.receive_tick(Tick { dt: 100, current_tick: 0 });
    assert!(t.cars.windows(2).all(|w| {
        w[0].as_lane_car.as_obstacle.position <= w[1].as_lane_car.as_obstacle.position
    }));
    for c in &t.cars {
        assert!(0 <= c.as_lane_car.as_obstacle.velocity);
        assert!(c.as_lane_car.as_obstacle.velocity <= c.as_lane_car.as_obstacle.max_velocity);
        assert!(c.transfer_velocity.abs() <= c.as_lane_car.as_obstacle.velocity / 12);
    }
}

#[test]
fn obstacles_clear_every_tick() {
    let mut t = sliver();
    t.receive_add(Add::InteractionObstacle(Obstacle {
        position: 7_000,
        velocity: 0,
        max_velocity: 0,
    }));
    assert_eq!(t.interaction_obstacles.len(), 1);
    t.receive_tick(Tick { dt: 100, current_tick: 3 });
    assert_eq!(t.interaction_obstacles.len(), 0);
}
