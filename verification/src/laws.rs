//! Laws that relate several handlers: what the drain pass promises the
//! successor lane, what a parallel overlap emits, and how two lanes' overlap
//! registrations mirror each other.

use vstd::prelude::*;

use crate::ids::ActorId;
use crate::interaction::InteractionKind;
use crate::lane::entry_crossing;
use crate::lane::exit_crossing;
use crate::lane::last_over_end;
use crate::lane::lemma_over_end_found;
use crate::lane::spec_drain;
use crate::lane::spec_overlap_added;
use crate::lane::spec_parallel_emit;
use crate::lane::spec_parallel_take;
use crate::messages::ConnectionGeometry;
use crate::messages::Effect;
use crate::obstacle::LaneCar;
use crate::obstacle::spec_offset_car;
use crate::obstacle::spec_offset_obstacle;
use crate::sorting::cars_sorted;
use crate::units::MAX_LANE_LENGTH;
use crate::units::MAX_POSITION;
use crate::units::MAX_STEP;

verus! {

/// Every car the drain pass hands over appears on the successor shifted
/// into the successor's frame: a car that left at position `p` arrives at
/// `p - length + partner_start`.  Together with what `receive_add` ensures
/// on the receiving lane, this is the handoff round trip.
pub proof fn lemma_drain_offsets(
    cars: Seq<LaneCar>,
    length: i64,
    partner: ActorId,
    partner_start: i64,
)
    requires
        forall|i: int|
            0 <= i < cars.len() ==> -MAX_POSITION - MAX_STEP <= (
            #[trigger] cars[i]).as_obstacle.position <= MAX_POSITION + MAX_STEP,
        0 <= partner_start <= MAX_POSITION,
        0 <= length <= MAX_LANE_LENGTH,
    ensures
        forall|j: int|
            0 <= j < spec_drain(cars, length, Some((partner, partner_start))).1.len()
                ==> exists|i: int|
                {
                    &&& 0 <= i < cars.len()
                    &&& cars[i].as_obstacle.position > length
                    &&& #[trigger] spec_drain(cars, length, Some((partner, partner_start))).1[j]
                        == Effect::AddCarTo {
                        lane: partner,
                        car: spec_offset_car(cars[i], partner_start - length),
                    }
                    &&& spec_offset_car(
                        cars[i],
                        partner_start - length,
                    ).as_obstacle.position == cars[i].as_obstacle.position - length
                        + partner_start
                },
    decreases cars.len(),
{
    let nxt = Some((partner, partner_start));
    if cars.len() > 0 {
        let over = last_over_end(cars, length);
        if over >= 0 {
            lemma_over_end_found(cars, length);
            lemma_drain_offsets(cars.drop_last(), length, partner, partner_start);
            let sent = spec_drain(cars, length, nxt).1;
            let rest = spec_drain(cars.drop_last(), length, nxt).1;
            assert forall|j: int| 0 <= j < sent.len() implies exists|i: int|
                {
                    &&& 0 <= i < cars.len()
                    &&& cars[i].as_obstacle.position > length
                    &&& #[trigger] sent[j] == Effect::AddCarTo {
                        lane: partner,
                        car: spec_offset_car(cars[i], partner_start - length),
                    }
                    &&& spec_offset_car(
                        cars[i],
                        partner_start - length,
                    ).as_obstacle.position == cars[i].as_obstacle.position - length
                        + partner_start
                } by {
                if j == 0 {
                    assert(sent[0] == Effect::AddCarTo {
                        lane: partner,
                        car: spec_offset_car(cars[over], partner_start - length),
                    });
                } else {
                    assert(sent[j] == rest[j - 1]);
                    let i = choose|i: int|
                        {
                            &&& 0 <= i < cars.drop_last().len()
                            &&& cars.drop_last()[i].as_obstacle.position > length
                            &&& #[trigger] rest[j - 1] == Effect::AddCarTo {
                                lane: partner,
                                car: spec_offset_car(cars.drop_last()[i], partner_start - length),
                            }
                            &&& spec_offset_car(
                                cars.drop_last()[i],
                                partner_start - length,
                            ).as_obstacle.position == cars.drop_last()[i].as_obstacle.position
                                - length + partner_start
                        };
                    assert(cars.drop_last()[i] == cars[i]);
                }
            }
        }
    }
}

/// The obstacles a window emission would send if it looked at every car:
/// one for each car inside `[start, end)`, in order, shifted by `delta`.
pub open spec fn spec_window_effects(
    cars: Seq<LaneCar>,
    i: int,
    start: i64,
    end: i64,
    delta: int,
    partner: ActorId,
) -> Seq<Effect>
    decreases cars.len() - i,
{
    if 0 <= i < cars.len() {
        if start <= cars[i].as_obstacle.position < end {
            seq![
                Effect::AddObstacleTo {
                    lane: partner,
                    obstacle: spec_offset_obstacle(cars[i].as_obstacle, delta),
                },
            ] + spec_window_effects(cars, i + 1, start, end, delta, partner)
        } else {
            spec_window_effects(cars, i + 1, start, end, delta, partner)
        }
    } else {
        Seq::empty()
    }
}

/// When every car from `i` on is at or past the window's end, the window
/// holds none of them.
proof fn lemma_window_empty(
    cars: Seq<LaneCar>,
    i: int,
    start: i64,
    end: i64,
    delta: int,
    partner: ActorId,
)
    requires
        forall|k: int|
            i <= k < cars.len() ==> (#[trigger] cars[k]).as_obstacle.position >= end,
    ensures
        spec_window_effects(cars, i, start, end, delta, partner) == Seq::<Effect>::empty(),
    decreases cars.len() - i,
{
    if 0 <= i < cars.len() {
        lemma_window_empty(cars, i + 1, start, end, delta, partner);
    }
}

/// Once the take phase has begun, with no car before the window's start
/// left, taking until the end is exactly the window.
proof fn lemma_take_is_window(
    cars: Seq<LaneCar>,
    i: int,
    start: i64,
    end: i64,
    delta: int,
    partner: ActorId,
)
    requires
        cars_sorted(cars),
        forall|k: int|
            i <= k < cars.len() ==> (#[trigger] cars[k]).as_obstacle.position >= start,
        0 <= i,
    ensures
        spec_parallel_take(cars, i, end, delta, partner) == spec_window_effects(
            cars,
            i,
            start,
            end,
            delta,
            partner,
        ),
    decreases cars.len() - i,
{
    if i < cars.len() {
        if cars[i].as_obstacle.position < end {
            lemma_take_is_window(cars, i + 1, start, end, delta, partner);
        } else {
            assert forall|k: int|
                i <= k < cars.len() implies (#[trigger] cars[k]).as_obstacle.position >= end by {
                if k > i {
                    assert(cars[i].as_obstacle.position <= cars[k].as_obstacle.position);
                }
            }
            lemma_window_empty(cars, i, start, end, delta, partner);
        }
    }
}

/// The skip and take phases, started at `i` with every earlier car before
/// the window, emit exactly the window of the whole column.
proof fn lemma_parallel_emit_from(
    cars: Seq<LaneCar>,
    start: i64,
    end: i64,
    delta: int,
    partner: ActorId,
    i: int,
)
    requires
        cars_sorted(cars),
        0 <= i,
        forall|k: int| 0 <= k < i ==> (#[trigger] cars[k]).as_obstacle.position < start,
    ensures
        spec_parallel_emit(cars, i, start, end, delta, partner) == spec_window_effects(
            cars,
            0,
            start,
            end,
            delta,
            partner,
        ),
    decreases cars.len() - i,
{
    if 0 <= i < cars.len() && cars[i].as_obstacle.position < start {
        lemma_parallel_emit_from(cars, start, end, delta, partner, i + 1);
        assert(spec_window_effects(cars, i, start, end, delta, partner) == spec_window_effects(
            cars,
            i + 1,
            start,
            end,
            delta,
            partner,
        ));
    } else {
        assert forall|k: int|
            i <= k < cars.len() implies (#[trigger] cars[k]).as_obstacle.position >= start by {
            if i < cars.len() && k > i {
                assert(cars[i].as_obstacle.position <= cars[k].as_obstacle.position);
            }
        }
        lemma_take_is_window(cars, i, start, end, delta, partner);
        lemma_prefix_out_of_window(cars, 0, i, start, end, delta, partner);
    }
}

/// On a sorted column, a parallel overlap emits exactly the cars inside
/// `[start, end)`, each shifted by `delta` — for an overlap interaction,
/// `partner_start - start` — into the partner's frame.
pub proof fn lemma_parallel_emits_window(
    cars: Seq<LaneCar>,
    start: i64,
    end: i64,
    delta: int,
    partner: ActorId,
)
    requires
        cars_sorted(cars),
    ensures
        spec_parallel_emit(cars, 0, start, end, delta, partner) == spec_window_effects(
            cars,
            0,
            start,
            end,
            delta,
            partner,
        ),
{
    lemma_parallel_emit_from(cars, start, end, delta, partner, 0);
}

/// Skipping cars known to lie before the window does not change the window.
proof fn lemma_prefix_out_of_window(
    cars: Seq<LaneCar>,
    from: int,
    to: int,
    start: i64,
    end: i64,
    delta: int,
    partner: ActorId,
)
    requires
        0 <= from <= to,
        forall|k: int|
            from <= k < to && k < cars.len() ==> (#[trigger] cars[k]).as_obstacle.position
                < start,
    ensures
        spec_window_effects(cars, from, start, end, delta, partner) == spec_window_effects(
            cars,
            if to <= cars.len() {
                to
            } else {
                cars.len() as int
            },
            start,
            end,
            delta,
            partner,
        ),
    decreases to - from,
{
    if from < to {
        lemma_prefix_out_of_window(cars, from + 1, to, start, end, delta, partner);
    }
}

/// When two lanes register an overlap from the same pair of band crossings
/// seen from either side, the two interactions mirror each other: each
/// lane's own window is the partner window of the other, and the kind
/// agrees.
#[verifier::rlimit(60)]
pub proof fn lemma_overlap_symmetry(
    a_id: ActorId,
    b_id: ActorId,
    ga: ConnectionGeometry,
    gb: ConnectionGeometry,
)
    requires
        ga.intersections@.len() == 2,
        gb.intersections@.len() == 2,
        ((gb.intersections@[0].self_distance == ga.intersections@[0].partner_distance
            && gb.intersections@[0].partner_distance == ga.intersections@[0].self_distance
            && gb.intersections@[1].self_distance == ga.intersections@[1].partner_distance
            && gb.intersections@[1].partner_distance == ga.intersections@[1].self_distance) || (
        gb.intersections@[0].self_distance == ga.intersections@[1].partner_distance
            && gb.intersections@[0].partner_distance == ga.intersections@[1].self_distance
            && gb.intersections@[1].self_distance == ga.intersections@[0].partner_distance
            && gb.intersections@[1].partner_distance == ga.intersections@[0].self_distance)),
        ga.intersections@[0].self_distance != ga.intersections@[1].self_distance,
        ga.intersections@[0].partner_distance != ga.intersections@[1].partner_distance,
    ensures
        spec_overlap_added(b_id, ga).len() == 1,
        spec_overlap_added(a_id, gb).len() == 1,
        spec_overlap_added(b_id, ga)[0].partner_lane == b_id,
        spec_overlap_added(a_id, gb)[0].partner_lane == a_id,
        ({
            let oa = spec_overlap_added(b_id, ga)[0].kind;
            let ob = spec_overlap_added(a_id, gb)[0].kind;
            match (oa, ob) {
                (
                    InteractionKind::Overlap {
                        start: sa,
                        end: ea,
                        partner_start: pa,
                        partner_end: qa,
                        kind: ka,
                    },
                    InteractionKind::Overlap {
                        start: sb,
                        end: eb,
                        partner_start: pb,
                        partner_end: qb,
                        kind: kb,
                    },
                ) => { sb == pa && eb == qa && pb == sa && qb == ea && kb == ka },
                _ => false,
            }
        }),
{
    let sa = ga.intersections@;
    let sb = gb.intersections@;
    assert(entry_crossing(sa.drop_last()) == 0);
    assert(exit_crossing(sa.drop_last()) == 0);
    assert(entry_crossing(sb.drop_last()) == 0);
    assert(exit_crossing(sb.drop_last()) == 0);
    assert(sa.drop_last()[0] == sa[0]);
    assert(sb.drop_last()[0] == sb[0]);
    assert(entry_crossing(sa) == if sa[1].self_distance < sa[0].self_distance {
        1int
    } else {
        0int
    });
    assert(exit_crossing(sa) == if sa[1].self_distance >= sa[0].self_distance {
        1int
    } else {
        0int
    });
    assert(entry_crossing(sb) == if sb[1].self_distance < sb[0].self_distance {
        1int
    } else {
        0int
    });
    assert(exit_crossing(sb) == if sb[1].self_distance >= sb[0].self_distance {
        1int
    } else {
        0int
    });
}

} // verus!
