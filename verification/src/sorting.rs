//! Keeping cars and obstacles ordered by their position along the lane.
//!
//! Each sort is an insertion sort by adjacent swaps: the result is ordered
//! and holds exactly the elements it was given.

use vstd::prelude::*;

use crate::obstacle::LaneCar;
use crate::obstacle::Obstacle;
use crate::obstacle::TransferringLaneCar;

verus! {

/// Obstacles in non-decreasing position order.
pub open spec fn obstacles_sorted(s: Seq<Obstacle>) -> bool {
    forall|i: int, j: int| 0 <= i < j < s.len() ==> s[i].position <= s[j].position
}

/// Cars in non-decreasing position order.
pub open spec fn cars_sorted(s: Seq<LaneCar>) -> bool {
    forall|i: int, j: int|
        0 <= i < j < s.len() ==> s[i].as_obstacle.position <= s[j].as_obstacle.position
}

/// Transferring cars in non-decreasing position order.
pub open spec fn transfer_cars_sorted(s: Seq<TransferringLaneCar>) -> bool {
    forall|i: int, j: int|
        0 <= i < j < s.len() ==> s[i].as_lane_car.as_obstacle.position
            <= s[j].as_lane_car.as_obstacle.position
}

/// Swapping two adjacent elements leaves the multiset of elements unchanged.
proof fn lemma_swap_preserves_multiset<T>(pre: Seq<T>, post: Seq<T>, j: int)
    requires
        0 < j < pre.len(),
        post == pre.update(j - 1, pre[j]).update(j, pre[j - 1]),
    ensures
        post.to_multiset() == pre.to_multiset(),
{
    broadcast use vstd::seq_lib::to_multiset_update;

    pre.to_multiset_ensures();
    let x = pre[j - 1];
    let y = pre[j];
    assert(pre.contains(x)) by {
        assert(pre[j - 1] == x);
    }
    assert(pre.update(j - 1, y)[j] == y);
    assert(pre.to_multiset().count(x) > 0);
    assert(post.to_multiset() =~= pre.to_multiset());
}

/// Sorts obstacles by position.
pub fn sort_obstacles(v: &mut Vec<Obstacle>)
    ensures
        obstacles_sorted(final(v)@),
        final(v)@.to_multiset() == old(v)@.to_multiset(),
        final(v)@.len() == old(v)@.len(),
{
    broadcast use vstd::seq_lib::to_multiset_update;

    let ghost m0 = v@.to_multiset();
    let n: usize = v.len();
    let mut i: usize = 1;
    while i < n
        invariant
            1 <= i <= n || n == 0,
            n == v@.len(),
            v@.to_multiset() == m0,
            forall|a: int, b: int| 0 <= a < b < i ==> v@[a].position <= v@[b].position,
        decreases n - i,
    {
        let mut j: usize = i;
        while j > 0 && v[j - 1].position > v[j].position
            invariant
                0 <= j <= i < n,
                n == v@.len(),
                v@.to_multiset() == m0,
                forall|a: int, b: int|
                    0 <= a < b <= i && b != j ==> v@[a].position <= v@[b].position,
            decreases j,
        {
            let ghost pre = v@;
            let x: Obstacle = v[j - 1];
            let y: Obstacle = v[j];
            v[j - 1] = y;
            v[j] = x;
            proof {
                lemma_swap_preserves_multiset(pre, v@, j as int);
            }
            j = j - 1;
        }
        i = i + 1;
    }
}

/// Sorts lane cars by position.
pub fn sort_cars(v: &mut Vec<LaneCar>)
    ensures
        cars_sorted(final(v)@),
        final(v)@.to_multiset() == old(v)@.to_multiset(),
        final(v)@.len() == old(v)@.len(),
{
    broadcast use vstd::seq_lib::to_multiset_update;

    let ghost m0 = v@.to_multiset();
    let n: usize = v.len();
    let mut i: usize = 1;
    while i < n
        invariant
            1 <= i <= n || n == 0,
            n == v@.len(),
            v@.to_multiset() == m0,
            forall|a: int, b: int|
                0 <= a < b < i ==> v@[a].as_obstacle.position <= v@[b].as_obstacle.position,
        decreases n - i,
    {
        let mut j: usize = i;
        while j > 0 && v[j - 1].as_obstacle.position > v[j].as_obstacle.position
            invariant
                0 <= j <= i < n,
                n == v@.len(),
                v@.to_multiset() == m0,
                forall|a: int, b: int|
                    0 <= a < b <= i && b != j ==> v@[a].as_obstacle.position
                        <= v@[b].as_obstacle.position,
            decreases j,
        {
            let ghost pre = v@;
            let x: LaneCar = v[j - 1];
            let y: LaneCar = v[j];
            v[j - 1] = y;
            v[j] = x;
            proof {
                lemma_swap_preserves_multiset(pre, v@, j as int);
            }
            j = j - 1;
        }
        i = i + 1;
    }
}

/// Sorts transferring cars by position.
pub fn sort_transfer_cars(v: &mut Vec<TransferringLaneCar>)
    ensures
        transfer_cars_sorted(final(v)@),
        final(v)@.to_multiset() == old(v)@.to_multiset(),
        final(v)@.len() == old(v)@.len(),
{
    broadcast use vstd::seq_lib::to_multiset_update;

    let ghost m0 = v@.to_multiset();
    let n: usize = v.len();
    let mut i: usize = 1;
    while i < n
        invariant
            1 <= i <= n || n == 0,
            n == v@.len(),
            v@.to_multiset() == m0,
            forall|a: int, b: int|
                0 <= a < b < i ==> v@[a].as_lane_car.as_obstacle.position
                    <= v@[b].as_lane_car.as_obstacle.position,
        decreases n - i,
    {
        let mut j: usize = i;
        while j > 0 && v[j - 1].as_lane_car.as_obstacle.position
            > v[j].as_lane_car.as_obstacle.position
            invariant
                0 <= j <= i < n,
                n == v@.len(),
                v@.to_multiset() == m0,
                forall|a: int, b: int|
                    0 <= a < b <= i && b != j ==> v@[a].as_lane_car.as_obstacle.position
                        <= v@[b].as_lane_car.as_obstacle.position,
            decreases j,
        {
            let ghost pre = v@;
            let x: TransferringLaneCar = v[j - 1];
            let y: TransferringLaneCar = v[j];
            v[j - 1] = y;
            v[j] = x;
            proof {
                lemma_swap_preserves_multiset(pre, v@, j as int);
            }
            j = j - 1;
        }
        i = i + 1;
    }
}

} // verus!
