//! Directed relationships between a lane and a partner lane.

use vstd::prelude::*;

use crate::ids::ActorId;
use crate::units::MAX_POSITION;

verus! {

/// How two overlapping lanes relate: side by side, or crossing.
#[derive(Clone, Copy, PartialEq, Eq, Structural, Debug)]
pub enum OverlapKind {
    /// Cars on the partner act as moving obstacles here.
    Parallel,
    /// The lanes cross: one car inside the window blocks the partner's
    /// window outright.
    Conflicting,
}

/// The kind of a relationship, with its arc-length windows.
#[derive(Clone, Copy, PartialEq, Eq, Structural, Debug)]
pub enum InteractionKind {
    /// The two lanes share physical space between `start..end` here and
    /// `partner_start..partner_end` on the partner.
    Overlap {
        start: i64,
        end: i64,
        partner_start: i64,
        partner_end: i64,
        kind: OverlapKind,
    },
    /// Cars exiting this lane's end enter the partner at `partner_start`.
    Next { partner_start: i64 },
    /// The partner feeds into this lane at `start`; `partner_length` is the
    /// partner's length.
    Previous { start: i64, partner_length: i64 },
}

/// A directed relationship from a lane to `partner_lane`.
#[derive(Clone, Copy, PartialEq, Eq, Structural, Debug)]
pub struct Interaction {
    pub partner_lane: ActorId,
    pub kind: InteractionKind,
}

/// Arc-length fields an interaction may carry: non-negative, bounded, with
/// each overlap window in ascending order.
pub open spec fn interaction_valid(i: Interaction) -> bool {
    match i.kind {
        InteractionKind::Overlap { start, end, partner_start, partner_end, kind } => {
            &&& 0 <= start <= end <= MAX_POSITION
            &&& 0 <= partner_start <= partner_end <= MAX_POSITION
        },
        InteractionKind::Next { partner_start } => 0 <= partner_start <= MAX_POSITION,
        InteractionKind::Previous { start, partner_length } => {
            &&& 0 <= start <= MAX_POSITION
            &&& 0 <= partner_length <= MAX_POSITION
        },
    }
}

} // verus!
