//! Identities handed out by the actor substrate, and the fate a handler
//! reports back to it.

use vstd::prelude::*;

verus! {

/// Identity of an actor instance.  The substrate guarantees a per-instance
/// number, which the traffic logic uses for its throttling phase.
#[derive(Clone, Copy, PartialEq, Eq, Structural, Debug)]
pub struct ActorId {
    pub instance: u64,
}

impl ActorId {
    /// The placeholder identity a lane carries until the substrate assigns
    /// one.
    pub fn invalid() -> (r: ActorId)
        ensures
            r.instance == 0,
    {
        ActorId { instance: 0 }
    }
}

/// Opaque reference under which the planning layer knows a buildable.
#[derive(Clone, Copy, PartialEq, Eq, Structural, Debug)]
pub struct BuildableRef {
    pub index: u64,
}

/// What a handler tells the substrate about the actor's future.
#[derive(Clone, Copy, PartialEq, Eq, Structural, Debug)]
pub enum Fate {
    Live,
    Die,
}

} // verus!
