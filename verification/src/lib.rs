//! Core of a lane-based traffic micro-simulation.
//!
//! Every lane of road is an independent actor: it advances the kinematics of
//! the cars it carries on each tick, discovers its connectivity to neighbour
//! lanes, and exchanges obstacle and handoff messages with them.  All
//! quantities are fixed-point integers: one metre, second or metre-per-second
//! is `SCALE` units.  Handlers are pure state transitions that return the
//! messages to send, so the actor substrate and the geometry collaborator
//! stay outside the library.

pub mod idm;
pub mod lane;
pub mod laws;
pub mod ids;
pub mod interaction;
pub mod messages;
pub mod obstacle;
pub mod sorting;
pub mod transfer;
pub mod units;
