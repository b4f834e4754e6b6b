//! Verified core of an audio routing engine: device heuristics, source
//! identifiers, the routing graph of virtual devices, recording session
//! bookkeeping and the LAN audio packet format.
use vstd::prelude::*;

pub mod devices;
pub mod edit;
pub mod engine;
pub mod network;
pub mod platform;
pub mod profile;
pub mod recording;
pub mod router;
pub mod routing;
pub mod sessions;
pub mod sources;
pub mod text;
