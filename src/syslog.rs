//! Domain events emitted by the simulation.
use crate::ship::ShipId;
use vstd::prelude::*;

verus! {

#[derive(Debug, Clone, Copy, PartialEq, Eq, Structural)]
pub enum SyslogEvent {
    GameStarted,
    ShipFlightFinished(ShipId),
    ExtractionStopped(ShipId),
    ShipDestroyed(ShipId),
}

} // verus!
