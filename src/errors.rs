//! Typed failures reported by the simulation core.
use vstd::prelude::*;

verus! {

#[derive(Debug, Clone, Copy, PartialEq, Eq, Structural)]
pub enum Errcode {
    /// The ship has no pilot to fly it.
    NoPilotAssigned,
    /// The destination is the ship's own position.
    NullDistance,
    /// Not enough fuel or hull left for the travel.
    ShipNotEnoughResources,
    /// The ship is busy travelling or extracting.
    ShipNotIdle,
    /// The ship is not travelling.
    ShipNotInFlight,
    /// The ship is not extracting.
    ShipNotExtracting,
    /// No planet stands at the ship's position.
    NoPlanetHere,
    /// No installed module can extract anything from the planet.
    CannotExtractResource,
    /// The ship is not at the station.
    ShipNotInStation,
    /// No idle crew member with this identity at the station.
    NoSuchCrew(u32),
    /// The crew member's role does not fit the assignment.
    WrongCrewType,
    /// The post is already held by a crew member.
    CrewSlotTaken,
    /// No module at this position on the ship.
    NoSuchModule(u32),
    /// The station has no trader.
    NoTraderAssigned,
    /// The player owns a ship with this identity already.
    ShipIdTaken(u32),
    /// No player with this identity.
    NoSuchPlayer(u32),
    /// A player of this name exists already; it carries that player's identity.
    PlayerAlreadyExists(u32),
    /// The identity drawn for a new player is taken already.
    PlayerIdTaken(u32),
    /// The generated sector holds no planet to anchor a station to.
    NoPlanetInSector,
    /// The placement search gave up: a configuration or geometry defect, not a
    /// transient condition.
    TooManyRetries,
}

} // verus!
