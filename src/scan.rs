//! What a scan of the galaxy reveals.
use crate::geometry::SpaceCoord;
use crate::planet::PlanetInfo;
use crate::station::StationId;
use vstd::prelude::*;

verus! {

/// Revealed information on one station.
#[derive(Debug, Clone, Copy, PartialEq, Eq)]
pub struct StationInfo {
    pub id: StationId,
    pub position: SpaceCoord,
}

#[derive(Debug)]
pub struct ScanResult {
    pub planets: Vec<PlanetInfo>,
    pub stations: Vec<StationInfo>,
}

impl ScanResult {
    pub fn empty() -> (r: ScanResult)
        ensures
            r.planets@.len() == 0,
            r.stations@.len() == 0,
    {
        ScanResult { planets: Vec::new(), stations: Vec::new() }
    }
}

} // verus!
