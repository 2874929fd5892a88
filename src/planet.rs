//! Planets: immutable once created.
use crate::geometry::SpaceCoord;
use crate::random::random_ratio;
use crate::resources::{spec_mineable, spec_suckable, Resource};
use vstd::prelude::*;

verus! {

/// What a scan reveals of a planet.
#[derive(Debug, Clone, Copy, PartialEq, Eq)]
pub struct PlanetInfo {
    pub position: SpaceCoord,
    pub temperature: u16,
    pub solid: bool,
}

#[derive(Debug, Clone, Copy, PartialEq, Eq)]
pub struct Planet {
    pub position: SpaceCoord,
    pub temperature: u16,
    pub solid: bool,
}

pub open spec fn spec_planet_info(planet: Planet) -> PlanetInfo {
    PlanetInfo { position: planet.position, temperature: planet.temperature, solid: planet.solid }
}

/// Density of a resource on a planet, in hundredths.
pub open spec fn spec_density(planet: Planet, resource: Resource) -> u64 {
    if planet.solid && spec_mineable(resource, u8::MAX) {
        625
    } else if !planet.solid && spec_suckable(resource, u8::MAX) {
        625
    } else {
        0
    }
}

impl PlanetInfo {
    /// What a scanner of any rank reveals of `planet`.
    pub fn scan(_rank: u8, planet: &Planet) -> (r: PlanetInfo)
        ensures
            r == spec_planet_info(*planet),
    {
        PlanetInfo { position: planet.position, temperature: planet.temperature, solid: planet.solid }
    }
}

impl Planet {
    pub fn new(position: SpaceCoord, temperature: u16, solid: bool) -> (r: Planet)
        ensures
            r == (Planet { position, temperature, solid }),
    {
        Planet { position, temperature, solid }
    }

    /// A planet at `coord`, solid two times out of five, at a random temperature.
    pub fn random(coord: SpaceCoord) -> (r: Planet)
        ensures
            r.position == coord,
    {
        let solid = random_ratio(2, 5);
        let temperature: u16 = rand::random();
        Planet { solid, temperature, position: coord }
    }

    /// Density of `resource` on this planet, in hundredths.
    pub fn resource_density(&self, resource: &Resource) -> (r: u64)
        ensures
            r == spec_density(*self, *resource),
    {
        if self.solid && resource.mineable(u8::MAX) {
            625
        } else if !self.solid && resource.suckable(u8::MAX) {
            625
        } else {
            0
        }
    }
}

} // verus!
