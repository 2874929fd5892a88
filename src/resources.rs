//! Resources that ships extract, carry and sell.
use vstd::prelude::*;

verus! {

#[derive(Debug, Clone, Copy, PartialEq, Eq, Structural, PartialOrd, Ord, Hash)]
pub enum Resource {
    // Solid or liquid
    Stone,
    Iron,
    Copper,
    Gold,
    // Gaseous
    Helium,
    Ozone,
    Freon,
    Oxygen,
    // Crafted
    Fuel,
    HullPlate,
}

pub open spec fn spec_is_solid(r: Resource) -> bool {
    matches!(r, Resource::Stone | Resource::Iron | Resource::Copper | Resource::Gold)
}

pub open spec fn spec_is_gas(r: Resource) -> bool {
    matches!(r, Resource::Helium | Resource::Ozone | Resource::Freon | Resource::Oxygen)
}

pub open spec fn spec_min_rank(r: Resource) -> u8 {
    match r {
        Resource::Stone | Resource::Helium => 0,
        Resource::Iron | Resource::Ozone => 2,
        Resource::Copper | Resource::Freon => 5,
        Resource::Gold | Resource::Oxygen => 9,
        Resource::Fuel | Resource::HullPlate => 0,
    }
}

pub open spec fn spec_mineable(r: Resource, rank: u8) -> bool {
    spec_is_solid(r) && rank > spec_min_rank(r)
}

pub open spec fn spec_suckable(r: Resource, rank: u8) -> bool {
    spec_is_gas(r) && rank > spec_min_rank(r)
}

/// Volume of one unit, in hundredths.
pub open spec fn spec_volume(r: Resource) -> u64 {
    match r {
        Resource::Stone | Resource::Helium => 75,
        Resource::Iron | Resource::Ozone => 250,
        Resource::Copper | Resource::Freon => 300,
        Resource::Gold | Resource::Oxygen => 25,
        Resource::Fuel => 200,
        Resource::HullPlate => 5,
    }
}

/// Every resource, in declaration order.
pub open spec fn spec_all_resources() -> Seq<Resource> {
    seq![
        Resource::Stone,
        Resource::Iron,
        Resource::Copper,
        Resource::Gold,
        Resource::Helium,
        Resource::Ozone,
        Resource::Freon,
        Resource::Oxygen,
        Resource::Fuel,
        Resource::HullPlate,
    ]
}

/// Base price of one unit, in hundredths of a credit.
pub open spec fn spec_base_price(r: Resource) -> u64 {
    match r {
        Resource::Stone | Resource::Helium => 800u64,
        Resource::Iron | Resource::Ozone => 3200,
        Resource::Copper | Resource::Freon => 9200,
        Resource::Gold | Resource::Oxygen => 16000,
        Resource::Fuel => 190,
        Resource::HullPlate => 75,
    }
}

/// Position of a resource in declaration order.
pub open spec fn spec_resource_index(r: Resource) -> usize {
    match r {
        Resource::Stone => 0,
        Resource::Iron => 1,
        Resource::Copper => 2,
        Resource::Gold => 3,
        Resource::Helium => 4,
        Resource::Ozone => 5,
        Resource::Freon => 6,
        Resource::Oxygen => 7,
        Resource::Fuel => 8,
        Resource::HullPlate => 9,
    }
}

impl Resource {
    pub open spec fn spec_index(&self) -> usize {
        spec_resource_index(*self)
    }

    /// Position of the resource in declaration order.
    pub fn index(&self) -> (r: usize)
        ensures
            r == self.spec_index(),
            r < spec_all_resources().len(),
            spec_all_resources()[r as int] == *self,
    {
        match self {
            Resource::Stone => 0,
            Resource::Iron => 1,
            Resource::Copper => 2,
            Resource::Gold => 3,
            Resource::Helium => 4,
            Resource::Ozone => 5,
            Resource::Freon => 6,
            Resource::Oxygen => 7,
            Resource::Fuel => 8,
            Resource::HullPlate => 9,
        }
    }

    /// Crafted resources count in a player's score.
    pub fn scored(&self) -> (r: bool)
        ensures
            r == (*self == Resource::Fuel || *self == Resource::HullPlate),
    {
        matches!(self, Resource::Fuel | Resource::HullPlate)
    }

    /// Base price of one unit, in hundredths of a credit.
    pub fn base_price(&self) -> (r: u64)
        ensures
            r == spec_base_price(*self),
    {
        match self {
            Resource::Stone | Resource::Helium => 800,
            Resource::Iron | Resource::Ozone => 3200,
            Resource::Copper | Resource::Freon => 9200,
            Resource::Gold | Resource::Oxygen => 16000,
            Resource::Fuel => 190,
            Resource::HullPlate => 75,
        }
    }

    /// Volume of one unit, in hundredths.
    pub fn volume(&self) -> (r: u64)
        ensures
            r == spec_volume(*self),
            r > 0,
    {
        match self {
            Resource::Stone | Resource::Helium => 75,
            Resource::Iron | Resource::Ozone => 250,
            Resource::Copper | Resource::Freon => 300,
            Resource::Gold | Resource::Oxygen => 25,
            Resource::Fuel => 200,
            Resource::HullPlate => 5,
        }
    }

    /// Difficulty of extracting the resource, in hundredths; crafted resources
    /// cannot be extracted.
    pub fn extraction_difficulty(&self) -> (r: u64)
        requires
            spec_is_solid(*self) || spec_is_gas(*self),
        ensures
            r == match *self {
                Resource::Stone | Resource::Helium => 25u64,
                Resource::Iron | Resource::Ozone => 70,
                Resource::Copper | Resource::Freon => 190,
                _ => 295,
            },
            r > 0,
    {
        match self {
            Resource::Stone | Resource::Helium => 25,
            Resource::Iron | Resource::Ozone => 70,
            Resource::Copper | Resource::Freon => 190,
            _ => 295,
        }
    }

    /// Rank that an operator must exceed to extract the resource.
    pub fn min_rank(&self) -> (r: u8)
        ensures
            r == spec_min_rank(*self),
    {
        match self {
            Resource::Stone | Resource::Helium => 0,
            Resource::Iron | Resource::Ozone => 2,
            Resource::Copper | Resource::Freon => 5,
            Resource::Gold | Resource::Oxygen => 9,
            Resource::Fuel | Resource::HullPlate => 0,
        }
    }

    /// Whether a miner operated at `rank` can extract this resource.
    pub fn mineable(&self, rank: u8) -> (r: bool)
        ensures
            r == spec_mineable(*self, rank),
    {
        match self {
            Resource::Stone | Resource::Iron | Resource::Copper | Resource::Gold => rank
                > self.min_rank(),
            _ => false,
        }
    }

    /// Whether a gas sucker operated at `rank` can extract this resource.
    pub fn suckable(&self, rank: u8) -> (r: bool)
        ensures
            r == spec_suckable(*self, rank),
    {
        match self {
            Resource::Helium | Resource::Ozone | Resource::Freon | Resource::Oxygen => rank
                > self.min_rank(),
            _ => false,
        }
    }

    /// Every resource, in declaration order.
    pub fn all() -> (r: Vec<Resource>)
        ensures
            r@ == spec_all_resources(),
    {
        let r = vec![
            Resource::Stone,
            Resource::Iron,
            Resource::Copper,
            Resource::Gold,
            Resource::Helium,
            Resource::Ozone,
            Resource::Freon,
            Resource::Oxygen,
            Resource::Fuel,
            Resource::HullPlate,
        ];
        assert(r@ =~= spec_all_resources());
        r
    }
}

} // verus!
