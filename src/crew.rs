//! Crew members: a role and a rank.
use std::collections::BTreeMap;
use vstd::prelude::*;

verus! {

pub type CrewId = u32;

#[derive(Debug, Clone, Copy, PartialEq, Eq, Structural)]
pub enum CrewMemberType {
    Pilot,
    Operator,
    Trader,
    Soldier,
}

#[derive(Debug, Clone, Copy, PartialEq, Eq, Structural)]
pub struct CrewMember {
    pub member_type: CrewMemberType,
    pub rank: u8,
}

/// Crew members by identity.
#[derive(Debug)]
pub struct Crew(pub BTreeMap<CrewId, CrewMember>);

impl Crew {
    pub fn new() -> (r: Crew)
        ensures
            r.0@ == Map::<CrewId, CrewMember>::empty(),
    {
        Crew(BTreeMap::new())
    }
}

impl From<CrewMemberType> for CrewMember {
    /// A newly hired member starts at rank 1.
    fn from(member_type: CrewMemberType) -> (r: CrewMember) {
        CrewMember { member_type, rank: 1 }
    }
}

impl vstd::std_specs::convert::FromSpecImpl<CrewMemberType> for CrewMember {
    open spec fn obeys_from_spec() -> bool {
        true
    }

    open spec fn from_spec(member_type: CrewMemberType) -> CrewMember {
        CrewMember { member_type, rank: 1 }
    }
}

} // verus!
