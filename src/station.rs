//! Player-owned stations and the crew posted there.
use crate::crew::{Crew, CrewId, CrewMember, CrewMemberType};
use crate::errors::Errcode;
use crate::geometry::SpaceCoord;
use crate::market::{fee_rate, spec_fee_rate};
use crate::ship::extraction::{ShipCargo, ShipModule};
use crate::ship::Ship;
use vstd::prelude::*;

verus! {

broadcast use vstd::laws_cmp::group_laws_cmp;

pub type StationId = u32;

/// Capacity of a new station's hold: two hundred volume units.
pub const STATION_CARGO_CAPACITY: u64 = 20_000_000;

#[derive(Debug)]
pub struct Station {
    pub id: StationId,
    pub position: SpaceCoord,
    /// Hired crew members not yet posted anywhere.
    pub idle_crew: Crew,
    /// The trader that sets the station's fees.
    pub trader: Option<CrewMember>,
    pub cargo: ShipCargo,
}

/// How a crew member leaves the idle pool: `id` must be there with the wanted
/// role, and the post it goes to must be free.
pub open spec fn posting_error(
    idle: Map<CrewId, CrewMember>,
    id: CrewId,
    role: CrewMemberType,
    post_taken: bool,
) -> Option<Errcode> {
    if !idle.contains_key(id) {
        Some(Errcode::NoSuchCrew(id))
    } else if idle[id].member_type != role {
        Some(Errcode::WrongCrewType)
    } else if post_taken {
        Some(Errcode::CrewSlotTaken)
    } else {
        None
    }
}

impl Station {
    /// A new station at `position`, without crew.
    pub open spec fn is_new(&self, id: StationId, position: SpaceCoord) -> bool {
        &&& self.id == id
        &&& self.position == position
        &&& self.idle_crew.0@ == Map::<CrewId, CrewMember>::empty()
        &&& self.trader is None
        &&& self.cargo.wf()
        &&& self.cargo.usage == 0
        &&& self.cargo.capacity == STATION_CARGO_CAPACITY
    }

    pub fn init(id: StationId, position: SpaceCoord) -> (r: Station)
        ensures
            r.is_new(id, position),
    {
        let cargo = ShipCargo::new(STATION_CARGO_CAPACITY);
        Station { id, position, idle_crew: Crew::new(), trader: None, cargo }
    }

    /// Hires a crew member of the given role at rank 1 into the idle pool, under
    /// a random identity (a member already under it is replaced).
    pub fn hire_crew(&mut self, member_type: CrewMemberType) -> (r: CrewId)
        ensures
            final(self).idle_crew.0@ == old(self).idle_crew.0@.insert(r, CrewMember { member_type, rank: 1 }),
            final(self).id == old(self).id,
            final(self).position == old(self).position,
            final(self).trader == old(self).trader,
            final(self).cargo == old(self).cargo,
    {
        let id: CrewId = rand::random();
        self.idle_crew.0.insert(id, CrewMember::from(member_type));
        id
    }

    fn take_idle(&mut self, id: CrewId, role: CrewMemberType, post_taken: bool) -> (r: Result<CrewMember, Errcode>)
        ensures
            match posting_error(old(self).idle_crew.0@, id, role, post_taken) {
                Some(e) => r == Err::<CrewMember, Errcode>(e) && final(self).idle_crew.0@ == old(self).idle_crew.0@,
                None => r == Ok::<CrewMember, Errcode>(old(self).idle_crew.0@[id])
                    && final(self).idle_crew.0@ == old(self).idle_crew.0@.remove(id),
            },
            final(self).id == old(self).id,
            final(self).position == old(self).position,
            final(self).trader == old(self).trader,
            final(self).cargo == old(self).cargo,
    {
        let member = match self.idle_crew.0.get(&id) {
            None => {
                return Err(Errcode::NoSuchCrew(id));
            },
            Some(m) => *m,
        };
        if member.member_type != role {
            return Err(Errcode::WrongCrewType);
        }
        if post_taken {
            return Err(Errcode::CrewSlotTaken);
        }
        let _ = self.idle_crew.0.remove(&id);
        Ok(member)
    }

    /// Moves the idle trader `id` to the station's trading post.
    pub fn assign_trader(&mut self, id: CrewId) -> (r: Result<(), Errcode>)
        ensures
            match posting_error(old(self).idle_crew.0@, id, CrewMemberType::Trader, old(self).trader is Some) {
                Some(e) => r == Err::<(), Errcode>(e) && final(self).idle_crew.0@ == old(self).idle_crew.0@
                    && final(self).trader == old(self).trader,
                None => r is Ok && final(self).idle_crew.0@ == old(self).idle_crew.0@.remove(id)
                    && final(self).trader == Some(old(self).idle_crew.0@[id]),
            },
            final(self).id == old(self).id,
            final(self).position == old(self).position,
            final(self).cargo == old(self).cargo,
    {
        let taken = self.trader.is_some();
        let member = self.take_idle(id, CrewMemberType::Trader, taken)?;
        self.trader = Some(member);
        Ok(())
    }

    /// Moves the idle pilot `id` aboard `ship`.
    pub fn onboard_pilot(&mut self, id: CrewId, ship: &mut Ship) -> (r: Result<(), Errcode>)
        ensures
            match posting_error(old(self).idle_crew.0@, id, CrewMemberType::Pilot, old(ship).pilot is Some) {
                Some(e) => r == Err::<(), Errcode>(e) && final(self).idle_crew.0@ == old(self).idle_crew.0@
                    && *final(ship) == *old(ship),
                None => r is Ok && final(self).idle_crew.0@ == old(self).idle_crew.0@.remove(id)
                    && *final(ship) == (Ship { pilot: Some(old(self).idle_crew.0@[id]), ..*old(ship) }),
            },
            final(self).id == old(self).id,
            final(self).position == old(self).position,
            final(self).trader == old(self).trader,
            final(self).cargo == old(self).cargo,
    {
        let taken = ship.pilot.is_some();
        let member = self.take_idle(id, CrewMemberType::Pilot, taken)?;
        ship.pilot = Some(member);
        Ok(())
    }

    /// Moves the idle operator `id` to the module at `module` on `ship`.
    pub fn onboard_operator(&mut self, id: CrewId, ship: &mut Ship, module: usize) -> (r: Result<(), Errcode>)
        ensures
            module >= old(ship).modules@.len() ==> r == Err::<(), Errcode>(Errcode::NoSuchModule(module as u32))
                && final(self).idle_crew.0@ == old(self).idle_crew.0@ && *final(ship) == *old(ship),
            module < old(ship).modules@.len() ==> match posting_error(
                old(self).idle_crew.0@,
                id,
                CrewMemberType::Operator,
                old(ship).modules@[module as int].operator is Some,
            ) {
                Some(e) => r == Err::<(), Errcode>(e) && final(self).idle_crew.0@ == old(self).idle_crew.0@
                    && *final(ship) == *old(ship),
                None => r is Ok && final(self).idle_crew.0@ == old(self).idle_crew.0@.remove(id)
                    && final(ship).modules@ == old(ship).modules@.update(
                    module as int,
                    ShipModule { operator: Some(old(self).idle_crew.0@[id]), ..old(ship).modules@[module as int] },
                ) && *final(ship) == (Ship { modules: final(ship).modules, ..*old(ship) }),
            },
            final(self).id == old(self).id,
            final(self).position == old(self).position,
            final(self).trader == old(self).trader,
            final(self).cargo == old(self).cargo,
    {
        if module >= ship.modules.len() {
            return Err(Errcode::NoSuchModule(module as u32));
        }
        let m = ship.modules[module];
        let member = self.take_idle(id, CrewMemberType::Operator, m.operator.is_some())?;
        ship.modules.set(module, ShipModule { operator: Some(member), ..m });
        Ok(())
    }

    /// Fee rate of the station's trader, in basis points.
    pub fn trader_fee_rate(&self) -> (r: Result<u64, Errcode>)
        ensures
            match self.trader {
                None => r == Err::<u64, Errcode>(Errcode::NoTraderAssigned),
                Some(t) => r == Ok::<u64, Errcode>(spec_fee_rate(t.rank)),
            },
    {
        match self.trader {
            None => Err(Errcode::NoTraderAssigned),
            Some(t) => Ok(fee_rate(t.rank)),
        }
    }
}

} // verus!
