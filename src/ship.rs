//! Ships and their state machine: idle, in flight, extracting.
pub mod extraction;
pub mod navigation;

use crate::crew::CrewMember;
use crate::errors::Errcode;
use crate::galaxy::{Galaxy, SpaceObject};
use crate::geometry::{
    dist_sq, get_delta, get_travel_distance, is_ceil_sqrt, lemma_ceil_sqrt_unique,
    lemma_direction_along_ray, lemma_direction_scales, travel_dist_sq,
    lemma_distance_scales, same_coord, sq, SpaceCoord,
};
use crate::planet::Planet;
use crate::resources::{spec_all_resources, Resource};
use crate::station::Station;
use extraction::{fill, total_rate, ExtractionInfo, ShipCargo, ShipModule, MAX_MODULES};
use navigation::{
    compute_cost, cost_of_distance, cost_share, flight_position, pro_rata, FlightData, ShipStats,
    Travel, TravelCost, MAX_DISTANCE, MAX_RATE,
};
use vstd::prelude::*;

verus! {

pub type ShipId = u32;

/// Longest time step a ship can be advanced by, in milliseconds.
pub const MAX_STEP_MS: u64 = 0x1_0000_0000;

#[derive(Debug)]
pub enum ShipState {
    Idle,
    InFlight(FlightData),
    Extracting(ExtractionInfo),
}

#[derive(Debug)]
pub struct Ship {
    pub id: ShipId,
    pub position: SpaceCoord,
    pub state: ShipState,
    pub stats: ShipStats,
    pub pilot: Option<CrewMember>,
    pub fuel_tank: u64,
    pub fuel_tank_capacity: u64,
    pub hull_decay: u64,
    pub hull_decay_capacity: u64,
    pub modules: Vec<ShipModule>,
    pub cargo: ShipCargo,
}

/// `c` is the cost of travelling from `from` to `to` with `stats`.
pub open spec fn is_travel_cost(stats: ShipStats, from: SpaceCoord, to: SpaceCoord, c: TravelCost) -> bool {
    &&& is_ceil_sqrt(travel_dist_sq(from, to), c.distance as int)
    &&& c == cost_of_distance(
        stats,
        ((to.0 - from.0) as i64, (to.1 - from.1) as i64, (to.2 - from.2) as i64),
        c.distance,
    )
}

/// The fuel and hull left to `ship` cover `cost`.
pub open spec fn spec_have_enough(cost: TravelCost, ship: Ship) -> bool {
    ship.fuel_tank >= cost.fuel_consumption && ship.hull_decay_capacity - ship.hull_decay
        >= cost.hull_usage
}

proof fn lemma_distance_bound(from: SpaceCoord, to: SpaceCoord, d: u64)
    requires
        is_ceil_sqrt(travel_dist_sq(from, to), d as int),
    ensures
        d <= MAX_DISTANCE,
{
    let m = dist_sq(from, to);
    let a = to.0 - from.0;
    let b = to.1 - from.1;
    let c = to.2 - from.2;
    assert(a * a <= 0xffff_ffff * 0xffff_ffff) by (nonlinear_arith)
        requires
            -0xffff_ffff <= a <= 0xffff_ffff,
    ;
    assert(b * b <= 0xffff_ffff * 0xffff_ffff) by (nonlinear_arith)
        requires
            -0xffff_ffff <= b <= 0xffff_ffff,
    ;
    assert(c * c <= 0xffff_ffff * 0xffff_ffff) by (nonlinear_arith)
        requires
            -0xffff_ffff <= c <= 0xffff_ffff,
    ;
    let n = travel_dist_sq(from, to);
    assert(n < 0x4000_0000_0000_0000_0000_0000) by (nonlinear_arith)
        requires
            n == m * (10_000 * 10_000),
            m == a * a + b * b + c * c,
            a * a <= 0xffff_ffff * 0xffff_ffff,
            b * b <= 0xffff_ffff * 0xffff_ffff,
            c * c <= 0xffff_ffff * 0xffff_ffff,
    ;
    if d > 0 {
        assert(d <= MAX_DISTANCE) by (nonlinear_arith)
            requires
                (d - 1) * (d - 1) < n,
                n < 0x4000_0000_0000_0000_0000_0000,
                d >= 1,
        ;
    }
}

/// Distance done after advancing the flight of `s` by `dt_ms`, before capping.
pub open spec fn flight_progress(s: Ship, dt_ms: u64) -> int {
    s.state->InFlight_0.dist_done + (dt_ms * 1_000_000) / s.stats.pace as int
}

/// Whether advancing the flight of `s` by `dt_ms` reaches the destination.
pub open spec fn flight_completes(s: Ship, dt_ms: u64) -> bool {
    flight_progress(s, dt_ms) >= s.state->InFlight_0.dist_tot
}

/// The ship after its flight is advanced by `dt_ms`: on arrival idle at the
/// destination, fuel and hull costs taken; otherwise further along.
pub open spec fn ship_after_flight_step(s: Ship, dt_ms: u64) -> Ship {
    let f = s.state->InFlight_0;
    if flight_completes(s, dt_ms) {
        Ship {
            state: ShipState::Idle,
            position: f.destination,
            fuel_tank: (s.fuel_tank - f.fuel_cost) as u64,
            hull_decay: (s.hull_decay + f.hull_cost) as u64,
            ..s
        }
    } else {
        let g = FlightData { dist_done: flight_progress(s, dt_ms) as u64, ..f };
        Ship { state: ShipState::InFlight(g), position: flight_position(g), ..s }
    }
}

/// Whether advancing the extraction of `s` by `dt_ms` fills its hold: an amount
/// was cut or no room is left.
pub open spec fn extract_fills(s: Ship, dt_ms: u64) -> bool {
    let (res, u, cut) = fill(
        s.cargo.resources@,
        s.cargo.usage,
        s.cargo.capacity,
        s.state->Extracting_0.rates@,
        dt_ms,
        spec_all_resources().len(),
    );
    cut || u == s.cargo.capacity
}

/// `new` is `old` after its extraction advanced by `dt_ms`: the hold filled as
/// the rates give, the ship idle once the hold is full, nothing else changed.
pub open spec fn extract_stepped(old: Ship, new: Ship, dt_ms: u64) -> bool {
    let (res, u, cut) = fill(
        old.cargo.resources@,
        old.cargo.usage,
        old.cargo.capacity,
        old.state->Extracting_0.rates@,
        dt_ms,
        spec_all_resources().len(),
    );
    &&& new.cargo.resources@ == res
    &&& new.cargo.usage == u
    &&& new.cargo.capacity == old.cargo.capacity
    &&& if extract_fills(old, dt_ms) {
        new.state is Idle
    } else {
        new.state == old.state
    }
    &&& new.id == old.id
    &&& new.position == old.position
    &&& new.stats == old.stats
    &&& new.pilot == old.pilot
    &&& new.fuel_tank == old.fuel_tank
    &&& new.fuel_tank_capacity == old.fuel_tank_capacity
    &&& new.hull_decay == old.hull_decay
    &&& new.hull_decay_capacity == old.hull_decay_capacity
    &&& new.modules@ == old.modules@
}

/// Some module extracts some resource from `p`.
pub open spec fn can_extract_from(mods: Seq<ShipModule>, p: Planet) -> bool {
    exists|i: int| 0 <= i < spec_all_resources().len() && #[trigger] total_rate(mods, p, spec_all_resources()[i]) > 0
}

/// `state` is an extraction at the rates of `mods` on `p`.
pub open spec fn extracting_with(state: ShipState, mods: Seq<ShipModule>, p: Planet) -> bool {
    match state {
        ShipState::Extracting(info) => forall|i: int|
            0 <= i < info.rates@.len() ==> #[trigger] info.rates@[i] == total_rate(mods, p, spec_all_resources()[i]),
        _ => false,
    }
}

impl Ship {
    pub open spec fn wf(&self) -> bool {
        &&& self.stats.wf()
        &&& self.fuel_tank <= self.fuel_tank_capacity
        &&& self.hull_decay <= self.hull_decay_capacity
        &&& match self.state {
            ShipState::InFlight(f) => {
                &&& f.dist_done <= f.dist_tot
                &&& 0 < f.dist_tot <= MAX_DISTANCE
                &&& f.fuel_cost <= self.fuel_tank
                &&& f.hull_cost <= self.hull_decay_capacity - self.hull_decay
                &&& f.fuel_cost <= MAX_RATE * MAX_DISTANCE
                &&& f.hull_cost <= MAX_RATE * MAX_DISTANCE
            },
            ShipState::Extracting(info) => info.wf(),
            _ => true,
        }
        &&& self.modules@.len() <= MAX_MODULES
        &&& self.cargo.wf()
    }

    /// Cost of a travel from the ship's position to `destination`.
    pub fn compute_travel_costs(&self, destination: SpaceCoord) -> (r: Result<TravelCost, Errcode>)
        requires
            self.stats.wf(),
        ensures
            self.pilot is None ==> r == Err::<TravelCost, Errcode>(Errcode::NoPilotAssigned),
            self.pilot is Some && destination == self.position ==> r == Err::<TravelCost, Errcode>(
                Errcode::NullDistance,
            ),
            self.pilot is Some && destination != self.position ==> (r matches Ok(c)
                && is_travel_cost(self.stats, self.position, destination, c) && c.distance > 0),
    {
        Travel::new(destination).compute_costs(self)
    }

    /// Starts a travel to `destination`. Only an idle ship with a pilot, a distinct
    /// destination and enough fuel and hull left leaves; otherwise nothing changes.
    pub fn set_travel(&mut self, destination: SpaceCoord) -> (r: Result<TravelCost, Errcode>)
        requires
            old(self).wf(),
        ensures
            final(self).wf(),
            !(old(self).state is Idle) ==> r == Err::<TravelCost, Errcode>(Errcode::ShipNotIdle),
            old(self).state is Idle && old(self).pilot is None ==> r == Err::<TravelCost, Errcode>(
                Errcode::NoPilotAssigned,
            ),
            old(self).state is Idle && old(self).pilot is Some && destination == old(self).position
                ==> r == Err::<TravelCost, Errcode>(Errcode::NullDistance),
            old(self).state is Idle && old(self).pilot is Some && destination != old(self).position
                ==> match r {
                Ok(c) => is_travel_cost(old(self).stats, old(self).position, destination, c)
                    && spec_have_enough(c, *old(self)),
                Err(e) => e == Errcode::ShipNotEnoughResources && forall|c: TravelCost|
                    is_travel_cost(old(self).stats, old(self).position, destination, c)
                        ==> !spec_have_enough(c, *old(self)),
            },
            r is Err ==> *final(self) == *old(self),
            r matches Ok(c) ==> *final(self) == (Ship {
                state: ShipState::InFlight(
                    FlightData::spec_new(old(self).position, c, Travel { destination }),
                ),
                ..*old(self)
            }),
    {
        if !matches!(self.state, ShipState::Idle) {
            return Err(Errcode::ShipNotIdle);
        }
        let cost = match self.compute_travel_costs(destination) {
            Ok(c) => c,
            Err(e) => {
                return Err(e);
            },
        };
        if !cost.have_enough(self) {
            proof {
                assert forall|c: TravelCost|
                    is_travel_cost(old(self).stats, old(self).position, destination, c)
                        implies !spec_have_enough(c, *old(self)) by {
                    lemma_ceil_sqrt_unique(travel_dist_sq(old(self).position, destination), c.distance as int, cost.distance as int);
                }
            }
            return Err(Errcode::ShipNotEnoughResources);
        }
        proof {
            lemma_distance_bound(self.position, destination, cost.distance);
        }
        proof {
            assert(self.stats.fuel_consumption * cost.distance <= MAX_RATE * MAX_DISTANCE) by (nonlinear_arith)
                requires
                    self.stats.fuel_consumption <= MAX_RATE,
                    cost.distance <= MAX_DISTANCE,
            ;
            assert(self.stats.hull_usage_rate * cost.distance <= MAX_RATE * MAX_DISTANCE) by (nonlinear_arith)
                requires
                    self.stats.hull_usage_rate <= MAX_RATE,
                    cost.distance <= MAX_DISTANCE,
            ;
        }
        let travel = Travel::new(destination);
        let flight = FlightData::new(self.position, &cost, &travel);
        self.state = ShipState::InFlight(flight);
        Ok(cost)
    }

    /// Advances a flight by `dt_ms` milliseconds. The distance done grows by the
    /// elapsed time over the pace, and the flight ends once it reaches the total; on arrival the ship is
    /// idle at its destination and the fuel and hull costs are taken, once.
    /// Returns whether the flight completed.
    pub fn update_flight(&mut self, dt_ms: u64) -> (r: bool)
        requires
            old(self).wf(),
            old(self).state is InFlight,
            dt_ms <= MAX_STEP_MS,
        ensures
            final(self).wf(),
            r == flight_completes(*old(self), dt_ms),
            *final(self) == ship_after_flight_step(*old(self), dt_ms),
    {
        let f = match &self.state {
            ShipState::InFlight(f) => *f,
            _ => {
                return false;
            },
        };
        proof {
            assert((dt_ms * 1_000_000) / (self.stats.pace as int) <= dt_ms * 1_000_000) by (nonlinear_arith)
                requires
                    self.stats.pace >= 1,
                    dt_ms >= 0,
            ;
        }
        let done = f.dist_done + (dt_ms * 1_000_000) / self.stats.pace;
        if done >= f.dist_tot {
            self.position = f.destination;
            self.fuel_tank = self.fuel_tank - f.fuel_cost;
            self.hull_decay = self.hull_decay + f.hull_cost;
            self.state = ShipState::Idle;
            true
        } else {
            let g = FlightData { dist_done: done, ..f };
            self.position = g.position();
            self.state = ShipState::InFlight(g);
            false
        }
    }

    /// Interrupts a flight where the ship stands, taking the share of the fuel
    /// and hull costs for the part of the way done.
    pub fn stop_navigation(&mut self) -> (r: Result<(), Errcode>)
        requires
            old(self).wf(),
        ensures
            final(self).wf(),
            !(old(self).state is InFlight) ==> r == Err::<(), Errcode>(Errcode::ShipNotInFlight)
                && *final(self) == *old(self),
            old(self).state matches ShipState::InFlight(f) ==> r is Ok && *final(self) == (Ship {
                state: ShipState::Idle,
                fuel_tank: (old(self).fuel_tank - pro_rata(f.fuel_cost, f.dist_done, f.dist_tot)) as u64,
                hull_decay: (old(self).hull_decay + pro_rata(f.hull_cost, f.dist_done, f.dist_tot)) as u64,
                ..*old(self)
            }),
    {
        let f = match &self.state {
            ShipState::InFlight(f) => *f,
            _ => {
                return Err(Errcode::ShipNotInFlight);
            },
        };
        let fuel = cost_share(f.fuel_cost, f.dist_done, f.dist_tot);
        let hull = cost_share(f.hull_cost, f.dist_done, f.dist_tot);
        self.fuel_tank = self.fuel_tank - fuel;
        self.hull_decay = self.hull_decay + hull;
        self.state = ShipState::Idle;
        Ok(())
    }

    /// Starts extracting from the planet at the ship's position, with the rates of
    /// the installed modules and their operators, computed once.
    pub fn start_extraction(&mut self, galaxy: &Galaxy) -> (r: Result<(), Errcode>)
        requires
            old(self).wf(),
        ensures
            final(self).wf(),
            r is Err ==> *final(self) == *old(self),
            !(old(self).state is Idle) ==> r == Err::<(), Errcode>(Errcode::ShipNotIdle),
            old(self).state is Idle ==> match galaxy.lookup(old(self).position) {
                Some(SpaceObject::Planet(p)) => if can_extract_from(old(self).modules@, p) {
                    r is Ok && extracting_with(final(self).state, old(self).modules@, p)
                } else {
                    r == Err::<(), Errcode>(Errcode::CannotExtractResource)
                },
                _ => r == Err::<(), Errcode>(Errcode::NoPlanetHere),
            },
            r is Ok ==> final(self).position == old(self).position && final(self).cargo == old(self).cargo
                && final(self).modules == old(self).modules && final(self).fuel_tank == old(self).fuel_tank
                && final(self).hull_decay == old(self).hull_decay,
    {
        if !matches!(self.state, ShipState::Idle) {
            return Err(Errcode::ShipNotIdle);
        }
        let planet = match galaxy.get_planet(&self.position) {
            Some(p) => p,
            None => {
                return Err(Errcode::NoPlanetHere);
            },
        };
        let info = ExtractionInfo::create(self, planet);
        if !info.extracts_anything() {
            proof {
                assert forall|i: int| 0 <= i < spec_all_resources().len() implies #[trigger] total_rate(
                    self.modules@,
                    *planet,
                    spec_all_resources()[i],
                ) == 0 by {
                    assert(info.rates@[i] == 0);
                }
            }
            return Err(Errcode::CannotExtractResource);
        }
        proof {
            let i = choose|i: int| 0 <= i < info.rates@.len() && #[trigger] info.rates@[i] > 0;
            assert(total_rate(self.modules@, *planet, spec_all_resources()[i]) > 0);
            assert(exists|i: int|
                0 <= i < spec_all_resources().len() && #[trigger] total_rate(
                    old(self).modules@,
                    *planet,
                    spec_all_resources()[i],
                ) > 0);
        }
        let ghost rates = info.rates@;
        self.state = ShipState::Extracting(info);
        assert(self.state matches ShipState::Extracting(i) && i.rates@ == rates);
        assert(galaxy.lookup(old(self).position) == Some(SpaceObject::Planet(*planet)));
        Ok(())
    }

    /// Advances an extraction by `dt_ms` milliseconds: the hold grows by each rate
    /// times the elapsed time, capped by the room left. When the hold is full the
    /// ship becomes idle; returns whether it did.
    pub fn update_extract(&mut self, dt_ms: u64) -> (r: bool)
        requires
            old(self).wf(),
            old(self).state is Extracting,
            dt_ms <= MAX_STEP_MS,
        ensures
            final(self).wf(),
            r == extract_fills(*old(self), dt_ms),
            extract_stepped(*old(self), *final(self), dt_ms),
    {
        let full = match &self.state {
            ShipState::Extracting(info) => info.update_cargo(&mut self.cargo, dt_ms),
            _ => {
                return false;
            },
        };
        if full {
            self.state = ShipState::Idle;
        }
        full
    }

    /// Ends an extraction; what was extracted stays in the hold.
    pub fn stop_extraction(&mut self) -> (r: Result<(), Errcode>)
        requires
            old(self).wf(),
        ensures
            final(self).wf(),
            !(old(self).state is Extracting) ==> r == Err::<(), Errcode>(Errcode::ShipNotExtracting)
                && *final(self) == *old(self),
            old(self).state is Extracting ==> r is Ok && *final(self) == (Ship {
                state: ShipState::Idle,
                ..*old(self)
            }),
    {
        if !matches!(self.state, ShipState::Extracting(_)) {
            return Err(Errcode::ShipNotExtracting);
        }
        self.state = ShipState::Idle;
        Ok(())
    }

    /// Moves up to `amount` thousandths of `resource` from the hold to the hold of
    /// `station`, which must stand at the ship's position: as much as the ship
    /// holds and the station has room for. Returns what was moved.
    pub fn unload_cargo(&mut self, resource: &Resource, amount: u64, station: &mut Station) -> (r: Result<u64, Errcode>)
        requires
            old(self).wf(),
            old(station).cargo.wf(),
        ensures
            final(self).wf(),
            final(station).cargo.wf(),
            old(self).position != old(station).position ==> r == Err::<u64, Errcode>(Errcode::ShipNotInStation)
                && *final(self) == *old(self) && *final(station) == *old(station),
            old(self).position == old(station).position ==> {
                let i = resource.spec_index() as int;
                let held = old(self).cargo.resources@[i];
                let n = old(station).cargo.spec_fits(i, if amount <= held { amount } else { held });
                &&& r == Ok::<u64, Errcode>(n)
                &&& final(self).cargo.resources@ == old(self).cargo.resources@.update(i, (held - n) as u64)
                &&& final(station).cargo.resources@ == old(station).cargo.resources@.update(
                    i,
                    (old(station).cargo.resources@[i] + n) as u64,
                )
                &&& *final(self) == (Ship { cargo: final(self).cargo, ..*old(self) })
                &&& *final(station) == (Station { cargo: final(station).cargo, ..*old(station) })
            },
    {
        if !same_coord(&self.position, &station.position) {
            return Err(Errcode::ShipNotInStation);
        }
        let i = resource.index();
        let held = self.cargo.resources[i];
        let wanted = if amount <= held {
            amount
        } else {
            held
        };
        let n = station.cargo.add_resource(i, wanted);
        let taken = self.cargo.remove_resource(i, n);
        assert(taken == n);
        Ok(n)
    }

    /// Whether the hull has decayed to its capacity.
    pub fn is_destroyed(&self) -> (r: bool)
        ensures
            r == (self.hull_decay >= self.hull_decay_capacity),
    {
        self.hull_decay >= self.hull_decay_capacity
    }
}

/// Stretching the way to the destination by a factor `k` keeps the direction
/// and multiplies the distance by `k` up to its rounding: never above `k` times,
/// less than `k` ten-thousandths below. Duration, fuel and hull usage follow the
/// distance exactly, so none of them exceeds `k` times its value for the short way.
pub proof fn lemma_travel_cost_scaling(
    stats: ShipStats,
    a: SpaceCoord,
    b: SpaceCoord,
    c: SpaceCoord,
    k: int,
    c1: TravelCost,
    ck: TravelCost,
)
    requires
        stats.wf(),
        k >= 1,
        a != b,
        c.0 - a.0 == k * (b.0 - a.0),
        c.1 - a.1 == k * (b.1 - a.1),
        c.2 - a.2 == k * (b.2 - a.2),
        is_travel_cost(stats, a, b, c1),
        is_travel_cost(stats, a, c, ck),
    ensures
        ck.direction == c1.direction,
        k * (c1.distance - 1) < ck.distance <= k * c1.distance,
        ck.duration <= k * c1.duration,
        ck.fuel_consumption <= k * c1.fuel_consumption,
        ck.hull_usage <= k * c1.hull_usage,
        ck.duration == stats.pace * ck.distance,
        ck.fuel_consumption == stats.fuel_consumption * ck.distance,
        ck.hull_usage == stats.hull_usage_rate * ck.distance,
{
    lemma_distance_scales(a, b, c, k, c1.distance as int, ck.distance as int);
    lemma_distance_bound(a, b, c1.distance);
    lemma_distance_bound(a, c, ck.distance);
    navigation::lemma_rate_bound(stats.pace, c1.distance as int);
    navigation::lemma_rate_bound(stats.fuel_consumption, c1.distance as int);
    navigation::lemma_rate_bound(stats.hull_usage_rate, c1.distance as int);
    navigation::lemma_rate_bound(stats.pace, ck.distance as int);
    navigation::lemma_rate_bound(stats.fuel_consumption, ck.distance as int);
    navigation::lemma_rate_bound(stats.hull_usage_rate, ck.distance as int);
    let d1 = c1.distance as int;
    let dk = ck.distance as int;
    assert(stats.pace * dk <= k * (stats.pace * d1)) by (nonlinear_arith)
        requires
            dk <= k * d1,
            stats.pace >= 0,
    ;
    assert(stats.fuel_consumption * dk <= k * (stats.fuel_consumption * d1)) by (nonlinear_arith)
        requires
            dk <= k * d1,
            stats.fuel_consumption >= 0,
    ;
    assert(stats.hull_usage_rate * dk <= k * (stats.hull_usage_rate * d1)) by (nonlinear_arith)
        requires
            dk <= k * d1,
            stats.hull_usage_rate >= 0,
    ;
    let d = (b.0 - a.0, b.1 - a.1, b.2 - a.2);
    lemma_direction_scales(d, k);
    assert((k * d.0, k * d.1, k * d.2) == (c.0 - a.0, c.1 - a.1, c.2 - a.2));
}

/// Two consecutive legs along one ray, from `a` to `b` and on from `b` to `c`
/// where `n * (c - b) == m * (b - a)`, share their direction.
pub proof fn lemma_travel_direction_along_ray(
    stats: ShipStats,
    a: SpaceCoord,
    b: SpaceCoord,
    c: SpaceCoord,
    m: int,
    n: int,
    c1: TravelCost,
    c2: TravelCost,
)
    requires
        m >= 1,
        n >= 1,
        a != b,
        n * (c.0 - b.0) == m * (b.0 - a.0),
        n * (c.1 - b.1) == m * (b.1 - a.1),
        n * (c.2 - b.2) == m * (b.2 - a.2),
        is_travel_cost(stats, a, b, c1),
        is_travel_cost(stats, b, c, c2),
    ensures
        c1.direction == c2.direction,
{
    let u = (b.0 - a.0, b.1 - a.1, b.2 - a.2);
    let v = (c.0 - b.0, c.1 - b.1, c.2 - b.2);
    lemma_direction_along_ray(u, v, m, n);
}

impl Travel {
    /// Cost for `ship` of a travel from its position to the self.destination: no pilot
    /// and a null distance are refused.
    pub fn compute_costs(&self, ship: &Ship) -> (r: Result<TravelCost, Errcode>)
        requires
            ship.stats.wf(),
        ensures
            ship.pilot is None ==> r == Err::<TravelCost, Errcode>(Errcode::NoPilotAssigned),
            ship.pilot is Some && self.destination == ship.position ==> r == Err::<TravelCost, Errcode>(
                Errcode::NullDistance,
            ),
            ship.pilot is Some && self.destination != ship.position ==> (r matches Ok(c)
                && is_travel_cost(ship.stats, ship.position, self.destination, c) && c.distance > 0),
    {
        if ship.pilot.is_none() {
            return Err(Errcode::NoPilotAssigned);
        }
        let distance = get_travel_distance(&ship.position, &self.destination);
        proof {
            let x = self.destination.0 - ship.position.0;
            let y = self.destination.1 - ship.position.1;
            let z = self.destination.2 - ship.position.2;
            let m = dist_sq(ship.position, self.destination);
            assert(m >= 0 && (m == 0 ==> x == 0 && y == 0 && z == 0)) by (nonlinear_arith)
                requires
                    m == x * x + y * y + z * z,
            ;
            if ship.position == self.destination {
                assert(sq(0) == 0);
                assert(m == 0);
                assert(distance == 0) by (nonlinear_arith)
                    requires
                        distance * distance >= 0,
                        distance == 0 || (distance - 1) * (distance - 1) < m * (10_000 * 10_000),
                        m == 0,
                ;
            } else {
                assert(m >= 1);
                assert(distance != 0) by (nonlinear_arith)
                    requires
                        m * (10_000 * 10_000) <= distance * distance,
                        m >= 1,
                ;
            }
        }
        if distance == 0 {
            return Err(Errcode::NullDistance);
        }
        let delta = get_delta(&ship.position, &self.destination);
        Ok(compute_cost(&ship.stats, delta, distance))
    }
}

impl TravelCost {
    /// Whether the fuel and hull left to `ship` cover this cost.
    pub fn have_enough(&self, ship: &Ship) -> (r: bool)
        requires
            ship.hull_decay <= ship.hull_decay_capacity,
        ensures
            r == spec_have_enough(*self, *ship),
    {
        (ship.fuel_tank >= self.fuel_consumption) && (ship.hull_decay_capacity - ship.hull_decay)
            >= self.hull_usage
    }
}

} // verus!
