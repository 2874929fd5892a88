//! Players: money, running costs, stations and ships.
use crate::geometry::SpaceCoord;
use crate::ship::{
    extract_fills, extract_stepped, flight_completes, ship_after_flight_step, Ship, ShipId, ShipState,
    MAX_STEP_MS,
};
use crate::station::StationId;
use crate::syslog::SyslogEvent;
use vstd::prelude::*;

verus! {

pub type PlayerId = u32;

/// Bytes of the secret key that identifies a player's requests.
pub const PLAYER_KEY_LEN: usize = 128;

/// Money a player starts with, in millionths of a credit.
pub const INITIAL_MONEY: i64 = 100_000_000_000;

/// Largest running cost a player can have, in thousandths of a credit per second.
pub const MAX_COSTS: u64 = 0x100_0000;

pub struct Player {
    pub id: PlayerId,
    pub key: Vec<u8>,
    pub name: String,
    pub lost: bool,
    /// Balance, in millionths of a credit.
    pub money: i64,
    /// Running cost of the crew, in thousandths of a credit per second.
    pub costs: u64,
    pub stations: Vec<(StationId, SpaceCoord)>,
    pub ships: Vec<Ship>,
}

/// `new` is `old` after one tick of `dt_ms`: a flight or an extraction advances,
/// an idle ship stays as it is.
pub open spec fn ship_stepped(old: Ship, new: Ship, dt_ms: u64) -> bool {
    match old.state {
        ShipState::InFlight(_) => new == ship_after_flight_step(old, dt_ms),
        ShipState::Extracting(_) => extract_stepped(old, new, dt_ms),
        ShipState::Idle => new == old,
    }
}

/// The ship's flight completes during this tick.
pub open spec fn ship_arrives(s: Ship, dt_ms: u64) -> bool {
    s.state is InFlight && flight_completes(s, dt_ms)
}

/// The ship's extraction ends during this tick, its hold full.
pub open spec fn ship_hold_fills(s: Ship, dt_ms: u64) -> bool {
    s.state is Extracting && extract_fills(s, dt_ms)
}

/// The ship completes its flight with its hull decayed to capacity.
pub open spec fn ship_dies(s: Ship, dt_ms: u64) -> bool {
    ship_arrives(s, dt_ms) && s.hull_decay + s.state->InFlight_0.hull_cost >= s.hull_decay_capacity
}

/// The ships that survive a tick, in their order, as they were before it.
pub open spec fn survivors(ships: Seq<Ship>, dt_ms: u64) -> Seq<Ship>
    decreases ships.len(),
{
    if ships.len() == 0 {
        seq![]
    } else {
        let prev = survivors(ships.drop_last(), dt_ms);
        if ship_dies(ships.last(), dt_ms) {
            prev
        } else {
            prev.push(ships.last())
        }
    }
}

/// `new` holds, in order, each surviving ship of `old` after one tick.
pub open spec fn ships_stepped(old: Seq<Ship>, new: Seq<Ship>, dt_ms: u64) -> bool {
    &&& new.len() == survivors(old, dt_ms).len()
    &&& forall|i: int| 0 <= i < new.len() ==> ship_stepped(survivors(old, dt_ms)[i], #[trigger] new[i], dt_ms)
}

/// Events of the ships that arrived and survived or whose hold filled, in ship order.
pub open spec fn progress_events(ships: Seq<Ship>, dt_ms: u64) -> Seq<SyslogEvent>
    decreases ships.len(),
{
    if ships.len() == 0 {
        seq![]
    } else {
        let prev = progress_events(ships.drop_last(), dt_ms);
        if ship_arrives(ships.last(), dt_ms) && !ship_dies(ships.last(), dt_ms) {
            prev.push(SyslogEvent::ShipFlightFinished(ships.last().id))
        } else if ship_hold_fills(ships.last(), dt_ms) {
            prev.push(SyslogEvent::ExtractionStopped(ships.last().id))
        } else {
            prev
        }
    }
}

/// Destruction events of the ships that died, in ship order.
pub open spec fn destruction_events(ships: Seq<Ship>, dt_ms: u64) -> Seq<SyslogEvent>
    decreases ships.len(),
{
    if ships.len() == 0 {
        seq![]
    } else {
        let prev = destruction_events(ships.drop_last(), dt_ms);
        if ship_dies(ships.last(), dt_ms) {
            prev.push(SyslogEvent::ShipDestroyed(ships.last().id))
        } else {
            prev
        }
    }
}

/// A flight's cost is taken once: when a step reaches the destination the ship is
/// idle there with the full fuel and hull costs taken, and any later step leaves
/// it as it is.
pub proof fn lemma_arrival_charges_once(s: Ship, dt1: u64, s2: Ship, dt2: u64)
    requires
        s.wf(),
        s.state is InFlight,
        flight_completes(s, dt1),
        ship_stepped(ship_after_flight_step(s, dt1), s2, dt2),
    ensures
        ship_after_flight_step(s, dt1).state is Idle,
        ship_after_flight_step(s, dt1).position == s.state->InFlight_0.destination,
        ship_after_flight_step(s, dt1).fuel_tank == s.fuel_tank - s.state->InFlight_0.fuel_cost,
        ship_after_flight_step(s, dt1).hull_decay == s.hull_decay + s.state->InFlight_0.hull_cost,
        s2 == ship_after_flight_step(s, dt1),
{
}

/// Balance after paying `costs` for `dt_ms`, saturated at the lowest value.
pub open spec fn money_after(money: i64, costs: u64, dt_ms: u64) -> i64 {
    if money - costs * dt_ms < i64::MIN {
        i64::MIN
    } else {
        (money - costs * dt_ms) as i64
    }
}

/// No two ships share an identity.
pub open spec fn ship_ids_unique(ships: Seq<Ship>) -> bool {
    forall|i: int, j: int| 0 <= i < ships.len() && 0 <= j < ships.len() && i != j ==> ships[i].id != ships[j].id
}

/// Number of times `e` occurs in `s`.
pub open spec fn occurrences(s: Seq<SyslogEvent>, e: SyslogEvent) -> nat
    decreases s.len(),
{
    if s.len() == 0 {
        0
    } else {
        occurrences(s.drop_last(), e) + if s.last() == e {
            1nat
        } else {
            0nat
        }
    }
}

proof fn lemma_occurrences_push(s: Seq<SyslogEvent>, x: SyslogEvent, e: SyslogEvent)
    ensures
        occurrences(s.push(x), e) == occurrences(s, e) + if x == e {
            1nat
        } else {
            0nat
        },
{
    assert(s.push(x).drop_last() =~= s);
}

proof fn lemma_occurrences_concat(a: Seq<SyslogEvent>, b: Seq<SyslogEvent>, e: SyslogEvent)
    ensures
        occurrences(a + b, e) == occurrences(a, e) + occurrences(b, e),
    decreases b.len(),
{
    if b.len() > 0 {
        assert((a + b).drop_last() =~= a + b.drop_last());
        lemma_occurrences_concat(a, b.drop_last(), e);
    } else {
        assert(a + b =~= a);
    }
}

proof fn lemma_survivor_ids(ships: Seq<Ship>, dt_ms: u64)
    ensures
        forall|k: int|
            0 <= k < survivors(ships, dt_ms).len() ==> exists|i: int|
                0 <= i < ships.len() && !ship_dies(ships[i], dt_ms) && #[trigger] survivors(
                    ships,
                    dt_ms,
                )[k].id == ships[i].id,
    decreases ships.len(),
{
    if ships.len() > 0 {
        let prev = ships.drop_last();
        lemma_survivor_ids(prev, dt_ms);
        let kept = survivors(ships, dt_ms);
        assert forall|k: int| 0 <= k < kept.len() implies exists|i: int|
            0 <= i < ships.len() && !ship_dies(ships[i], dt_ms) && #[trigger] kept[k].id
                == ships[i].id by {
            if k < survivors(prev, dt_ms).len() {
                let i = choose|i: int|
                    0 <= i < prev.len() && !ship_dies(prev[i], dt_ms) && #[trigger] survivors(
                        prev,
                        dt_ms,
                    )[k].id == prev[i].id;
                assert(ships[i] == prev[i]);
            } else {
                assert(kept[k].id == ships[ships.len() - 1].id);
            }
        }
    }
}

proof fn lemma_survivors_unique(ships: Seq<Ship>, dt_ms: u64)
    requires
        ship_ids_unique(ships),
    ensures
        ship_ids_unique(survivors(ships, dt_ms)),
    decreases ships.len(),
{
    if ships.len() > 0 {
        let prev = ships.drop_last();
        assert(ship_ids_unique(prev)) by {
            assert forall|a: int, b: int| 0 <= a < prev.len() && 0 <= b < prev.len() && a != b
                implies prev[a].id != prev[b].id by {
                assert(prev[a] == ships[a] && prev[b] == ships[b]);
            }
        }
        lemma_survivors_unique(prev, dt_ms);
        lemma_survivor_ids(prev, dt_ms);
        let sp = survivors(prev, dt_ms);
        let sv = survivors(ships, dt_ms);
        if !ship_dies(ships.last(), dt_ms) {
            assert forall|a: int, b: int| 0 <= a < sv.len() && 0 <= b < sv.len() && a != b implies sv[a].id
                != sv[b].id by {
                if a < sp.len() && b < sp.len() {
                    assert(sv[a] == sp[a] && sv[b] == sp[b]);
                } else if a < sp.len() {
                    let i = choose|i: int|
                        0 <= i < prev.len() && !ship_dies(prev[i], dt_ms) && #[trigger] survivors(prev, dt_ms)[a].id
                            == prev[i].id;
                    assert(prev[i] == ships[i]);
                    assert(sv[a] == sp[a]);
                } else {
                    let i = choose|i: int|
                        0 <= i < prev.len() && !ship_dies(prev[i], dt_ms) && #[trigger] survivors(prev, dt_ms)[b].id
                            == prev[i].id;
                    assert(prev[i] == ships[i]);
                    assert(sv[b] == sp[b]);
                }
            }
        }
    }
}

proof fn lemma_destroyed_count(ships: Seq<Ship>, dt_ms: u64, j: int)
    requires
        ship_ids_unique(ships),
        0 <= j < ships.len(),
        ship_dies(ships[j], dt_ms),
    ensures
        occurrences(destruction_events(ships, dt_ms), SyslogEvent::ShipDestroyed(ships[j].id)) == 1,
    decreases ships.len(),
{
    let e = SyslogEvent::ShipDestroyed(ships[j].id);
    let prev = ships.drop_last();
    let pe = destruction_events(prev, dt_ms);
    lemma_occurrences_push(pe, SyslogEvent::ShipDestroyed(ships.last().id), e);
    if j == ships.len() - 1 {
        assert forall|i: int| 0 <= i < prev.len() implies #[trigger] prev[i].id != ships[j].id by {
            assert(prev[i] == ships[i]);
        }
        lemma_absent_count(prev, dt_ms, ships[j].id);
    } else {
        assert(ship_ids_unique(prev)) by {
            assert forall|a: int, b: int| 0 <= a < prev.len() && 0 <= b < prev.len() && a != b
                implies prev[a].id != prev[b].id by {
                assert(prev[a] == ships[a] && prev[b] == ships[b]);
            }
        }
        assert(prev[j] == ships[j]);
        lemma_destroyed_count(prev, dt_ms, j);
        assert(ships.last().id != ships[j].id);
    }
}

proof fn lemma_absent_count(ships: Seq<Ship>, dt_ms: u64, id: ShipId)
    requires
        forall|i: int| 0 <= i < ships.len() ==> #[trigger] ships[i].id != id,
    ensures
        occurrences(destruction_events(ships, dt_ms), SyslogEvent::ShipDestroyed(id)) == 0,
    decreases ships.len(),
{
    if ships.len() > 0 {
        let prev = ships.drop_last();
        assert forall|i: int| 0 <= i < prev.len() implies #[trigger] prev[i].id != id by {
            assert(prev[i] == ships[i]);
        }
        lemma_absent_count(prev, dt_ms, id);
        assert(ships[ships.len() - 1].id != id);
        let pe = destruction_events(prev, dt_ms);
        lemma_occurrences_push(pe, SyslogEvent::ShipDestroyed(ships.last().id), SyslogEvent::ShipDestroyed(id));
    }
}

/// A ship whose flight completes with its hull decayed to capacity is gone from
/// its owner's ships after the step, and exactly one destruction event names it.
pub proof fn lemma_destroyed_ship_removed(old: Seq<Ship>, new: Seq<Ship>, dt_ms: u64, j: int)
    requires
        ship_ids_unique(old),
        ships_stepped(old, new, dt_ms),
        0 <= j < old.len(),
        ship_dies(old[j], dt_ms),
    ensures
        forall|k: int| 0 <= k < new.len() ==> #[trigger] new[k].id != old[j].id,
        occurrences(
            progress_events(old, dt_ms) + destruction_events(old, dt_ms),
            SyslogEvent::ShipDestroyed(old[j].id),
        ) == 1,
{
    lemma_survivor_ids(old, dt_ms);
    assert forall|k: int| 0 <= k < new.len() implies #[trigger] new[k].id != old[j].id by {
        let sv = survivors(old, dt_ms);
        assert(ship_stepped(sv[k], new[k], dt_ms));
        assert(new[k].id == sv[k].id);
        let i = choose|i: int|
            0 <= i < old.len() && !ship_dies(old[i], dt_ms) && #[trigger] survivors(old, dt_ms)[k].id
                == old[i].id;
        assert(i != j);
    }
    lemma_destroyed_count(old, dt_ms, j);
    lemma_no_destroyed_arrival(old, dt_ms, old[j].id);
    lemma_occurrences_concat(progress_events(old, dt_ms), destruction_events(old, dt_ms), SyslogEvent::ShipDestroyed(old[j].id));
}

proof fn lemma_no_destroyed_arrival(ships: Seq<Ship>, dt_ms: u64, id: ShipId)
    ensures
        occurrences(progress_events(ships, dt_ms), SyslogEvent::ShipDestroyed(id)) == 0,
    decreases ships.len(),
{
    if ships.len() > 0 {
        lemma_no_destroyed_arrival(ships.drop_last(), dt_ms, id);
        lemma_occurrences_push(
            progress_events(ships.drop_last(), dt_ms),
            SyslogEvent::ShipFlightFinished(ships.last().id),
            SyslogEvent::ShipDestroyed(id),
        );
        lemma_occurrences_push(
            progress_events(ships.drop_last(), dt_ms),
            SyslogEvent::ExtractionStopped(ships.last().id),
            SyslogEvent::ShipDestroyed(id),
        );
    }
}

impl Player {
    pub open spec fn wf(&self) -> bool {
        &&& self.costs <= MAX_COSTS
        &&& forall|i: int| 0 <= i < self.ships@.len() ==> (#[trigger] self.ships@[i]).wf()
        &&& ship_ids_unique(self.ships@)
    }

    /// A new player owning `station`, with a random identity and key.
    pub fn new(station: (StationId, SpaceCoord), name: String) -> (r: Player)
        ensures
            r.wf(),
            r.name == name,
            r.key@.len() == PLAYER_KEY_LEN,
            r.lost == false,
            r.money == INITIAL_MONEY,
            r.costs == 0,
            r.stations@ == seq![station],
            r.ships@.len() == 0,
    {
        let id: PlayerId = rand::random();
        let mut key: Vec<u8> = Vec::new();
        while key.len() < PLAYER_KEY_LEN
            invariant
                key@.len() <= PLAYER_KEY_LEN,
            decreases PLAYER_KEY_LEN - key@.len(),
        {
            let b: u8 = rand::random();
            key.push(b);
        }
        let mut stations = Vec::new();
        stations.push(station);
        assert(stations@ =~= seq![station]);
        Player {
            id,
            key,
            name,
            lost: false,
            money: INITIAL_MONEY,
            costs: 0,
            stations,
            ships: Vec::new(),
        }
    }

    /// Pays the running costs for `dt_ms` milliseconds; a negative balance loses the game.
    pub fn update_money(&mut self, dt_ms: u64)
        requires
            old(self).wf(),
            dt_ms <= MAX_STEP_MS,
        ensures
            final(self).wf(),
            final(self).money == money_after(old(self).money, old(self).costs, dt_ms),
            final(self).lost == (old(self).lost || final(self).money < 0),
            final(self).ships@ == old(self).ships@,
            final(self).id == old(self).id,
            final(self).costs == old(self).costs,
            final(self).name == old(self).name,
            final(self).key@ == old(self).key@,
            final(self).stations@ == old(self).stations@,
    {
        proof {
            assert(self.costs * dt_ms <= MAX_COSTS * MAX_STEP_MS) by (nonlinear_arith)
                requires
                    self.costs <= MAX_COSTS,
                    dt_ms <= MAX_STEP_MS,
            ;
        }
        let due = (self.costs * dt_ms) as i64;
        if self.money < i64::MIN + due {
            self.money = i64::MIN;
        } else {
            self.money = self.money - due;
        }
        if self.money < 0 {
            self.lost = true;
        }
    }

    /// Advances every ship by `dt_ms` milliseconds. Ships whose flight ends with the
    /// hull decayed to capacity are removed once all ships have advanced. Returns
    /// the events: arrivals and full holds in ship order, then destructions in
    /// ship order.
    pub fn update_ships(&mut self, dt_ms: u64) -> (r: Vec<SyslogEvent>)
        requires
            old(self).wf(),
            dt_ms <= MAX_STEP_MS,
        ensures
            final(self).wf(),
            ships_stepped(old(self).ships@, final(self).ships@, dt_ms),
            r@ == progress_events(old(self).ships@, dt_ms) + destruction_events(old(self).ships@, dt_ms),
            final(self).id == old(self).id,
            final(self).money == old(self).money,
            final(self).lost == old(self).lost,
            final(self).costs == old(self).costs,
            final(self).name == old(self).name,
            final(self).key@ == old(self).key@,
            final(self).stations@ == old(self).stations@,
    {
        let ghost all = self.ships@;
        let mut rest: Vec<Ship> = Vec::new();
        core::mem::swap(&mut self.ships, &mut rest);
        let mut events: Vec<SyslogEvent> = Vec::new();
        let mut dead: Vec<ShipId> = Vec::new();
        let ghost mut k: int = 0;
        assert(all.subrange(0, 0) =~= seq![]);
        assert(all.subrange(0, all.len() as int) =~= all);
        while rest.len() > 0
            invariant
                0 <= k <= all.len(),
                rest@ == all.subrange(k, all.len() as int),
                forall|i: int| 0 <= i < all.len() ==> (#[trigger] all[i]).wf(),
                ships_stepped(all.subrange(0, k), self.ships@, dt_ms),
                events@ == progress_events(all.subrange(0, k), dt_ms),
                dead@.map_values(|id: ShipId| SyslogEvent::ShipDestroyed(id)) == destruction_events(
                    all.subrange(0, k),
                    dt_ms,
                ),
                forall|i: int| 0 <= i < self.ships@.len() ==> (#[trigger] self.ships@[i]).wf(),
                self.costs <= MAX_COSTS,
                dt_ms <= MAX_STEP_MS,
                self.id == old(self).id,
                self.money == old(self).money,
                self.lost == old(self).lost,
                self.costs == old(self).costs,
                self.name == old(self).name,
                self.key@ == old(self).key@,
                self.stations@ == old(self).stations@,
            decreases rest@.len(),
        {
            let mut ship = rest.remove(0);
            assert(ship == all[k]);
            let ghost pre = all.subrange(0, k + 1);
            let ghost s0 = all[k];
            assert(pre.drop_last() =~= all.subrange(0, k));
            assert(pre.last() == all[k]);
            let ghost kept_before = self.ships@;
            let mut arrived = false;
            let mut filled = false;
            match ship.state {
                ShipState::InFlight(_) => {
                    arrived = ship.update_flight(dt_ms);
                },
                ShipState::Extracting(_) => {
                    filled = ship.update_extract(dt_ms);
                },
                ShipState::Idle => {},
            }
            if arrived && ship.is_destroyed() {
                proof {
                    assert(dead@.push(ship.id).map_values(|id: ShipId| SyslogEvent::ShipDestroyed(id))
                        =~= dead@.map_values(|id: ShipId| SyslogEvent::ShipDestroyed(id)).push(
                        SyslogEvent::ShipDestroyed(ship.id),
                    ));
                }
                dead.push(ship.id);
            } else {
                if arrived {
                    events.push(SyslogEvent::ShipFlightFinished(ship.id));
                } else if filled {
                    events.push(SyslogEvent::ExtractionStopped(ship.id));
                }
                self.ships.push(ship);
                proof {
                    let sv = survivors(pre, dt_ms);
                    assert(sv == survivors(all.subrange(0, k), dt_ms).push(s0));
                    assert forall|i: int| 0 <= i < self.ships@.len() implies ship_stepped(
                        sv[i],
                        #[trigger] self.ships@[i],
                        dt_ms,
                    ) by {
                        if i < kept_before.len() {
                            assert(self.ships@[i] == kept_before[i]);
                        }
                    }
                }
            }
            proof {
                k = k + 1;
                assert(rest@ =~= all.subrange(k, all.len() as int));
            }
        }
        let mut i: usize = 0;
        let ghost base = events@;
        while i < dead.len()
            invariant
                i <= dead@.len(),
                events@ == base + dead@.subrange(0, i as int).map_values(
                    |id: ShipId| SyslogEvent::ShipDestroyed(id),
                ),
            decreases dead@.len() - i,
        {
            events.push(SyslogEvent::ShipDestroyed(dead[i]));
            assert(dead@.subrange(0, i + 1).map_values(|id: ShipId| SyslogEvent::ShipDestroyed(id))
                =~= dead@.subrange(0, i as int).map_values(|id: ShipId| SyslogEvent::ShipDestroyed(id)).push(
                SyslogEvent::ShipDestroyed(dead@[i as int]),
            ));
            i += 1;
        }
        assert(dead@.subrange(0, dead@.len() as int) =~= dead@);
        proof {
            lemma_survivors_unique(all, dt_ms);
            let sv = survivors(all, dt_ms);
            assert forall|a: int, b: int|
                0 <= a < self.ships@.len() && 0 <= b < self.ships@.len() && a != b implies self.ships@[a].id
                != self.ships@[b].id by {
                assert(ship_stepped(sv[a], self.ships@[a], dt_ms));
                assert(ship_stepped(sv[b], self.ships@[b], dt_ms));
            }
        }
        events
    }

    /// Position of the ship `id` among the player's ships.
    pub fn ship_index(&self, id: ShipId) -> (r: Option<usize>)
        ensures
            match r {
                Some(i) => i < self.ships@.len() && self.ships@[i as int].id == id,
                None => forall|i: int| 0 <= i < self.ships@.len() ==> #[trigger] self.ships@[i].id != id,
            },
    {
        let mut i: usize = 0;
        while i < self.ships.len()
            invariant
                i <= self.ships@.len(),
                forall|j: int| 0 <= j < i ==> #[trigger] self.ships@[j].id != id,
            decreases self.ships@.len() - i,
        {
            if self.ships[i].id == id {
                return Some(i);
            }
            i += 1;
        }
        None
    }
}

} // verus!
