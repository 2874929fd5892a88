//! The game state and its fixed-period simulation step.
use crate::errors::Errcode;
use crate::galaxy::{station_placed, Galaxy};
use crate::market::{is_drift_of, market_should_change, Market};
use crate::resources::spec_all_resources;
use crate::player::{
    ship_ids_unique,
    destruction_events, money_after, progress_events, ships_stepped, Player, PlayerId,
};
use crate::ship::{Ship, MAX_STEP_MS};
use crate::syslog::SyslogEvent;
use base64::Engine;
use vstd::prelude::*;

verus! {

/// Length of one simulation step, in milliseconds.
pub const ITER_PERIOD_MS: u64 = 20;

/// Signals that drive the simulation loop.
#[derive(Debug, Clone, Copy, PartialEq, Eq, Structural)]
pub enum GameSignal {
    Stop,
    Tick,
}

/// What the simulation loop does next.
#[derive(Debug, Clone, Copy, PartialEq, Eq, Structural)]
pub enum LoopAction {
    /// Run one step.
    Step,
    /// Leave the loop.
    Exit,
}

/// The loop steps on `Tick` and exits on `Stop` or when the channel is closed.
pub fn next_action(signal: Option<GameSignal>) -> (r: LoopAction)
    ensures
        r == (if signal == Some(GameSignal::Tick) {
            LoopAction::Step
        } else {
            LoopAction::Exit
        }),
{
    match signal {
        Some(GameSignal::Tick) => LoopAction::Step,
        _ => LoopAction::Exit,
    }
}

/// Base64 text of a byte string, standard alphabet with padding.
pub uninterp spec fn base64_of(b: Seq<u8>) -> Seq<char>;

/// Relies on base64's STANDARD engine `encode`: the standard base64 text of `key`,
/// four characters for each started group of three bytes (`encoded_len` with
/// padding). It panics only where that length overflows, far above the bound here.
#[verifier::external_body]
fn encode_key(key: &Vec<u8>) -> (r: String)
    requires
        key@.len() <= 0x1_0000,
    ensures
        r@ == base64_of(key@),
        r@.len() == 4 * ((key@.len() + 2) / 3),
{
    base64::engine::general_purpose::STANDARD.encode(key)
}

/// What one step does to a player: costs paid for `dt_ms`, ships advanced, the
/// destroyed ones removed; nothing else changes.
pub open spec fn player_ticked(old: Player, new: Player, dt_ms: u64) -> bool {
    &&& new.id == old.id
    &&& new.name == old.name
    &&& new.key@ == old.key@
    &&& new.stations@ == old.stations@
    &&& new.costs == old.costs
    &&& new.money == money_after(old.money, old.costs, dt_ms)
    &&& new.lost == (old.lost || new.money < 0)
    &&& ships_stepped(old.ships@, new.ships@, dt_ms)
}

/// Events of one player's step, tagged with the player.
pub open spec fn player_events(p: Player, dt_ms: u64) -> Seq<(PlayerId, SyslogEvent)> {
    (progress_events(p.ships@, dt_ms) + destruction_events(p.ships@, dt_ms)).map_values(
        |e: SyslogEvent| (p.id, e),
    )
}

/// Events of one step over `players`, player after player.
pub open spec fn tick_events(players: Seq<Player>, dt_ms: u64) -> Seq<(PlayerId, SyslogEvent)>
    decreases players.len(),
{
    if players.len() == 0 {
        seq![]
    } else {
        tick_events(players.drop_last(), dt_ms) + player_events(players.last(), dt_ms)
    }
}

/// Some player is named `name`.
pub open spec fn name_taken(players: Seq<Player>, name: Seq<char>) -> bool {
    exists|i: int| 0 <= i < players.len() && #[trigger] players[i].name@ == name
}

pub open spec fn ids_increasing(players: Seq<Player>) -> bool {
    forall|i: int, j: int| 0 <= i < j < players.len() ==> players[i].id < players[j].id
}

fn append_tagged(events: &mut Vec<(PlayerId, SyslogEvent)>, id: PlayerId, evs: &Vec<SyslogEvent>)
    ensures
        final(events)@ == old(events)@ + evs@.map_values(|e: SyslogEvent| (id, e)),
{
    let mut i: usize = 0;
    let ghost base = events@;
    while i < evs.len()
        invariant
            i <= evs@.len(),
            events@ == base + evs@.subrange(0, i as int).map_values(|e: SyslogEvent| (id, e)),
        decreases evs@.len() - i,
    {
        events.push((id, evs[i]));
        assert(evs@.subrange(0, i + 1).map_values(|e: SyslogEvent| (id, e)) =~= evs@.subrange(
            0,
            i as int,
        ).map_values(|e: SyslogEvent| (id, e)).push((id, evs@[i as int])));
        i += 1;
    }
    assert(evs@.subrange(0, evs@.len() as int) =~= evs@);
}

pub struct Game {
    /// Players in increasing order of identity.
    pub players: Vec<Player>,
    pub galaxy: Galaxy,
    pub market: Market,
    /// Events recorded since the last step.
    pub pending: Vec<(PlayerId, SyslogEvent)>,
}

impl Game {
    /// Players in increasing order of identity.
    pub open spec fn players(&self) -> Seq<Player> {
        self.players@
    }

    /// Events recorded since the last step.
    pub open spec fn pending(&self) -> Seq<(PlayerId, SyslogEvent)> {
        self.pending@
    }

    pub open spec fn wf(&self) -> bool {
        &&& self.galaxy.wf()
        &&& self.galaxy.settled()
        &&& self.market.wf()
        &&& ids_increasing(self.players())
        &&& forall|i: int| 0 <= i < self.players().len() ==> (#[trigger] self.players()[i]).wf()
    }

    pub fn init() -> (r: Game)
        ensures
            r.wf(),
            r.players().len() == 0,
            r.pending().len() == 0,
            r.galaxy.objects().len() == 0,
            r.galaxy.discovered().len() == 0,
    {
        Game { players: Vec::new(), galaxy: Galaxy::init(), market: Market::init(), pending: Vec::new() }
    }

    /// Players in increasing order of identity.
    pub fn player_list(&self) -> (r: &Vec<Player>)
        ensures
            r@ == self.players(),
    {
        &self.players
    }

    /// Position of the player `id` in the list.
    pub fn find_player(&self, id: PlayerId) -> (r: Option<usize>)
        requires
            ids_increasing(self.players()),
        ensures
            match r {
                Some(i) => i < self.players().len() && self.players()[i as int].id == id,
                None => forall|i: int| 0 <= i < self.players().len() ==> #[trigger] self.players()[i].id != id,
            },
    {
        let mut i: usize = 0;
        while i < self.players.len()
            invariant
                i <= self.players@.len(),
                forall|j: int| 0 <= j < i ==> #[trigger] self.players@[j].id != id,
            decreases self.players@.len() - i,
        {
            if self.players[i].id == id {
                return Some(i);
            }
            i += 1;
        }
        None
    }

    /// Advances every player by one period of `dt_ms`, in increasing order of
    /// identity: costs are paid, ships advance, destroyed ships are removed after
    /// all ships of the player advanced. Returns the events of the step.
    pub fn tick(&mut self, dt_ms: u64) -> (r: Vec<(PlayerId, SyslogEvent)>)
        requires
            old(self).wf(),
            dt_ms <= MAX_STEP_MS,
        ensures
            final(self).wf(),
            final(self).players().len() == old(self).players().len(),
            forall|i: int|
                0 <= i < old(self).players().len() ==> player_ticked(
                    old(self).players()[i],
                    #[trigger] final(self).players()[i],
                    dt_ms,
                ),
            r@ == tick_events(old(self).players(), dt_ms),
            final(self).galaxy == old(self).galaxy,
            final(self).market == old(self).market,
            final(self).pending() == old(self).pending(),
    {
        let ghost all = self.players@;
        let mut rest: Vec<Player> = Vec::new();
        core::mem::swap(&mut self.players, &mut rest);
        let mut events: Vec<(PlayerId, SyslogEvent)> = Vec::new();
        let ghost mut k: int = 0;
        assert(all.subrange(0, all.len() as int) =~= all);
        assert(all.subrange(0, 0) =~= seq![]);
        while rest.len() > 0
            invariant
                0 <= k <= all.len(),
                rest@ == all.subrange(k, all.len() as int),
                forall|i: int| 0 <= i < all.len() ==> (#[trigger] all[i]).wf(),
                ids_increasing(all),
                self.players@.len() == k,
                forall|i: int| 0 <= i < k ==> player_ticked(all[i], #[trigger] self.players@[i], dt_ms),
                forall|i: int| 0 <= i < k ==> (#[trigger] self.players@[i]).wf(),
                events@ == tick_events(all.subrange(0, k), dt_ms),
                dt_ms <= MAX_STEP_MS,
                self.galaxy == old(self).galaxy,
                self.market == old(self).market,
                self.pending() == old(self).pending(),
            decreases rest@.len(),
        {
            let mut p = rest.remove(0);
            assert(p == all[k]);
            p.update_money(dt_ms);
            let evs = p.update_ships(dt_ms);
            let ghost pre = all.subrange(0, k + 1);
            assert(pre.drop_last() =~= all.subrange(0, k));
            assert(pre.last() == all[k]);
            append_tagged(&mut events, p.id, &evs);
            self.players.push(p);
            proof {
                k = k + 1;
                assert(rest@ =~= all.subrange(k, all.len() as int));
            }
        }
        events
    }

    /// One simulation step: the period `dt_ms` is applied to every player; then,
    /// with chance `market_elapsed_ms / MARKET_CHANGE_MS` (capped at certainty),
    /// prices drift. Returns the events recorded since the last step followed by
    /// those of this step, and whether prices drifted.
    pub fn step(&mut self, dt_ms: u64, market_elapsed_ms: u64) -> (r: (Vec<(PlayerId, SyslogEvent)>, bool))
        requires
            old(self).wf(),
            dt_ms <= MAX_STEP_MS,
        ensures
            final(self).wf(),
            final(self).players().len() == old(self).players().len(),
            forall|i: int|
                0 <= i < old(self).players().len() ==> player_ticked(
                    old(self).players()[i],
                    #[trigger] final(self).players()[i],
                    dt_ms,
                ),
            r.0@ == old(self).pending() + tick_events(old(self).players(), dt_ms),
            final(self).pending().len() == 0,
            final(self).galaxy == old(self).galaxy,
            market_elapsed_ms >= crate::market::MARKET_CHANGE_MS ==> r.1,
            market_elapsed_ms == 0 ==> !r.1,
            !r.1 ==> final(self).market == old(self).market,
            r.1 ==> forall|i: int|
                0 <= i < final(self).market.prices().len() ==> is_drift_of(
                    old(self).market.prices()[i],
                    #[trigger] final(self).market.prices()[i],
                    spec_all_resources()[i],
                ),
    {
        let events = self.tick(dt_ms);
        let mut out: Vec<(PlayerId, SyslogEvent)> = Vec::new();
        core::mem::swap(&mut self.pending, &mut out);
        let mut i: usize = 0;
        let ghost base = out@;
        while i < events.len()
            invariant
                i <= events@.len(),
                out@ == base + events@.subrange(0, i as int),
            decreases events@.len() - i,
        {
            out.push(events[i]);
            assert(events@.subrange(0, i + 1) =~= events@.subrange(0, i as int).push(events@[i as int]));
            i += 1;
        }
        assert(events@.subrange(0, events@.len() as int) =~= events@);
        let drift = market_should_change(market_elapsed_ms);
        if drift {
            self.market.update_prices();
        }
        (out, drift)
    }

    /// Registers a player named `name`: a station is placed for it in a newly
    /// generated sector, the player joins the list at its place by identity, a
    /// start event is recorded, and its identity and base64 key are returned.
    #[verifier::rlimit(50)]
    pub fn new_player(&mut self, name: String) -> (r: Result<(PlayerId, String), Errcode>)
        requires
            old(self).wf(),
        ensures
            final(self).wf(),
            name_taken(old(self).players(), name@) ==> (r matches Err(Errcode::PlayerAlreadyExists(pid))
                && exists|i: int|
                0 <= i < old(self).players().len() && #[trigger] old(self).players()[i].id == pid
                    && old(self).players()[i].name@ == name@) && *final(self) == *old(self),
            !name_taken(old(self).players(), name@) && old(self).galaxy.discovered().len() == usize::MAX
                ==> r == Err::<(PlayerId, String), Errcode>(Errcode::TooManyRetries),
            match r {
                Ok((id, key)) => !name_taken(old(self).players(), name@) && exists|pos: int|
                    0 <= pos <= old(self).players().len() && #[trigger] final(self).players()[pos].id == id
                        && final(self).players() == old(self).players().insert(pos, final(self).players()[pos])
                        && final(self).players()[pos].name == name
                        && key@ == base64_of(final(self).players()[pos].key@)
                        && key@.len() == 172
                        && final(self).players()[pos].stations@.len() == 1
                        && station_placed(
                        old(self).galaxy,
                        final(self).galaxy,
                        final(self).players()[pos].stations@[0].0,
                        final(self).players()[pos].stations@[0].1,
                    ) && final(self).pending() == old(self).pending().push((id, SyslogEvent::GameStarted)),
                Err(e) => e == Errcode::TooManyRetries || e matches Errcode::PlayerAlreadyExists(_) || e
                    matches Errcode::PlayerIdTaken(_),
            },
    {
        let mut i: usize = 0;
        while i < self.players.len()
            invariant
                i <= self.players@.len(),
                *self == *old(self),
                self.wf(),
                forall|j: int| 0 <= j < i ==> #[trigger] self.players@[j].name@ != name@,
            decreases self.players@.len() - i,
        {
            if self.players[i].name == name {
                return Err(Errcode::PlayerAlreadyExists(self.players[i].id));
            }
            i += 1;
        }
        if self.galaxy.discovered_count() == usize::MAX {
            return Err(Errcode::TooManyRetries);
        }
        let station = match self.galaxy.init_new_station() {
            Ok(s) => s,
            Err(e) => {
                return Err(e);
            },
        };
        let ghost g0 = old(self).galaxy;
        let player = Player::new(station, name);
        assert(station_placed(g0, self.galaxy, station.0, station.1));
        let key = encode_key(&player.key);
        let ghost p = player;
        let ghost before = self.players();
        match self.add_player(player) {
            Ok(pid) => {
                proof {
                    let pos = choose|pos: int|
                        0 <= pos <= before.len() && self.players() == before.insert(pos, p);
                    assert(self.players()[pos] == p);
                }
                Ok((pid, key))
            },
            Err(e) => Err(e),
        }
    }

    /// Adds `player` to the list at its place by identity and records its start
    /// event; a player with the same identity already there refuses it.
    pub fn add_player(&mut self, player: Player) -> (r: Result<PlayerId, Errcode>)
        requires
            old(self).wf(),
            player.wf(),
        ensures
            final(self).wf(),
            r is Err <==> exists|i: int| 0 <= i < old(self).players().len() && #[trigger] old(self).players()[i].id == player.id,
            r is Err ==> r == Err::<PlayerId, Errcode>(Errcode::PlayerIdTaken(player.id))
                && final(self).players() == old(self).players() && final(self).pending() == old(self).pending(),
            r is Ok ==> r == Ok::<PlayerId, Errcode>(player.id) && (exists|pos: int|
                0 <= pos <= old(self).players().len() && final(self).players() == old(self).players().insert(pos, player))
                && final(self).pending() == old(self).pending().push((player.id, SyslogEvent::GameStarted)),
            final(self).galaxy == old(self).galaxy,
            final(self).market == old(self).market,
    {
        let pid = player.id;
        let mut pos: usize = 0;
        while pos < self.players.len() && self.players[pos].id < pid
            invariant
                pos <= self.players@.len(),
                forall|j: int| 0 <= j < pos ==> #[trigger] self.players@[j].id < pid,
            decreases self.players@.len() - pos,
        {
            pos += 1;
        }
        if pos < self.players.len() && self.players[pos].id == pid {
            return Err(Errcode::PlayerIdTaken(pid));
        }
        proof {
            assert forall|i: int| 0 <= i < self.players@.len() implies #[trigger] self.players@[i].id != pid by {
                if i >= pos {
                    assert(pos < self.players@.len());
                    if i > pos {
                        assert(self.players@[pos as int].id < self.players@[i].id);
                    }
                }
            }
        }
        let ghost before = self.players@;
        self.players.insert(pos, player);
        proof {
            assert(self.players@[pos as int].id == pid);
            assert forall|i: int, j: int| 0 <= i < j < self.players@.len() implies self.players@[i].id
                < self.players@[j].id by {
                if j < pos {
                    assert(self.players@[i] == before[i] && self.players@[j] == before[j]);
                } else if i > pos {
                    assert(self.players@[i] == before[i - 1] && self.players@[j] == before[j - 1]);
                } else if i == pos {
                    assert(self.players@[j] == before[j - 1]);
                    assert(before[pos as int].id > pid);
                    if j - 1 > pos {
                        assert(before[pos as int].id < before[j - 1].id);
                    }
                } else {
                    assert(self.players@[i] == before[i]);
                }
            }
            assert forall|i: int| 0 <= i < self.players@.len() implies (#[trigger] self.players@[i]).wf() by {
                if i < pos {
                    assert(self.players@[i] == before[i]);
                } else if i > pos {
                    assert(self.players@[i] == before[i - 1]);
                }
            }
        }
        self.pending.push((pid, SyslogEvent::GameStarted));
        Ok(pid)
    }

    /// Hands `ship` to the player `id`, unless that player owns a ship with the
    /// same identity already.
    pub fn give_ship(&mut self, id: PlayerId, ship: Ship) -> (r: Result<(), Errcode>)
        requires
            old(self).wf(),
            ship.wf(),
        ensures
            final(self).wf(),
            (forall|i: int| 0 <= i < old(self).players().len() ==> #[trigger] old(self).players()[i].id != id)
                ==> r == Err::<(), Errcode>(Errcode::NoSuchPlayer(id)),
            forall|i: int|
                0 <= i < old(self).players().len() && #[trigger] old(self).players()[i].id == id ==> {
                    let owned = exists|j: int|
                        0 <= j < old(self).players()[i].ships@.len()
                            && #[trigger] old(self).players()[i].ships@[j].id == ship.id;
                    &&& owned ==> r == Err::<(), Errcode>(Errcode::ShipIdTaken(ship.id))
                    &&& !owned ==> r is Ok
                },
            r is Err ==> final(self).players() == old(self).players(),
            final(self).players().len() == old(self).players().len(),
            r is Ok ==> forall|i: int|
                0 <= i < old(self).players().len() ==> #[trigger] final(self).players()[i].ships@ == if old(self).players()[i].id == id {
                    old(self).players()[i].ships@.push(ship)
                } else {
                    old(self).players()[i].ships@
                },
    {
        match self.find_player(id) {
            None => Err(Errcode::NoSuchPlayer(id)),
            Some(i) => {
                proof {
                    assert forall|a: int| 0 <= a < self.players@.len() && self.players@[a].id == id implies a == i by {
                        if a < i {
                            assert(self.players@[a].id < self.players@[i as int].id);
                        } else if a > i {
                            assert(self.players@[i as int].id < self.players@[a].id);
                        }
                    }
                }
                if self.players[i].ship_index(ship.id).is_some() {
                    return Err(Errcode::ShipIdTaken(ship.id));
                }
                let ghost before = self.players@;
                let mut p = self.players.remove(i);
                let ghost sid = ship.id;
                p.ships.push(ship);
                self.players.insert(i, p);
                proof {
                    assert(ship_ids_unique(self.players@[i as int].ships@)) by {
                        let ss = self.players@[i as int].ships@;
                        assert forall|a: int, b: int| 0 <= a < ss.len() && 0 <= b < ss.len() && a != b implies ss[a].id
                            != ss[b].id by {
                            if a < ss.len() - 1 {
                                assert(ss[a] == before[i as int].ships@[a]);
                            }
                            if b < ss.len() - 1 {
                                assert(ss[b] == before[i as int].ships@[b]);
                            }
                        }
                    }
                    assert forall|a: int, b: int| 0 <= a < b < self.players@.len() implies self.players@[a].id
                        < self.players@[b].id by {
                        assert(a != i ==> self.players@[a] == before[a]);
                        assert(b != i ==> self.players@[b] == before[b]);
                    }
                    assert forall|a: int| 0 <= a < self.players@.len() implies (#[trigger] self.players@[a]).wf() by {
                        if a == i {
                            assert forall|j: int| 0 <= j < self.players@[a].ships@.len() implies (#[trigger] self.players@[a].ships@[j]).wf() by {
                                if j < before[a].ships@.len() {
                                    assert(self.players@[a].ships@[j] == before[a].ships@[j]);
                                }
                            }
                        } else {
                            assert(self.players@[a] == before[a]);
                        }
                    }
                }
                Ok(())
            },
        }
    }
}

} // verus!
