use simeis::crew::{CrewMember, CrewMemberType};
use simeis::errors::Errcode;
use simeis::game::{next_action, Game, GameSignal, LoopAction, ITER_PERIOD_MS};
use simeis::market::{drifted, fee_rate, market_should_change, Market, MARKET_CHANGE_MS};
use simeis::player::Player;
use simeis::resources::Resource;
use simeis::ship::extraction::ShipCargo;
use simeis::ship::navigation::ShipStats;
use simeis::ship::{Ship, ShipState};
use simeis::syslog::SyslogEvent;

fn ship(id: u32, hull_decay: u64) -> Ship {
    Ship {
        id,
        position: (0, 0, 0),
        state: ShipState::Idle,
        stats: ShipStats {
            pace: 100,
            fuel_consumption: 1,
            hull_usage_rate: 1,
        },
        pilot: Some(CrewMember::from(CrewMemberType::Pilot)),
        fuel_tank: 10_000_000,
        fuel_tank_capacity: 10_000_000,
        hull_decay,
        hull_decay_capacity: 1_000_000,
        modules: vec![],
        cargo: ShipCargo::new(1_000),
    }
}

#[test]
fn registering_places_a_station_and_records_the_start() {
    let mut game = Game::init();
    let (id, key) = game.new_player("alice".to_string()).unwrap();
    assert_eq!(game.players.len(), 1);
    let p = &game.players[game.find_player(id).unwrap()];
    assert_eq!(p.name, "alice");
    assert_eq!(p.key.len(), 128);
    assert_eq!(key.len(), 172);
    assert!(key.ends_with('=') && !key.ends_with("=="));
    assert_eq!(p.stations.len(), 1);
    let (sid, coord) = p.stations[0];
    assert_eq!(game.galaxy.get_station(&coord).unwrap().id, sid);
    assert_eq!(game.pending, vec![(id, SyslogEvent::GameStarted)]);
    let (events, _) = game.step(ITER_PERIOD_MS, 0);
    assert_eq!(events, vec![(id, SyslogEvent::GameStarted)]);
    assert!(game.pending.is_empty());
}

#[test]
fn players_stay_in_order_of_identity() {
    let mut game = Game::init();
    for name in ["a", "b", "c", "d"] {
        game.new_player(name.to_string()).unwrap();
    }
    let ids: Vec<u32> = game.players.iter().map(|p| p.id).collect();
    let mut sorted = ids.clone();
    sorted.sort();
    assert_eq!(ids, sorted);
    assert_eq!(game.galaxy.discovered_count(), 4);
}

#[test]
fn a_ship_destroyed_on_arrival_is_removed_with_one_event() {
    let mut game = Game::init();
    let (id, _) = game.new_player("bob".to_string()).unwrap();
    let mut doomed = ship(1, 900_000);
    doomed.set_travel((10, 0, 0)).unwrap();
    let mut fine = ship(2, 0);
    fine.set_travel((10, 0, 0)).unwrap();
    let idle = ship(3, 0);
    game.give_ship(id, doomed).unwrap();
    game.give_ship(id, fine).unwrap();
    game.give_ship(id, idle).unwrap();
    assert_eq!(game.give_ship(id.wrapping_add(1), ship(4, 0)).unwrap_err(), Errcode::NoSuchPlayer(id.wrapping_add(1)));
    let (events, _) = game.step(ITER_PERIOD_MS, 0);
    assert_eq!(
        events,
        vec![
            (id, SyslogEvent::GameStarted),
            (id, SyslogEvent::ShipFlightFinished(2)),
            (id, SyslogEvent::ShipDestroyed(1)),
        ]
    );
    let p = &game.players[0];
    let ids: Vec<u32> = p.ships.iter().map(|s| s.id).collect();
    assert_eq!(ids, vec![2, 3]);
    assert_eq!(p.ships[0].position, (10, 0, 0));
    let (events, _) = game.step(ITER_PERIOD_MS, 0);
    assert!(events.is_empty());
}

#[test]
fn running_costs_are_paid_each_step() {
    let mut game = Game::init();
    let (id, _) = game.new_player("carol".to_string()).unwrap();
    let i = game.find_player(id).unwrap();
    game.players[i].costs = 5_000;
    let before = game.players[i].money;
    game.tick(20);
    assert_eq!(game.players[i].money, before - 100_000);
    assert!(!game.players[i].lost);
    game.players[i].money = 50_000;
    game.tick(20);
    assert_eq!(game.players[i].money, -50_000);
    assert!(game.players[i].lost);
}

#[test]
fn player_pays_and_loses() {
    let mut p = Player::new((1, (2, 3, 4)), "dave".to_string());
    p.costs = 10;
    p.money = 5;
    p.update_money(1);
    assert_eq!(p.money, -5);
    assert!(p.lost);
    p.money = i64::MIN + 3;
    p.update_money(1);
    assert_eq!(p.money, i64::MIN);
}

#[test]
fn prices_drift_within_their_band() {
    let mut market = Market::init();
    assert_eq!(market.price(&Resource::Gold), 16000);
    assert_eq!(market.price(&Resource::HullPlate), 75);
    for _ in 0..2000 {
        market.update_prices();
        for r in Resource::all() {
            let p = market.price(&r);
            let base = r.base_price();
            assert!(p >= base / 2 && p <= base * 2);
        }
    }
}

#[test]
fn market_change_chance_follows_elapsed_time() {
    assert!(!market_should_change(0));
    assert!(market_should_change(MARKET_CHANGE_MS));
    assert!(market_should_change(10 * MARKET_CHANGE_MS));
}

#[test]
fn loop_steps_on_tick_and_exits_otherwise() {
    assert_eq!(next_action(Some(GameSignal::Tick)), LoopAction::Step);
    assert_eq!(next_action(Some(GameSignal::Stop)), LoopAction::Exit);
    assert_eq!(next_action(None), LoopAction::Exit);
}

/// The heavy run of the simulation step: fifty ships in flight at once, all
/// landing within a few steps.
#[test]
fn main_test_heavy_testing() {
    let mut game = Game::init();
    let (id, _) = game.new_player("eve".to_string()).unwrap();
    for n in 0..50u32 {
        let mut s = ship(n, 0);
        s.set_travel((n + 1, 0, 0)).unwrap();
        game.give_ship(id, s).unwrap();
    }
    let mut arrived = 0;
    for _ in 0..10 {
        let (events, _) = game.step(ITER_PERIOD_MS, 0);
        arrived += events
            .iter()
            .filter(|(_, e)| matches!(e, SyslogEvent::ShipFlightFinished(_)))
            .count();
    }
    assert_eq!(arrived, 50);
    assert_eq!(game.players[0].ships.len(), 50);
}

#[test]
fn better_traders_charge_lower_fees() {
    assert_eq!(fee_rate(1), 3000);
    assert_eq!(fee_rate(2), 1500);
    assert_eq!(fee_rate(3), 1000);
    assert_eq!(fee_rate(255), 11);
    for r in 1..255u8 {
        assert!(fee_rate(r + 1) <= fee_rate(r));
    }
}

#[test]
fn trades_add_or_take_the_fee() {
    let market = Market::init();
    assert_eq!(market.buy_price(&Resource::Gold, 1000, 1), 20_800_000);
    assert_eq!(market.sell_price(&Resource::Gold, 1000, 1), 11_200_000);
    assert_eq!(market.buy_price(&Resource::Stone, 500, 3), 440_000);
}

#[test]
fn a_drift_moves_by_the_offset_within_the_band() {
    // Gold: base 16000, step 800, band [8000, 32000].
    assert_eq!(drifted(16000, 16000, 800), 16000);
    assert_eq!(drifted(16000, 16000, 0), 15200);
    assert_eq!(drifted(16000, 16000, 1600), 16800);
    assert_eq!(drifted(8300, 16000, 0), 8000);
    assert_eq!(drifted(31900, 16000, 1600), 32000);
    // Hull plates: base 75, step 3, band [37, 150].
    assert_eq!(drifted(75, 75, 6), 78);
    assert_eq!(drifted(38, 75, 0), 37);
}

#[test]
fn a_second_player_with_the_same_identity_is_refused() {
    let mut game = Game::init();
    let first = Player::new((1, (2, 3, 4)), "frank".to_string());
    let id = first.id;
    assert_eq!(game.add_player(first), Ok(id));
    let mut second = Player::new((5, (6, 7, 8)), "grace".to_string());
    second.id = id;
    assert_eq!(game.add_player(second), Err(Errcode::PlayerIdTaken(id)));
    assert_eq!(game.players.len(), 1);
    assert_eq!(game.players[0].name, "frank");
    assert_eq!(game.pending, vec![(id, SyslogEvent::GameStarted)]);
    let mut third = Player::new((5, (6, 7, 8)), "heidi".to_string());
    third.id = id.wrapping_add(1);
    let third_id = third.id;
    game.add_player(third).unwrap();
    let ids: Vec<u32> = game.players.iter().map(|p| p.id).collect();
    if third_id > id {
        assert_eq!(ids, vec![id, third_id]);
    } else {
        assert_eq!(ids, vec![third_id, id]);
    }
}

#[test]
fn a_ship_identity_is_owned_once() {
    let mut game = Game::init();
    let (id, _) = game.new_player("ivan".to_string()).unwrap();
    game.give_ship(id, ship(7, 0)).unwrap();
    assert_eq!(game.give_ship(id, ship(7, 0)), Err(Errcode::ShipIdTaken(7)));
    assert_eq!(game.players[0].ships.len(), 1);
}

#[test]
fn a_taken_name_is_refused() {
    let mut game = Game::init();
    let (id, _) = game.new_player("judy".to_string()).unwrap();
    assert_eq!(
        game.new_player("judy".to_string()),
        Err(Errcode::PlayerAlreadyExists(id))
    );
    assert_eq!(game.players.len(), 1);
    assert_eq!(game.galaxy.discovered_count(), 1);
    assert!(game.new_player("Judy".to_string()).is_ok());
}
