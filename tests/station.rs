use simeis::crew::{CrewMember, CrewMemberType};
use simeis::errors::Errcode;
use simeis::ship::extraction::{ShipCargo, ShipModule, ShipModuleType};
use simeis::ship::navigation::ShipStats;
use simeis::ship::{Ship, ShipState};
use simeis::galaxy::{Galaxy, SpaceObject};
use simeis::planet::Planet;
use simeis::resources::Resource;
use simeis::station::{Station, STATION_CARGO_CAPACITY};

fn bare_ship() -> Ship {
    Ship {
        id: 9,
        position: (1, 1, 1),
        state: ShipState::Idle,
        stats: ShipStats {
            pace: 1,
            fuel_consumption: 1,
            hull_usage_rate: 1,
        },
        pilot: None,
        fuel_tank: 0,
        fuel_tank_capacity: 0,
        hull_decay: 0,
        hull_decay_capacity: 10,
        modules: vec![ShipModule {
            kind: ShipModuleType::Miner,
            operator: None,
        }],
        cargo: ShipCargo::new(0),
    }
}

#[test]
fn hired_crew_waits_in_the_idle_pool() {
    let mut station = Station::init(1, (5, 5, 5));
    assert!(station.idle_crew.0.is_empty());
    let id = station.hire_crew(CrewMemberType::Soldier);
    assert_eq!(
        station.idle_crew.0.get(&id),
        Some(&CrewMember {
            member_type: CrewMemberType::Soldier,
            rank: 1
        })
    );
}

#[test]
fn a_trader_moves_to_the_trading_post() {
    let mut station = Station::init(1, (5, 5, 5));
    assert_eq!(station.trader_fee_rate().unwrap_err(), Errcode::NoTraderAssigned);
    let pilot = station.hire_crew(CrewMemberType::Pilot);
    assert_eq!(station.assign_trader(pilot).unwrap_err(), Errcode::WrongCrewType);
    let trader = station.hire_crew(CrewMemberType::Trader);
    station.assign_trader(trader).unwrap();
    assert!(station.idle_crew.0.get(&trader).is_none());
    assert_eq!(station.trader.unwrap().member_type, CrewMemberType::Trader);
    assert_eq!(station.trader_fee_rate().unwrap(), 3000);
    assert_eq!(station.assign_trader(trader).unwrap_err(), Errcode::NoSuchCrew(trader));
    let second = station.hire_crew(CrewMemberType::Trader);
    assert_eq!(station.assign_trader(second).unwrap_err(), Errcode::CrewSlotTaken);
    assert!(station.idle_crew.0.get(&second).is_some());
}

#[test]
fn crew_boards_a_ship_once() {
    let mut station = Station::init(1, (5, 5, 5));
    let mut ship = bare_ship();
    let pilot = station.hire_crew(CrewMemberType::Pilot);
    let operator = station.hire_crew(CrewMemberType::Operator);
    assert_eq!(station.onboard_pilot(operator, &mut ship).unwrap_err(), Errcode::WrongCrewType);
    station.onboard_pilot(pilot, &mut ship).unwrap();
    assert!(ship.pilot.is_some());
    assert!(station.idle_crew.0.get(&pilot).is_none());
    assert_eq!(
        station.onboard_operator(operator, &mut ship, 3).unwrap_err(),
        Errcode::NoSuchModule(3)
    );
    station.onboard_operator(operator, &mut ship, 0).unwrap();
    assert_eq!(ship.modules[0].operator.unwrap().member_type, CrewMemberType::Operator);
    assert!(station.idle_crew.0.is_empty());
    let other = station.hire_crew(CrewMemberType::Pilot);
    assert_eq!(station.onboard_pilot(other, &mut ship).unwrap_err(), Errcode::CrewSlotTaken);
}

#[test]
fn unloading_moves_what_fits() {
    let mut station = Station::init(1, (1, 1, 1));
    assert_eq!(station.cargo.capacity, STATION_CARGO_CAPACITY);
    let mut ship = bare_ship();
    ship.cargo = ShipCargo::new(1_000_000);
    let stone = Resource::Stone.index();
    assert_eq!(ship.cargo.add_resource(stone, 4_000), 4_000);
    assert_eq!(ship.unload_cargo(&Resource::Stone, 1_500, &mut station), Ok(1_500));
    assert_eq!(ship.cargo.resources[stone], 2_500);
    assert_eq!(ship.cargo.usage, 2_500 * 75);
    assert_eq!(station.cargo.resources[stone], 1_500);
    assert_eq!(station.cargo.usage, 1_500 * 75);
    assert_eq!(ship.unload_cargo(&Resource::Stone, 10_000, &mut station), Ok(2_500));
    assert_eq!(ship.cargo.usage, 0);
    assert_eq!(ship.unload_cargo(&Resource::Gold, 10, &mut station), Ok(0));
    ship.position = (2, 2, 2);
    assert_eq!(
        ship.unload_cargo(&Resource::Stone, 1, &mut station),
        Err(Errcode::ShipNotInStation)
    );
}

#[test]
fn a_full_station_takes_nothing() {
    let mut station = Station::init(1, (1, 1, 1));
    station.cargo = ShipCargo::new(500);
    let mut ship = bare_ship();
    ship.cargo = ShipCargo::new(1_000_000);
    ship.cargo.add_resource(Resource::Iron.index(), 10);
    assert_eq!(ship.unload_cargo(&Resource::Iron, 10, &mut station), Ok(2));
    assert_eq!(ship.cargo.resources[Resource::Iron.index()], 8);
    assert_eq!(ship.unload_cargo(&Resource::Iron, 10, &mut station), Ok(0));
}

#[test]
fn stations_in_the_galaxy_change_in_place() {
    let mut galaxy = Galaxy::init();
    let here = (3, 3, 3);
    galaxy
        .insert(&(4, 4, 4), SpaceObject::Planet(Planet::new((4, 4, 4), 0, true)))
        .unwrap();
    galaxy
        .insert(&here, SpaceObject::BaseStation(Station::init(8, here)))
        .unwrap();
    assert_eq!(galaxy.station_index(&(4, 4, 4)), None);
    assert_eq!(galaxy.station_index(&(5, 5, 5)), None);
    let i = galaxy.station_index(&here).unwrap();
    assert_eq!(i, 1);
    let id = galaxy.station_at_mut(i).hire_crew(CrewMemberType::Trader);
    galaxy.station_at_mut(i).assign_trader(id).unwrap();
    assert_eq!(galaxy.get_station(&here).unwrap().trader_fee_rate(), Ok(3000));
}
