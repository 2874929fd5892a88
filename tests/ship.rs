use simeis::crew::{CrewMember, CrewMemberType};
use simeis::errors::Errcode;
use simeis::galaxy::{Galaxy, SpaceObject};
use simeis::planet::Planet;
use simeis::resources::Resource;
use simeis::ship::extraction::{ExtractionInfo, ShipCargo, ShipModule, ShipModuleType};
use simeis::ship::navigation::{compute_cost, ShipStats, Travel};
use simeis::ship::{Ship, ShipState};

fn pilot() -> CrewMember {
    CrewMember {
        member_type: CrewMemberType::Pilot,
        rank: 1,
    }
}

fn ship_at(position: (u32, u32, u32)) -> Ship {
    Ship {
        id: 1,
        position,
        state: ShipState::Idle,
        stats: ShipStats {
            pace: 10_000,
            fuel_consumption: 2,
            hull_usage_rate: 3,
        },
        pilot: Some(pilot()),
        fuel_tank: 100_000_000,
        fuel_tank_capacity: 100_000_000,
        hull_decay: 0,
        hull_decay_capacity: 100_000_000,
        modules: vec![],
        cargo: ShipCargo::new(1_000_000),
    }
}

#[test]
fn travel_without_pilot_is_refused() {
    let mut ship = ship_at((0, 0, 0));
    ship.pilot = None;
    assert_eq!(
        ship.compute_travel_costs((100, 0, 0)).unwrap_err(),
        Errcode::NoPilotAssigned
    );
    assert_eq!(ship.set_travel((100, 0, 0)).unwrap_err(), Errcode::NoPilotAssigned);
    assert!(matches!(ship.state, ShipState::Idle));
    assert_eq!(ship.position, (0, 0, 0));
}

#[test]
fn travel_to_own_position_is_refused() {
    let mut ship = ship_at((5, 5, 5));
    assert_eq!(ship.set_travel((5, 5, 5)).unwrap_err(), Errcode::NullDistance);
    assert!(matches!(ship.state, ShipState::Idle));
}

#[test]
fn travel_beyond_fuel_is_refused() {
    let mut ship = ship_at((0, 0, 0));
    ship.fuel_tank = 1_999_999;
    assert_eq!(
        ship.set_travel((100, 0, 0)).unwrap_err(),
        Errcode::ShipNotEnoughResources
    );
    assert!(matches!(ship.state, ShipState::Idle));
    ship.fuel_tank = 2_000_000;
    ship.hull_decay = 97_000_001;
    assert_eq!(
        ship.set_travel((100, 0, 0)).unwrap_err(),
        Errcode::ShipNotEnoughResources
    );
    ship.hull_decay = 97_000_000;
    assert!(ship.set_travel((100, 0, 0)).is_ok());
    assert_eq!(ship.set_travel((200, 0, 0)).unwrap_err(), Errcode::ShipNotIdle);
}

#[test]
fn travel_cost_values() {
    let ship = ship_at((0, 0, 0));
    let cost = ship.compute_travel_costs((3, 4, 12)).unwrap();
    assert_eq!(cost.distance, 130_000);
    assert_eq!(cost.delta, (3, 4, 12));
    assert_eq!(cost.direction, (3, 4, 12));
    assert_eq!(cost.duration, 1_300_000_000);
    assert_eq!(cost.fuel_consumption, 260_000);
    assert_eq!(cost.hull_usage, 390_000);
    let back = Travel::new((0, 0, 0)).compute_costs(&ship_at((3, 4, 12))).unwrap();
    assert_eq!(back.delta, (-3, -4, -12));
    assert_eq!(back.direction, (-3, -4, -12));
    let diag = Travel::new((40, 0, 20)).compute_costs(&ship_at((0, 0, 0))).unwrap();
    assert_eq!(diag.direction, (2, 0, 1));
    assert_eq!(back.distance, 130_000);
    let slow = ShipStats {
        pace: 7,
        fuel_consumption: 1,
        hull_usage_rate: 1,
    };
    assert_eq!(compute_cost(&slow, (1, 0, 0), 3).duration, 21);
}

#[test]
fn test_compute_cost_addition() {
    const EPS: f64 = 1e-7;
    for n in 1..=1000u32 {
        let ship = ship_at((0, 0, 0));
        let c1 = ship.compute_travel_costs((n, n, n)).unwrap();
        println!("{n} {c1:?}");
        assert!(!(c1.duration as f64).is_infinite());
        assert!(!(c1.fuel_consumption as f64).is_nan());
        for x in 1..=4u32 {
            let c2 = ship.compute_travel_costs((n * x, n * x, n * x)).unwrap();
            println!("{n}x{x} {c2:?}");
            assert!(
                (c2.distance as f64) - ((x as f64) * (c1.distance as f64)) < EPS,
                "Wrong {x}x distance"
            );
            assert!(
                (c2.duration as f64) - ((x as f64) * (c1.duration as f64)) < EPS,
                "Wrong {x}x duration"
            );
            assert!(
                (c2.fuel_consumption as f64) - ((x as f64) * (c1.fuel_consumption as f64)) < EPS,
                "Wrong {x}x consumption"
            );
            assert!(
                (c2.hull_usage as f64) - ((x as f64) * (c1.hull_usage as f64)) < EPS,
                "Wrong {x}x hull usage"
            );
        }
        println!();
    }

    let mut ship = ship_at((0, 0, 0));
    let c1 = ship.compute_travel_costs((5, 5, 5)).unwrap();
    let c3 = ship.compute_travel_costs((10, 10, 10)).unwrap();

    ship.position = (5, 5, 5);
    let c2 = ship.compute_travel_costs((10, 10, 10)).unwrap();

    assert_eq!(c1.distance + c2.distance, c3.distance);
    assert_eq!(c1.duration + c2.duration, c3.duration);
    assert_eq!(
        c1.fuel_consumption + c2.fuel_consumption,
        c3.fuel_consumption
    );
    assert_eq!(c1.hull_usage + c2.hull_usage, c3.hull_usage);
    assert_eq!(c1.direction, c2.direction);
    assert_eq!(c1.direction, c3.direction);
}

#[test]
fn travel_cost_is_linear_in_distance() {
    let ship = ship_at((0, 0, 0));
    for n in 1..=200u32 {
        let c1 = ship.compute_travel_costs((n, 2 * n, 0)).unwrap();
        for x in 1..=4u32 {
            let c2 = ship.compute_travel_costs((n * x, 2 * n * x, 0)).unwrap();
            let k = x as u64;
            assert!(c2.distance <= k * c1.distance);
            assert!(c2.distance + k > k * c1.distance);
            assert_eq!(c2.duration, 10_000 * c2.distance);
            assert_eq!(c2.fuel_consumption, 2 * c2.distance);
            assert_eq!(c2.hull_usage, 3 * c2.distance);
            assert_eq!(c2.direction, (1, 2, 0));
        }
    }
    // Along an axis distances are exact, and so is linearity.
    let c1 = ship.compute_travel_costs((7, 0, 0)).unwrap();
    let c3 = ship.compute_travel_costs((21, 0, 0)).unwrap();
    assert_eq!(c3.distance, 3 * c1.distance);
    assert_eq!(c3.duration, 3 * c1.duration);
    assert_eq!(c3.fuel_consumption, 3 * c1.fuel_consumption);
    assert_eq!(c3.hull_usage, 3 * c1.hull_usage);
    let stats = ship.stats;
    for d in 1..=50u64 {
        let c1 = compute_cost(&stats, (1, 0, 0), d);
        let c2 = compute_cost(&stats, (1, 0, 0), 2 * d);
        let c3 = compute_cost(&stats, (1, 0, 0), 3 * d);
        assert_eq!(c3.duration, 3 * c1.duration);
        assert_eq!(c1.duration + c2.duration, c3.duration);
        assert_eq!(c1.fuel_consumption + c2.fuel_consumption, c3.fuel_consumption);
        assert_eq!(c1.hull_usage + c2.hull_usage, c3.hull_usage);
    }
}

#[test]
fn flight_past_its_duration_lands_once() {
    let mut ship = ship_at((0, 0, 0));
    let cost = ship.set_travel((100, 0, 0)).unwrap();
    assert_eq!(cost.distance, 1_000_000);
    assert_eq!(cost.duration, 10_000_000_000);
    match ship.state {
        ShipState::InFlight(f) => {
            assert_eq!(f.dist_done, 0);
            assert_eq!(f.dist_tot, 1_000_000);
        }
        _ => panic!("not in flight"),
    }
    assert!(!ship.update_flight(2_500));
    assert_eq!(ship.position, (25, 0, 0));
    match ship.state {
        ShipState::InFlight(f) => assert_eq!(f.dist_done, 250_000),
        _ => panic!("not in flight"),
    }
    assert_eq!(ship.fuel_tank, 100_000_000);
    assert!(ship.update_flight(60_000));
    assert!(matches!(ship.state, ShipState::Idle));
    assert_eq!(ship.position, (100, 0, 0));
    assert_eq!(ship.fuel_tank, 100_000_000 - 2_000_000);
    assert_eq!(ship.hull_decay, 3_000_000);
}

#[test]
fn flight_moves_back_towards_the_origin() {
    let mut ship = ship_at((100, 50, 0));
    ship.set_travel((0, 0, 0)).unwrap();
    assert!(!ship.update_flight(5_000));
    assert_eq!(ship.position, (56, 28, 0));
}

#[test]
fn stopping_a_flight_takes_a_share_of_its_cost() {
    let mut ship = ship_at((0, 0, 0));
    assert_eq!(ship.stop_navigation().unwrap_err(), Errcode::ShipNotInFlight);
    ship.set_travel((0, 100, 0)).unwrap();
    assert!(!ship.update_flight(5_000));
    ship.stop_navigation().unwrap();
    assert!(matches!(ship.state, ShipState::Idle));
    assert_eq!(ship.position, (0, 50, 0));
    assert_eq!(ship.fuel_tank, 100_000_000 - 1_000_000);
    assert_eq!(ship.hull_decay, 1_500_000);
}

#[test]
fn a_worn_hull_is_destroyed_on_arrival() {
    let mut ship = ship_at((0, 0, 0));
    ship.hull_decay = 97_000_000;
    ship.set_travel((100, 0, 0)).unwrap();
    assert!(!ship.is_destroyed());
    assert!(ship.update_flight(10_000));
    assert!(ship.is_destroyed());
}

fn miner(rank: u8) -> ShipModule {
    ShipModule {
        kind: ShipModuleType::Miner,
        operator: Some(CrewMember {
            member_type: CrewMemberType::Operator,
            rank,
        }),
    }
}

#[test]
fn extraction_fills_the_hold() {
    let mut galaxy = Galaxy::init();
    let here = (1000, 1000, 1000);
    galaxy
        .insert(&here, SpaceObject::Planet(Planet::new(here, 10, true)))
        .unwrap();
    let mut ship = ship_at((1, 2, 3));
    ship.modules = vec![miner(3)];
    assert_eq!(ship.start_extraction(&galaxy).unwrap_err(), Errcode::NoPlanetHere);
    ship.position = here;
    ship.modules = vec![];
    assert_eq!(
        ship.start_extraction(&galaxy).unwrap_err(),
        Errcode::CannotExtractResource
    );
    ship.modules = vec![miner(3), miner(1)];
    ship.cargo = ShipCargo::new(2_000_000);
    ship.start_extraction(&galaxy).unwrap();
    match &ship.state {
        ShipState::Extracting(info) => {
            assert_eq!(info.rates[Resource::Stone.index()], 50_000);
            assert_eq!(info.rates[Resource::Iron.index()], 8_928);
            assert_eq!(info.rates[Resource::Helium.index()], 0);
            assert_eq!(info.time_before_cargo_full(2_000_000), Some(335));
        }
        _ => panic!("not extracting"),
    }
    assert_eq!(ship.start_extraction(&galaxy).unwrap_err(), Errcode::ShipNotIdle);
    assert!(!ship.update_extract(100));
    assert_eq!(ship.cargo.resources[Resource::Stone.index()], 5_000);
    assert_eq!(ship.cargo.resources[Resource::Iron.index()], 892);
    assert_eq!(ship.cargo.usage, 5_000 * 75 + 892 * 250);
    assert!(ship.update_extract(1_000));
    assert!(matches!(ship.state, ShipState::Idle));
    assert!(ship.cargo.usage <= ship.cargo.capacity);
    assert_eq!(ship.stop_extraction().unwrap_err(), Errcode::ShipNotExtracting);
}

#[test]
fn stopping_an_extraction_keeps_the_cargo() {
    let mut galaxy = Galaxy::init();
    let here = (7, 7, 7);
    galaxy
        .insert(&here, SpaceObject::Planet(Planet::new(here, 10, false)))
        .unwrap();
    let mut ship = ship_at(here);
    ship.modules = vec![ShipModule {
        kind: ShipModuleType::GasSucker,
        operator: Some(CrewMember {
            member_type: CrewMemberType::Operator,
            rank: 1,
        }),
    }];
    ship.cargo = ShipCargo::new(10_000_000);
    ship.start_extraction(&galaxy).unwrap();
    assert!(!ship.update_extract(1_000));
    assert_eq!(ship.cargo.resources[Resource::Helium.index()], 25_000);
    ship.stop_extraction().unwrap();
    assert!(matches!(ship.state, ShipState::Idle));
    assert_eq!(ship.cargo.resources[Resource::Helium.index()], 25_000);
}

#[test]
fn extraction_info_of_an_idle_planet() {
    let mut ship = ship_at((0, 0, 0));
    ship.modules = vec![miner(10)];
    let info = ExtractionInfo::create(&ship, &Planet::new((0, 0, 0), 1, false));
    assert!(!info.extracts_anything());
    assert_eq!(info.time_before_cargo_full(100), None);
}

#[test]
fn cargo_takes_what_fits() {
    let mut cargo = ShipCargo::new(1_000);
    assert_eq!(cargo.add_resource(Resource::Iron.index(), 3), 3);
    assert_eq!(cargo.usage, 750);
    assert_eq!(cargo.add_resource(Resource::Iron.index(), 3), 1);
    assert_eq!(cargo.usage, 1_000);
    assert_eq!(cargo.resources[Resource::Iron.index()], 4);
}
