use simeis::crew::{CrewMember, CrewMemberType};
use simeis::planet::Planet;
use simeis::resources::Resource;

#[test]
fn ranks_gate_extraction() {
    assert_eq!(Resource::Stone.min_rank(), 0);
    assert_eq!(Resource::Gold.min_rank(), 9);
    assert!(Resource::Stone.mineable(1));
    assert!(!Resource::Stone.mineable(0));
    assert!(!Resource::Iron.mineable(2));
    assert!(Resource::Iron.mineable(3));
    assert!(!Resource::Helium.mineable(200));
    assert!(Resource::Helium.suckable(1));
    assert!(!Resource::Oxygen.suckable(9));
    assert!(Resource::Oxygen.suckable(10));
    assert!(!Resource::Fuel.suckable(255));
    assert!(!Resource::Fuel.mineable(255));
}

#[test]
fn crafted_resources_are_scored() {
    assert!(Resource::Fuel.scored());
    assert!(Resource::HullPlate.scored());
    assert!(!Resource::Gold.scored());
}

#[test]
fn resource_tables() {
    assert_eq!(Resource::Copper.base_price(), 9200);
    assert_eq!(Resource::Fuel.base_price(), 190);
    assert_eq!(Resource::Gold.volume(), 25);
    assert_eq!(Resource::Freon.extraction_difficulty(), 190);
    assert_eq!(Resource::all().len(), 10);
    assert_eq!(Resource::all()[Resource::Ozone.index()], Resource::Ozone);
}

#[test]
fn density_depends_on_the_planet_state() {
    let solid = Planet::new((0, 0, 0), 0, true);
    let gas = Planet::new((0, 0, 0), 0, false);
    assert_eq!(solid.resource_density(&Resource::Gold), 625);
    assert_eq!(solid.resource_density(&Resource::Helium), 0);
    assert_eq!(gas.resource_density(&Resource::Helium), 625);
    assert_eq!(gas.resource_density(&Resource::Fuel), 0);
}

#[test]
fn random_planet_keeps_its_position() {
    for _ in 0..100 {
        assert_eq!(Planet::random((1, 2, 3)).position, (1, 2, 3));
    }
}

#[test]
fn hired_crew_starts_at_rank_one() {
    let m = CrewMember::from(CrewMemberType::Trader);
    assert_eq!(m.rank, 1);
    assert_eq!(m.member_type, CrewMemberType::Trader);
}
