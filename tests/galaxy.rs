use rand::{Rng, SeedableRng};
use simeis::galaxy::{Galaxy, SpaceObject, STATION_DIST_SQ_HIGH, STATION_DIST_SQ_LOW};
use simeis::geometry::{
    compute_sector, get_delta, get_direction, get_distance, get_distance_sq, is_in_sector, isqrt, sectors_around,
    SECTOR_SIZE,
};
use simeis::planet::{Planet, PlanetInfo};
use simeis::station::Station;

#[test]
fn test_compute_sector() {
    let mut rng = <rand::rngs::SmallRng as rand::SeedableRng>::from_os_rng();
    for _ in 0..10000000 {
        let x = rng.random();
        let y = rng.random();
        let z = rng.random();
        let sec = compute_sector(x, y, z);
        assert!(is_in_sector(&(x, y, z), &sec));
    }
    assert_eq!(
        compute_sector(SECTOR_SIZE - 1, 0, 0),
        ((0, SECTOR_SIZE), (0, SECTOR_SIZE), (0, SECTOR_SIZE))
    );
    assert_eq!(
        compute_sector(0, SECTOR_SIZE - 1, 0),
        ((0, SECTOR_SIZE), (0, SECTOR_SIZE), (0, SECTOR_SIZE))
    );
    assert_eq!(
        compute_sector(0, 0, SECTOR_SIZE - 1),
        ((0, SECTOR_SIZE), (0, SECTOR_SIZE), (0, SECTOR_SIZE))
    );

    assert_eq!(
        compute_sector(SECTOR_SIZE, 0, 0),
        (
            (SECTOR_SIZE, 2 * SECTOR_SIZE),
            (0, SECTOR_SIZE),
            (0, SECTOR_SIZE)
        )
    );
    assert_eq!(
        compute_sector(0, SECTOR_SIZE, 0),
        (
            (0, SECTOR_SIZE),
            (SECTOR_SIZE, 2 * SECTOR_SIZE),
            (0, SECTOR_SIZE)
        )
    );
    assert_eq!(
        compute_sector(0, 0, SECTOR_SIZE),
        (
            (0, SECTOR_SIZE),
            (0, SECTOR_SIZE),
            (SECTOR_SIZE, 2 * SECTOR_SIZE)
        )
    );
}

#[test]
fn top_sector_saturates_and_keeps_the_last_unit() {
    let sec = compute_sector(u32::MAX, 7, 12345);
    assert_eq!(sec.0, (4294965000, u32::MAX));
    assert_eq!(sec.1, (0, SECTOR_SIZE));
    assert_eq!(sec.2, (10000, 15000));
    assert!(is_in_sector(&(u32::MAX, 7, 12345), &sec));
    assert!(!is_in_sector(&(4294964999, 7, 12345), &sec));
    assert!(is_in_sector(&(u32::MAX - 1, 7, 12345), &sec));
}

#[test]
fn distances_are_rounded_down() {
    assert_eq!(get_distance_sq(&(0, 0, 0), &(3, 4, 12)), 169);
    assert_eq!(get_distance(&(0, 0, 0), &(3, 4, 12)), 13);
    assert_eq!(get_distance(&(10, 10, 10), &(5, 5, 5)), 8);
    assert_eq!(get_distance(&(0, 0, 0), &(10, 10, 10)), 17);
    assert_eq!(isqrt(0), 0);
    assert_eq!(isqrt(99), 9);
    assert_eq!(isqrt(100), 10);
    let far = get_distance(&(0, 0, 0), &(u32::MAX, u32::MAX, u32::MAX));
    assert_eq!(far, 7439101571);
}

#[test]
fn directions_are_reduced_vectors() {
    assert_eq!(get_delta(&(10, 10, 10), &(0, 10, 5)), (-10, 0, -5));
    assert_eq!(get_direction(&(10, 10, 10), &(0, 10, 5)), (-2, 0, -1));
    assert_eq!(get_direction(&(0, 0, 0), &(4, 6, 8)), (2, 3, 4));
    assert_eq!(get_direction(&(0, 0, 0), &(7, 0, 0)), (1, 0, 0));
    assert_eq!(get_direction(&(1, 1, 1), &(4, 7, 10)), get_direction(&(0, 0, 0), &(1, 2, 3)));
}

#[test]
fn sectors_around_form_a_cube() {
    let center = (12000, 12000, 12000);
    assert_eq!(sectors_around(&center, 0), vec![compute_sector(12000, 12000, 12000)]);
    let around = sectors_around(&center, 1);
    assert_eq!(around.len(), 27);
    assert_eq!(around[0], compute_sector(5000, 5000, 5000));
    assert_eq!(around[1], compute_sector(5000, 5000, 10000));
    assert_eq!(around[26], compute_sector(15000, 15000, 15000));
    // Sectors below the origin do not exist.
    assert_eq!(sectors_around(&(100, 100, 100), 1).len(), 8);
    assert_eq!(sectors_around(&(100, 100, 100), 2).len(), 27);
}

#[test]
fn insert_refuses_an_occupied_coordinate() {
    let mut galaxy = Galaxy::init();
    let c = (10, 20, 30);
    assert_eq!(galaxy.insert(&c, SpaceObject::Planet(Planet::new(c, 300, true))), Some(()));
    assert_eq!(
        galaxy.insert(&c, SpaceObject::BaseStation(Station::init(4, c))),
        None
    );
    assert!(galaxy.get_planet(&c).is_some());
    assert!(galaxy.get_station(&c).is_none());
    assert!(galaxy.get(&(10, 20, 31)).is_none());
    let d = (10, 20, 31);
    assert_eq!(
        galaxy.insert(&d, SpaceObject::BaseStation(Station::init(4, d))),
        Some(())
    );
    assert_eq!(galaxy.get_station(&d).unwrap().id, 4);
    assert!(galaxy.get_planet(&d).is_none());
}

#[test]
fn generated_sector_is_discovered_and_holds_its_planets() {
    let mut galaxy = Galaxy::init();
    assert!(!galaxy.is_discovered(&(12345, 6789, 101112)));
    assert_eq!(galaxy.generate_sector(&(12345, 6789, 101112)), 0);
    assert_eq!(galaxy.generate_sector(&(0, 0, 0)), 1);
    assert!(galaxy.is_discovered(&(12345, 6789, 101112)));
    assert!(galaxy.is_discovered(&(10000, 5000, 100000)));
    assert!(galaxy.is_discovered(&(14999, 9999, 104999)));
    assert!(!galaxy.is_discovered(&(15000, 10000, 105000)));
    assert!(!galaxy.is_discovered(&(15001, 10000, 105000)));
    let sector = compute_sector(12345, 6789, 101112);
    let scan = galaxy.scan_sector(1, &(12345, 6789, 101112));
    assert!(!scan.planets.is_empty());
    assert!(scan.planets.len() <= 3);
    for p in scan.planets.iter() {
        assert!(is_in_sector(&p.position, &sector));
    }
}

fn check_station(galaxy: &Galaxy, id: u32, coord: (u32, u32, u32)) {
    let station = galaxy.get_station(&coord).unwrap();
    assert_eq!(station.id, id);
    assert_eq!(station.position, coord);
    let sector = compute_sector(coord.0, coord.1, coord.2);
    assert!(is_in_sector(&coord, &sector));
    let scan = galaxy.scan_sector(1, &coord);
    let nearest = scan
        .planets
        .iter()
        .filter(|p| is_in_sector(&p.position, &sector))
        .map(|p| get_distance_sq(&p.position, &coord))
        .min()
        .unwrap();
    assert!(nearest > STATION_DIST_SQ_LOW && nearest < STATION_DIST_SQ_HIGH);
}

#[test]
fn new_station_lies_at_the_station_distance_of_its_nearest_planet() {
    let mut galaxy = Galaxy::init();
    let (id1, c1) = galaxy.init_new_station().unwrap();
    check_station(&galaxy, id1, c1);
    let (id2, c2) = galaxy.init_new_station().unwrap();
    check_station(&galaxy, id2, c2);
    assert_ne!(
        compute_sector(c1.0, c1.1, c1.2),
        compute_sector(c2.0, c2.1, c2.2)
    );
    assert!(galaxy.is_discovered(&c1));
    assert!(galaxy.is_discovered(&c2));
    assert_eq!(galaxy.discovered_count(), 2);
}

#[test]
fn scanning_twice_gives_the_same_result() {
    let mut galaxy = Galaxy::init();
    let (_, c) = galaxy.init_new_station().unwrap();
    for rank in 1..=3u8 {
        let a = galaxy.scan_sector(rank, &c);
        let b = galaxy.scan_sector(rank, &c);
        assert_eq!(a.planets, b.planets);
        assert_eq!(a.stations, b.stations);
        assert!(!a.planets.is_empty());
        // Sector bounds are closed, so a station on a shared face is listed once
        // per sector that holds it.
        assert!(!a.stations.is_empty());
        assert!(a.stations.iter().all(|s| s.position == c));
    }
}

#[test]
fn scan_reveals_position_temperature_and_state() {
    let mut galaxy = Galaxy::init();
    let p = Planet::new((42, 43, 44), 1234, false);
    galaxy.insert(&p.position, SpaceObject::Planet(p)).unwrap();
    let scan = galaxy.scan_sector(1, &(0, 0, 0));
    assert_eq!(
        scan.planets,
        vec![PlanetInfo {
            position: (42, 43, 44),
            temperature: 1234,
            solid: false
        }]
    );
    assert_eq!(PlanetInfo::scan(5, &p), scan.planets[0]);
    assert!(scan.stations.is_empty());
    // A planet in the next sector is found from rank 2 on.
    let q = Planet::new((6000, 43, 44), 10, true);
    galaxy.insert(&q.position, SpaceObject::Planet(q)).unwrap();
    assert_eq!(galaxy.scan_sector(1, &(0, 0, 0)).planets.len(), 1);
    assert_eq!(galaxy.scan_sector(2, &(0, 0, 0)).planets.len(), 2);
}

#[test]
fn sectors_do_not_overlap() {
    let mut galaxy = Galaxy::init();
    galaxy.generate_sector(&(0, 0, 0));
    assert!(galaxy.is_discovered(&(4999, 4999, 4999)));
    assert!(!galaxy.is_discovered(&(5000, 0, 0)));
    assert!(!galaxy.scan_sector(1, &(0, 0, 0)).planets.is_empty());
    let mut empty = Galaxy::init();
    let p = Planet::new((5000, 0, 0), 1, true);
    empty.insert(&p.position, SpaceObject::Planet(p)).unwrap();
    assert!(empty.scan_sector(1, &(0, 0, 0)).planets.is_empty());
    assert_eq!(empty.scan_sector(1, &(5000, 0, 0)).planets.len(), 1);
    assert_eq!(empty.scan_sector(2, &(0, 0, 0)).planets.len(), 1);
}

/// The heavy run of the placement checks: a long seeded sequence of inserts,
/// after which no two objects share a coordinate.
#[test]
fn galaxy_test_heavy_testing() {
    let mut rng = rand::rngs::SmallRng::seed_from_u64(7);
    let mut galaxy = Galaxy::init();
    for _ in 0..2000 {
        let c = (rng.random_range(0..50), rng.random_range(0..50), rng.random_range(0..50));
        let before = galaxy.get(&c).is_some();
        let r = galaxy.insert(&c, SpaceObject::Planet(Planet::new(c, 1, true)));
        assert_eq!(r.is_none(), before);
    }
    let scan = galaxy.scan_sector(1, &(0, 0, 0));
    let mut seen: Vec<(u32, u32, u32)> = scan.planets.iter().map(|p| p.position).collect();
    let n = seen.len();
    seen.sort();
    seen.dedup();
    assert_eq!(seen.len(), n);
}
