//! The galaxy store: objects by coordinate and the sectors generated so far.
use crate::errors::Errcode;
use crate::geometry::{
    lemma_sectors_around_has_center,
    compute_sector, dist_sq, get_distance_sq, in_sector, is_in_sector, lemma_sector_contains,
    lemma_sector_bounds, lemma_sector_tiling, same_coord, sector_of, sectors_around,
    spec_sectors_around, GalaxySector, SpaceCoord,
};
use crate::planet::{spec_planet_info, Planet, PlanetInfo};
use crate::random::random_in;
use crate::scan::{ScanResult, StationInfo};
use crate::station::{Station, StationId};
use vstd::prelude::*;

verus! {

/// Planets drawn when a sector is generated.
pub const PLANETS_PER_SECTOR: usize = 3;

#[derive(Debug)]
pub enum SpaceObject {
    BaseStation(Station),
    Planet(Planet),
}

pub struct Galaxy {
    objects: Vec<(SpaceCoord, SpaceObject)>,
    discovered: Vec<GalaxySector>,
}

/// No two entries share a coordinate.
pub open spec fn coords_unique(s: Seq<(SpaceCoord, SpaceObject)>) -> bool {
    forall|i: int, j: int| 0 <= i < s.len() && 0 <= j < s.len() && i != j ==> s[i].0 != s[j].0
}

/// The object stored at `c`, the latest entry winning.
pub open spec fn lookup_in(s: Seq<(SpaceCoord, SpaceObject)>, c: SpaceCoord) -> Option<SpaceObject>
    decreases s.len(),
{
    if s.len() == 0 {
        None
    } else if s.last().0 == c {
        Some(s.last().1)
    } else {
        lookup_in(s.drop_last(), c)
    }
}

proof fn lemma_lookup_none(s: Seq<(SpaceCoord, SpaceObject)>, c: SpaceCoord)
    ensures
        lookup_in(s, c) is None <==> forall|i: int| 0 <= i < s.len() ==> s[i].0 != c,
    decreases s.len(),
{
    if s.len() > 0 {
        lemma_lookup_none(s.drop_last(), c);
        assert forall|i: int| 0 <= i < s.len() - 1 implies s.drop_last()[i] == s[i] by {}
    }
}

/// `new` is `old` followed by at most `PLANETS_PER_SECTOR` planets, each stored at
/// its own position inside `sector`.
pub open spec fn planets_added(
    old: Seq<(SpaceCoord, SpaceObject)>,
    new: Seq<(SpaceCoord, SpaceObject)>,
    sector: GalaxySector,
) -> bool {
    &&& old.len() <= new.len() <= old.len() + PLANETS_PER_SECTOR
    &&& new.subrange(0, old.len() as int) == old
    &&& forall|i: int|
        old.len() <= i < new.len() ==> {
            &&& in_sector(#[trigger] new[i].0, sector)
            &&& new[i].1 matches SpaceObject::Planet(p) && p.position == new[i].0
        }
}

/// `v` lies within `SAMPLE_REACH` of `center` on one axis.
pub open spec fn near_axis(center: u32, v: u32) -> bool {
    center - SAMPLE_REACH <= v <= center + SAMPLE_REACH
}

/// Every object lies in a generated sector.
pub open spec fn objects_settled(objs: Seq<(SpaceCoord, SpaceObject)>, disc: Seq<GalaxySector>) -> bool {
    forall|i: int| 0 <= i < objs.len() ==> disc.contains(sector_of(#[trigger] objs[i].0))
}

proof fn lemma_settled_after_generate(
    old_objs: Seq<(SpaceCoord, SpaceObject)>,
    old_disc: Seq<GalaxySector>,
    new_objs: Seq<(SpaceCoord, SpaceObject)>,
    coord: SpaceCoord,
)
    requires
        objects_settled(old_objs, old_disc),
        planets_added(old_objs, new_objs, sector_of(coord)),
    ensures
        objects_settled(new_objs, old_disc.push(sector_of(coord))),
{
    let disc = old_disc.push(sector_of(coord));
    assert forall|i: int| 0 <= i < new_objs.len() implies disc.contains(sector_of(#[trigger] new_objs[i].0)) by {
        if i < old_objs.len() {
            assert(new_objs[i] == new_objs.subrange(0, old_objs.len() as int)[i]);
            assert(new_objs[i] == old_objs[i]);
            assert(old_disc.contains(sector_of(old_objs[i].0)));
            let j = choose|j: int| 0 <= j < old_disc.len() && old_disc[j] == sector_of(old_objs[i].0);
            assert(disc[j] == old_disc[j]);
        } else {
            assert(in_sector(new_objs[i].0, sector_of(coord)));
            lemma_sector_tiling(coord, new_objs[i].0);
            assert(disc[old_disc.len() as int] == sector_of(coord));
        }
    }
}

proof fn lemma_settled_push(
    objs: Seq<(SpaceCoord, SpaceObject)>,
    disc: Seq<GalaxySector>,
    c: SpaceCoord,
    o: SpaceObject,
)
    requires
        objects_settled(objs, disc),
        disc.contains(sector_of(c)),
    ensures
        objects_settled(objs.push((c, o)), disc),
{
    let n = objs.push((c, o));
    assert forall|i: int| 0 <= i < n.len() implies disc.contains(sector_of(#[trigger] n[i].0)) by {
        if i < objs.len() {
            assert(n[i] == objs[i]);
        }
    }
}

/// Some planet is stored in `sector`.
pub open spec fn has_planet_in(objs: Seq<(SpaceCoord, SpaceObject)>, sector: GalaxySector) -> bool {
    exists|i: int| 0 <= i < objs.len() && in_sector(#[trigger] objs[i].0, sector) && objs[i].1 is Planet
}

/// Every generated sector holds a planet.
pub open spec fn sectors_inhabited(objs: Seq<(SpaceCoord, SpaceObject)>, disc: Seq<GalaxySector>) -> bool {
    forall|j: int| 0 <= j < disc.len() ==> has_planet_in(objs, #[trigger] disc[j])
}

proof fn lemma_has_planet_prefix(
    objs: Seq<(SpaceCoord, SpaceObject)>,
    longer: Seq<(SpaceCoord, SpaceObject)>,
    sector: GalaxySector,
)
    requires
        has_planet_in(objs, sector),
        objs.len() <= longer.len(),
        longer.subrange(0, objs.len() as int) == objs,
    ensures
        has_planet_in(longer, sector),
{
    let i = choose|i: int| 0 <= i < objs.len() && in_sector(#[trigger] objs[i].0, sector) && objs[i].1 is Planet;
    assert(longer[i] == longer.subrange(0, objs.len() as int)[i]);
}

/// In a settled galaxy, a sector that no generated sector equals holds no object.
proof fn lemma_settled_fresh_sector(g: Galaxy, c: SpaceCoord)
    requires
        g.settled(),
        forall|j: int| 0 <= j < g.discovered().len() ==> g.discovered()[j] != sector_of(c),
    ensures
        sector_is_empty(g.objects(), sector_of(c)),
{
    reveal(Galaxy::settled);
    lemma_settled_new_sector_empty(g.objects(), g.discovered(), c);
}

/// Adding an object inside a generated sector keeps a galaxy settled.
proof fn lemma_settled_station(g1: Galaxy, g2: Galaxy, coord: SpaceCoord)
    requires
        g1.settled(),
        g2.discovered() == g1.discovered(),
        g2.objects() == g1.objects().push((coord, g2.objects().last().1)),
        g1.discovered().len() > 0,
        g1.discovered().last() == sector_of(coord),
    ensures
        g2.settled(),
{
    reveal(Galaxy::settled);
    assert(g1.discovered()[g1.discovered().len() - 1] == sector_of(coord));
    assert(g1.discovered().contains(sector_of(coord)));
    lemma_settled_push(g1.objects(), g1.discovered(), coord, g2.objects().last().1);
    let disc = g2.discovered();
    let objs = g2.objects();
    assert(objs.subrange(0, g1.objects().len() as int) =~= g1.objects());
    assert forall|j: int| 0 <= j < disc.len() implies has_planet_in(objs, #[trigger] disc[j]) by {
        assert(has_planet_in(g1.objects(), disc[j]));
        lemma_has_planet_prefix(g1.objects(), objs, disc[j]);
    }
}

/// A sector that no generated sector equals holds no object of a settled galaxy.
proof fn lemma_settled_new_sector_empty(
    objs: Seq<(SpaceCoord, SpaceObject)>,
    disc: Seq<GalaxySector>,
    c: SpaceCoord,
)
    requires
        objects_settled(objs, disc),
        forall|j: int| 0 <= j < disc.len() ==> disc[j] != sector_of(c),
    ensures
        sector_is_empty(objs, sector_of(c)),
{
    assert forall|i: int| 0 <= i < objs.len() implies !in_sector(#[trigger] objs[i].0, sector_of(c)) by {
        if in_sector(objs[i].0, sector_of(c)) {
            lemma_sector_tiling(c, objs[i].0);
            assert(disc.contains(sector_of(objs[i].0)));
        }
    }
}

/// No stored object lies in `sector`.
pub open spec fn sector_is_empty(objs: Seq<(SpaceCoord, SpaceObject)>, sector: GalaxySector) -> bool {
    forall|i: int| 0 <= i < objs.len() ==> !in_sector(#[trigger] objs[i].0, sector)
}

/// Distance wanted between a new station and the nearest planet of its sector.
pub const STATION_PLANET_DIST: u32 = 500;

/// Squared distances strictly between these two are within one unit of
/// `STATION_PLANET_DIST`.
pub const STATION_DIST_SQ_LOW: u128 = 249001;

pub const STATION_DIST_SQ_HIGH: u128 = 251001;

/// Draws allowed to the station placement search before it gives up.
pub const MAX_PLACEMENT_RETRIES: u32 = 10000;

/// Half the edge of the cube around the anchor planet that candidates are drawn from.
pub const SAMPLE_REACH: u32 = 501;

/// The nearest planet stored inside `sector` lies strictly
/// within one unit of `STATION_PLANET_DIST` from `c`.
pub open spec fn nearest_planet_fits(
    objs: Seq<(SpaceCoord, SpaceObject)>,
    sector: GalaxySector,
    c: SpaceCoord,
) -> bool {
    &&& forall|i: int|
        0 <= i < objs.len() && in_sector(#[trigger] objs[i].0, sector) && objs[i].1 is Planet
            ==> dist_sq(objs[i].0, c) > STATION_DIST_SQ_LOW
    &&& exists|i: int|
        0 <= i < objs.len() && in_sector(#[trigger] objs[i].0, sector) && objs[i].1 is Planet
            && dist_sq(objs[i].0, c) < STATION_DIST_SQ_HIGH
}

/// What a successful station placement leaves behind: a sector that was not
/// generated before is generated, and a station with identity `id` stands at an
/// unoccupied coordinate inside it, at the wanted distance from its nearest planet.
pub open spec fn station_placed(old: Galaxy, new: Galaxy, id: StationId, coord: SpaceCoord) -> bool {
    let sector = sector_of(coord);
    &&& forall|i: int| 0 <= i < old.discovered().len() ==> old.discovered()[i] != sector
    &&& new.discovered() == old.discovered().push(sector)
    &&& in_sector(coord, sector)
    &&& new.objects().len() > 0
    &&& new.objects().last().0 == coord
    &&& new.objects().last().1 matches SpaceObject::BaseStation(st) && st.is_new(id, coord)
    &&& planets_added(old.objects(), new.objects().drop_last(), sector)
    &&& lookup_in(new.objects().drop_last(), coord) is None
    &&& nearest_planet_fits(new.objects(), sector, coord)
}

/// Planets stored inside `s`, as a scan reveals them, in storage order.
pub open spec fn planets_in(objs: Seq<(SpaceCoord, SpaceObject)>, s: GalaxySector) -> Seq<PlanetInfo>
    decreases objs.len(),
{
    if objs.len() == 0 {
        seq![]
    } else {
        let prev = planets_in(objs.drop_last(), s);
        if in_sector(objs.last().0, s) {
            match objs.last().1 {
                SpaceObject::Planet(p) => prev.push(spec_planet_info(p)),
                _ => prev,
            }
        } else {
            prev
        }
    }
}

/// Stations stored inside `s`, as a scan reveals them, in storage order.
pub open spec fn stations_in(objs: Seq<(SpaceCoord, SpaceObject)>, s: GalaxySector) -> Seq<StationInfo>
    decreases objs.len(),
{
    if objs.len() == 0 {
        seq![]
    } else {
        let prev = stations_in(objs.drop_last(), s);
        if in_sector(objs.last().0, s) {
            match objs.last().1 {
                SpaceObject::BaseStation(st) => prev.push(StationInfo { id: st.id, position: st.position }),
                _ => prev,
            }
        } else {
            prev
        }
    }
}

/// Planets revealed by a scan of `sectors`, sector after sector.
pub open spec fn scan_planets(objs: Seq<(SpaceCoord, SpaceObject)>, sectors: Seq<GalaxySector>) -> Seq<PlanetInfo>
    decreases sectors.len(),
{
    if sectors.len() == 0 {
        seq![]
    } else {
        scan_planets(objs, sectors.drop_last()) + planets_in(objs, sectors.last())
    }
}

/// Stations revealed by a scan of `sectors`, sector after sector.
pub open spec fn scan_stations(objs: Seq<(SpaceCoord, SpaceObject)>, sectors: Seq<GalaxySector>) -> Seq<StationInfo>
    decreases sectors.len(),
{
    if sectors.len() == 0 {
        seq![]
    } else {
        scan_stations(objs, sectors.drop_last()) + stations_in(objs, sectors.last())
    }
}

impl Galaxy {
    /// The stored objects, in the order they were inserted.
    pub closed spec fn objects(&self) -> Seq<(SpaceCoord, SpaceObject)> {
        self.objects@
    }

    /// The generated sectors, in the order they were generated.
    pub closed spec fn discovered(&self) -> Seq<GalaxySector> {
        self.discovered@
    }

    pub open spec fn wf(&self) -> bool {
        coords_unique(self.objects())
    }

    /// Every object lies in a generated sector and every generated sector holds a
    /// planet: true of a galaxy grown only by generating sectors and placing
    /// stations.
    #[verifier::opaque]
    pub open spec fn settled(&self) -> bool {
        &&& objects_settled(self.objects(), self.discovered())
        &&& sectors_inhabited(self.objects(), self.discovered())
    }

    pub open spec fn lookup(&self, c: SpaceCoord) -> Option<SpaceObject> {
        lookup_in(self.objects(), c)
    }

    pub open spec fn spec_is_discovered(&self, c: SpaceCoord) -> bool {
        exists|i: int| 0 <= i < self.discovered().len() && in_sector(c, #[trigger] self.discovered()[i])
    }

    pub fn init() -> (r: Galaxy)
        ensures
            r.wf(),
            r.settled(),
            r.objects().len() == 0,
            r.discovered().len() == 0,
    {
        let g = Galaxy { objects: Vec::new(), discovered: Vec::new() };
        proof {
            reveal(Galaxy::settled);
        }
        g
    }

    /// Number of generated sectors.
    pub fn discovered_count(&self) -> (r: usize)
        ensures
            r == self.discovered().len(),
    {
        self.discovered.len()
    }

    /// Whether a generated sector holds `coord`, its end excluded.
    pub fn is_discovered(&self, coord: &SpaceCoord) -> (r: bool)
        ensures
            r == self.spec_is_discovered(*coord),
    {
        let mut i: usize = 0;
        while i < self.discovered.len()
            invariant
                i <= self.discovered@.len(),
                forall|j: int| 0 <= j < i ==> !in_sector(*coord, #[trigger] self.discovered@[j]),
            decreases self.discovered@.len() - i,
        {
            if is_in_sector(coord, &self.discovered[i]) {
                assert(in_sector(*coord, self.discovered()[i as int]));
                return true;
            }
            i += 1;
        }
        false
    }

    /// The object at exactly `coord`.
    pub fn get(&self, coord: &SpaceCoord) -> (r: Option<&SpaceObject>)
        ensures
            match r {
                Some(o) => self.lookup(*coord) == Some(*o),
                None => self.lookup(*coord) is None,
            },
    {
        let mut i: usize = self.objects.len();
        assert(self.objects@.subrange(0, i as int) =~= self.objects@);
        while i > 0
            invariant
                i <= self.objects@.len(),
                lookup_in(self.objects@, *coord) == lookup_in(self.objects@.subrange(0, i as int), *coord),
            decreases i,
        {
            let ghost pre = self.objects@.subrange(0, i as int);
            assert(pre.drop_last() =~= self.objects@.subrange(0, i - 1));
            if same_coord(&self.objects[i - 1].0, coord) {
                return Some(&self.objects[i - 1].1);
            }
            i -= 1;
        }
        None
    }

    /// Stores `obj` at `coord`, unless the coordinate is taken: then nothing changes
    /// and `None` signals it.
    pub fn insert(&mut self, coord: &SpaceCoord, obj: SpaceObject) -> (r: Option<()>)
        requires
            old(self).wf(),
        ensures
            final(self).wf(),
            final(self).discovered() == old(self).discovered(),
            old(self).lookup(*coord) is Some ==> r is None && final(self).objects() == old(self).objects(),
            old(self).lookup(*coord) is None ==> r is Some && final(self).objects() == old(self).objects().push((*coord, obj)),
    {
        if self.get(coord).is_some() {
            return None;
        }
        proof {
            lemma_lookup_none(self.objects@, *coord);
        }
        self.objects.push((*coord, obj));
        Some(())
    }

    /// Records the sector holding `coord` as discovered and draws planets at random
    /// positions inside it; a planet whose position is taken is skipped. Returns the
    /// sector's index in the discovered list.
    pub fn generate_sector(&mut self, coord: &SpaceCoord) -> (r: usize)
        requires
            old(self).wf(),
            old(self).discovered().len() < usize::MAX,
        ensures
            final(self).wf(),
            r == old(self).discovered().len(),
            final(self).discovered() == old(self).discovered().push(sector_of(*coord)),
            planets_added(old(self).objects(), final(self).objects(), sector_of(*coord)),
            sector_is_empty(old(self).objects(), sector_of(*coord)) ==> final(self).objects().len()
                > old(self).objects().len(),
            old(self).settled() ==> final(self).settled(),
    {
        let sector = compute_sector(coord.0, coord.1, coord.2);
        proof {
            lemma_sector_bounds(*coord);
        }
        let ind = self.discovered.len();
        self.discovered.push(sector);
        let ghost start = self.objects@;
        assert(start.subrange(0, start.len() as int) =~= start);
        let mut n: usize = 0;
        while n < PLANETS_PER_SECTOR
            invariant
                self.wf(),
                n <= PLANETS_PER_SECTOR,
                self.discovered() == old(self).discovered().push(sector),
                sector == sector_of(*coord),
                start == old(self).objects(),
                sector.0.0 < sector.0.1 && sector.1.0 < sector.1.1 && sector.2.0 < sector.2.1,
                old(self).objects().len() <= self.objects().len() <= old(self).objects().len() + n,
                planets_added(start, self.objects(), sector),
                sector_is_empty(start, sector) && n > 0 ==> self.objects().len() > start.len(),
            decreases PLANETS_PER_SECTOR - n,
        {
            let x = random_in(sector.0.0, sector.0.1);
            let y = random_in(sector.1.0, sector.1.1);
            let z = random_in(sector.2.0, sector.2.1);
            let planet = Planet::random((x, y, z));
            let ghost before = self.objects();
            proof {
                if sector_is_empty(start, sector) && before.len() == start.len() {
                    assert(before =~= start) by {
                        assert(before.subrange(0, start.len() as int) == start);
                    }
                    assert(in_sector((x, y, z), sector));
                    lemma_lookup_none(before, (x, y, z));
                }
            }
            let _ = self.insert(&(x, y, z), SpaceObject::Planet(planet));
            proof {
                assert(in_sector((x, y, z), sector));
                if self.objects().len() > before.len() {
                    assert(self.objects() == before.push(((x, y, z), SpaceObject::Planet(planet))));
                    assert(self.objects().subrange(0, start.len() as int) =~= before.subrange(
                        0,
                        start.len() as int,
                    ));
                }
            }
            n += 1;
        }
        proof {
            reveal(Galaxy::settled);
            if old(self).settled() {
                lemma_settled_after_generate(start, old(self).discovered(), self.objects(), *coord);
                let disc = self.discovered();
                let objs = self.objects();
                assert forall|j: int| 0 <= j < disc.len() implies has_planet_in(objs, #[trigger] disc[j]) by {
                    if j < old(self).discovered().len() {
                        assert(disc[j] == old(self).discovered()[j]);
                        lemma_has_planet_prefix(start, objs, disc[j]);
                    } else {
                        let prev = choose|p: int| 0 <= p < old(self).discovered().len()
                            && old(self).discovered()[p] == sector;
                        if old(self).discovered().contains(sector) {
                            assert(has_planet_in(start, old(self).discovered()[prev]));
                            lemma_has_planet_prefix(start, objs, sector);
                        } else {
                            lemma_settled_new_sector_empty(start, old(self).discovered(), *coord);
                            let k = start.len() as int;
                            assert(in_sector(objs[k].0, sector) && objs[k].1 is Planet);
                        }
                    }
                }
            }
        }
        ind
    }

    /// Position of the first planet stored inside `sector`, in storage order, that
    /// is in the order of insertion.
    fn first_planet_in(&self, sector: &GalaxySector) -> (r: Option<SpaceCoord>)
        ensures
            match r {
                Some(c) => exists|i: int|
                    0 <= i < self.objects().len() && #[trigger] self.objects()[i].0 == c && in_sector(
                        c,
                        *sector,
                    ) && self.objects()[i].1 is Planet && forall|j: int|
                        0 <= j < i && in_sector(#[trigger] self.objects()[j].0, *sector)
                            ==> !(self.objects()[j].1 is Planet),
                None => forall|i: int|
                    0 <= i < self.objects().len() && in_sector(#[trigger] self.objects()[i].0, *sector)
                        ==> !(self.objects()[i].1 is Planet),
            },
    {
        let mut i: usize = 0;
        while i < self.objects.len()
            invariant
                i <= self.objects().len(),
                forall|j: int|
                    0 <= j < i && in_sector(#[trigger] self.objects()[j].0, *sector)
                        ==> !(self.objects()[j].1 is Planet),
            decreases self.objects().len() - i,
        {
            let (c, obj) = &self.objects[i];
            if is_in_sector(c, sector) {
                if let SpaceObject::Planet(_) = obj {
                    assert(self.objects()[i as int].0 == *c);
                    return Some(*c);
                }
            }
            i += 1;
        }
        None
    }

    /// Whether the nearest planet inside `sector` lies within one unit of
    /// `STATION_PLANET_DIST` from `coord`.
    fn nearest_planet_fits(&self, sector: &GalaxySector, coord: &SpaceCoord) -> (r: bool)
        ensures
            r == nearest_planet_fits(self.objects(), *sector, *coord),
    {
        let mut all_far = true;
        let mut some_near = false;
        let mut i: usize = 0;
        while i < self.objects.len()
            invariant
                i <= self.objects().len(),
                all_far == forall|j: int|
                    0 <= j < i && in_sector(#[trigger] self.objects()[j].0, *sector)
                        && self.objects()[j].1 is Planet ==> dist_sq(self.objects()[j].0, *coord)
                        > STATION_DIST_SQ_LOW,
                some_near == exists|j: int|
                    0 <= j < i && in_sector(#[trigger] self.objects()[j].0, *sector)
                        && self.objects()[j].1 is Planet && dist_sq(self.objects()[j].0, *coord)
                        < STATION_DIST_SQ_HIGH,
            decreases self.objects().len() - i,
        {
            let (c, obj) = &self.objects[i];
            assert(self.objects()[i as int].0 == *c);
            if is_in_sector(c, sector) {
                if let SpaceObject::Planet(_) = obj {
                    let d = get_distance_sq(c, coord);
                    if d <= STATION_DIST_SQ_LOW {
                        all_far = false;
                    }
                    if d < STATION_DIST_SQ_HIGH {
                        some_near = true;
                    }
                }
            }
            i += 1;
        }
        all_far && some_near
    }

    /// A coordinate drawn in the cube of half-edge `SAMPLE_REACH` around `center`,
    /// or `None` where the draw falls outside the space.
    fn sample_near(center: &SpaceCoord) -> (r: Option<SpaceCoord>)
        ensures
            r matches Some(c) ==> near_axis(center.0, c.0) && near_axis(center.1, c.1) && near_axis(
                center.2,
                c.2,
            ),
    {
        let dx = random_in(0, 2 * SAMPLE_REACH + 1) as i64 - SAMPLE_REACH as i64;
        let dy = random_in(0, 2 * SAMPLE_REACH + 1) as i64 - SAMPLE_REACH as i64;
        let dz = random_in(0, 2 * SAMPLE_REACH + 1) as i64 - SAMPLE_REACH as i64;
        let x = center.0 as i64 + dx;
        let y = center.1 as i64 + dy;
        let z = center.2 as i64 + dz;
        if 0 <= x && x <= u32::MAX as i64 && 0 <= y && y <= u32::MAX as i64 && 0 <= z && z
            <= u32::MAX as i64 {
            Some((x as u32, y as u32, z as u32))
        } else {
            None
        }
    }

    /// Creates a station for a new player: draws coordinates until one falls outside
    /// every generated sector, generates that sector, and searches around its first
    /// planet in storage order (the first one drawn, in a sector that was empty)
    /// for a free coordinate of the sector whose nearest planet lies within one
    /// unit of `STATION_PLANET_DIST`. Gives up with `TooManyRetries` after
    /// `MAX_PLACEMENT_RETRIES` draws of either kind: that is a configuration defect,
    /// not a condition to retry.
    pub fn init_new_station(&mut self) -> (r: Result<(StationId, SpaceCoord), Errcode>)
        requires
            old(self).wf(),
            old(self).discovered().len() < usize::MAX,
        ensures
            final(self).wf(),
            match r {
                Ok((id, coord)) => station_placed(*old(self), *final(self), id, coord),
                Err(e) => e == Errcode::TooManyRetries || e == Errcode::NoPlanetInSector,
            },
            old(self).settled() ==> final(self).settled() && r != Err::<(StationId, SpaceCoord), Errcode>(
                Errcode::NoPlanetInSector,
            ),
    {
        let mut seccoord: SpaceCoord = (rand::random(), rand::random(), rand::random());
        let mut tries: u32 = 0;
        loop
            invariant
                tries <= MAX_PLACEMENT_RETRIES,
                *self == *old(self),
                self.wf(),
            ensures
                *self == *old(self),
                !self.spec_is_discovered(seccoord),
            decreases MAX_PLACEMENT_RETRIES - tries,
        {
            if !self.is_discovered(&seccoord) {
                break;
            }
            if tries == MAX_PLACEMENT_RETRIES {
                return Err(Errcode::TooManyRetries);
            }
            tries += 1;
            seccoord = (rand::random(), rand::random(), rand::random());
        }
        let ghost g0 = *self;
        let id: StationId = rand::random();
        let ind = self.generate_sector(&seccoord);
        let sector = self.discovered[ind];
        proof {
            assert(sector == sector_of(seccoord));
            lemma_sector_bounds(seccoord);
            lemma_sector_contains(seccoord);
            assert forall|i: int| 0 <= i < g0.discovered().len() implies g0.discovered()[i]
                != sector by {
                if g0.discovered()[i] == sector {
                    assert(in_sector(seccoord, g0.discovered()[i]));
                }
            }
            if g0.settled() {
                lemma_settled_fresh_sector(g0, seccoord);
            }
        }
        let anchor = match self.first_planet_in(&sector) {
            Some(c) => c,
            None => {
                proof {
                    if g0.settled() {
                        let k = g0.objects().len() as int;
                        assert(in_sector(self.objects()[k].0, sector));
                        assert(self.objects()[k].1 is Planet);
                    }
                }
                return Err(Errcode::NoPlanetInSector);
            },
        };
        let ghost g1 = *self;
        let mut retry_n: u32 = 0;
        loop
            invariant
                *self == g1,
                g1.wf(),
                sector == sector_of(seccoord),
                g1.discovered() == g0.discovered().push(sector),
                planets_added(g0.objects(), g1.objects(), sector),
                forall|i: int| 0 <= i < g0.discovered().len() ==> g0.discovered()[i] != sector,
                g0 == *old(self),
                g0.settled() ==> g1.settled(),
                retry_n <= MAX_PLACEMENT_RETRIES,
            decreases MAX_PLACEMENT_RETRIES - retry_n,
        {
            if let Some(coord) = Self::sample_near(&anchor) {
                if is_in_sector(&coord, &sector) && self.get(&coord).is_none()
                    && self.nearest_planet_fits(&sector, &coord) {
                    proof {
                        lemma_sector_tiling(seccoord, coord);
                        lemma_lookup_none(g1.objects(), coord);
                    }
                    let _ = self.insert(&coord, SpaceObject::BaseStation(Station::init(id, coord)));
                    proof {
                        let objs = self.objects();
                        assert(objs.drop_last() =~= g1.objects());
                        assert forall|i: int|
                            0 <= i < objs.len() && in_sector(#[trigger] objs[i].0, sector)
                                && objs[i].1 is Planet implies dist_sq(objs[i].0, coord)
                            > STATION_DIST_SQ_LOW by {
                            if i < g1.objects().len() {
                                assert(objs[i] == g1.objects()[i]);
                            }
                        }
                        let w = choose|i: int|
                            0 <= i < g1.objects().len() && in_sector(
                                #[trigger] g1.objects()[i].0,
                                sector,
                            ) && g1.objects()[i].1 is Planet && dist_sq(g1.objects()[i].0, coord)
                                < STATION_DIST_SQ_HIGH;
                        assert(objs[w] == g1.objects()[w]);
                    }
                    proof {
                        if g0.settled() {
                            let last = g1.discovered().len() - 1;
                            assert(g1.discovered()[last] == sector_of(coord));
                            assert(self.objects() == g1.objects().push((coord, self.objects().last().1)));
                            lemma_settled_station(g1, *self, coord);
                        }
                    }
                    return Ok((id, coord));
                }
            }
            if retry_n == MAX_PLACEMENT_RETRIES {
                return Err(Errcode::TooManyRetries);
            }
            retry_n += 1;
        }
    }

    /// Scan by a crew member of rank `rank` around `center`: every object of the
    /// sectors within `rank - 1` sector widths of the center's sector on each axis,
    /// revealed by its own rule.
    pub fn scan_sector(&self, rank: u8, center: &SpaceCoord) -> (r: ScanResult)
        requires
            rank >= 1,
        ensures
            r.planets@ == scan_planets(self.objects(), spec_sectors_around(*center, (rank - 1) as u32)),
            r.stations@ == scan_stations(self.objects(), spec_sectors_around(*center, (rank - 1) as u32)),
    {
        let strength = (rank - 1) as u32;
        let sectors = sectors_around(center, strength);
        let mut results = ScanResult::empty();
        let mut i: usize = 0;
        while i < sectors.len()
            invariant
                i <= sectors@.len(),
                results.planets@ == scan_planets(self.objects(), sectors@.subrange(0, i as int)),
                results.stations@ == scan_stations(self.objects(), sectors@.subrange(0, i as int)),
            decreases sectors@.len() - i,
        {
            let sector = &sectors[i];
            let ghost pbase = results.planets@;
            let ghost sbase = results.stations@;
            let mut j: usize = 0;
            assert(self.objects().subrange(0, 0) =~= seq![]);
            assert(results.planets@ =~= pbase + planets_in(self.objects().subrange(0, 0), *sector));
            assert(results.stations@ =~= sbase + stations_in(self.objects().subrange(0, 0), *sector));
            while j < self.objects.len()
                invariant
                    i < sectors@.len(),
                    *sector == sectors@[i as int],
                    j <= self.objects().len(),
                    results.planets@ == pbase + planets_in(self.objects().subrange(0, j as int), *sector),
                    results.stations@ == sbase + stations_in(self.objects().subrange(0, j as int), *sector),
                decreases self.objects().len() - j,
            {
                let (c, obj) = &self.objects[j];
                let ghost pre = self.objects().subrange(0, j + 1);
                assert(pre.drop_last() =~= self.objects().subrange(0, j as int));
                assert(pre.last() == self.objects()[j as int]);
                if is_in_sector(c, sector) {
                    match obj {
                        SpaceObject::Planet(p) => {
                            results.planets.push(PlanetInfo::scan(rank, p));
                        },
                        SpaceObject::BaseStation(st) => {
                            results.stations.push(StationInfo { id: st.id, position: st.position });
                        },
                    }
                }
                j += 1;
            }
            assert(self.objects().subrange(0, self.objects().len() as int) =~= self.objects());
            assert(sectors@.subrange(0, i + 1).drop_last() =~= sectors@.subrange(0, i as int));
            i += 1;
        }
        assert(sectors@.subrange(0, sectors@.len() as int) =~= sectors@);
        results
    }

    /// The station at exactly `coord`.
    pub fn get_station(&self, coord: &SpaceCoord) -> (r: Option<&Station>)
        ensures
            match r {
                Some(s) => self.lookup(*coord) == Some(SpaceObject::BaseStation(*s)),
                None => !(self.lookup(*coord) matches Some(SpaceObject::BaseStation(_))),
            },
    {
        match self.get(coord) {
            Some(SpaceObject::BaseStation(s)) => Some(s),
            _ => None,
        }
    }

    /// Position in the stored objects of the station at exactly `coord`.
    pub fn station_index(&self, coord: &SpaceCoord) -> (r: Option<usize>)
        requires
            self.wf(),
        ensures
            match r {
                Some(i) => i < self.objects().len() && self.objects()[i as int].0 == *coord
                    && self.objects()[i as int].1 is BaseStation,
                None => !(self.lookup(*coord) matches Some(SpaceObject::BaseStation(_))),
            },
    {
        let mut i: usize = self.objects.len();
        assert(self.objects@.subrange(0, i as int) =~= self.objects@);
        while i > 0
            invariant
                i <= self.objects@.len(),
                lookup_in(self.objects@, *coord) == lookup_in(self.objects@.subrange(0, i as int), *coord),
            decreases i,
        {
            let ghost pre = self.objects@.subrange(0, i as int);
            assert(pre.drop_last() =~= self.objects@.subrange(0, i - 1));
            if same_coord(&self.objects[i - 1].0, coord) {
                if let SpaceObject::BaseStation(_) = &self.objects[i - 1].1 {
                    return Some(i - 1);
                }
                return None;
            }
            i -= 1;
        }
        None
    }

    /// The station stored at position `i`, to be changed in place.
    pub fn station_at_mut(&mut self, i: usize) -> (r: &mut Station)
        requires
            i < old(self).objects().len(),
            old(self).objects()[i as int].1 is BaseStation,
        ensures
            *r == old(self).objects()[i as int].1->BaseStation_0,
            final(self).objects() == old(self).objects().update(
                i as int,
                (old(self).objects()[i as int].0, SpaceObject::BaseStation(*final(r))),
            ),
            final(self).discovered() == old(self).discovered(),
            old(self).wf() ==> final(self).wf(),
    {
        match &mut self.objects[i].1 {
            SpaceObject::BaseStation(st) => st,
            SpaceObject::Planet(_) => vstd::pervasive::unreached(),
        }
    }

    /// The planet at exactly `coord`.
    pub fn get_planet(&self, coord: &SpaceCoord) -> (r: Option<&Planet>)
        ensures
            match r {
                Some(p) => self.lookup(*coord) == Some(SpaceObject::Planet(*p)),
                None => !(self.lookup(*coord) matches Some(SpaceObject::Planet(_))),
            },
    {
        match self.get(coord) {
            Some(SpaceObject::Planet(p)) => Some(p),
            _ => None,
        }
    }
}

/// No two objects of a well-formed galaxy share a coordinate.
pub proof fn lemma_placement_unique(g: &Galaxy, i: int, j: int)
    requires
        g.wf(),
        0 <= i < g.objects().len(),
        0 <= j < g.objects().len(),
        i != j,
    ensures
        g.objects()[i].0 != g.objects()[j].0,
{
}

proof fn lemma_planets_in_nonempty(objs: Seq<(SpaceCoord, SpaceObject)>, s: GalaxySector)
    requires
        has_planet_in(objs, s),
    ensures
        planets_in(objs, s).len() > 0,
    decreases objs.len(),
{
    let i = choose|i: int| 0 <= i < objs.len() && in_sector(#[trigger] objs[i].0, s) && objs[i].1 is Planet;
    if i < objs.len() - 1 {
        assert(objs.drop_last()[i] == objs[i]);
        lemma_planets_in_nonempty(objs.drop_last(), s);
    }
}

proof fn lemma_scan_planets_nonempty(objs: Seq<(SpaceCoord, SpaceObject)>, sectors: Seq<GalaxySector>, k: int)
    requires
        0 <= k < sectors.len(),
        planets_in(objs, sectors[k]).len() > 0,
    ensures
        scan_planets(objs, sectors).len() > 0,
    decreases sectors.len(),
{
    if k < sectors.len() - 1 {
        assert(sectors.drop_last()[k] == sectors[k]);
        lemma_scan_planets_nonempty(objs, sectors.drop_last(), k);
    }
}

/// In a settled galaxy, a scan centered in a generated sector reveals a planet.
pub proof fn lemma_scan_finds_planet(g: &Galaxy, rank: u8, center: SpaceCoord)
    requires
        rank >= 1,
        g.settled(),
        g.discovered().contains(sector_of(center)),
    ensures
        scan_planets(g.objects(), spec_sectors_around(center, (rank - 1) as u32)).len() > 0,
{
    reveal(Galaxy::settled);
    let sectors = spec_sectors_around(center, (rank - 1) as u32);
    let k = lemma_sectors_around_has_center(center, (rank - 1) as u32);
    let j = choose|j: int| 0 <= j < g.discovered().len() && g.discovered()[j] == sector_of(center);
    assert(has_planet_in(g.objects(), g.discovered()[j]));
    lemma_planets_in_nonempty(g.objects(), sectors[k]);
    lemma_scan_planets_nonempty(g.objects(), sectors, k);
}

/// Scanning is a function of the stored objects: two scans with the same rank and
/// center over galaxies holding the same objects reveal the same things.
pub proof fn lemma_scan_idempotent(g1: &Galaxy, g2: &Galaxy, rank: u8, center: SpaceCoord)
    requires
        rank >= 1,
        g1.objects() == g2.objects(),
    ensures
        scan_planets(g1.objects(), spec_sectors_around(center, (rank - 1) as u32)) == scan_planets(
            g2.objects(),
            spec_sectors_around(center, (rank - 1) as u32),
        ),
        scan_stations(g1.objects(), spec_sectors_around(center, (rank - 1) as u32))
            == scan_stations(g2.objects(), spec_sectors_around(center, (rank - 1) as u32)),
{
}

} // verus!
