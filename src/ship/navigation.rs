//! Travel costs and the progress of a flight.
use crate::geometry::{direction, direction_of, get_delta, SpaceCoord};
use vstd::prelude::*;

verus! {

/// Travel distances are counted in ten-thousandths of a space unit.
pub const DIST_SCALE: u64 = 10_000;

/// Largest pace or per-distance rate a ship can have.
pub const MAX_RATE: u64 = 0x1_0000;

/// Performance of a ship, derived from its modules and crew. Every rate is per
/// ten-thousandth of a space unit, so that costs are in proportion to distance.
#[derive(Debug, Clone, Copy, PartialEq, Eq, Structural, Default)]
pub struct ShipStats {
    /// Nanoseconds to cover a ten-thousandth of a unit.
    pub pace: u64,
    /// Fuel burnt per ten-thousandth of a unit.
    pub fuel_consumption: u64,
    /// Hull decay per ten-thousandth of a unit.
    pub hull_usage_rate: u64,
}

impl ShipStats {
    pub open spec fn wf(&self) -> bool {
        &&& 1 <= self.pace <= MAX_RATE
        &&& self.fuel_consumption <= MAX_RATE
        &&& self.hull_usage_rate <= MAX_RATE
    }
}

pub struct Travel {
    pub destination: SpaceCoord,
}

impl Travel {
    pub fn new(destination: SpaceCoord) -> (r: Travel)
        ensures
            r.destination == destination,
    {
        Travel { destination }
    }
}

#[derive(Debug, Clone, Copy, PartialEq, Eq)]
pub struct TravelCost {
    /// Shortest integer vector pointing from the start to the destination.
    pub direction: (i64, i64, i64),
    /// Vector from the start to the destination.
    pub delta: (i64, i64, i64),
    /// Distance in ten-thousandths of a unit, rounded up.
    pub distance: u64,
    /// Nanoseconds until arrival.
    pub duration: u64,
    pub fuel_consumption: u64,
    pub hull_usage: u64,
}

/// Cost of covering `distance` along `delta` with `stats`: duration, fuel and
/// hull each in proportion to the distance.
pub open spec fn cost_of_distance(stats: ShipStats, delta: (i64, i64, i64), distance: u64) -> TravelCost {
    let dir = direction((delta.0 as int, delta.1 as int, delta.2 as int));
    TravelCost {
        direction: (dir.0 as i64, dir.1 as i64, dir.2 as i64),
        delta,
        distance,
        duration: (stats.pace * distance) as u64,
        fuel_consumption: (stats.fuel_consumption * distance) as u64,
        hull_usage: (stats.hull_usage_rate * distance) as u64,
    }
}

/// Largest distance a ship can be asked to cover, beyond the diagonal of the space.
pub const MAX_DISTANCE: u64 = 0x8000_0000_0000;

pub proof fn lemma_rate_bound(rate: u64, distance: int)
    requires
        rate <= MAX_RATE,
        0 <= distance <= MAX_DISTANCE,
    ensures
        0 <= rate * distance <= MAX_RATE * MAX_DISTANCE,
{
    assert(0 <= rate * distance <= MAX_RATE * MAX_DISTANCE) by (nonlinear_arith)
        requires
            rate <= MAX_RATE,
            0 <= distance <= MAX_DISTANCE,
    ;
}

/// Cost of a travel of `distance` ten-thousandths along `delta`.
pub fn compute_cost(stats: &ShipStats, delta: (i64, i64, i64), distance: u64) -> (r: TravelCost)
    requires
        stats.wf(),
        distance <= MAX_DISTANCE,
        delta.0 > i64::MIN && delta.1 > i64::MIN && delta.2 > i64::MIN,
        delta != (0i64, 0i64, 0i64),
    ensures
        r == cost_of_distance(*stats, delta, distance),
        r.duration == stats.pace * distance,
        r.fuel_consumption == stats.fuel_consumption * distance,
        r.hull_usage == stats.hull_usage_rate * distance,
        r.fuel_consumption <= MAX_RATE * MAX_DISTANCE,
        r.hull_usage <= MAX_RATE * MAX_DISTANCE,
{
    proof {
        lemma_rate_bound(stats.pace, distance as int);
        lemma_rate_bound(stats.fuel_consumption, distance as int);
        lemma_rate_bound(stats.hull_usage_rate, distance as int);
    }
    let direction = direction_of(delta);
    TravelCost {
        direction,
        delta,
        distance,
        duration: stats.pace * distance,
        fuel_consumption: stats.fuel_consumption * distance,
        hull_usage: stats.hull_usage_rate * distance,
    }
}

/// Costs are linear in the distance: the cost of `k` times a distance is `k`
/// times its cost, field by field.
pub proof fn lemma_cost_scales(stats: ShipStats, delta: (i64, i64, i64), distance: u64, k: u64)
    requires
        stats.wf(),
        k >= 1,
        k * distance <= MAX_DISTANCE,
    ensures
        ({
            let c1 = cost_of_distance(stats, delta, distance);
            let ck = cost_of_distance(stats, delta, (k * distance) as u64);
            &&& ck.distance == k * c1.distance
            &&& ck.duration == k * c1.duration
            &&& ck.fuel_consumption == k * c1.fuel_consumption
            &&& ck.hull_usage == k * c1.hull_usage
        }),
{
    let d = distance as int;
    let kk = k as int;
    assert(d <= kk * d) by (nonlinear_arith)
        requires
            kk >= 1,
            d >= 0,
    ;
    lemma_rate_bound(stats.pace, d);
    lemma_rate_bound(stats.fuel_consumption, d);
    lemma_rate_bound(stats.hull_usage_rate, d);
    lemma_rate_bound(stats.pace, kk * d);
    lemma_rate_bound(stats.fuel_consumption, kk * d);
    lemma_rate_bound(stats.hull_usage_rate, kk * d);
    assert(stats.pace * (kk * d) == kk * (stats.pace * d)) by (nonlinear_arith);
    assert(stats.fuel_consumption * (kk * d) == kk * (stats.fuel_consumption * d)) by (nonlinear_arith);
    assert(stats.hull_usage_rate * (kk * d) == kk * (stats.hull_usage_rate * d)) by (nonlinear_arith);
}

/// Costs add up over consecutive legs: the cost of `d1 + d2` is the sum of the
/// costs of `d1` and `d2`, field by field.
pub proof fn lemma_cost_additive(
    stats: ShipStats,
    delta: (i64, i64, i64),
    d1: u64,
    d2: u64,
)
    requires
        stats.wf(),
        d1 + d2 <= MAX_DISTANCE,
    ensures
        ({
            let c1 = cost_of_distance(stats, delta, d1);
            let c2 = cost_of_distance(stats, delta, d2);
            let c = cost_of_distance(stats, delta, (d1 + d2) as u64);
            &&& c.distance == c1.distance + c2.distance
            &&& c.duration == c1.duration + c2.duration
            &&& c.fuel_consumption == c1.fuel_consumption + c2.fuel_consumption
            &&& c.hull_usage == c1.hull_usage + c2.hull_usage
        }),
{
    lemma_rate_bound(stats.pace, d1 + d2);
    lemma_rate_bound(stats.fuel_consumption, d1 + d2);
    lemma_rate_bound(stats.hull_usage_rate, d1 + d2);
    lemma_rate_bound(stats.pace, d1 as int);
    lemma_rate_bound(stats.fuel_consumption, d1 as int);
    lemma_rate_bound(stats.hull_usage_rate, d1 as int);
    lemma_rate_bound(stats.pace, d2 as int);
    lemma_rate_bound(stats.fuel_consumption, d2 as int);
    lemma_rate_bound(stats.hull_usage_rate, d2 as int);
    assert(stats.pace * (d1 + d2) == stats.pace * d1 + stats.pace * d2) by (nonlinear_arith);
    assert(stats.fuel_consumption * (d1 + d2) == stats.fuel_consumption * d1 + stats.fuel_consumption
        * d2) by (nonlinear_arith);
    assert(stats.hull_usage_rate * (d1 + d2) == stats.hull_usage_rate * d1 + stats.hull_usage_rate
        * d2) by (nonlinear_arith);
}

/// Progress of a flight, in ten-thousandths of a distance unit.
#[derive(Debug, Clone, Copy, PartialEq, Eq)]
pub struct FlightData {
    pub start: SpaceCoord,
    pub destination: SpaceCoord,
    pub delta: (i64, i64, i64),
    pub dist_done: u64,
    pub dist_tot: u64,
    /// Fuel burnt once the flight completes.
    pub fuel_cost: u64,
    /// Hull decay taken once the flight completes.
    pub hull_cost: u64,
}

/// Point reached on one axis after `done` of `tot` of the way from `s` to `e`,
/// rounded towards the start.
pub open spec fn axis_at(s: u32, e: u32, done: u64, tot: u64) -> u32 {
    if s <= e {
        (s + (e - s) * done / tot as int) as u32
    } else {
        (s - (s - e) * done / tot as int) as u32
    }
}

/// Point reached by a flight after the distance it has done.
pub open spec fn flight_position(f: FlightData) -> SpaceCoord {
    (
        axis_at(f.start.0, f.destination.0, f.dist_done, f.dist_tot),
        axis_at(f.start.1, f.destination.1, f.dist_done, f.dist_tot),
        axis_at(f.start.2, f.destination.2, f.dist_done, f.dist_tot),
    )
}

/// `part` of `whole` taken in proportion `done / tot`, rounded down.
pub open spec fn pro_rata(whole: u64, done: u64, tot: u64) -> u64 {
    (whole * done / tot as int) as u64
}

proof fn lemma_fraction_le(x: int, done: int, tot: int)
    requires
        0 <= x,
        0 <= done <= tot,
        tot > 0,
    ensures
        0 <= x * done / tot <= x,
{
    assert(x * done <= x * tot) by (nonlinear_arith)
        requires
            0 <= x,
            done <= tot,
    ;
    assert(x * done >= 0) by (nonlinear_arith)
        requires
            0 <= x,
            0 <= done,
    ;
    vstd::arithmetic::div_mod::lemma_div_is_ordered(x * done, x * tot, tot);
    vstd::arithmetic::div_mod::lemma_div_multiples_vanish(x, tot);
    assert(x * tot == tot * x) by (nonlinear_arith);
    vstd::arithmetic::div_mod::lemma_div_pos_is_pos(x * done, tot);
}

fn fraction(x: u64, done: u64, tot: u64) -> (r: u64)
    requires
        done <= tot,
        tot > 0,
        tot <= MAX_DISTANCE,
        x <= MAX_RATE * MAX_DISTANCE,
    ensures
        r == x * done / tot as int,
        r <= x,
{
    proof {
        lemma_fraction_le(x as int, done as int, tot as int);
        assert(x * done <= (MAX_RATE * MAX_DISTANCE) * MAX_DISTANCE) by (nonlinear_arith)
            requires
                x <= MAX_RATE * MAX_DISTANCE,
                done <= MAX_DISTANCE,
        ;
    }
    ((x as u128) * (done as u128) / (tot as u128)) as u64
}

fn axis_position(s: u32, e: u32, done: u64, tot: u64) -> (r: u32)
    requires
        done <= tot,
        tot > 0,
        tot <= MAX_DISTANCE,
    ensures
        r == axis_at(s, e, done, tot),
{
    if s <= e {
        let part = fraction((e - s) as u64, done, tot);
        s + part as u32
    } else {
        let part = fraction((s - e) as u64, done, tot);
        s - part as u32
    }
}

/// Pro-rata share of a cost for the part of the way done.
pub fn cost_share(whole: u64, done: u64, tot: u64) -> (r: u64)
    requires
        done <= tot,
        tot > 0,
        tot <= MAX_DISTANCE,
        whole <= MAX_RATE * MAX_DISTANCE,
    ensures
        r == pro_rata(whole, done, tot),
        r <= whole,
{
    fraction(whole, done, tot)
}

impl FlightData {
    /// Point the flight has reached.
    pub fn position(&self) -> (r: SpaceCoord)
        requires
            self.dist_done <= self.dist_tot,
            0 < self.dist_tot <= MAX_DISTANCE,
        ensures
            r == flight_position(*self),
    {
        (
            axis_position(self.start.0, self.destination.0, self.dist_done, self.dist_tot),
            axis_position(self.start.1, self.destination.1, self.dist_done, self.dist_tot),
            axis_position(self.start.2, self.destination.2, self.dist_done, self.dist_tot),
        )
    }

    pub open spec fn spec_new(start: SpaceCoord, cost: TravelCost, travel: Travel) -> FlightData {
        FlightData {
            start,
            destination: travel.destination,
            delta: (
                (travel.destination.0 - start.0) as i64,
                (travel.destination.1 - start.1) as i64,
                (travel.destination.2 - start.2) as i64,
            ),
            dist_done: 0,
            dist_tot: cost.distance,
            fuel_cost: cost.fuel_consumption,
            hull_cost: cost.hull_usage,
        }
    }

    pub fn new(start: SpaceCoord, cost: &TravelCost, travel: &Travel) -> (r: FlightData)
        requires
            cost.distance <= MAX_DISTANCE,
        ensures
            r == FlightData::spec_new(start, *cost, *travel),
    {
        FlightData {
            dist_done: 0,
            dist_tot: cost.distance,
            delta: get_delta(&start, &travel.destination),
            destination: travel.destination,
            start,
            fuel_cost: cost.fuel_consumption,
            hull_cost: cost.hull_usage,
        }
    }
}

} // verus!
