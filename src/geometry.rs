//! Coordinates, sectors and distances in the integer space of the galaxy.
use vstd::arithmetic::div_mod::{
    lemma_div_multiples_vanish_quotient, lemma_fundamental_div_mod, lemma_fundamental_div_mod_converse,
};
use vstd::prelude::*;

verus! {

pub type SpaceUnit = u32;

pub type SpaceCoord = (SpaceUnit, SpaceUnit, SpaceUnit);

/// Bounds of a sector, one `(start, end)` pair per axis.
pub type GalaxySector = ((SpaceUnit, SpaceUnit), (SpaceUnit, SpaceUnit), (SpaceUnit, SpaceUnit));

/// Edge length of a sector on every axis.
pub const SECTOR_SIZE: u32 = 5000;

/// First unit of the sector that holds `v` on one axis.
pub open spec fn axis_start(v: int) -> int {
    v - v % (SECTOR_SIZE as int)
}

/// End of the sector that holds `v` on one axis, saturated at the top of the space.
pub open spec fn axis_end(v: int) -> int {
    if axis_start(v) + SECTOR_SIZE <= u32::MAX {
        axis_start(v) + SECTOR_SIZE
    } else {
        u32::MAX as int
    }
}

pub open spec fn axis_bounds(v: u32) -> (u32, u32) {
    (axis_start(v as int) as u32, axis_end(v as int) as u32)
}

/// The sector that holds a coordinate.
pub open spec fn sector_of(c: SpaceCoord) -> GalaxySector {
    (axis_bounds(c.0), axis_bounds(c.1), axis_bounds(c.2))
}

/// Containment on one axis: from the start, included, to the end, excluded;
/// an end saturated at the top of the space includes the top unit.
pub open spec fn in_axis(v: u32, b: (u32, u32)) -> bool {
    b.0 <= v && (v < b.1 || (b.1 == u32::MAX && v == u32::MAX))
}

/// Containment in a sector, axis by axis, so that sectors do not overlap and
/// every coordinate lies in its own sector.
pub open spec fn in_sector(c: SpaceCoord, s: GalaxySector) -> bool {
    in_axis(c.0, s.0) && in_axis(c.1, s.1) && in_axis(c.2, s.2)
}

pub open spec fn sq(v: int) -> int {
    v * v
}

/// Squared euclidean distance between two coordinates.
pub open spec fn dist_sq(a: SpaceCoord, b: SpaceCoord) -> int {
    sq(b.0 - a.0) + sq(b.1 - a.1) + sq(b.2 - a.2)
}

/// `r` is the integer square root of `n`.
pub open spec fn is_isqrt(n: int, r: int) -> bool {
    0 <= r && r * r <= n < (r + 1) * (r + 1)
}

proof fn lemma_axis(v: u32)
    ensures
        0 <= axis_start(v as int) <= v,
        v < axis_start(v as int) + SECTOR_SIZE,
        axis_start(v as int) < axis_end(v as int) <= u32::MAX,
        axis_start(v as int) <= v <= axis_end(v as int),
        (axis_start(v as int) / SECTOR_SIZE as int) * SECTOR_SIZE as int == axis_start(v as int),
{
    lemma_fundamental_div_mod(v as int, SECTOR_SIZE as int);
    assert(axis_start(v as int) <= u32::MAX - 2295) by {
        assert(v as int / 5000 <= 858993);
        assert(axis_start(v as int) == 5000 * (v as int / 5000));
    }
}

fn compute_axis(v: u32) -> (r: (u32, u32))
    ensures
        r == axis_bounds(v),
{
    proof {
        lemma_axis(v);
    }
    let start = v - v % SECTOR_SIZE;
    (start, start.saturating_add(SECTOR_SIZE))
}

/// Sector holding `(x, y, z)`: each axis floored to a multiple of the sector size.
pub fn compute_sector(x: SpaceUnit, y: SpaceUnit, z: SpaceUnit) -> (r: GalaxySector)
    ensures
        r == sector_of((x, y, z)),
{
    (compute_axis(x), compute_axis(y), compute_axis(z))
}

/// Whether `coord` lies in `sector`, its end excluded.
pub fn is_in_sector(coord: &SpaceCoord, sector: &GalaxySector) -> (r: bool)
    ensures
        r == in_sector(*coord, *sector),
{
    axis_holds(coord.0, sector.0) && axis_holds(coord.1, sector.1) && axis_holds(coord.2, sector.2)
}

fn axis_holds(v: u32, b: (u32, u32)) -> (r: bool)
    ensures
        r == in_axis(v, b),
{
    b.0 <= v && (v < b.1 || (b.1 == u32::MAX && v == u32::MAX))
}

proof fn lemma_axis_same(v: u32, w: u32)
    requires
        axis_start(v as int) <= w < axis_start(v as int) + SECTOR_SIZE,
    ensures
        axis_bounds(w) == axis_bounds(v),
{
    lemma_axis(v);
    let q = axis_start(v as int) / SECTOR_SIZE as int;
    lemma_fundamental_div_mod_converse(
        w as int,
        SECTOR_SIZE as int,
        q,
        w - axis_start(v as int),
    );
}

/// Every coordinate lies in the sector computed from it.
pub proof fn lemma_sector_contains(c: SpaceCoord)
    ensures
        in_sector(c, sector_of(c)),
{
    lemma_axis(c.0);
    lemma_axis(c.1);
    lemma_axis(c.2);
}

/// Every axis of a sector has a start below its end.
pub proof fn lemma_sector_bounds(c: SpaceCoord)
    ensures
        sector_of(c).0.0 < sector_of(c).0.1,
        sector_of(c).1.0 < sector_of(c).1.1,
        sector_of(c).2.0 < sector_of(c).2.1,
{
    lemma_axis(c.0);
    lemma_axis(c.1);
    lemma_axis(c.2);
}

/// Sectors tile the space: every coordinate of the sector computed from `c` has
/// that same sector, whatever the order in which they are looked at.
pub proof fn lemma_sector_tiling(c: SpaceCoord, d: SpaceCoord)
    requires
        in_sector(d, sector_of(c)),
    ensures
        sector_of(d) == sector_of(c),
{
    lemma_axis(c.0);
    lemma_axis(c.1);
    lemma_axis(c.2);
    lemma_axis_same(c.0, d.0);
    lemma_axis_same(c.1, d.1);
    lemma_axis_same(c.2, d.2);
}

/// Whether two coordinates are the same point.
pub fn same_coord(a: &SpaceCoord, b: &SpaceCoord) -> (r: bool)
    ensures
        r == (*a == *b),
{
    a.0 == b.0 && a.1 == b.1 && a.2 == b.2
}

/// Component-wise difference `b - a`.
pub fn get_delta(a: &SpaceCoord, b: &SpaceCoord) -> (r: (i64, i64, i64))
    ensures
        r.0 == b.0 - a.0,
        r.1 == b.1 - a.1,
        r.2 == b.2 - a.2,
{
    (b.0 as i64 - a.0 as i64, b.1 as i64 - a.1 as i64, b.2 as i64 - a.2 as i64)
}

fn square_diff(a: u32, b: u32) -> (r: u128)
    ensures
        r == sq(b - a),
        r <= (u32::MAX as int) * (u32::MAX as int),
{
    let d: u64 = if a <= b {
        (b - a) as u64
    } else {
        (a - b) as u64
    };
    proof {
        assert(d * d <= (u32::MAX as int) * (u32::MAX as int)) by (nonlinear_arith)
            requires
                d <= u32::MAX,
        ;
        assert(sq(b - a) == d * d) by (nonlinear_arith)
            requires
                d == b - a || d == a - b,
        ;
    }
    (d as u128) * (d as u128)
}

/// Squared distance between two coordinates, exact.
pub fn get_distance_sq(a: &SpaceCoord, b: &SpaceCoord) -> (r: u128)
    ensures
        r == dist_sq(*a, *b),
        r <= 3 * (u32::MAX as int) * (u32::MAX as int),
{
    square_diff(a.0, b.0) + square_diff(a.1, b.1) + square_diff(a.2, b.2)
}

/// Integer square root by bisection.
pub fn isqrt(n: u128) -> (r: u64)
    requires
        n < 0x4000_0000_0000_0000_0000_0000u128,
    ensures
        is_isqrt(n as int, r as int),
{
    let mut lo: u128 = 0;
    let mut hi: u128 = 0x8000_0000_0000;
    assert(hi * hi == 0x4000_0000_0000_0000_0000_0000u128) by (nonlinear_arith)
        requires
            hi == 0x8000_0000_0000u128,
    ;
    while hi - lo > 1
        invariant
            lo < hi <= 0x8000_0000_0000,
            lo * lo <= n < hi * hi,
        decreases hi - lo,
    {
        let mid = lo + (hi - lo) / 2;
        assert(mid * mid <= 0x4000_0000_0000_0000_0000_0000u128) by (nonlinear_arith)
            requires
                mid <= 0x8000_0000_0000,
        ;
        if mid * mid <= n {
            lo = mid;
        } else {
            hi = mid;
        }
    }
    assert(hi == lo + 1);
    lo as u64
}

/// `r` is the square root of `n` rounded up.
pub open spec fn is_ceil_sqrt(n: int, r: int) -> bool {
    &&& 0 <= r
    &&& n <= r * r
    &&& (r == 0 || (r - 1) * (r - 1) < n)
}

/// Square root rounded up.
pub fn ceil_sqrt(n: u128) -> (r: u64)
    requires
        n < 0x4000_0000_0000_0000_0000_0000u128,
    ensures
        is_ceil_sqrt(n as int, r as int),
        r <= 0x8000_0000_0000,
{
    let f = isqrt(n);
    assert(f < 0x8000_0000_0000) by (nonlinear_arith)
        requires
            f * f <= n,
            n < 0x4000_0000_0000_0000_0000_0000u128,
            f >= 0,
    ;
    if (f as u128) * (f as u128) == n {
        assert(f == 0 || (f - 1) * (f - 1) < f * f) by (nonlinear_arith)
            requires
                f >= 0,
        ;
        f
    } else {
        assert(f * f < n);
        assert((f + 1) * (f + 1) <= 0x4000_0000_0000_0000_0000_0000u128) by (nonlinear_arith)
            requires
                f < 0x8000_0000_0000,
                f >= 0,
        ;
        f + 1
    }
}

/// Scale of travel distances: ten-thousandths of a unit.
pub const TRAVEL_SCALE: u128 = 10_000;

/// Squared travel distance from `a` to `b`, in squared ten-thousandths.
pub open spec fn travel_dist_sq(a: SpaceCoord, b: SpaceCoord) -> int {
    dist_sq(a, b) * (TRAVEL_SCALE * TRAVEL_SCALE)
}

/// Euclidean distance in ten-thousandths of a unit, rounded up.
pub fn get_travel_distance(a: &SpaceCoord, b: &SpaceCoord) -> (r: u64)
    ensures
        is_ceil_sqrt(travel_dist_sq(*a, *b), r as int),
        r <= 0x8000_0000_0000,
{
    let d = get_distance_sq(a, b);
    assert(d * (TRAVEL_SCALE * TRAVEL_SCALE) < 0x4000_0000_0000_0000_0000_0000u128) by (nonlinear_arith)
        requires
            d <= 3 * (u32::MAX as int) * (u32::MAX as int),
    ;
    ceil_sqrt(d * (TRAVEL_SCALE * TRAVEL_SCALE))
}

/// Euclidean distance rounded down to a whole unit.
pub fn get_distance(a: &SpaceCoord, b: &SpaceCoord) -> (r: u64)
    ensures
        is_isqrt(dist_sq(*a, *b), r as int),
{
    let d = get_distance_sq(a, b);
    isqrt(d)
}

proof fn lemma_lt_of_sq_lt(x: int, y: int)
    requires
        x >= 0,
        y >= 0,
        x * x < y * y,
    ensures
        x < y,
{
    if x >= y {
        assert(x * x >= y * y) by (nonlinear_arith)
            requires
                x >= y,
                y >= 0,
        ;
    }
}

/// Stretching the way from `a` to `b` by a factor `k` (to `c`) multiplies the
/// squared distance by `k * k`, and the travel distance, rounded up, by `k` up
/// to the rounding: `k * (d - 1) < dk <= k * d`.
pub proof fn lemma_distance_scales(a: SpaceCoord, b: SpaceCoord, c: SpaceCoord, k: int, d: int, dk: int)
    requires
        k >= 1,
        a != b,
        c.0 - a.0 == k * (b.0 - a.0),
        c.1 - a.1 == k * (b.1 - a.1),
        c.2 - a.2 == k * (b.2 - a.2),
        is_ceil_sqrt(travel_dist_sq(a, b), d),
        is_ceil_sqrt(travel_dist_sq(a, c), dk),
    ensures
        dist_sq(a, c) == k * k * dist_sq(a, b),
        k * (d - 1) < dk <= k * d,
{
    let x = b.0 - a.0;
    let y = b.1 - a.1;
    let z = b.2 - a.2;
    assert(sq(k * x) == k * k * sq(x)) by (nonlinear_arith);
    assert(sq(k * y) == k * k * sq(y)) by (nonlinear_arith);
    assert(sq(k * z) == k * k * sq(z)) by (nonlinear_arith);
    assert(k * k * sq(x) + k * k * sq(y) + k * k * sq(z) == k * k * (sq(x) + sq(y) + sq(z))) by (nonlinear_arith);
    let m = dist_sq(a, b);
    assert(m >= 1) by (nonlinear_arith)
        requires
            m == x * x + y * y + z * z,
            x != 0 || y != 0 || z != 0,
    ;
    let n = m * (TRAVEL_SCALE * TRAVEL_SCALE);
    let nk = dist_sq(a, c) * (TRAVEL_SCALE * TRAVEL_SCALE);
    assert(nk == k * k * n) by (nonlinear_arith)
        requires
            dist_sq(a, c) == k * k * m,
            n == m * (TRAVEL_SCALE * TRAVEL_SCALE),
            nk == dist_sq(a, c) * (TRAVEL_SCALE * TRAVEL_SCALE),
    ;
    assert(n >= 1) by (nonlinear_arith)
        requires
            m >= 1,
            n == m * (TRAVEL_SCALE * TRAVEL_SCALE),
    ;
    assert(d >= 1) by (nonlinear_arith)
        requires
            n <= d * d,
            n >= 1,
            d >= 0,
    ;
    assert(nk >= 1) by (nonlinear_arith)
        requires
            nk == k * k * n,
            n >= 1,
            k >= 1,
    ;
    assert(dk >= 1) by (nonlinear_arith)
        requires
            nk <= dk * dk,
            nk >= 1,
            dk >= 0,
    ;
    // dk - 1 < k * d: (dk - 1)^2 < k^2 n <= (k d)^2.
    assert(k * k * n <= (k * d) * (k * d)) by (nonlinear_arith)
        requires
            n <= d * d,
            k >= 1,
    ;
    lemma_lt_of_sq_lt(dk - 1, k * d);
    // k (d - 1) < dk: (k (d - 1))^2 < k^2 n <= dk^2.
    assert((k * (d - 1)) * (k * (d - 1)) < k * k * n) by (nonlinear_arith)
        requires
            (d - 1) * (d - 1) < n,
            k >= 1,
    ;
    assert(k * (d - 1) >= 0) by (nonlinear_arith)
        requires
            k >= 1,
            d >= 1,
    ;
    lemma_lt_of_sq_lt(k * (d - 1), dk);
}

/// The rounded-up square root is unique.
pub proof fn lemma_ceil_sqrt_unique(n: int, a: int, b: int)
    requires
        is_ceil_sqrt(n, a),
        is_ceil_sqrt(n, b),
    ensures
        a == b,
{
    if a < b {
        assert(a * a <= (b - 1) * (b - 1)) by (nonlinear_arith)
            requires
                0 <= a < b,
        ;
    } else if b < a {
        assert(b * b <= (a - 1) * (a - 1)) by (nonlinear_arith)
            requires
                0 <= b < a,
        ;
    }
}

/// Greatest common divisor, by Euclid's algorithm.
pub open spec fn gcd(a: nat, b: nat) -> nat
    decreases b,
{
    if b == 0 {
        a
    } else {
        gcd(b, a % b)
    }
}

pub open spec fn abs(v: int) -> nat {
    if v >= 0 {
        v as nat
    } else {
        (-v) as nat
    }
}

/// Largest integer dividing every component of `d`.
pub open spec fn gcd3(d: (int, int, int)) -> nat {
    gcd(gcd(abs(d.0), abs(d.1)), abs(d.2))
}

/// One component of a direction: the component over the common divisor, with
/// its sign.
pub open spec fn reduced(v: int, g: nat) -> int {
    if v >= 0 {
        abs(v) as int / g as int
    } else {
        -(abs(v) as int / g as int)
    }
}

/// The direction of a nonzero vector: the shortest integer vector pointing the
/// same way, the vector divided by the gcd of its components.
pub open spec fn direction(d: (int, int, int)) -> (int, int, int) {
    let g = gcd3(d);
    (reduced(d.0, g), reduced(d.1, g), reduced(d.2, g))
}

proof fn lemma_gcd_scale(a: nat, b: nat, k: nat)
    requires
        k > 0,
    ensures
        gcd(k * a, k * b) == k * gcd(a, b),
    decreases b,
{
    if b == 0 {
        assert(k * b == 0) by (nonlinear_arith)
            requires
                b == 0,
        ;
    } else {
        let q = a as int / b as int;
        let r = a % b;
        lemma_fundamental_div_mod(a as int, b as int);
        assert(k * a == q * (k * b) + k * r) by (nonlinear_arith)
            requires
                a == b * q + r,
        ;
        assert(0 <= k * r < k * b) by (nonlinear_arith)
            requires
                0 <= r < b,
                k > 0,
        ;
        lemma_fundamental_div_mod_converse((k * a) as int, (k * b) as int, q, (k * r) as int);
        assert(k * b != 0) by (nonlinear_arith)
            requires
                k > 0,
                b > 0,
        ;
        lemma_gcd_scale(b, r, k);
    }
}

proof fn lemma_gcd_zero(a: nat, b: nat)
    ensures
        gcd(a, b) == 0 ==> a == 0 && b == 0,
    decreases b,
{
    if b > 0 {
        lemma_gcd_zero(b, a % b);
    }
}

proof fn lemma_reduced_scale(v: int, g: nat, k: nat)
    requires
        k > 0,
        g > 0,
    ensures
        reduced(k * v, k * g) == reduced(v, g),
{
    assert(abs(k * v) == k * abs(v)) by (nonlinear_arith)
        requires
            k > 0,
    ;
    assert(k * v >= 0 <==> v >= 0) by (nonlinear_arith)
        requires
            k > 0,
    ;
    lemma_div_multiples_vanish_quotient(k as int, abs(v) as int, g as int);
}

/// Scaling a vector by a positive factor keeps its direction.
pub proof fn lemma_direction_scales(d: (int, int, int), k: int)
    requires
        k >= 1,
        d != (0int, 0int, 0int),
    ensures
        direction((k * d.0, k * d.1, k * d.2)) == direction(d),
{
    let kn = k as nat;
    let sd = (k * d.0, k * d.1, k * d.2);
    assert(abs(sd.0) == kn * abs(d.0) && abs(sd.1) == kn * abs(d.1) && abs(sd.2) == kn * abs(d.2))
        by (nonlinear_arith)
        requires
            k >= 1,
            kn == k,
            sd == (k * d.0, k * d.1, k * d.2),
    ;
    lemma_gcd_scale(abs(d.0), abs(d.1), kn);
    lemma_gcd_scale(gcd(abs(d.0), abs(d.1)), abs(d.2), kn);
    lemma_gcd_zero(gcd(abs(d.0), abs(d.1)), abs(d.2));
    lemma_gcd_zero(abs(d.0), abs(d.1));
    let g = gcd3(d);
    assert(g > 0);
    lemma_reduced_scale(d.0, g, kn);
    lemma_reduced_scale(d.1, g, kn);
    lemma_reduced_scale(d.2, g, kn);
}

/// Two legs along the same ray, `n * v == m * u` with positive `m` and `n`, have
/// the same direction.
pub proof fn lemma_direction_along_ray(u: (int, int, int), v: (int, int, int), m: int, n: int)
    requires
        m >= 1,
        n >= 1,
        u != (0int, 0int, 0int),
        (n * v.0, n * v.1, n * v.2) == (m * u.0, m * u.1, m * u.2),
    ensures
        direction(u) == direction(v),
{
    lemma_direction_scales(u, m);
    if v == (0int, 0int, 0int) {
        assert(m * u.0 == 0 && m * u.1 == 0 && m * u.2 == 0) by (nonlinear_arith)
            requires
                n * v.0 == m * u.0,
                n * v.1 == m * u.1,
                n * v.2 == m * u.2,
                v == (0int, 0int, 0int),
        ;
        assert(u == (0int, 0int, 0int)) by (nonlinear_arith)
            requires
                m >= 1,
                m * u.0 == 0,
                m * u.1 == 0,
                m * u.2 == 0,
        ;
    }
    lemma_direction_scales(v, n);
}

fn gcd_u64(a: u64, b: u64) -> (r: u64)
    ensures
        r == gcd(a as nat, b as nat),
{
    let mut x = a;
    let mut y = b;
    while y != 0
        invariant
            gcd(x as nat, y as nat) == gcd(a as nat, b as nat),
        decreases y,
    {
        let t = x % y;
        x = y;
        y = t;
    }
    x
}

fn abs_i64(v: i64) -> (r: u64)
    requires
        v > i64::MIN,
    ensures
        r == abs(v as int),
{
    if v >= 0 {
        v as u64
    } else {
        (-v) as u64
    }
}

/// Direction of a nonzero vector whose components lie strictly within
/// `i64` range: the vector divided by the gcd of its components.
pub fn direction_of(d: (i64, i64, i64)) -> (r: (i64, i64, i64))
    requires
        d.0 > i64::MIN && d.1 > i64::MIN && d.2 > i64::MIN,
        (d.0, d.1, d.2) != (0i64, 0i64, 0i64),
    ensures
        (r.0 as int, r.1 as int, r.2 as int) == direction((d.0 as int, d.1 as int, d.2 as int)),
{
    let ax = abs_i64(d.0);
    let ay = abs_i64(d.1);
    let az = abs_i64(d.2);
    let g = gcd_u64(gcd_u64(ax, ay), az);
    proof {
        lemma_gcd_zero(gcd(ax as nat, ay as nat), az as nat);
        lemma_gcd_zero(ax as nat, ay as nat);
        assert(g > 0);
    }
    let qx = (ax / g) as i64;
    let qy = (ay / g) as i64;
    let qz = (az / g) as i64;
    (
        if d.0 >= 0 { qx } else { -qx },
        if d.1 >= 0 { qy } else { -qy },
        if d.2 >= 0 { qz } else { -qz },
    )
}

/// Direction from `a` to `b`, two distinct coordinates.
pub fn get_direction(a: &SpaceCoord, b: &SpaceCoord) -> (r: (i64, i64, i64))
    requires
        *a != *b,
    ensures
        (r.0 as int, r.1 as int, r.2 as int) == direction((b.0 - a.0, b.1 - a.1, b.2 - a.2)),
{
    direction_of(get_delta(a, b))
}

/// Starts of the sectors at offsets `-radius ..= radius` sector widths from `cs` on
/// one axis, the first `k` offsets considered, those outside the space left out.
pub open spec fn axis_starts(cs: int, radius: int, k: nat) -> Seq<u32>
    decreases k,
{
    if k == 0 {
        seq![]
    } else {
        let prev = axis_starts(cs, radius, (k - 1) as nat);
        let s = cs + (k - 1 - radius) * SECTOR_SIZE;
        if 0 <= s <= u32::MAX {
            prev.push(s as u32)
        } else {
            prev
        }
    }
}

pub open spec fn sector_row(x: u32, y: u32, zs: Seq<u32>) -> Seq<GalaxySector> {
    zs.map_values(|z: u32| sector_of((x, y, z)))
}

pub open spec fn sector_plane(x: u32, ys: Seq<u32>, zs: Seq<u32>) -> Seq<GalaxySector>
    decreases ys.len(),
{
    if ys.len() == 0 {
        seq![]
    } else {
        sector_plane(x, ys.drop_last(), zs) + sector_row(x, ys.last(), zs)
    }
}

/// The sectors at every combination of the given axis starts, x outermost.
pub open spec fn sector_cube(xs: Seq<u32>, ys: Seq<u32>, zs: Seq<u32>) -> Seq<GalaxySector>
    decreases xs.len(),
{
    if xs.len() == 0 {
        seq![]
    } else {
        sector_cube(xs.drop_last(), ys, zs) + sector_plane(xs.last(), ys, zs)
    }
}

proof fn lemma_axis_starts_has(cs: int, radius: int, k: nat) -> (idx: int)
    requires
        0 <= cs <= u32::MAX,
        radius >= 0,
        k >= radius + 1,
    ensures
        0 <= idx < axis_starts(cs, radius, k).len(),
        axis_starts(cs, radius, k)[idx] == cs,
    decreases k,
{
    let prev = axis_starts(cs, radius, (k - 1) as nat);
    if k == radius + 1 {
        assert(cs + (k - 1 - radius) * SECTOR_SIZE == cs);
        prev.len() as int
    } else {
        let i = lemma_axis_starts_has(cs, radius, (k - 1) as nat);
        let s = cs + (k - 1 - radius) * SECTOR_SIZE;
        if 0 <= s <= u32::MAX {
            assert(prev.push(s as u32)[i] == prev[i]);
        }
        i
    }
}

proof fn lemma_plane_has(x: u32, ys: Seq<u32>, zs: Seq<u32>, b: int, c: int) -> (idx: int)
    requires
        0 <= b < ys.len(),
        0 <= c < zs.len(),
    ensures
        0 <= idx < sector_plane(x, ys, zs).len(),
        sector_plane(x, ys, zs)[idx] == sector_of((x, ys[b], zs[c])),
    decreases ys.len(),
{
    let prev = sector_plane(x, ys.drop_last(), zs);
    let row = sector_row(x, ys.last(), zs);
    if b == ys.len() - 1 {
        assert((prev + row)[prev.len() + c] == row[c]);
        prev.len() + c
    } else {
        let i = lemma_plane_has(x, ys.drop_last(), zs, b, c);
        assert((prev + row)[i] == prev[i]);
        i
    }
}

proof fn lemma_cube_has(xs: Seq<u32>, ys: Seq<u32>, zs: Seq<u32>, a: int, b: int, c: int) -> (idx: int)
    requires
        0 <= a < xs.len(),
        0 <= b < ys.len(),
        0 <= c < zs.len(),
    ensures
        0 <= idx < sector_cube(xs, ys, zs).len(),
        sector_cube(xs, ys, zs)[idx] == sector_of((xs[a], ys[b], zs[c])),
    decreases xs.len(),
{
    let prev = sector_cube(xs.drop_last(), ys, zs);
    let plane = sector_plane(xs.last(), ys, zs);
    if a == xs.len() - 1 {
        let j = lemma_plane_has(xs.last(), ys, zs, b, c);
        assert((prev + plane)[prev.len() + j] == plane[j]);
        prev.len() + j
    } else {
        let i = lemma_cube_has(xs.drop_last(), ys, zs, a, b, c);
        assert((prev + plane)[i] == prev[i]);
        i
    }
}

/// The sector of the center is among the sectors around it.
pub proof fn lemma_sectors_around_has_center(center: SpaceCoord, radius: u32) -> (idx: int)
    ensures
        0 <= idx < spec_sectors_around(center, radius).len(),
        spec_sectors_around(center, radius)[idx] == sector_of(center),
{
    lemma_axis(center.0);
    lemma_axis(center.1);
    lemma_axis(center.2);
    let n = (2 * radius + 1) as nat;
    let cx = axis_start(center.0 as int);
    let cy = axis_start(center.1 as int);
    let cz = axis_start(center.2 as int);
    let xs = axis_starts(cx, radius as int, n);
    let ys = axis_starts(cy, radius as int, n);
    let zs = axis_starts(cz, radius as int, n);
    let a = lemma_axis_starts_has(cx, radius as int, n);
    let b = lemma_axis_starts_has(cy, radius as int, n);
    let c = lemma_axis_starts_has(cz, radius as int, n);
    let idx = lemma_cube_has(xs, ys, zs, a, b, c);
    lemma_axis_same(center.0, xs[a]);
    lemma_axis_same(center.1, ys[b]);
    lemma_axis_same(center.2, zs[c]);
    idx
}

/// The cube of sectors within `radius` sector widths of the sector holding `center`
/// along each axis.
pub open spec fn spec_sectors_around(center: SpaceCoord, radius: u32) -> Seq<GalaxySector> {
    let n = (2 * radius + 1) as nat;
    sector_cube(
        axis_starts(axis_start(center.0 as int), radius as int, n),
        axis_starts(axis_start(center.1 as int), radius as int, n),
        axis_starts(axis_start(center.2 as int), radius as int, n),
    )
}

fn around_axis(v: u32, radius: u32) -> (r: Vec<u32>)
    ensures
        r@ == axis_starts(axis_start(v as int), radius as int, (2 * radius + 1) as nat),
        r@.len() <= 2 * radius + 1,
{
    let cs = compute_axis(v).0 as i64;
    let n: u64 = 2 * radius as u64 + 1;
    let mut r: Vec<u32> = Vec::new();
    let mut k: u64 = 0;
    while k < n
        invariant
            k <= n,
            n == 2 * radius + 1,
            cs == axis_start(v as int),
            0 <= cs <= u32::MAX,
            r@ == axis_starts(cs as int, radius as int, k as nat),
            r@.len() <= k,
        decreases n - k,
    {
        assert(-0x1_0000_0000 <= k - radius <= 0x2_0000_0000);
        assert(-0x1_0000_0000 * 5000 <= (k - radius) * 5000 <= 0x2_0000_0000 * 5000) by (nonlinear_arith)
            requires
                -0x1_0000_0000 <= k - radius <= 0x2_0000_0000,
        ;
        let s = cs + (k as i64 - radius as i64) * (SECTOR_SIZE as i64);
        if 0 <= s && s <= u32::MAX as i64 {
            r.push(s as u32);
        }
        k += 1;
    }
    r
}

/// The sectors within `radius` sector widths of the sector of `center` along each
/// axis: a cube of sectors, not a sphere.
pub fn sectors_around(center: &SpaceCoord, radius: u32) -> (r: Vec<GalaxySector>)
    requires
        radius < 256,
    ensures
        r@ == spec_sectors_around(*center, radius),
{
    let xs = around_axis(center.0, radius);
    let ys = around_axis(center.1, radius);
    let zs = around_axis(center.2, radius);
    let mut r: Vec<GalaxySector> = Vec::new();
    let mut i: usize = 0;
    while i < xs.len()
        invariant
            i <= xs@.len(),
            r@ == sector_cube(xs@.subrange(0, i as int), ys@, zs@),
        decreases xs@.len() - i,
    {
        let mut j: usize = 0;
        assert(sector_plane(xs@[i as int], ys@.subrange(0, 0), zs@) =~= seq![]);
        assert(r@ =~= sector_cube(xs@.subrange(0, i as int), ys@, zs@) + sector_plane(xs@[i as int], ys@.subrange(0, 0), zs@));
        while j < ys.len()
            invariant
                i < xs@.len(),
                j <= ys@.len(),
                r@ == sector_cube(xs@.subrange(0, i as int), ys@, zs@) + sector_plane(
                    xs@[i as int],
                    ys@.subrange(0, j as int),
                    zs@,
                ),
            decreases ys@.len() - j,
        {
            let ghost base = r@;
            let mut k: usize = 0;
            assert(sector_row(xs@[i as int], ys@[j as int], zs@.subrange(0, 0)) =~= seq![]);
            assert(r@ =~= base + sector_row(xs@[i as int], ys@[j as int], zs@.subrange(0, 0)));
            while k < zs.len()
                invariant
                    i < xs@.len(),
                    j < ys@.len(),
                    k <= zs@.len(),
                    r@ == base + sector_row(xs@[i as int], ys@[j as int], zs@.subrange(0, k as int)),
                decreases zs@.len() - k,
            {
                r.push(compute_sector(xs[i], ys[j], zs[k]));
                assert(sector_row(xs@[i as int], ys@[j as int], zs@.subrange(0, k + 1)) =~= sector_row(
                    xs@[i as int],
                    ys@[j as int],
                    zs@.subrange(0, k as int),
                ).push(sector_of((xs@[i as int], ys@[j as int], zs@[k as int]))));
                k += 1;
            }
            assert(zs@.subrange(0, zs@.len() as int) =~= zs@);
            assert(ys@.subrange(0, j + 1).drop_last() =~= ys@.subrange(0, j as int));
            j += 1;
        }
        assert(ys@.subrange(0, ys@.len() as int) =~= ys@);
        assert(xs@.subrange(0, i + 1).drop_last() =~= xs@.subrange(0, i as int));
        i += 1;
    }
    assert(xs@.subrange(0, xs@.len() as int) =~= xs@);
    r
}

} // verus!
