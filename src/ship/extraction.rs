//! Extraction modules, the cargo hold and the integration of extraction over time.
use crate::crew::CrewMember;
use crate::planet::{spec_density, Planet};
use super::Ship;
use crate::resources::{spec_all_resources, spec_mineable, spec_suckable, spec_volume, Resource};
use vstd::prelude::*;

verus! {

/// Most modules a ship can carry.
pub const MAX_MODULES: usize = 64;

/// Largest cargo capacity, in thousandths of a unit times hundredths of volume.
pub const MAX_CARGO: u64 = 0x100_0000_0000;

#[derive(Debug, Clone, Copy, PartialEq, Eq, Structural)]
pub enum ShipModuleType {
    /// Extracts solid resources.
    Miner,
    /// Extracts gaseous resources.
    GasSucker,
}

/// An installed module and the operator assigned to it.
#[derive(Debug, Clone, Copy, PartialEq, Eq, Structural)]
pub struct ShipModule {
    pub kind: ShipModuleType,
    pub operator: Option<CrewMember>,
}

/// Thousandths of a unit of `r` that `m` extracts from `planet` per second: the
/// density over the difficulty, where the module's kind fits the planet and its
/// operator's rank allows the resource.
pub open spec fn module_rate(m: ShipModule, planet: Planet, r: Resource) -> nat {
    match m.operator {
        None => 0,
        Some(op) => if (m.kind == ShipModuleType::Miner && planet.solid && spec_mineable(r, op.rank)) || (
        m.kind == ShipModuleType::GasSucker && !planet.solid && spec_suckable(r, op.rank)) {
            (spec_density(planet, r) * 1000 / spec_difficulty(r)) as nat
        } else {
            0
        },
    }
}

pub open spec fn spec_difficulty(r: Resource) -> int {
    match r {
        Resource::Stone | Resource::Helium => 25,
        Resource::Iron | Resource::Ozone => 70,
        Resource::Copper | Resource::Freon => 190,
        _ => 295,
    }
}

/// Total rate of `r` over all modules.
pub open spec fn total_rate(mods: Seq<ShipModule>, planet: Planet, r: Resource) -> nat
    decreases mods.len(),
{
    if mods.len() == 0 {
        0
    } else {
        total_rate(mods.drop_last(), planet, r) + module_rate(mods.last(), planet, r)
    }
}

proof fn lemma_module_rate_bound(m: ShipModule, planet: Planet, r: Resource)
    ensures
        module_rate(m, planet, r) <= 25000,
{
}

proof fn lemma_total_rate_bound(mods: Seq<ShipModule>, planet: Planet, r: Resource)
    ensures
        total_rate(mods, planet, r) <= 25000 * mods.len(),
    decreases mods.len(),
{
    if mods.len() > 0 {
        lemma_total_rate_bound(mods.drop_last(), planet, r);
        lemma_module_rate_bound(mods.last(), planet, r);
    }
}

fn rate_of(m: &ShipModule, planet: &Planet, r: &Resource) -> (out: u64)
    ensures
        out == module_rate(*m, *planet, *r),
{
    match m.operator {
        None => 0,
        Some(op) => {
            let fits = match m.kind {
                ShipModuleType::Miner => planet.solid && r.mineable(op.rank),
                ShipModuleType::GasSucker => !planet.solid && r.suckable(op.rank),
            };
            if fits {
                planet.resource_density(r) * 1000 / r.extraction_difficulty()
            } else {
                0
            }
        },
    }
}

/// Extraction rates of a session, in thousandths of a unit per second, one per
/// resource in the order of `Resource::all`.
#[derive(Debug)]
pub struct ExtractionInfo {
    pub rates: Vec<u64>,
}

/// The hold of a ship. Amounts are in thousandths of a unit, one per resource in
/// the order of `Resource::all`; `usage` and `capacity` are in thousandths of a
/// unit times hundredths of volume.
#[derive(Debug)]
pub struct ShipCargo {
    pub resources: Vec<u64>,
    pub usage: u64,
    pub capacity: u64,
}

proof fn lemma_cargo_volume_zero(res: Seq<u64>, k: nat)
    requires
        k <= res.len(),
        forall|i: int| 0 <= i < res.len() ==> #[trigger] res[i] == 0,
    ensures
        cargo_volume(res, k) == 0,
    decreases k,
{
    if k > 0 {
        lemma_cargo_volume_zero(res, (k - 1) as nat);
    }
}

/// Volume taken by the first `k` amounts of a hold.
pub open spec fn cargo_volume(res: Seq<u64>, k: nat) -> int
    decreases k,
{
    if k == 0 {
        0
    } else {
        cargo_volume(res, (k - 1) as nat) + res[k - 1] * spec_volume(spec_all_resources()[k - 1])
    }
}

proof fn lemma_cargo_volume_update(res: Seq<u64>, k: nat, j: int, v: u64)
    requires
        0 <= j < res.len(),
        k <= res.len(),
    ensures
        cargo_volume(res.update(j, v), k) == cargo_volume(res, k) + if j < k {
            (v - res[j]) * spec_volume(spec_all_resources()[j])
        } else {
            0
        },
    decreases k,
{
    if k > 0 {
        lemma_cargo_volume_update(res, (k - 1) as nat, j, v);
        if j == k - 1 {
            assert(v * spec_volume(spec_all_resources()[j]) - res[j] * spec_volume(spec_all_resources()[j])
                == (v - res[j]) * spec_volume(spec_all_resources()[j])) by (nonlinear_arith);
        }
    }
}

proof fn lemma_cargo_volume_bound(res: Seq<u64>, k: nat, j: int)
    requires
        0 <= j < k <= res.len(),
    ensures
        res[j] * spec_volume(spec_all_resources()[j]) <= cargo_volume(res, k),
        res[j] <= cargo_volume(res, k),
    decreases k,
{
    lemma_cargo_volume_nonneg(res, (k - 1) as nat);
    if j < k - 1 {
        lemma_cargo_volume_bound(res, (k - 1) as nat, j);
    }
    assert(res[k - 1] * spec_volume(spec_all_resources()[k - 1]) >= 0) by (nonlinear_arith);
    assert(res[j] <= res[j] * spec_volume(spec_all_resources()[j])) by (nonlinear_arith)
        requires
            spec_volume(spec_all_resources()[j]) >= 1,
    ;
}

proof fn lemma_cargo_volume_nonneg(res: Seq<u64>, k: nat)
    requires
        k <= res.len(),
    ensures
        cargo_volume(res, k) >= 0,
    decreases k,
{
    if k > 0 {
        lemma_cargo_volume_nonneg(res, (k - 1) as nat);
        assert(res[k - 1] * spec_volume(spec_all_resources()[k - 1]) >= 0) by (nonlinear_arith);
    }
}

impl ShipCargo {
    /// The usage is the volume of what the hold holds, within its capacity.
    pub open spec fn wf(&self) -> bool {
        &&& self.resources@.len() == spec_all_resources().len()
        &&& self.usage == cargo_volume(self.resources@, self.resources@.len() as nat)
        &&& self.usage <= self.capacity <= MAX_CARGO
    }

    /// Each amount is bounded by the usage.
    pub proof fn lemma_amount_bound(&self, i: int)
        requires
            self.wf(),
            0 <= i < self.resources@.len(),
        ensures
            self.resources@[i] <= self.usage,
            self.resources@[i] * spec_volume(spec_all_resources()[i]) <= self.usage,
    {
        lemma_cargo_volume_bound(self.resources@, self.resources@.len() as nat, i);
    }

    /// An empty hold of the given capacity.
    pub fn new(capacity: u64) -> (r: ShipCargo)
        requires
            capacity <= MAX_CARGO,
        ensures
            r.wf(),
            r.capacity == capacity,
            r.usage == 0,
            forall|i: int| 0 <= i < r.resources@.len() ==> #[trigger] r.resources@[i] == 0,
    {
        let mut resources: Vec<u64> = Vec::new();
        while resources.len() < 10
            invariant
                resources@.len() <= 10,
                forall|i: int| 0 <= i < resources@.len() ==> #[trigger] resources@[i] == 0,
            decreases 10 - resources@.len(),
        {
            resources.push(0);
        }
        proof {
            lemma_cargo_volume_zero(resources@, 10);
        }
        ShipCargo { resources, usage: 0, capacity }
    }

    pub open spec fn spec_fits(&self, i: int, amount: u64) -> u64 {
        let room = (self.capacity - self.usage) / spec_volume(spec_all_resources()[i]) as int;
        if amount <= room {
            amount
        } else {
            room as u64
        }
    }

    /// Adds as much of `amount` thousandths of the resource at `i` as the hold
    /// has room for; returns what was added.
    pub fn add_resource(&mut self, i: usize, amount: u64) -> (r: u64)
        requires
            old(self).wf(),
            i < spec_all_resources().len(),
        ensures
            final(self).wf(),
            r == old(self).spec_fits(i as int, amount),
            final(self).capacity == old(self).capacity,
            final(self).usage == old(self).usage + r * spec_volume(spec_all_resources()[i as int]),
            final(self).resources@ == old(self).resources@.update(i as int, (old(self).resources@[i as int] + r) as u64),
    {
        let all = Resource::all();
        let vol = all[i].volume();
        let room = (self.capacity - self.usage) / vol;
        let added = if amount <= room {
            amount
        } else {
            room
        };
        proof {
            assert(added * vol <= self.capacity - self.usage) by (nonlinear_arith)
                requires
                    added <= room,
                    room == (self.capacity - self.usage) / (vol as int),
                    vol > 0,
                    self.capacity - self.usage >= 0,
            ;
            assert(added <= added * vol) by (nonlinear_arith)
                requires
                    vol >= 1,
            ;
        }
        proof {
            self.lemma_amount_bound(i as int);
            lemma_cargo_volume_update(self.resources@, 10, i as int, (self.resources@[i as int] + added) as u64);
        }
        self.usage = self.usage + added * vol;
        let cur = self.resources[i];
        self.resources.set(i, cur + added);
        added
    }

    /// Takes up to `amount` thousandths of the resource at `i` out of the hold;
    /// returns what was taken.
    pub fn remove_resource(&mut self, i: usize, amount: u64) -> (r: u64)
        requires
            old(self).wf(),
            i < spec_all_resources().len(),
        ensures
            final(self).wf(),
            r == if amount <= old(self).resources@[i as int] {
                amount
            } else {
                old(self).resources@[i as int]
            },
            final(self).capacity == old(self).capacity,
            final(self).usage == old(self).usage - r * spec_volume(spec_all_resources()[i as int]),
            final(self).resources@ == old(self).resources@.update(i as int, (old(self).resources@[i as int] - r) as u64),
    {
        let all = Resource::all();
        let vol = all[i].volume();
        let cur = self.resources[i];
        let taken = if amount <= cur {
            amount
        } else {
            cur
        };
        proof {
            self.lemma_amount_bound(i as int);
            assert(taken * vol <= cur * vol) by (nonlinear_arith)
                requires
                    taken <= cur,
                    vol >= 1,
            ;
            lemma_cargo_volume_update(self.resources@, 10, i as int, (cur - taken) as u64);
            assert((cur - taken) - cur == -taken);
            assert(((cur - taken) - cur) * vol == -(taken * vol)) by (nonlinear_arith);
        }
        self.usage = self.usage - taken * vol;
        self.resources.set(i, cur - taken);
        taken
    }
}

/// The hold after adding, resource by resource in order, the thousandths that the
/// rates give over `dt_ms`, each capped by the room left: the amounts and usage
/// after the first `k` resources, and whether some amount was cut.
pub open spec fn fill(
    resources: Seq<u64>,
    usage: u64,
    capacity: u64,
    rates: Seq<u64>,
    dt_ms: u64,
    k: nat,
) -> (Seq<u64>, u64, bool)
    decreases k,
{
    if k == 0 {
        (resources, usage, false)
    } else {
        let (res, u, cut) = fill(resources, usage, capacity, rates, dt_ms, (k - 1) as nat);
        let i = k - 1;
        let want = rates[i] * dt_ms / 1000;
        let vol = spec_volume(spec_all_resources()[i]) as int;
        let room = (capacity - u) / vol;
        let added = if want <= room {
            want
        } else {
            room
        };
        (res.update(i, (res[i] + added) as u64), (u + added * vol) as u64, cut || want > room)
    }
}

/// Volume extracted per second by the first `k` rates, in the hold's units.
pub open spec fn volume_rate(rates: Seq<u64>, k: nat) -> nat
    decreases k,
{
    if k == 0 {
        0
    } else {
        volume_rate(rates, (k - 1) as nat) + (rates[k - 1] * spec_volume(spec_all_resources()[k - 1])) as nat
    }
}

impl ExtractionInfo {
    pub open spec fn wf(&self) -> bool {
        &&& self.rates@.len() == spec_all_resources().len()
        &&& forall|i: int| 0 <= i < self.rates@.len() ==> #[trigger] self.rates@[i] <= 25000 * MAX_MODULES
    }

    /// Rates of every module on `planet`, summed per resource.
    pub fn create(ship: &Ship, planet: &Planet) -> (r: ExtractionInfo)
        requires
            ship.modules@.len() <= MAX_MODULES,
        ensures
            r.wf(),
            forall|i: int| 0 <= i < r.rates@.len() ==> #[trigger] r.rates@[i] == total_rate(ship.modules@, *planet, spec_all_resources()[i]),
    {
        let modules = &ship.modules;
        let all = Resource::all();
        let mut rates: Vec<u64> = Vec::new();
        let mut i: usize = 0;
        while i < all.len()
            invariant
                all@ == spec_all_resources(),
                i <= all@.len(),
                rates@.len() == i,
                modules@.len() <= MAX_MODULES,
                forall|j: int| 0 <= j < i ==> #[trigger] rates@[j] == total_rate(modules@, *planet, all@[j]),
                forall|j: int| 0 <= j < i ==> #[trigger] rates@[j] <= 25000 * MAX_MODULES,
            decreases all@.len() - i,
        {
            let mut sum: u64 = 0;
            let mut m: usize = 0;
            while m < modules.len()
                invariant
                    i < all@.len(),
                    m <= modules@.len(),
                    modules@.len() <= MAX_MODULES,
                    sum == total_rate(modules@.subrange(0, m as int), *planet, all@[i as int]),
                decreases modules@.len() - m,
            {
                proof {
                    let pre = modules@.subrange(0, m + 1);
                    assert(pre.drop_last() =~= modules@.subrange(0, m as int));
                    lemma_total_rate_bound(modules@.subrange(0, m as int), *planet, all@[i as int]);
                }
                sum = sum + rate_of(&modules[m], planet, &all[i]);
                m += 1;
            }
            proof {
                assert(modules@.subrange(0, modules@.len() as int) =~= modules@);
                lemma_total_rate_bound(modules@, *planet, all@[i as int]);
            }
            rates.push(sum);
            i += 1;
        }
        ExtractionInfo { rates }
    }

    /// Milliseconds until `cargocap` of room is filled at these rates, rounded
    /// up; `None` where nothing is extracted.
    pub fn time_before_cargo_full(&self, cargocap: u64) -> (r: Option<u64>)
        requires
            self.wf(),
            cargocap <= MAX_CARGO,
        ensures
            r is None <==> volume_rate(self.rates@, self.rates@.len() as nat) == 0,
            r matches Some(ms) ==> ms == (cargocap * 1000 + volume_rate(self.rates@, self.rates@.len() as nat) - 1)
                / volume_rate(self.rates@, self.rates@.len() as nat) as int,
    {
        let all = Resource::all();
        let mut vol_per_sec: u64 = 0;
        let mut i: usize = 0;
        while i < self.rates.len()
            invariant
                self.wf(),
                all@ == spec_all_resources(),
                i <= self.rates@.len(),
                vol_per_sec == volume_rate(self.rates@, i as nat),
                vol_per_sec <= i * 480_000_000,
                self.rates@.len() == 10,
            decreases self.rates@.len() - i,
        {
            proof {
                assert(self.rates@[i as int] * spec_volume(all@[i as int]) <= 480_000_000) by (nonlinear_arith)
                    requires
                        self.rates@[i as int] <= 25000 * MAX_MODULES,
                        spec_volume(all@[i as int]) <= 300,
                ;
            }
            vol_per_sec = vol_per_sec + self.rates[i] * all[i].volume();
            i += 1;
        }
        if vol_per_sec == 0 {
            None
        } else {
            Some((cargocap * 1000 + vol_per_sec - 1) / vol_per_sec)
        }
    }

    /// Whether some resource is extracted at all.
    pub fn extracts_anything(&self) -> (r: bool)
        ensures
            r == exists|i: int| 0 <= i < self.rates@.len() && #[trigger] self.rates@[i] > 0,
    {
        let mut i: usize = 0;
        while i < self.rates.len()
            invariant
                i <= self.rates@.len(),
                forall|j: int| 0 <= j < i ==> #[trigger] self.rates@[j] == 0,
            decreases self.rates@.len() - i,
        {
            if self.rates[i] > 0 {
                return true;
            }
            i += 1;
        }
        false
    }

    /// Adds to `cargo` what the rates give over `dt_ms`, resource by resource,
    /// each capped by the room left. Returns whether the hold is full: an amount
    /// was cut or no room is left.
    pub fn update_cargo(&self, cargo: &mut ShipCargo, dt_ms: u64) -> (r: bool)
        requires
            self.wf(),
            old(cargo).wf(),
            dt_ms <= 0x1_0000_0000,
        ensures
            final(cargo).wf(),
            final(cargo).capacity == old(cargo).capacity,
            ({
                let (res, u, cut) = fill(
                    old(cargo).resources@,
                    old(cargo).usage,
                    old(cargo).capacity,
                    self.rates@,
                    dt_ms,
                    spec_all_resources().len(),
                );
                &&& final(cargo).resources@ == res
                &&& final(cargo).usage == u
                &&& r == (cut || u == old(cargo).capacity)
            }),
    {
        let mut cut = false;
        let mut i: usize = 0;
        while i < self.rates.len()
            invariant
                self.wf(),
                i <= self.rates@.len(),
                cargo.wf(),
                cargo.capacity == old(cargo).capacity,
                dt_ms <= 0x1_0000_0000,
                (cargo.resources@, cargo.usage, cut) == fill(
                    old(cargo).resources@,
                    old(cargo).usage,
                    old(cargo).capacity,
                    self.rates@,
                    dt_ms,
                    i as nat,
                ),
            decreases self.rates@.len() - i,
        {
            proof {
                assert(self.rates@[i as int] * dt_ms <= (25000 * MAX_MODULES) * 0x1_0000_0000) by (nonlinear_arith)
                    requires
                        self.rates@[i as int] <= 25000 * MAX_MODULES,
                        dt_ms <= 0x1_0000_0000,
                ;
            }
            let want = self.rates[i] * dt_ms / 1000;
            let added = cargo.add_resource(i, want);
            if added < want {
                cut = true;
            }
            i += 1;
        }
        cut || cargo.usage == cargo.capacity
    }
}

} // verus!
