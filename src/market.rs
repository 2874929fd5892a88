//! Resource prices and their bounded random drift.
use crate::random::{random_in, random_ratio};
use crate::resources::{spec_all_resources, spec_base_price, Resource};
use vstd::prelude::*;

verus! {

/// Milliseconds after which a price drift is certain at the next tick.
pub const MARKET_CHANGE_MS: u64 = 30_000;

/// Lowest price of a resource: half its base price.
pub open spec fn price_floor(r: Resource) -> int {
    spec_base_price(r) as int / 2
}

/// Highest price of a resource: twice its base price.
pub open spec fn price_ceiling(r: Resource) -> int {
    spec_base_price(r) as int * 2
}

/// Largest change of a price in one drift: a twentieth of the base price.
pub open spec fn drift_step(r: Resource) -> int {
    spec_base_price(r) as int / 20
}

/// Fee charged by an untrained trader, in basis points of the traded value.
pub const BASE_FEE_RATE: u64 = 3000;

/// Fee rate of a trader of rank `rank`, in basis points: the base fee over the rank.
pub open spec fn spec_fee_rate(rank: u8) -> u64 {
    if rank == 0 {
        BASE_FEE_RATE
    } else {
        (BASE_FEE_RATE / rank as u64) as u64
    }
}

/// Fee rate of a trader of rank `rank`, in basis points of the traded value.
pub fn fee_rate(rank: u8) -> (r: u64)
    ensures
        r == spec_fee_rate(rank),
        r <= BASE_FEE_RATE,
{
    if rank == 0 {
        BASE_FEE_RATE
    } else {
        BASE_FEE_RATE / rank as u64
    }
}

/// A trader of higher rank never charges a higher fee.
pub proof fn lemma_fee_rate_decreasing(low: u8, high: u8)
    requires
        low <= high,
    ensures
        spec_fee_rate(high) <= spec_fee_rate(low),
{
    if low > 0 {
        vstd::arithmetic::div_mod::lemma_div_is_ordered_by_denominator(
            BASE_FEE_RATE as int,
            low as int,
            high as int,
        );
    }
}

/// Largest amount traded at once, in thousandths of a unit.
pub const MAX_TRADE: u64 = 0x1_0000_0000;

/// A price moved by `offset - step`, where `step` is the drift step of `base`,
/// then clamped to the band `[base / 2, 2 * base]`.
pub open spec fn spec_drifted(cur: u64, base: u64, offset: u64) -> u64 {
    let moved = cur + offset - base / 20;
    if moved < base / 2 {
        (base / 2) as u64
    } else if moved > base * 2 {
        (base * 2) as u64
    } else {
        moved as u64
    }
}

/// `cur` moved by `offset` minus the drift step of `base`, kept within the band
/// of `base`. An offset of twice the step or less moves the price by at most a
/// step either way.
pub fn drifted(cur: u64, base: u64, offset: u64) -> (r: u64)
    requires
        base <= 16000,
        cur <= 32000,
        offset <= 2 * (base / 20),
    ensures
        r == spec_drifted(cur, base, offset),
{
    let step = base / 20;
    let low = base / 2;
    let high = base * 2;
    if cur + offset < low + step {
        low
    } else if cur + offset - step > high {
        high
    } else {
        cur + offset - step
    }
}

/// `new` is `old` after one drift of the price of `r`.
pub open spec fn is_drift_of(old: u64, new: u64, r: Resource) -> bool {
    exists|offset: u64|
        offset <= 2 * drift_step(r) && new == #[trigger] spec_drifted(old, spec_base_price(r), offset)
}

pub struct Market {
    /// Current price of each resource, in hundredths of a credit, in the order of
    /// `Resource::all`.
    prices: Vec<u64>,
}

impl Market {
    pub closed spec fn prices(&self) -> Seq<u64> {
        self.prices@
    }

    /// Every price stays within its band around the base price.
    pub open spec fn wf(&self) -> bool {
        &&& self.prices().len() == spec_all_resources().len()
        &&& forall|i: int|
            0 <= i < self.prices().len() ==> price_floor(spec_all_resources()[i])
                <= #[trigger] self.prices()[i] <= price_ceiling(spec_all_resources()[i])
    }

    /// Every resource at its base price.
    pub fn init() -> (r: Market)
        ensures
            r.wf(),
            forall|i: int| 0 <= i < r.prices().len() ==> #[trigger] r.prices()[i] == spec_base_price(spec_all_resources()[i]),
    {
        let all = Resource::all();
        let mut prices: Vec<u64> = Vec::new();
        let mut i: usize = 0;
        while i < all.len()
            invariant
                all@ == spec_all_resources(),
                i <= all@.len(),
                prices@.len() == i,
                forall|j: int| 0 <= j < i ==> #[trigger] prices@[j] == spec_base_price(all@[j]),
            decreases all@.len() - i,
        {
            prices.push(all[i].base_price());
            i += 1;
        }
        Market { prices }
    }

    /// Current price of `resource`, in hundredths of a credit.
    pub fn price(&self, resource: &Resource) -> (r: u64)
        requires
            self.wf(),
        ensures
            r == self.prices()[resource.spec_index() as int],
            r <= 32000,
    {
        let i = resource.index();
        assert(self.prices()[i as int] <= price_ceiling(spec_all_resources()[i as int]));
        self.prices[i]
    }

    /// What buying `amount` thousandths of `resource` costs through a trader of
    /// rank `rank`, in hundred-thousandths of a credit: the value plus the fee.
    pub fn buy_price(&self, resource: &Resource, amount: u64, rank: u8) -> (r: u64)
        requires
            self.wf(),
            amount <= MAX_TRADE,
        ensures
            r == self.prices()[resource.spec_index() as int] * amount * (10000 + spec_fee_rate(rank)) / 10000,
    {
        let price = self.price(resource);
        proof {
            assert(price * amount <= 32000 * MAX_TRADE) by (nonlinear_arith)
                requires
                    price <= 32000,
                    amount <= MAX_TRADE,
            ;
            assert((price * amount) * (10000 + spec_fee_rate(rank)) <= 32000 * MAX_TRADE * 13000) by (nonlinear_arith)
                requires
                    price * amount <= 32000 * MAX_TRADE,
                    spec_fee_rate(rank) <= 3000,
            ;
        }
        let fee = fee_rate(rank);
        price * amount * (10000 + fee) / 10000
    }

    /// What selling `amount` thousandths of `resource` through a trader of rank
    /// `rank` brings, in hundred-thousandths of a credit: the value minus the fee.
    pub fn sell_price(&self, resource: &Resource, amount: u64, rank: u8) -> (r: u64)
        requires
            self.wf(),
            amount <= MAX_TRADE,
        ensures
            r == self.prices()[resource.spec_index() as int] * amount * (10000 - spec_fee_rate(rank)) / 10000,
    {
        let price = self.price(resource);
        proof {
            assert(price * amount <= 32000 * MAX_TRADE) by (nonlinear_arith)
                requires
                    price <= 32000,
                    amount <= MAX_TRADE,
            ;
            assert((price * amount) * (10000 - spec_fee_rate(rank)) <= 32000 * MAX_TRADE * 10000) by (nonlinear_arith)
                requires
                    price * amount <= 32000 * MAX_TRADE,
                    spec_fee_rate(rank) <= 3000,
            ;
        }
        let fee = fee_rate(rank);
        price * amount * (10000 - fee) / 10000
    }

    /// Moves every price by a random amount of at most its drift step, kept within
    /// its band.
    pub fn update_prices(&mut self)
        requires
            old(self).wf(),
        ensures
            final(self).wf(),
            forall|i: int|
                0 <= i < final(self).prices().len() ==> is_drift_of(
                    old(self).prices()[i],
                    #[trigger] final(self).prices()[i],
                    spec_all_resources()[i],
                ),
    {
        let all = Resource::all();
        let mut i: usize = 0;
        while i < self.prices.len()
            invariant
                all@ == spec_all_resources(),
                self.prices().len() == all@.len(),
                old(self).prices().len() == all@.len(),
                i <= all@.len(),
                self.wf(),
                forall|j: int|
                    0 <= j < i ==> is_drift_of(old(self).prices()[j], #[trigger] self.prices()[j], all@[j]),
                forall|j: int| i <= j < all@.len() ==> #[trigger] self.prices()[j] == old(self).prices()[j],
            decreases all@.len() - i,
        {
            let base = all[i].base_price();
            let step = base / 20;
            let offset = random_in(0, (2 * step + 1) as u32) as u64;
            let cur = self.prices[i];
            let next = drifted(cur, base, offset);
            let ghost before = self.prices();
            self.prices.set(i, next);
            proof {
                assert(next == spec_drifted(cur, spec_base_price(all@[i as int]), offset));
                assert(is_drift_of(old(self).prices()[i as int], next, all@[i as int]));
                assert forall|j: int| 0 <= j < i + 1 implies is_drift_of(
                    old(self).prices()[j],
                    #[trigger] self.prices()[j],
                    all@[j],
                ) by {
                    if j != i {
                        assert(self.prices()[j] == before[j]);
                    }
                }
            }
            i += 1;
        }
    }
}

/// Whether prices drift at this tick: with chance `elapsed / MARKET_CHANGE_MS`,
/// certain once that much time has passed since the last drift.
pub fn market_should_change(elapsed_ms: u64) -> (r: bool)
    ensures
        elapsed_ms >= MARKET_CHANGE_MS ==> r,
        elapsed_ms == 0 ==> !r,
{
    let num = if elapsed_ms < MARKET_CHANGE_MS {
        elapsed_ms
    } else {
        MARKET_CHANGE_MS
    };
    random_ratio(num as u32, MARKET_CHANGE_MS as u32)
}

} // verus!
