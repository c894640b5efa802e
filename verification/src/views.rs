//! What the operator sees of assets and sites: each asset with its latest
//! reading, and each site with the totals and averages over its assets.

use vstd::prelude::*;
use crate::allocator::MAX_ASSETS;
use crate::bootstrap::choose_telemetry;
use crate::fixed::{div_toward_zero, trunc_div, LIMIT, SCALE};
use crate::headend::Headend;
use crate::journal::TelemetrySnapshotRow;
use crate::idmap::IdMap;
use crate::model::{clone_extras, Asset, Extra, Telemetry};
use crate::physics::{snapshot_of, spec_tick};
use crate::wire::clone_text;
use crate::physics::{lemma_product_bound, FULL_PCT};

verus! {

/// An asset as the operator sees it: its configuration, and its latest
/// reading where there is one.
#[derive(Debug)]
pub struct AssetView {
    pub capacity_mwhr: i64,
    pub current_mw: Option<i64>,
    pub efficiency: i64,
    pub id: u128,
    pub location: String,
    pub max_mw: i64,
    pub max_soc_pct: i64,
    pub min_mw: i64,
    pub min_soc_pct: i64,
    pub name: String,
    pub ramp_rate_mw_per_min: i64,
    pub setpoint_mw: Option<i64>,
    pub soc_mwhr: Option<i64>,
    pub soc_pct: Option<i64>,
    pub site_id: u128,
    pub site_name: String,
    pub status: Option<String>,
    pub extras: Vec<Extra>,
}

/// Totals and averages over the assets of a site.  Averages are weighted by
/// capacity where any asset has capacity, and plain otherwise.
#[derive(Clone, Copy, Debug, PartialEq, Eq, Structural)]
pub struct SiteAggregate {
    pub asset_count: usize,
    pub capacity_mwhr: i128,
    pub max_mw: i128,
    pub min_mw: i128,
    pub min_soc_pct: i64,
    pub max_soc_pct: i64,
    pub efficiency: i64,
    pub ramp_rate_mw_per_min: i64,
    pub soc_mwhr: Option<i128>,
    pub soc_pct: Option<i128>,
    pub current_mw: Option<i128>,
    pub setpoint_mw: Option<i128>,
}

/// A site as the operator sees it.
#[derive(Debug)]
pub struct SiteView {
    pub site_id: u128,
    pub site_name: String,
    pub location: String,
    pub aggregate: SiteAggregate,
    pub assets: Vec<AssetView>,
}

/// The numbers of an asset view that the site aggregate is made of.
pub struct Reading {
    pub cap: int,
    pub max_mw: int,
    pub min_mw: int,
    pub min_soc_pct: int,
    pub max_soc_pct: int,
    pub efficiency: int,
    pub ramp: int,
    pub soc_mwhr: Option<int>,
    pub current_mw: Option<int>,
    pub setpoint_mw: Option<int>,
}

/// The value of an optional number, zero where there is none.
pub open spec fn or_zero(value: Option<int>) -> int {
    match value {
        Some(v) => v,
        None => 0,
    }
}

/// One for a number that is there, zero for one that is not.
pub open spec fn present(value: Option<int>) -> int {
    if value is Some {
        1
    } else {
        0
    }
}

/// An optional number as an optional integer.
pub open spec fn widened(value: Option<i64>) -> Option<int> {
    match value {
        Some(v) => Some(v as int),
        None => None,
    }
}

/// The numbers of `view`; a negative capacity counts as none.
pub open spec fn reading_of(view: &AssetView) -> Reading {
    Reading {
        cap: if view.capacity_mwhr > 0 {
            view.capacity_mwhr as int
        } else {
            0
        },
        max_mw: view.max_mw as int,
        min_mw: view.min_mw as int,
        min_soc_pct: view.min_soc_pct as int,
        max_soc_pct: view.max_soc_pct as int,
        efficiency: view.efficiency as int,
        ramp: view.ramp_rate_mw_per_min as int,
        soc_mwhr: widened(view.soc_mwhr),
        current_mw: widened(view.current_mw),
        setpoint_mw: widened(view.setpoint_mw),
    }
}

/// The quantities that a site aggregate adds up.
pub enum Term {
    Cap,
    MaxMw,
    MinMw,
    MinPct,
    MaxPct,
    Efficiency,
    Ramp,
    MinPctByCap,
    MaxPctByCap,
    EfficiencyByCap,
    RampByCap,
    Soc,
    SocCap,
    SocCount,
    Current,
    CurrentCount,
    Setpoint,
    SetpointCount,
}

/// The quantity `term` of reading `r`.
pub open spec fn term_of(term: Term, r: Reading) -> int {
    match term {
        Term::Cap => r.cap,
        Term::MaxMw => r.max_mw,
        Term::MinMw => r.min_mw,
        Term::MinPct => r.min_soc_pct,
        Term::MaxPct => r.max_soc_pct,
        Term::Efficiency => r.efficiency,
        Term::Ramp => r.ramp,
        Term::MinPctByCap => r.min_soc_pct * r.cap,
        Term::MaxPctByCap => r.max_soc_pct * r.cap,
        Term::EfficiencyByCap => r.efficiency * r.cap,
        Term::RampByCap => r.ramp * r.cap,
        Term::Soc => or_zero(r.soc_mwhr),
        Term::SocCap => if r.soc_mwhr is Some {
            r.cap
        } else {
            0
        },
        Term::SocCount => present(r.soc_mwhr),
        Term::Current => or_zero(r.current_mw),
        Term::CurrentCount => present(r.current_mw),
        Term::Setpoint => or_zero(r.setpoint_mw),
        Term::SetpointCount => present(r.setpoint_mw),
    }
}

/// Sum of `term` over the first `n` readings.
pub open spec fn total(readings: Seq<Reading>, term: Term, n: nat) -> int
    decreases n,
{
    if n == 0 {
        0
    } else {
        total(readings, term, (n - 1) as nat) + term_of(term, readings[n - 1])
    }
}

/// Sum of `term` over all readings.
pub open spec fn sum(readings: Seq<Reading>, term: Term) -> int {
    total(readings, term, readings.len())
}

/// The average of a quantity: weighted by capacity where there is capacity,
/// plain where there is none, zero over no assets.
pub open spec fn average(weighted: int, plain: int, weight: int, count: int) -> int {
    if weight > 0 {
        trunc_div(weighted, weight)
    } else if count > 0 {
        trunc_div(plain, count)
    } else {
        0
    }
}

/// The aggregate over `readings`.
pub open spec fn spec_aggregate(readings: Seq<Reading>) -> SiteAggregate {
    let weight = sum(readings, Term::Cap);
    let count = readings.len() as int;
    SiteAggregate {
        asset_count: readings.len() as usize,
        capacity_mwhr: weight as i128,
        max_mw: sum(readings, Term::MaxMw) as i128,
        min_mw: sum(readings, Term::MinMw) as i128,
        min_soc_pct: average(
            sum(readings, Term::MinPctByCap),
            sum(readings, Term::MinPct),
            weight,
            count,
        ) as i64,
        max_soc_pct: average(
            sum(readings, Term::MaxPctByCap),
            sum(readings, Term::MaxPct),
            weight,
            count,
        ) as i64,
        efficiency: average(
            sum(readings, Term::EfficiencyByCap),
            sum(readings, Term::Efficiency),
            weight,
            count,
        ) as i64,
        ramp_rate_mw_per_min: average(
            sum(readings, Term::RampByCap),
            sum(readings, Term::Ramp),
            weight,
            count,
        ) as i64,
        soc_mwhr: if sum(readings, Term::SocCount) > 0 {
            Some(sum(readings, Term::Soc) as i128)
        } else {
            None
        },
        soc_pct: if sum(readings, Term::SocCount) > 0 && sum(readings, Term::SocCap) > 0 {
            Some(
                trunc_div(sum(readings, Term::Soc) * FULL_PCT, sum(readings, Term::SocCap)) as i128,
            )
        } else {
            None
        },
        current_mw: if sum(readings, Term::CurrentCount) > 0 {
            Some(sum(readings, Term::Current) as i128)
        } else {
            None
        },
        setpoint_mw: if sum(readings, Term::SetpointCount) > 0 {
            Some(sum(readings, Term::Setpoint) as i128)
        } else {
            None
        },
    }
}

/// The configured numbers of the reading are within the limits that the
/// configuration invariants set: magnitudes up to `LIMIT`, percentages up to
/// 100, efficiency up to 1.  What was measured is any 64-bit number.
pub open spec fn bounded(r: Reading) -> bool {
    &&& 0 <= r.cap <= LIMIT
    &&& -LIMIT <= r.min_mw <= LIMIT
    &&& -LIMIT <= r.max_mw <= LIMIT
    &&& 0 <= r.min_soc_pct <= FULL_PCT
    &&& 0 <= r.max_soc_pct <= FULL_PCT
    &&& 0 <= r.efficiency <= SCALE
    &&& 0 <= r.ramp <= LIMIT
    &&& -WORD <= or_zero(r.soc_mwhr) <= WORD
    &&& -WORD <= or_zero(r.current_mw) <= WORD
    &&& -WORD <= or_zero(r.setpoint_mw) <= WORD
}

/// Bound on the magnitude of a 64-bit number.
pub const WORD: i128 = 0x8000_0000_0000_0000;

/// Largest product of two bounded numbers of a reading.
pub const SQUARE: i128 = 1_000_000_000_000_000_000_000_000_000_000;

/// The running sums of a site aggregate.
pub struct SiteAggregateBuilder {
    asset_count: usize,
    capacity_sum: i128,
    max_mw_sum: i128,
    min_mw_sum: i128,
    min_soc_weighted: i128,
    max_soc_weighted: i128,
    efficiency_weighted: i128,
    ramp_weighted: i128,
    min_soc_sum: i128,
    max_soc_sum: i128,
    efficiency_sum: i128,
    ramp_sum: i128,
    soc_mwhr_sum: i128,
    soc_cap_sum: i128,
    soc_count: usize,
    current_mw_sum: i128,
    current_count: usize,
    setpoint_mw_sum: i128,
    setpoint_count: usize,
    added: Ghost<Seq<Reading>>,
}

/// The views of one site, and the aggregate over them in the making.
pub struct SiteAccumulator {
    pub site_id: u128,
    pub site_name: String,
    pub location: String,
    pub assets: Vec<AssetView>,
    pub aggregate: SiteAggregateBuilder,
}

/// The largest magnitude that `term` takes on a bounded reading.
pub open spec fn term_bound(term: Term) -> int {
    match term {
        Term::MinPctByCap | Term::MaxPctByCap | Term::EfficiencyByCap | Term::RampByCap => {
            SQUARE as int
        },
        Term::MinPct | Term::MaxPct => FULL_PCT as int,
        Term::Efficiency => SCALE as int,
        Term::SocCount | Term::CurrentCount | Term::SetpointCount => 1,
        Term::Soc | Term::Current | Term::Setpoint => WORD as int,
        _ => LIMIT as int,
    }
}

/// On a bounded reading every term lies within its bound, and the terms
/// that cannot be negative are not.
pub proof fn lemma_term_bound(term: Term, r: Reading)
    requires
        bounded(r),
    ensures
        -term_bound(term) <= term_of(term, r) <= term_bound(term),
        !(term is MaxMw || term is MinMw || term is Soc || term is Current || term is Setpoint)
            ==> term_of(term, r) >= 0,
{
    lemma_product_bound(r.min_soc_pct, r.cap, LIMIT as int, LIMIT as int);
    lemma_product_bound(r.max_soc_pct, r.cap, LIMIT as int, LIMIT as int);
    lemma_product_bound(r.efficiency, r.cap, LIMIT as int, LIMIT as int);
    lemma_product_bound(r.ramp, r.cap, LIMIT as int, LIMIT as int);
}

/// A sum over bounded readings lies within the bound of its term times the
/// number of readings, and is not negative where the term cannot be.
pub proof fn lemma_total_bound(readings: Seq<Reading>, term: Term, bound: int, n: nat)
    requires
        n <= readings.len(),
        forall|i: int| 0 <= i < readings.len() ==> bounded(#[trigger] readings[i]),
        bound == term_bound(term),
    ensures
        -(n * bound) <= total(readings, term, n) <= n * bound,
        !(term is MaxMw || term is MinMw || term is Soc || term is Current || term is Setpoint)
            ==> total(readings, term, n) >= 0,
    decreases n,
{
    if n > 0 {
        lemma_total_bound(readings, term, bound, (n - 1) as nat);
        lemma_term_bound(term, readings[n - 1]);
        assert(n * bound == (n - 1) * bound + bound) by (nonlinear_arith);
    }
}

/// A sum over a prefix does not see what lies behind it.
pub proof fn lemma_total_same(a: Seq<Reading>, b: Seq<Reading>, term: Term, n: nat)
    requires
        n <= a.len(),
        n <= b.len(),
        forall|i: int| 0 <= i < n ==> a[i] == b[i],
    ensures
        total(a, term, n) == total(b, term, n),
    decreases n,
{
    if n > 0 {
        lemma_total_same(a, b, term, (n - 1) as nat);
    }
}

/// Adding a reading adds its term to the sum.
pub proof fn lemma_total_push(readings: Seq<Reading>, r: Reading, term: Term)
    ensures
        sum(readings.push(r), term) == sum(readings, term) + term_of(term, r),
{
    lemma_total_same(readings, readings.push(r), term, readings.len());
}

impl SiteAggregateBuilder {
    /// The readings added so far, in the order added.
    pub closed spec fn view(&self) -> Seq<Reading> {
        self.added@
    }

    /// The invariant: each running sum is the sum over the readings added,
    /// all of which are bounded, and there are at most `MAX_ASSETS` of them.
    pub closed spec fn wf(&self) -> bool {
        let rs = self.added@;
        &&& rs.len() <= MAX_ASSETS
        &&& forall|i: int| 0 <= i < rs.len() ==> bounded(#[trigger] rs[i])
        &&& self.asset_count == rs.len()
        &&& self.capacity_sum == sum(rs, Term::Cap)
        &&& self.max_mw_sum == sum(rs, Term::MaxMw)
        &&& self.min_mw_sum == sum(rs, Term::MinMw)
        &&& self.min_soc_weighted == sum(rs, Term::MinPctByCap)
        &&& self.max_soc_weighted == sum(rs, Term::MaxPctByCap)
        &&& self.efficiency_weighted == sum(rs, Term::EfficiencyByCap)
        &&& self.ramp_weighted == sum(rs, Term::RampByCap)
        &&& self.min_soc_sum == sum(rs, Term::MinPct)
        &&& self.max_soc_sum == sum(rs, Term::MaxPct)
        &&& self.efficiency_sum == sum(rs, Term::Efficiency)
        &&& self.ramp_sum == sum(rs, Term::Ramp)
        &&& self.soc_mwhr_sum == sum(rs, Term::Soc)
        &&& self.soc_cap_sum == sum(rs, Term::SocCap)
        &&& self.soc_count == sum(rs, Term::SocCount)
        &&& self.current_mw_sum == sum(rs, Term::Current)
        &&& self.current_count == sum(rs, Term::CurrentCount)
        &&& self.setpoint_mw_sum == sum(rs, Term::Setpoint)
        &&& self.setpoint_count == sum(rs, Term::SetpointCount)
    }

    /// A builder that no asset was added to.
    pub fn new() -> (builder: Self)
        ensures
            builder.wf(),
            builder@ == Seq::<Reading>::empty(),
    {
        SiteAggregateBuilder {
            asset_count: 0,
            capacity_sum: 0,
            max_mw_sum: 0,
            min_mw_sum: 0,
            min_soc_weighted: 0,
            max_soc_weighted: 0,
            efficiency_weighted: 0,
            ramp_weighted: 0,
            min_soc_sum: 0,
            max_soc_sum: 0,
            efficiency_sum: 0,
            ramp_sum: 0,
            soc_mwhr_sum: 0,
            soc_cap_sum: 0,
            soc_count: 0,
            current_mw_sum: 0,
            current_count: 0,
            setpoint_mw_sum: 0,
            setpoint_count: 0,
            added: Ghost(Seq::empty()),
        }
    }
}

/// The factor that a capacity-weighted term multiplies the capacity by.
pub open spec fn factor_of(term: Term, r: Reading) -> int {
    match term {
        Term::MinPctByCap => r.min_soc_pct,
        Term::MaxPctByCap => r.max_soc_pct,
        Term::EfficiencyByCap => r.efficiency,
        _ => r.ramp,
    }
}

/// The plain term that goes with a capacity-weighted term.
pub open spec fn plain_of(term: Term) -> Term {
    match term {
        Term::MinPctByCap => Term::MinPct,
        Term::MaxPctByCap => Term::MaxPct,
        Term::EfficiencyByCap => Term::Efficiency,
        _ => Term::Ramp,
    }
}

/// A product of a factor up to `bound` and a capacity is at most `bound`
/// times the capacity.
pub proof fn lemma_by_cap(factor: int, cap: int, bound: int)
    by (nonlinear_arith)
    requires
        0 <= factor <= bound,
        0 <= cap,
    ensures
        0 <= factor * cap <= bound * cap,
{
}

/// A capacity-weighted sum is at most the bound of its factor times the
/// capacity.
pub proof fn lemma_weighted(readings: Seq<Reading>, term: Term, bound: int, n: nat)
    requires
        n <= readings.len(),
        forall|i: int| 0 <= i < readings.len() ==> bounded(#[trigger] readings[i]),
        term is MinPctByCap || term is MaxPctByCap || term is EfficiencyByCap || term is RampByCap,
        bound == term_bound(plain_of(term)),
    ensures
        0 <= total(readings, term, n) <= bound * total(readings, Term::Cap, n),
    decreases n,
{
    if n == 0 {
        assert(bound * 0 == 0) by (nonlinear_arith);
    } else {
        lemma_weighted(readings, term, bound, (n - 1) as nat);
        let r = readings[n - 1];
        assert(bounded(r));
        lemma_by_cap(factor_of(term, r), r.cap, bound);
        let before = total(readings, Term::Cap, (n - 1) as nat);
        assert(bound * (before + r.cap) == bound * before + bound * r.cap) by (nonlinear_arith);
    }
}

/// A quotient of a sum that is at most `bound` times its divisor is at most
/// `bound`.
pub proof fn lemma_average(sum: int, divisor: int, bound: int)
    by (nonlinear_arith)
    requires
        0 <= sum <= bound * divisor,
        0 < divisor,
        0 <= bound,
    ensures
        0 <= sum / divisor <= bound,
{
}

/// The average of a quantity from its running sums.
fn averaged(
    weighted: i128,
    plain: i128,
    weight: i128,
    count: usize,
    Ghost(bound): Ghost<int>,
) -> (avg: i64)
    requires
        0 <= bound <= LIMIT,
        0 <= weight,
        0 <= weighted <= bound * weight,
        0 <= plain <= count * bound,
    ensures
        avg == average(weighted as int, plain as int, weight as int, count as int),
        0 <= avg <= bound,
{
    if weight > 0 {
        proof {
            lemma_average(weighted as int, weight as int, bound);
        }
        div_toward_zero(weighted, weight) as i64
    } else if count > 0 {
        proof {
            assert(count * bound == bound * count) by (nonlinear_arith);
            lemma_average(plain as int, count as int, bound);
        }
        div_toward_zero(plain, count as i128) as i64
    } else {
        0
    }
}

impl SiteAggregateBuilder {
    /// Adds the numbers of `asset` to the running sums.
    pub fn add_asset(&mut self, asset: &AssetView)
        requires
            old(self).wf(),
            old(self)@.len() < MAX_ASSETS,
            bounded(reading_of(asset)),
        ensures
            final(self).wf(),
            final(self)@ == old(self)@.push(reading_of(asset)),
    {
        let ghost rs = self.added@;
        let ghost r = reading_of(asset);
        proof {
            lemma_total_bound(rs, Term::Cap, LIMIT as int, rs.len());
            lemma_total_bound(rs, Term::MaxMw, LIMIT as int, rs.len());
            lemma_total_bound(rs, Term::MinMw, LIMIT as int, rs.len());
            lemma_total_bound(rs, Term::MinPct, FULL_PCT as int, rs.len());
            lemma_total_bound(rs, Term::MaxPct, FULL_PCT as int, rs.len());
            lemma_total_bound(rs, Term::Efficiency, SCALE as int, rs.len());
            lemma_total_bound(rs, Term::Ramp, LIMIT as int, rs.len());
            lemma_total_bound(rs, Term::MinPctByCap, SQUARE as int, rs.len());
            lemma_total_bound(rs, Term::MaxPctByCap, SQUARE as int, rs.len());
            lemma_total_bound(rs, Term::EfficiencyByCap, SQUARE as int, rs.len());
            lemma_total_bound(rs, Term::RampByCap, SQUARE as int, rs.len());
            lemma_total_bound(rs, Term::Soc, WORD as int, rs.len());
            lemma_total_bound(rs, Term::SocCap, LIMIT as int, rs.len());
            lemma_total_bound(rs, Term::SocCount, 1, rs.len());
            lemma_total_bound(rs, Term::Current, WORD as int, rs.len());
            lemma_total_bound(rs, Term::CurrentCount, 1, rs.len());
            lemma_total_bound(rs, Term::Setpoint, WORD as int, rs.len());
            lemma_total_bound(rs, Term::SetpointCount, 1, rs.len());
            lemma_term_bound(Term::MinPctByCap, r);
            lemma_term_bound(Term::MaxPctByCap, r);
            lemma_term_bound(Term::EfficiencyByCap, r);
            lemma_term_bound(Term::RampByCap, r);
            lemma_total_push(rs, r, Term::Cap);
            lemma_total_push(rs, r, Term::MaxMw);
            lemma_total_push(rs, r, Term::MinMw);
            lemma_total_push(rs, r, Term::MinPct);
            lemma_total_push(rs, r, Term::MaxPct);
            lemma_total_push(rs, r, Term::Efficiency);
            lemma_total_push(rs, r, Term::Ramp);
            lemma_total_push(rs, r, Term::MinPctByCap);
            lemma_total_push(rs, r, Term::MaxPctByCap);
            lemma_total_push(rs, r, Term::EfficiencyByCap);
            lemma_total_push(rs, r, Term::RampByCap);
            lemma_total_push(rs, r, Term::Soc);
            lemma_total_push(rs, r, Term::SocCap);
            lemma_total_push(rs, r, Term::SocCount);
            lemma_total_push(rs, r, Term::Current);
            lemma_total_push(rs, r, Term::CurrentCount);
            lemma_total_push(rs, r, Term::Setpoint);
            lemma_total_push(rs, r, Term::SetpointCount);
        }
        let cap: i128 = if asset.capacity_mwhr > 0 {
            asset.capacity_mwhr as i128
        } else {
            0
        };
        self.asset_count = self.asset_count + 1;
        self.capacity_sum = self.capacity_sum + cap;
        self.max_mw_sum = self.max_mw_sum + (asset.max_mw as i128);
        self.min_mw_sum = self.min_mw_sum + (asset.min_mw as i128);
        self.min_soc_sum = self.min_soc_sum + (asset.min_soc_pct as i128);
        self.max_soc_sum = self.max_soc_sum + (asset.max_soc_pct as i128);
        self.efficiency_sum = self.efficiency_sum + (asset.efficiency as i128);
        self.ramp_sum = self.ramp_sum + (asset.ramp_rate_mw_per_min as i128);
        self.min_soc_weighted = self.min_soc_weighted + (asset.min_soc_pct as i128) * cap;
        self.max_soc_weighted = self.max_soc_weighted + (asset.max_soc_pct as i128) * cap;
        self.efficiency_weighted = self.efficiency_weighted + (asset.efficiency as i128) * cap;
        self.ramp_weighted = self.ramp_weighted + (asset.ramp_rate_mw_per_min as i128) * cap;
        match asset.soc_mwhr {
            Some(soc) => {
                self.soc_mwhr_sum = self.soc_mwhr_sum + (soc as i128);
                self.soc_cap_sum = self.soc_cap_sum + cap;
                self.soc_count = self.soc_count + 1;
            },
            None => {},
        }
        match asset.current_mw {
            Some(mw) => {
                self.current_mw_sum = self.current_mw_sum + (mw as i128);
                self.current_count = self.current_count + 1;
            },
            None => {},
        }
        match asset.setpoint_mw {
            Some(mw) => {
                self.setpoint_mw_sum = self.setpoint_mw_sum + (mw as i128);
                self.setpoint_count = self.setpoint_count + 1;
            },
            None => {},
        }
        self.added = Ghost(rs.push(r));
        proof {
            assert forall|i: int| 0 <= i < rs.push(r).len() implies bounded(
                #[trigger] rs.push(r)[i],
            ) by {
                if i < rs.len() {
                    assert(bounded(rs[i]));
                }
            }
        }
    }

    /// The aggregate over the assets added.
    pub fn finish(self) -> (aggregate: SiteAggregate)
        requires
            self.wf(),
        ensures
            aggregate == spec_aggregate(self@),
    {
        let ghost rs = self.added@;
        proof {
            lemma_total_bound(rs, Term::Cap, LIMIT as int, rs.len());
            lemma_total_bound(rs, Term::MaxMw, LIMIT as int, rs.len());
            lemma_total_bound(rs, Term::MinMw, LIMIT as int, rs.len());
            lemma_total_bound(rs, Term::MinPct, FULL_PCT as int, rs.len());
            lemma_total_bound(rs, Term::MaxPct, FULL_PCT as int, rs.len());
            lemma_total_bound(rs, Term::Efficiency, SCALE as int, rs.len());
            lemma_total_bound(rs, Term::Ramp, LIMIT as int, rs.len());
            lemma_total_bound(rs, Term::Soc, WORD as int, rs.len());
            lemma_total_bound(rs, Term::SocCap, LIMIT as int, rs.len());
            lemma_total_bound(rs, Term::SocCount, 1, rs.len());
            lemma_total_bound(rs, Term::Current, WORD as int, rs.len());
            lemma_total_bound(rs, Term::CurrentCount, 1, rs.len());
            lemma_total_bound(rs, Term::Setpoint, WORD as int, rs.len());
            lemma_total_bound(rs, Term::SetpointCount, 1, rs.len());
            lemma_weighted(rs, Term::MinPctByCap, FULL_PCT as int, rs.len());
            lemma_weighted(rs, Term::MaxPctByCap, FULL_PCT as int, rs.len());
            lemma_weighted(rs, Term::EfficiencyByCap, SCALE as int, rs.len());
            lemma_weighted(rs, Term::RampByCap, LIMIT as int, rs.len());
        }
        let soc_pct: Option<i128> = if self.soc_count > 0 && self.soc_cap_sum > 0 {
            proof {
                lemma_product_bound(
                    self.soc_mwhr_sum as int,
                    FULL_PCT as int,
                    MAX_ASSETS * WORD,
                    FULL_PCT as int,
                );
            }
            Some(div_toward_zero(self.soc_mwhr_sum * (FULL_PCT as i128), self.soc_cap_sum))
        } else {
            None
        };
        SiteAggregate {
            asset_count: self.asset_count,
            capacity_mwhr: self.capacity_sum,
            max_mw: self.max_mw_sum,
            min_mw: self.min_mw_sum,
            min_soc_pct: averaged(
                self.min_soc_weighted,
                self.min_soc_sum,
                self.capacity_sum,
                self.asset_count,
                Ghost(FULL_PCT as int),
            ),
            max_soc_pct: averaged(
                self.max_soc_weighted,
                self.max_soc_sum,
                self.capacity_sum,
                self.asset_count,
                Ghost(FULL_PCT as int),
            ),
            efficiency: averaged(
                self.efficiency_weighted,
                self.efficiency_sum,
                self.capacity_sum,
                self.asset_count,
                Ghost(SCALE as int),
            ),
            ramp_rate_mw_per_min: averaged(
                self.ramp_weighted,
                self.ramp_sum,
                self.capacity_sum,
                self.asset_count,
                Ghost(LIMIT as int),
            ),
            soc_mwhr: if self.soc_count > 0 {
                Some(self.soc_mwhr_sum)
            } else {
                None
            },
            soc_pct,
            current_mw: if self.current_count > 0 {
                Some(self.current_mw_sum)
            } else {
                None
            },
            setpoint_mw: if self.setpoint_count > 0 {
                Some(self.setpoint_mw_sum)
            } else {
                None
            },
        }
    }
}

impl SiteAccumulator {
    /// The view of the site from what was gathered.
    pub fn finish(self) -> (site: SiteView)
        requires
            self.aggregate.wf(),
        ensures
            site.site_id == self.site_id,
            site.site_name == self.site_name,
            site.location == self.location,
            site.assets == self.assets,
            site.aggregate == spec_aggregate(self.aggregate@),
    {
        SiteView {
            site_id: self.site_id,
            site_name: self.site_name,
            location: self.location,
            aggregate: self.aggregate.finish(),
            assets: self.assets,
        }
    }
}

impl AssetView {
    /// Two views that agree in every field.
    pub open spec fn same_as(&self, other: &AssetView) -> bool {
        &&& self.capacity_mwhr == other.capacity_mwhr
        &&& self.current_mw == other.current_mw
        &&& self.efficiency == other.efficiency
        &&& self.id == other.id
        &&& self.location@ == other.location@
        &&& self.max_mw == other.max_mw
        &&& self.max_soc_pct == other.max_soc_pct
        &&& self.min_mw == other.min_mw
        &&& self.min_soc_pct == other.min_soc_pct
        &&& self.name@ == other.name@
        &&& self.ramp_rate_mw_per_min == other.ramp_rate_mw_per_min
        &&& self.setpoint_mw == other.setpoint_mw
        &&& self.soc_mwhr == other.soc_mwhr
        &&& self.soc_pct == other.soc_pct
        &&& self.site_id == other.site_id
        &&& self.site_name@ == other.site_name@
        &&& self.status == other.status
        &&& self.extras@ == other.extras@
    }
}

impl Clone for AssetView {
    fn clone(&self) -> (copy: Self)
        ensures
            copy.same_as(self),
    {
        AssetView {
            capacity_mwhr: self.capacity_mwhr,
            current_mw: self.current_mw,
            efficiency: self.efficiency,
            id: self.id,
            location: self.location.clone(),
            max_mw: self.max_mw,
            max_soc_pct: self.max_soc_pct,
            min_mw: self.min_mw,
            min_soc_pct: self.min_soc_pct,
            name: self.name.clone(),
            ramp_rate_mw_per_min: self.ramp_rate_mw_per_min,
            setpoint_mw: self.setpoint_mw,
            soc_mwhr: self.soc_mwhr,
            soc_pct: self.soc_pct,
            site_id: self.site_id,
            site_name: self.site_name.clone(),
            status: clone_text(&self.status),
            extras: clone_extras(&self.extras),
        }
    }
}

/// `view` shows `asset` with the reading `telemetry`.
pub open spec fn is_asset_view(
    asset: &Asset,
    telemetry: Option<Telemetry>,
    view: &AssetView,
) -> bool {
    &&& view.capacity_mwhr == asset.capacity_mwhr
    &&& view.efficiency == asset.efficiency
    &&& view.id == asset.id
    &&& view.location@ == asset.location@
    &&& view.max_mw == asset.max_mw
    &&& view.max_soc_pct == asset.max_soc_pct
    &&& view.min_mw == asset.min_mw
    &&& view.min_soc_pct == asset.min_soc_pct
    &&& view.name@ == asset.name@
    &&& view.ramp_rate_mw_per_min == asset.ramp_rate_mw_per_min
    &&& view.site_id == asset.site_id
    &&& view.site_name@ == asset.site_name@
    &&& match telemetry {
        Some(t) => {
            &&& view.current_mw == Some(t.current_mw)
            &&& view.setpoint_mw == Some(t.setpoint_mw)
            &&& view.soc_mwhr == Some(t.soc_mwhr)
            &&& view.soc_pct == Some(t.soc_pct)
            &&& view.status is Some
            &&& view.status->0@ == t.status@
            &&& view.extras@ == t.extras@
        },
        None => {
            &&& view.current_mw is None
            &&& view.setpoint_mw is None
            &&& view.soc_mwhr is None
            &&& view.soc_pct is None
            &&& view.status is None
            &&& view.extras@ == Seq::<Extra>::empty()
        },
    }
}

/// The view of `asset` with the reading `telemetry`.
pub fn asset_view(asset: &Asset, telemetry: Option<&Telemetry>) -> (view: AssetView)
    ensures
        is_asset_view(
            asset,
            match telemetry {
                Some(t) => Some(*t),
                None => None,
            },
            &view,
        ),
        asset.wf() ==> bounded(reading_of(&view)),
{
    let (current_mw, setpoint_mw, soc_mwhr, soc_pct, status, extras) = match telemetry {
        Some(t) => (
            Some(t.current_mw),
            Some(t.setpoint_mw),
            Some(t.soc_mwhr),
            Some(t.soc_pct),
            Some(t.status.clone()),
            clone_extras(&t.extras),
        ),
        None => (None, None, None, None, None, Vec::new()),
    };
    AssetView {
        capacity_mwhr: asset.capacity_mwhr,
        current_mw,
        efficiency: asset.efficiency,
        id: asset.id,
        location: asset.location.clone(),
        max_mw: asset.max_mw,
        max_soc_pct: asset.max_soc_pct,
        min_mw: asset.min_mw,
        min_soc_pct: asset.min_soc_pct,
        name: asset.name.clone(),
        ramp_rate_mw_per_min: asset.ramp_rate_mw_per_min,
        setpoint_mw,
        soc_mwhr,
        soc_pct,
        site_id: asset.site_id,
        site_name: asset.site_name.clone(),
        status,
        extras,
    }
}

/// The reading that an asset is shown with: the latest record received for
/// it, else a step of length zero on its live state, observed at `now`.
pub open spec fn is_shown_reading(headend: &Headend, id: u128, now: i64, t: &Telemetry) -> bool {
    if headend.latest@.contains_key(id) {
        t.same_as(&headend.latest@[id])
    } else {
        snapshot_of(
            &headend.sim.assets@[id],
            spec_tick(&headend.sim.assets@[id], headend.sim.state@[id], 0),
            now,
            t,
        )
    }
}

/// Every asset of the catalogue as the operator sees it, in order of
/// identifier, each with the latest record received for it or, where there is
/// none, with its live state observed at `now`.
pub fn build_asset_views(headend: &Headend, now: i64) -> (views: Vec<AssetView>)
    requires
        headend.wf(),
    ensures
        views.len() == headend.sim.assets.items().len(),
        views.len() <= MAX_ASSETS,
        forall|i: int|
            0 <= i < views.len() ==> {
                &&& bounded(reading_of(&#[trigger] views[i]))
                &&& exists|t: Telemetry|
                    #![trigger is_asset_view(&headend.sim.assets.items()[i], Some(t), &views[i])]
                    is_shown_reading(headend, headend.sim.assets.ids()[i], now, &t)
                        && is_asset_view(&headend.sim.assets.items()[i], Some(t), &views[i])
            },
{
    let mut views: Vec<AssetView> = Vec::new();
    let n: usize = headend.sim.assets.len();
    let no_rows: Vec<TelemetrySnapshotRow> = Vec::new();
    let mut i: usize = 0;
    while i < n
        invariant
            headend.wf(),
            n == headend.sim.assets.ids().len(),
            n == headend.sim.assets.items().len(),
            no_rows@.len() == 0,
            i <= n,
            views.len() == i,
            forall|j: int|
                0 <= j < i ==> {
                    &&& bounded(reading_of(&#[trigger] views[j]))
                    &&& exists|t: Telemetry|
                        #![trigger is_asset_view(&headend.sim.assets.items()[j], Some(t), &views[j])]
                        is_shown_reading(headend, headend.sim.assets.ids()[j], now, &t)
                            && is_asset_view(&headend.sim.assets.items()[j], Some(t), &views[j])
                },
        decreases n - i,
    {
        proof {
            headend.sim.assets.lemma_entry(i as int);
        }
        let id: u128 = headend.sim.assets.id_at(i);
        let asset: &Asset = headend.sim.assets.item_at(i);
        let telemetry: Option<Telemetry> = choose_telemetry(
            &headend.latest,
            &no_rows,
            &headend.sim,
            id,
            now,
        );
        let ghost before = views@;
        match &telemetry {
            Some(t) => {
                let view: AssetView = asset_view(asset, Some(t));
                proof {
                    assert(is_shown_reading(headend, id, now, t));
                    assert(is_asset_view(&headend.sim.assets.items()[i as int], Some(*t), &view));
                }
                views.push(view);
            },
            None => {
                views.push(asset_view(asset, None));
            },
        }
        proof {
            assert forall|j: int| 0 <= j < i implies views[j] == before[j] by {}
        }
        i += 1;
    }
    views
}

/// The places of the views of site `site_id` among the first `n` views.
pub open spec fn members_upto(views: Seq<AssetView>, site_id: u128, n: nat) -> Seq<int>
    decreases n,
{
    if n == 0 {
        Seq::empty()
    } else {
        let before = members_upto(views, site_id, (n - 1) as nat);
        if views[n - 1].site_id == site_id {
            before.push(n - 1)
        } else {
            before
        }
    }
}

/// The readings of the views of site `site_id` among the first `n` views.
pub open spec fn readings_upto(views: Seq<AssetView>, site_id: u128, n: nat) -> Seq<Reading>
    decreases n,
{
    if n == 0 {
        Seq::empty()
    } else {
        let before = readings_upto(views, site_id, (n - 1) as nat);
        if views[n - 1].site_id == site_id {
            before.push(reading_of(&views[n - 1]))
        } else {
            before
        }
    }
}

/// A site has as many readings as members, and no more than there are views.
pub proof fn lemma_members(views: Seq<AssetView>, site_id: u128, n: nat)
    requires
        n <= views.len(),
    ensures
        members_upto(views, site_id, n).len() == readings_upto(views, site_id, n).len(),
        members_upto(views, site_id, n).len() <= n,
        forall|k: int|
            0 <= k < members_upto(views, site_id, n).len() ==> {
                let p = #[trigger] members_upto(views, site_id, n)[k];
                0 <= p < n && views[p].site_id == site_id
            },
        forall|j: int|
            0 <= j < n && views[j].site_id == site_id ==> #[trigger] members_upto(
                views,
                site_id,
                n,
            ).contains(j),
    decreases n,
{
    if n > 0 {
        lemma_members(views, site_id, (n - 1) as nat);
        let before = members_upto(views, site_id, (n - 1) as nat);
        let now = members_upto(views, site_id, n);
        assert forall|j: int| 0 <= j < n && views[j].site_id == site_id implies now.contains(j) by {
            if j < n - 1 {
                assert(before.contains(j));
                let k = choose|k: int| 0 <= k < before.len() && before[k] == j;
                assert(now[k] == j);
            } else {
                assert(now[now.len() - 1] == j);
            }
        }
    }
}

/// `site` is the view of site `site_id` over `views`: its assets are the
/// views of the site in their order, its name and location those of the
/// first of them, and its aggregate the aggregate over them.
pub open spec fn is_site_view(views: Seq<AssetView>, site_id: u128, site: &SiteView) -> bool {
    let members = members_upto(views, site_id, views.len());
    &&& site.site_id == site_id
    &&& members.len() > 0
    &&& site.site_name@ == views[members[0]].site_name@
    &&& site.location@ == views[members[0]].location@
    &&& site.assets.len() == members.len()
    &&& forall|k: int|
        0 <= k < members.len() ==> (#[trigger] site.assets[k]).same_as(&views[members[k]])
    &&& site.aggregate == spec_aggregate(readings_upto(views, site_id, views.len()))
}

/// The view of site `site_id` over `views`, of which `first` is the first of
/// the site.
fn site_view(views: &Vec<AssetView>, site_id: u128, first: usize) -> (site: SiteView)
    requires
        views.len() <= MAX_ASSETS,
        forall|i: int| 0 <= i < views.len() ==> bounded(reading_of(&#[trigger] views[i])),
        first < views.len(),
        views[first as int].site_id == site_id,
        forall|j: int| 0 <= j < first ==> views[j].site_id != site_id,
    ensures
        is_site_view(views@, site_id, &site),
{
    let mut builder = SiteAggregateBuilder::new();
    let mut assets: Vec<AssetView> = Vec::new();
    let mut j: usize = 0;
    while j < views.len()
        invariant
            views.len() <= MAX_ASSETS,
            forall|i: int| 0 <= i < views.len() ==> bounded(reading_of(&#[trigger] views[i])),
            j <= views.len(),
            builder.wf(),
            builder@ == readings_upto(views@, site_id, j as nat),
            assets.len() == members_upto(views@, site_id, j as nat).len(),
            forall|k: int|
                0 <= k < assets.len() ==> (#[trigger] assets[k]).same_as(
                    &views[members_upto(views@, site_id, j as nat)[k]],
                ),
        decreases views.len() - j,
    {
        proof {
            lemma_members(views@, site_id, j as nat);
        }
        if views[j].site_id == site_id {
            builder.add_asset(&views[j]);
            assets.push(views[j].clone());
        }
        j += 1;
    }
    proof {
        lemma_members(views@, site_id, views@.len());
        let members = members_upto(views@, site_id, views@.len());
        assert(members.contains(first as int));
        lemma_first_member(views@, site_id, views@.len(), first as int);
    }
    let site = SiteAccumulator {
        site_id,
        site_name: views[first].site_name.clone(),
        location: views[first].location.clone(),
        assets,
        aggregate: builder,
    };
    site.finish()
}

/// The first member of a site is the first view of the site.
pub proof fn lemma_first_member(views: Seq<AssetView>, site_id: u128, n: nat, first: int)
    requires
        n <= views.len(),
        0 <= first < n,
        views[first].site_id == site_id,
        forall|j: int| 0 <= j < first ==> views[j].site_id != site_id,
    ensures
        members_upto(views, site_id, n).len() > 0,
        members_upto(views, site_id, n)[0] == first,
    decreases n,
{
    if n - 1 > first {
        lemma_first_member(views, site_id, (n - 1) as nat, first);
    } else {
        lemma_no_member(views, site_id, first as nat);
    }
}

/// Where no view is of the site, the site has no members.
pub proof fn lemma_no_member(views: Seq<AssetView>, site_id: u128, n: nat)
    requires
        n <= views.len(),
        forall|j: int| 0 <= j < n ==> views[j].site_id != site_id,
    ensures
        members_upto(views, site_id, n).len() == 0,
    decreases n,
{
    if n > 0 {
        lemma_no_member(views, site_id, (n - 1) as nat);
    }
}

/// One of `sites` is the site `site_id`.
pub open spec fn shows_site(sites: Seq<SiteView>, site_id: u128) -> bool {
    exists|s: int| 0 <= s < sites.len() && (#[trigger] sites[s]).site_id == site_id
}

/// The sites as the operator sees them, in order of identifier: one for
/// each site that a view names.
pub fn list_sites(views: &Vec<AssetView>) -> (sites: Vec<SiteView>)
    requires
        views.len() <= MAX_ASSETS,
        forall|i: int| 0 <= i < views.len() ==> bounded(reading_of(&#[trigger] views[i])),
    ensures
        forall|s: int|
            0 <= s < sites.len() ==> is_site_view(views@, (#[trigger] sites[s]).site_id, &sites[s]),
        forall|a: int, b: int| 0 <= a < b < sites.len() ==> sites[a].site_id < sites[b].site_id,
        forall|j: int|
            0 <= j < views.len() ==> shows_site(sites@, (#[trigger] views[j]).site_id),
{
    let mut firsts: IdMap<usize> = IdMap::new();
    let mut j: usize = 0;
    while j < views.len()
        invariant
            j <= views.len(),
            firsts.wf(),
            forall|id: u128| #[trigger]
                firsts@.contains_key(id) ==> {
                    &&& firsts@[id] < j
                    &&& views[firsts@[id] as int].site_id == id
                    &&& forall|k: int| 0 <= k < firsts@[id] ==> views[k].site_id != id
                },
            forall|k: int| 0 <= k < j ==> firsts@.contains_key(#[trigger] views[k].site_id),
        decreases views.len() - j,
    {
        let site_id: u128 = views[j].site_id;
        if !firsts.contains_key(site_id) {
            proof {
                assert forall|k: int| 0 <= k < j implies views[k].site_id != site_id by {
                    assert(firsts@.contains_key(views[k].site_id));
                }
            }
            firsts.insert(site_id, j);
        }
        j += 1;
    }
    let mut sites: Vec<SiteView> = Vec::new();
    let n: usize = firsts.len();
    let mut s: usize = 0;
    while s < n
        invariant
            views.len() <= MAX_ASSETS,
            forall|i: int| 0 <= i < views.len() ==> bounded(reading_of(&#[trigger] views[i])),
            firsts.wf(),
            n == firsts.ids().len(),
            forall|id: u128| #[trigger]
                firsts@.contains_key(id) ==> {
                    &&& firsts@[id] < views.len()
                    &&& views[firsts@[id] as int].site_id == id
                    &&& forall|k: int| 0 <= k < firsts@[id] ==> views[k].site_id != id
                },
            s <= n,
            sites.len() == s,
            forall|t: int| 0 <= t < s ==> (#[trigger] sites[t]).site_id == firsts.ids()[t],
            forall|t: int|
                0 <= t < s ==> is_site_view(views@, (#[trigger] sites[t]).site_id, &sites[t]),
        decreases n - s,
    {
        let site_id: u128 = firsts.id_at(s);
        let first: usize = *firsts.item_at(s);
        let site: SiteView = site_view(views, site_id, first);
        let ghost before = sites@;
        sites.push(site);
        proof {
            assert forall|t: int| 0 <= t < s implies sites[t] == before[t] by {}
        }
        s += 1;
    }
    proof {
        assert forall|j: int| 0 <= j < views.len() implies shows_site(
            sites@,
            (#[trigger] views[j]).site_id,
        ) by {
            let id = views[j].site_id;
            assert(firsts@.contains_key(id));
            firsts.lemma_key(id);
            let p = crate::idmap::place_of(firsts.ids(), id);
            assert(sites[p].site_id == id);
        }
        assert forall|a: int, b: int| 0 <= a < b < sites.len() implies sites[a].site_id
            < sites[b].site_id by {
            assert(sites[a].site_id == firsts.ids()[a]);
            assert(sites[b].site_id == firsts.ids()[b]);
        }
    }
    sites
}

} // verus!
