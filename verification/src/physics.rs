//! The per-asset physics step: a first-order ramp toward the setpoint, an
//! efficiency-adjusted energy integration, and a boundary rule that stops a
//! battery from pushing against the edge of its allowed charge band.

use vstd::prelude::*;
use crate::fixed::{
    abs, clamp, clamp_wide, div_toward_zero, trunc_div, lemma_quotient_bounds, EPSILON, LIMIT,
    SCALE,
};
use crate::model::{Asset, BessState, Extra, Telemetry};
use crate::clock::now_millis;

verus! {

/// Seconds in an hour, scaled.
pub const HOUR: i128 = 3_600_000_000_000;

/// Seconds in a minute, scaled.
pub const MINUTE: i128 = 60_000_000_000;

/// A full percentage, scaled.
pub const FULL_PCT: i64 = 100_000_000_000;

/// Power above which an asset counts as discharging, and below whose
/// negative it counts as charging: 0.1 MW.
pub const ACTIVE_MW: i64 = 100_000_000;

/// Bound on the energy that one step can move: `LIMIT` megawatts for the
/// longest representable step.
pub const ENERGY_LIMIT: i128 = 5_200_000_000_000_000_000_000;

/// Capacity with a negative configuration value read as zero.
pub open spec fn usable_capacity(asset: &Asset) -> int {
    if asset.capacity_mwhr > 0 {
        asset.capacity_mwhr as int
    } else {
        0
    }
}

/// The share `pct` of `cap`, where `pct` is a scaled percentage.
pub open spec fn pct_of(cap: int, pct: int) -> int {
    cap * pct / (FULL_PCT as int)
}

/// Lower and upper state-of-charge bound in MWh.  Percentages outside
/// 0..100 are read as the nearer end; a band that comes out inverted is
/// replaced by the whole capacity.
pub open spec fn spec_soc_bounds(asset: &Asset) -> (int, int) {
    let cap = usable_capacity(asset);
    let lo = pct_of(cap, clamp(asset.min_soc_pct as int, 0, FULL_PCT as int));
    let hi = pct_of(cap, clamp(asset.max_soc_pct as int, 0, FULL_PCT as int));
    if lo <= hi {
        (lo, hi)
    } else {
        (0, cap)
    }
}

/// State of charge a fresh asset starts with: the middle of its band.
pub open spec fn spec_initial_soc(asset: &Asset) -> int {
    let cap = usable_capacity(asset);
    let lo = clamp(asset.min_soc_pct as int, 0, FULL_PCT as int);
    let hi = clamp(asset.max_soc_pct as int, 0, FULL_PCT as int);
    if lo <= hi {
        cap * (lo + hi) / (2 * FULL_PCT)
    } else {
        cap / 2
    }
}

/// Largest change of power that the ramp rate allows within `dt`.
pub open spec fn ramp_limit(asset: &Asset, dt: int) -> int {
    asset.ramp_rate_mw_per_min * dt / (MINUTE as int)
}

/// Power after ramping toward the setpoint for `dt` and limiting to the
/// asset's power range.
pub open spec fn ramped_mw(asset: &Asset, state: BessState, dt: int) -> int {
    let limit = ramp_limit(asset, dt);
    let delta = clamp(state.setpoint_mw - state.current_mw, -limit, limit);
    clamp(state.current_mw + delta, asset.min_mw as int, asset.max_mw as int)
}

/// Energy moved at constant power `mw` during `dt`; positive discharges.
pub open spec fn energy_mwhr(mw: int, dt: int) -> int {
    trunc_div(mw * dt, HOUR as int)
}

/// Energy taken from the store for `energy` delivered: discharging draws
/// more than it delivers, charging stores less than it takes in.
pub open spec fn adjusted_energy(asset: &Asset, energy: int) -> int {
    if energy >= 0 {
        trunc_div(energy * SCALE, asset.efficiency as int)
    } else {
        trunc_div(energy * asset.efficiency, SCALE as int)
    }
}

/// State of charge after integrating the ramped power over `dt`.
pub open spec fn integrated_soc(asset: &Asset, state: BessState, dt: int) -> int {
    let mw = ramped_mw(asset, state, dt);
    let (lo, hi) = spec_soc_bounds(asset);
    clamp(state.soc_mwhr - adjusted_energy(asset, energy_mwhr(mw, dt)), lo, hi)
}

/// The step ends at a bound of the charge band while still moving into it.
pub open spec fn hits_boundary(asset: &Asset, state: BessState, dt: int) -> bool {
    let mw = ramped_mw(asset, state, dt);
    let soc = integrated_soc(asset, state, dt);
    let (lo, hi) = spec_soc_bounds(asset);
    (soc <= lo + EPSILON && mw > 0) || (soc >= hi - EPSILON && mw < 0)
}

/// The state that one step of length `dt` leads to.
pub open spec fn spec_tick(asset: &Asset, state: BessState, dt: int) -> BessState {
    let soc = integrated_soc(asset, state, dt) as i64;
    if hits_boundary(asset, state, dt) {
        BessState { soc_mwhr: soc, current_mw: 0, setpoint_mw: 0 }
    } else {
        BessState {
            soc_mwhr: soc,
            current_mw: ramped_mw(asset, state, dt) as i64,
            setpoint_mw: state.setpoint_mw,
        }
    }
}

/// Reported activity for a power level.
pub open spec fn status_text(mw: int) -> Seq<char> {
    if mw > ACTIVE_MW {
        "discharging"@
    } else if mw < -ACTIVE_MW {
        "charging"@
    } else {
        "idle"@
    }
}

/// State of charge as a percentage of capacity, within 0..100.
pub open spec fn spec_soc_pct(asset: &Asset, soc: int) -> int {
    if asset.capacity_mwhr > 0 {
        clamp(trunc_div(soc * FULL_PCT, asset.capacity_mwhr as int), 0, FULL_PCT as int)
    } else {
        0
    }
}

/// `snap` reports `state` of `asset`, taken at `at`.
pub open spec fn snapshot_of(asset: &Asset, state: BessState, at: i64, snap: &Telemetry) -> bool {
    &&& snap.asset_id == asset.id
    &&& snap.site_id == asset.site_id
    &&& snap.site_name@ == asset.site_name@
    &&& snap.timestamp == at
    &&& snap.soc_mwhr == state.soc_mwhr
    &&& snap.soc_pct == spec_soc_pct(asset, state.soc_mwhr as int)
    &&& snap.capacity_mwhr == asset.capacity_mwhr
    &&& snap.current_mw == state.current_mw
    &&& snap.setpoint_mw == state.setpoint_mw
    &&& snap.max_mw == asset.max_mw
    &&& snap.min_mw == asset.min_mw
    &&& snap.status@ == status_text(state.current_mw as int)
    &&& snap.extras@ == Seq::<Extra>::empty()
}

/// The state invariant: state of charge within the band, power and setpoint
/// within the power range.
pub open spec fn state_within(asset: &Asset, state: BessState) -> bool {
    &&& spec_soc_bounds(asset).0 <= state.soc_mwhr <= spec_soc_bounds(asset).1
    &&& asset.min_mw <= state.current_mw <= asset.max_mw
    &&& asset.min_mw <= state.setpoint_mw <= asset.max_mw
}

/// A share of a non-negative amount is between zero and the amount, and a
/// larger share is not smaller.
pub proof fn lemma_share(cap: int, a: int, b: int, whole: int)
    by (nonlinear_arith)
    requires
        0 <= cap,
        0 <= a <= b <= whole,
        0 < whole,
    ensures
        0 <= cap * a / whole <= cap * b / whole <= cap,
        0 <= cap * a <= cap * whole,
{
}

/// A product is bounded by the product of the bounds of its factors.
pub proof fn lemma_product_bound(a: int, b: int, ma: int, mb: int)
    by (nonlinear_arith)
    requires
        -ma <= a <= ma,
        0 <= b <= mb,
    ensures
        -(ma * mb) <= a * b <= ma * mb,
        a >= 0 ==> a * b >= 0,
        a <= 0 ==> a * b <= 0,
{
}

/// Lower and upper state-of-charge bound of `asset` in MWh.
pub fn soc_bounds(asset: &Asset) -> (bounds: (i64, i64))
    ensures
        (bounds.0 as int, bounds.1 as int) == spec_soc_bounds(asset),
        0 <= bounds.0 <= bounds.1 <= usable_capacity(asset),
{
    let cap: i128 = if asset.capacity_mwhr > 0 {
        asset.capacity_mwhr as i128
    } else {
        0
    };
    let min_pct: i128 = clamp_wide(asset.min_soc_pct as i128, 0, FULL_PCT as i128);
    let max_pct: i128 = clamp_wide(asset.max_soc_pct as i128, 0, FULL_PCT as i128);
    proof {
        lemma_share(cap as int, min_pct as int, min_pct as int, FULL_PCT as int);
        lemma_share(cap as int, max_pct as int, max_pct as int, FULL_PCT as int);
        lemma_product_bound(cap as int, FULL_PCT as int, i64::MAX as int, FULL_PCT as int);
    }
    let lo: i128 = cap * min_pct / (FULL_PCT as i128);
    let hi: i128 = cap * max_pct / (FULL_PCT as i128);
    if lo <= hi {
        (lo as i64, hi as i64)
    } else {
        (0, cap as i64)
    }
}

/// State of charge that a fresh `asset` starts with.
pub fn initial_soc_mwhr(asset: &Asset) -> (soc: i64)
    ensures
        soc == spec_initial_soc(asset),
        0 <= soc <= usable_capacity(asset),
{
    let cap: i128 = if asset.capacity_mwhr > 0 {
        asset.capacity_mwhr as i128
    } else {
        0
    };
    let min_pct: i128 = clamp_wide(asset.min_soc_pct as i128, 0, FULL_PCT as i128);
    let max_pct: i128 = clamp_wide(asset.max_soc_pct as i128, 0, FULL_PCT as i128);
    if min_pct <= max_pct {
        proof {
            lemma_share(cap as int, min_pct + max_pct, min_pct + max_pct, 2 * FULL_PCT);
            lemma_product_bound(cap as int, 2 * FULL_PCT, i64::MAX as int, 2 * FULL_PCT);
        }
        let soc: i128 = cap * (min_pct + max_pct) / (2 * (FULL_PCT as i128));
        soc as i64
    } else {
        (cap / 2) as i64
    }
}

/// `soc_mwhr` brought into the charge band of `asset`.
pub fn clamp_soc(asset: &Asset, soc_mwhr: i64) -> (soc: i64)
    ensures
        soc == clamp(soc_mwhr as int, spec_soc_bounds(asset).0, spec_soc_bounds(asset).1),
        spec_soc_bounds(asset).0 <= soc <= spec_soc_bounds(asset).1,
{
    let (lo, hi) = soc_bounds(asset);
    clamp_wide(soc_mwhr as i128, lo as i128, hi as i128) as i64
}

/// State of charge as a percentage of the capacity of `asset`.
pub fn soc_pct(asset: &Asset, soc_mwhr: i64) -> (pct: i64)
    ensures
        pct == spec_soc_pct(asset, soc_mwhr as int),
        0 <= pct <= FULL_PCT,
{
    if asset.capacity_mwhr > 0 {
        proof {
            lemma_product_bound(
                soc_mwhr as int,
                FULL_PCT as int,
                0x8000_0000_0000_0000,
                FULL_PCT as int,
            );
        }
        let scaled: i128 = (soc_mwhr as i128) * (FULL_PCT as i128);
        let raw: i128 = div_toward_zero(scaled, asset.capacity_mwhr as i128);
        clamp_wide(raw, 0, FULL_PCT as i128) as i64
    } else {
        0
    }
}

/// Reported activity for a power level.
pub fn status_of(mw: i64) -> (text: String)
    ensures
        text@ == status_text(mw as int),
{
    if mw > ACTIVE_MW {
        "discharging".to_owned()
    } else if mw < -ACTIVE_MW {
        "charging".to_owned()
    } else {
        "idle".to_owned()
    }
}

/// A telemetry record of `state`, stamped `at`.
pub fn snapshot(asset: &Asset, state: &BessState, at: i64) -> (snap: Telemetry)
    ensures
        snapshot_of(asset, *state, at, &snap),
{
    Telemetry {
        asset_id: asset.id,
        site_id: asset.site_id,
        site_name: asset.site_name.clone(),
        timestamp: at,
        soc_mwhr: state.soc_mwhr,
        soc_pct: soc_pct(asset, state.soc_mwhr),
        capacity_mwhr: asset.capacity_mwhr,
        current_mw: state.current_mw,
        setpoint_mw: state.setpoint_mw,
        max_mw: asset.max_mw,
        min_mw: asset.min_mw,
        status: status_of(state.current_mw),
        extras: Vec::new(),
    }
}

/// Advances `state` by `dt_secs` and reports it as observed at `at`.
///
/// The new power lies within the asset's power range and the new state of
/// charge within its charge band, whatever the state was before.
pub fn tick_asset_at(asset: &Asset, state: &mut BessState, dt_secs: u64, at: i64) -> (snap:
    Telemetry)
    requires
        asset.wf(),
    ensures
        *final(state) == spec_tick(asset, *old(state), dt_secs as int),
        snapshot_of(asset, *final(state), at, &snap),
        asset.min_mw <= final(state).current_mw <= asset.max_mw,
        spec_soc_bounds(asset).0 <= final(state).soc_mwhr <= spec_soc_bounds(asset).1,
{
    let dt: i128 = dt_secs as i128;
    proof {
        lemma_product_bound(
            asset.ramp_rate_mw_per_min as int,
            dt as int,
            LIMIT as int,
            u64::MAX as int,
        );
        lemma_quotient_bounds(asset.ramp_rate_mw_per_min * dt, MINUTE as int);
    }
    let limit: i128 = (asset.ramp_rate_mw_per_min as i128) * dt / MINUTE;
    let gap: i128 = (state.setpoint_mw as i128) - (state.current_mw as i128);
    let delta: i128 = clamp_wide(gap, -limit, limit);
    let mw: i128 = clamp_wide(
        (state.current_mw as i128) + delta,
        asset.min_mw as i128,
        asset.max_mw as i128,
    );
    proof {
        lemma_product_bound(mw as int, dt as int, LIMIT as int, u64::MAX as int);
    }
    let energy: i128 = div_toward_zero(mw * dt, HOUR);
    assert(-ENERGY_LIMIT <= energy <= ENERGY_LIMIT);
    let adjusted: i128 = if energy >= 0 {
        proof {
            lemma_product_bound(energy as int, SCALE as int, ENERGY_LIMIT as int, SCALE as int);
        }
        div_toward_zero(energy * (SCALE as i128), asset.efficiency as i128)
    } else {
        proof {
            lemma_product_bound(
                energy as int,
                asset.efficiency as int,
                ENERGY_LIMIT as int,
                SCALE as int,
            );
        }
        div_toward_zero(energy * (asset.efficiency as i128), SCALE as i128)
    };
    let (lo, hi) = soc_bounds(asset);
    let soc: i128 = clamp_wide((state.soc_mwhr as i128) - adjusted, lo as i128, hi as i128);
    state.soc_mwhr = soc as i64;
    if (soc <= (lo as i128) + (EPSILON as i128) && mw > 0) || (soc >= (hi as i128) - (
    EPSILON as i128) && mw < 0) {
        state.setpoint_mw = 0;
        state.current_mw = 0;
    } else {
        state.current_mw = mw as i64;
    }
    snapshot(asset, state, at)
}

/// A step keeps the state invariant.
pub proof fn lemma_tick_keeps_state_within(asset: &Asset, state: BessState, dt_secs: u64)
    requires
        asset.wf(),
        state_within(asset, state),
    ensures
        state_within(asset, spec_tick(asset, state, dt_secs as int)),
{
    lemma_share(
        usable_capacity(asset),
        asset.min_soc_pct as int,
        asset.max_soc_pct as int,
        FULL_PCT as int,
    );
}

/// Ramp law: within one step the power moves by at most the ramp rate times
/// the length of the step.  The one exception is a step that ends at a bound
/// of the charge band, which drops the power to zero at once; such a step
/// obeys the law only where the power was that close to zero already.
pub proof fn lemma_ramp_law(asset: &Asset, state: BessState, dt_secs: u64)
    requires
        asset.wf(),
        state_within(asset, state),
        hits_boundary(asset, state, dt_secs as int) ==> MINUTE * abs(state.current_mw as int)
            <= asset.ramp_rate_mw_per_min * dt_secs,
    ensures
        MINUTE * abs(spec_tick(asset, state, dt_secs as int).current_mw - state.current_mw)
            <= asset.ramp_rate_mw_per_min * dt_secs,
{
    let dt = dt_secs as int;
    lemma_product_bound(asset.ramp_rate_mw_per_min as int, dt, LIMIT as int, u64::MAX as int);
    lemma_quotient_bounds(asset.ramp_rate_mw_per_min * dt, MINUTE as int);
}

/// Advances `state` by `dt_secs` and reports it as observed now.
pub fn tick_asset(asset: &Asset, state: &mut BessState, dt_secs: u64) -> (snap: Telemetry)
    requires
        asset.wf(),
    ensures
        *final(state) == spec_tick(asset, *old(state), dt_secs as int),
        snapshot_of(asset, *final(state), snap.timestamp, &snap),
        asset.min_mw <= final(state).current_mw <= asset.max_mw,
        spec_soc_bounds(asset).0 <= final(state).soc_mwhr <= spec_soc_bounds(asset).1,
{
    let at: i64 = now_millis();
    tick_asset_at(asset, state, dt_secs, at)
}

} // verus!
