//! The simulator state: the asset catalogue, the state of each asset, and
//! the dispatch last accepted for it.

use vstd::prelude::*;
use crate::allocator::{all_wf, MAX_ASSETS};
use crate::clock::now_millis;
use crate::fixed::{clamp, clamp_wide, EPSILON};
use crate::ident::fresh_uuid;
use crate::idmap::IdMap;
use crate::journal::DispatchSnapshotRow;
use crate::model::{Asset, BessState, Dispatch, DispatchRequest, DispatchStatus, Telemetry};
use crate::physics::{
    clamp_soc, initial_soc_mwhr, lemma_share, lemma_tick_keeps_state_within, snapshot_of,
    soc_bounds, spec_initial_soc, spec_soc_bounds, spec_tick, state_within, tick_asset_at,
    usable_capacity, FULL_PCT,
};

verus! {

/// Why a dispatch was refused.
#[derive(Clone, Copy, Debug, PartialEq, Eq, Structural)]
pub enum DispatchError {
    /// No asset has the requested identifier.
    NotFound,
    /// Discharge requested with the state of charge at its lower bound.
    AtMinSoc,
    /// Charge requested with the state of charge at its upper bound.
    AtMaxSoc,
    /// The requested power is outside the asset's power range.
    OutOfBounds,
}

/// The last recorded state of an asset, as the journal hands it back.
#[derive(Clone, Copy, Debug, PartialEq, Eq, Structural)]
pub struct TelemetrySeed {
    pub asset_id: u128,
    pub soc_mwhr: i64,
    pub current_mw: i64,
    pub setpoint_mw: i64,
}

/// The catalogue that the first `n` assets of a list make: each asset under
/// its identifier, a later one replacing an earlier one of the same
/// identifier.
pub open spec fn catalogue_upto(assets: Seq<Asset>, n: nat) -> Map<u128, Asset>
    decreases n,
{
    if n == 0 {
        Map::empty()
    } else {
        catalogue_upto(assets, (n - 1) as nat).insert(assets[n - 1].id, assets[n - 1])
    }
}

/// The catalogue that a list of assets makes.
pub open spec fn catalogue(assets: Seq<Asset>) -> Map<u128, Asset> {
    catalogue_upto(assets, assets.len())
}

/// The state that an asset starts with: mid-band charge, no power.
pub open spec fn fresh_state(asset: &Asset) -> BessState {
    BessState { soc_mwhr: spec_initial_soc(asset) as i64, current_mw: 0, setpoint_mw: 0 }
}

/// The dispatch that stands for "nothing commanded yet".
pub open spec fn is_idle_dispatch(dispatch: Dispatch, asset_id: u128) -> bool {
    &&& dispatch.placeholder
    &&& dispatch.asset_id == asset_id
    &&& dispatch.mw == 0
    &&& dispatch.duration_s is None
    &&& dispatch.status == DispatchStatus::Accepted
    &&& dispatch.reason is None
    &&& !dispatch.clamped
}

/// The dispatch recorded for an accepted request.
pub open spec fn accepted_dispatch(req: DispatchRequest, id: u128, at: i64) -> Dispatch {
    Dispatch {
        id,
        asset_id: req.asset_id,
        mw: req.mw,
        duration_s: req.duration_s,
        status: DispatchStatus::Accepted,
        reason: None,
        submitted_at: at,
        clamped: req.clamped,
        placeholder: false,
    }
}

/// The state that a journal row restores for `asset`: each value brought
/// back within the asset's limits.
pub open spec fn restored_state(asset: &Asset, row: TelemetrySeed) -> BessState {
    BessState {
        soc_mwhr: clamp(
            row.soc_mwhr as int,
            spec_soc_bounds(asset).0,
            spec_soc_bounds(asset).1,
        ) as i64,
        current_mw: clamp(row.current_mw as int, asset.min_mw as int, asset.max_mw as int) as i64,
        setpoint_mw: clamp(row.setpoint_mw as int, asset.min_mw as int, asset.max_mw as int) as i64,
    }
}

/// The states after the first `n` journal rows were applied in order; rows
/// of unknown assets are passed over.
pub open spec fn hydrated_upto(
    assets: Map<u128, Asset>,
    states: Map<u128, BessState>,
    rows: Seq<TelemetrySeed>,
    n: nat,
) -> Map<u128, BessState>
    decreases n,
{
    if n == 0 {
        states
    } else {
        let before = hydrated_upto(assets, states, rows, (n - 1) as nat);
        let row = rows[n - 1];
        if assets.contains_key(row.asset_id) {
            before.insert(row.asset_id, restored_state(&assets[row.asset_id], row))
        } else {
            before
        }
    }
}

/// The states after the setpoints of the first `n` dispatch rows were taken
/// up again in order, each brought within the power range of its asset; rows
/// of unknown assets are passed over.
pub open spec fn resumed_upto(
    assets: Map<u128, Asset>,
    states: Map<u128, BessState>,
    rows: Seq<DispatchSnapshotRow>,
    n: nat,
) -> Map<u128, BessState>
    decreases n,
{
    if n == 0 {
        states
    } else {
        let before = resumed_upto(assets, states, rows, (n - 1) as nat);
        let row = rows[n - 1];
        if assets.contains_key(row.asset_id) {
            let asset = assets[row.asset_id];
            before.insert(
                row.asset_id,
                BessState {
                    setpoint_mw: clamp(
                        row.mw as int,
                        asset.min_mw as int,
                        asset.max_mw as int,
                    ) as i64,
                    ..before[row.asset_id]
                },
            )
        } else {
            before
        }
    }
}

/// How many of the first `n` journal rows are of an asset of the catalogue.
pub open spec fn known_rows(assets: Map<u128, Asset>, rows: Seq<TelemetrySeed>, n: nat) -> nat
    decreases n,
{
    if n == 0 {
        0
    } else {
        known_rows(assets, rows, (n - 1) as nat) + if assets.contains_key(rows[n - 1].asset_id) {
            1nat
        } else {
            0nat
        }
    }
}

/// What one step of every asset does, observed at `at`: catalogue and last
/// dispatches stay, every state is advanced, and `snaps` reports every new
/// state, in order of identifier.
pub open spec fn ticked(
    before: &Simulator,
    after: &Simulator,
    dt: int,
    at: i64,
    snaps: Seq<Telemetry>,
) -> bool {
    &&& after.assets == before.assets
    &&& after.dispatches == before.dispatches
    &&& after.state.ids() == before.state.ids()
    &&& snaps.len() == before.assets.ids().len()
    &&& forall|i: int|
        0 <= i < snaps.len() ==> {
            &&& (#[trigger] after.state.items()[i]) == spec_tick(
                &before.assets.items()[i],
                before.state.items()[i],
                dt,
            )
            &&& snapshot_of(&before.assets.items()[i], after.state.items()[i], at, &snaps[i])
        }
}

/// Catalogue, per-asset state, and last accepted dispatch per asset.
#[derive(Debug)]
pub struct Simulator {
    pub assets: IdMap<Asset>,
    pub state: IdMap<BessState>,
    pub dispatches: IdMap<Dispatch>,
}

impl Simulator {
    /// What reading the simulator needs: the three maps are well formed and
    /// every asset meets the configuration invariants.
    pub open spec fn readable(&self) -> bool {
        &&& self.assets.wf()
        &&& self.state.wf()
        &&& self.dispatches.wf()
        &&& forall|id: u128| #[trigger] self.assets@.contains_key(id) ==> self.assets@[id].wf()
    }

    /// The invariant: the three maps have the same keys; each asset is
    /// stored under its own identifier and meets the configuration
    /// invariants; each state lies within the limits of its asset; each
    /// last dispatch is that of its asset.
    pub open spec fn wf(&self) -> bool {
        &&& self.assets.wf()
        &&& self.state.wf()
        &&& self.dispatches.wf()
        &&& self.assets@.dom() == self.state@.dom()
        &&& self.assets@.dom() == self.dispatches@.dom()
        &&& self.assets.ids().len() <= MAX_ASSETS
        &&& forall|id: u128| #[trigger]
            self.assets@.contains_key(id) ==> {
                &&& self.assets@[id].wf()
                &&& self.assets@[id].id == id
                &&& state_within(&self.assets@[id], self.state@[id])
                &&& self.dispatches@[id].asset_id == id
            }
    }

    /// The state of charge that a request is decided on.
    pub open spec fn decision_soc(&self, asset_id: u128, soc_override: Option<i64>) -> int {
        match soc_override {
            Some(soc) => soc as int,
            None => self.state@[asset_id].soc_mwhr as int,
        }
    }

    /// The reason to refuse `req`, or `None` where it is to be accepted.
    pub open spec fn gate(&self, req: DispatchRequest, soc_override: Option<i64>) -> Option<
        DispatchError,
    > {
        if !self.assets@.contains_key(req.asset_id) {
            Some(DispatchError::NotFound)
        } else {
            let asset = self.assets@[req.asset_id];
            let soc = self.decision_soc(req.asset_id, soc_override);
            if req.mw > 0 && soc <= spec_soc_bounds(&asset).0 + EPSILON {
                Some(DispatchError::AtMinSoc)
            } else if req.mw < 0 && soc >= spec_soc_bounds(&asset).1 - EPSILON {
                Some(DispatchError::AtMaxSoc)
            } else if req.mw > asset.max_mw || req.mw < asset.min_mw {
                Some(DispatchError::OutOfBounds)
            } else {
                None
            }
        }
    }

    /// A simulator over `assets`: every asset at mid-band charge and zero
    /// power, with a placeholder dispatch of zero recorded for it.
    pub fn from_assets(assets: Vec<Asset>) -> (sim: Self)
        requires
            all_wf(assets@),
            assets.len() <= MAX_ASSETS,
        ensures
            sim.wf(),
            sim.assets@ == catalogue(assets@),
            forall|id: u128| #[trigger]
                sim.assets@.contains_key(id) ==> sim.state@[id] == fresh_state(&sim.assets@[id])
                    && is_idle_dispatch(sim.dispatches@[id], id),
    {
        let mut sim = Simulator {
            assets: IdMap::new(),
            state: IdMap::new(),
            dispatches: IdMap::new(),
        };
        let mut i: usize = 0;
        while i < assets.len()
            invariant
                all_wf(assets@),
                assets.len() <= MAX_ASSETS,
                i <= assets.len(),
                sim.wf(),
                sim.assets.ids().len() <= i,
                sim.assets@ == catalogue_upto(assets@, i as nat),
                forall|id: u128| #[trigger]
                    sim.assets@.contains_key(id) ==> sim.state@[id] == fresh_state(
                        &sim.assets@[id],
                    ) && is_idle_dispatch(sim.dispatches@[id], id),
            decreases assets.len() - i,
        {
            let asset: Asset = assets[i].clone();
            assert(asset.wf());
            let state = BessState {
                soc_mwhr: initial_soc_mwhr(&asset),
                current_mw: 0,
                setpoint_mw: 0,
            };
            let dispatch = Dispatch {
                id: fresh_uuid(),
                asset_id: asset.id,
                mw: 0,
                duration_s: None,
                status: DispatchStatus::Accepted,
                reason: None,
                submitted_at: now_millis(),
                clamped: false,
                placeholder: true,
            };
            proof {
                lemma_fresh_state_within(&asset);
            }
            let id: u128 = asset.id;
            sim.state.insert(id, state);
            sim.dispatches.insert(id, dispatch);
            sim.assets.insert(id, asset);
            i += 1;
        }
        sim
    }

    /// The assets of the catalogue, in order of identifier.
    pub fn assets(&self) -> (list: Vec<Asset>)
        requires
            self.wf(),
        ensures
            list@ == self.assets.items(),
    {
        let mut list: Vec<Asset> = Vec::new();
        let n: usize = self.assets.len();
        let mut i: usize = 0;
        while i < n
            invariant
                self.wf(),
                n == self.assets.ids().len(),
                i <= n,
                list@ == self.assets.items().subrange(0, i as int),
            decreases n - i,
        {
            list.push(self.assets.item_at(i).clone());
            i += 1;
        }
        list
    }

    /// The asset with identifier `id`.
    pub fn asset(&self, id: u128) -> (found: Option<&Asset>)
        requires
            self.wf(),
        ensures
            match found {
                Some(asset) => self.assets@.contains_key(id) && *asset == self.assets@[id]
                    && asset.id == id && asset.wf(),
                None => !self.assets@.contains_key(id),
            },
    {
        self.assets.get(id)
    }

    /// The assets of site `site_id`, in order of identifier.
    pub fn assets_of_site(&self, site_id: u128) -> (list: Vec<Asset>)
        requires
            self.wf(),
        ensures
            list@ == self.assets.items().filter(|asset: Asset| asset.site_id == site_id),
    {
        let mut list: Vec<Asset> = Vec::new();
        let n: usize = self.assets.len();
        let mut i: usize = 0;
        while i < n
            invariant
                self.wf(),
                n == self.assets.ids().len(),
                i <= n,
                list@ == self.assets.items().subrange(0, i as int).filter(
                    |asset: Asset| asset.site_id == site_id,
                ),
            decreases n - i,
        {
            proof {
                reveal(Seq::filter);
                let longer = self.assets.items().subrange(0, i + 1);
                assert(longer.drop_last() == self.assets.items().subrange(0, i as int));
                assert(longer.last() == self.assets.items()[i as int]);
            }
            let asset: &Asset = self.assets.item_at(i);
            if asset.site_id == site_id {
                list.push(asset.clone());
            }
            i += 1;
        }
        assert(self.assets.items().subrange(0, n as int) == self.assets.items());
        list
    }

    /// Judges `req` and, where it passes, makes it the setpoint of its asset
    /// and records a dispatch with the given identifier and time for it.
    pub fn set_dispatch_with(
        &mut self,
        req: DispatchRequest,
        soc_mwhr_override: Option<i64>,
        id: u128,
        at: i64,
    ) -> (outcome: Result<Dispatch, DispatchError>)
        requires
            old(self).wf(),
        ensures
            final(self).wf(),
            match outcome {
                Ok(dispatch) => {
                    &&& old(self).gate(req, soc_mwhr_override) is None
                    &&& dispatch == accepted_dispatch(req, id, at)
                    &&& final(self).assets == old(self).assets
                    &&& final(self).state@ == old(self).state@.insert(
                        req.asset_id,
                        BessState { setpoint_mw: req.mw, ..old(self).state@[req.asset_id] },
                    )
                    &&& final(self).dispatches@ == old(self).dispatches@.insert(
                        req.asset_id,
                        dispatch,
                    )
                },
                Err(reason) => {
                    &&& old(self).gate(req, soc_mwhr_override) == Some(reason)
                    &&& *final(self) == *old(self)
                },
            },
    {
        let place: usize = match self.assets.find(req.asset_id) {
            Some(place) => place,
            None => { return Err(DispatchError::NotFound); },
        };
        proof {
            self.assets.lemma_aligned(&self.state);
            self.state.lemma_entry(place as int);
        }
        let asset: &Asset = self.assets.item_at(place);
        let state: BessState = *self.state.item_at(place);
        let (min_soc, max_soc) = soc_bounds(asset);
        let soc: i64 = match soc_mwhr_override {
            Some(soc) => soc,
            None => state.soc_mwhr,
        };
        if req.mw > 0 && (soc as i128) <= (min_soc as i128) + (EPSILON as i128) {
            return Err(DispatchError::AtMinSoc);
        }
        if req.mw < 0 && (soc as i128) >= (max_soc as i128) - (EPSILON as i128) {
            return Err(DispatchError::AtMaxSoc);
        }
        if req.mw > asset.max_mw || req.mw < asset.min_mw {
            return Err(DispatchError::OutOfBounds);
        }
        let dispatch = Dispatch {
            id,
            asset_id: req.asset_id,
            mw: req.mw,
            duration_s: req.duration_s,
            status: DispatchStatus::Accepted,
            reason: None,
            submitted_at: at,
            clamped: req.clamped,
            placeholder: false,
        };
        self.state.insert(
            req.asset_id,
            BessState {
                soc_mwhr: state.soc_mwhr,
                current_mw: state.current_mw,
                setpoint_mw: req.mw,
            },
        );
        self.dispatches.insert(req.asset_id, dispatch.clone());
        proof {
            assert(self.state@.dom() =~= old(self).state@.dom());
            assert(self.dispatches@.dom() =~= old(self).dispatches@.dom());
        }
        Ok(dispatch)
    }

    /// Judges `req` and, where it passes, makes it the setpoint of its asset
    /// and records a dispatch with a fresh identifier, submitted now.
    pub fn set_dispatch(
        &mut self,
        req: DispatchRequest,
        soc_mwhr_override: Option<i64>,
    ) -> (outcome: Result<Dispatch, DispatchError>)
        requires
            old(self).wf(),
        ensures
            final(self).wf(),
            match outcome {
                Ok(dispatch) => {
                    &&& old(self).gate(req, soc_mwhr_override) is None
                    &&& dispatch == accepted_dispatch(req, dispatch.id, dispatch.submitted_at)
                    &&& final(self).assets == old(self).assets
                    &&& final(self).state@ == old(self).state@.insert(
                        req.asset_id,
                        BessState { setpoint_mw: req.mw, ..old(self).state@[req.asset_id] },
                    )
                    &&& final(self).dispatches@ == old(self).dispatches@.insert(
                        req.asset_id,
                        dispatch,
                    )
                },
                Err(reason) => {
                    &&& old(self).gate(req, soc_mwhr_override) == Some(reason)
                    &&& *final(self) == *old(self)
                },
            },
    {
        let id: u128 = fresh_uuid();
        let at: i64 = now_millis();
        self.set_dispatch_with(req, soc_mwhr_override, id, at)
    }

    /// Advances every asset by `dt_secs`, in order of identifier, and reports
    /// each as observed at `at`.
    pub fn tick_at(&mut self, dt_secs: u64, at: i64) -> (snaps: Vec<Telemetry>)
        requires
            old(self).wf(),
        ensures
            final(self).wf(),
            ticked(old(self), final(self), dt_secs as int, at, snaps@),
    {
        let mut snaps: Vec<Telemetry> = Vec::new();
        let n: usize = self.assets.len();
        proof {
            self.assets.lemma_aligned(&self.state);
        }
        let mut i: usize = 0;
        while i < n
            invariant
                old(self).wf(),
                self.wf(),
                self.assets == old(self).assets,
                self.dispatches == old(self).dispatches,
                self.state.ids() == old(self).state.ids(),
                self.assets.ids() == self.state.ids(),
                n == self.assets.ids().len(),
                i <= n,
                snaps.len() == i,
                forall|j: int| i <= j < n ==> self.state.items()[j] == old(self).state.items()[j],
                forall|j: int|
                    0 <= j < i ==> {
                        &&& (#[trigger] self.state.items()[j]) == spec_tick(
                            &old(self).assets.items()[j],
                            old(self).state.items()[j],
                            dt_secs as int,
                        )
                        &&& snapshot_of(
                            &old(self).assets.items()[j],
                            self.state.items()[j],
                            at,
                            &snaps[j],
                        )
                    },
            decreases n - i,
        {
            proof {
                self.assets.lemma_entry(i as int);
                self.state.lemma_entry(i as int);
            }
            let ghost id = self.assets.ids()[i as int];
            let ghost before = self.state.items()[i as int];
            let mut state: BessState = *self.state.item_at(i);
            let snap: Telemetry = tick_asset_at(self.assets.item_at(i), &mut state, dt_secs, at);
            proof {
                lemma_tick_keeps_state_within(&self.assets.items()[i as int], before, dt_secs);
            }
            self.state.set_at(i, state);
            snaps.push(snap);
            proof {
                assert(self.state@.dom() =~= old(self).state@.dom());
            }
            i += 1;
        }
        snaps
    }

    /// Advances every asset by `dt_secs` and reports each as observed now.
    pub fn tick(&mut self, dt_secs: u64) -> (snaps: Vec<Telemetry>)
        requires
            old(self).wf(),
        ensures
            final(self).wf(),
            exists|at: i64| #[trigger] ticked(old(self), final(self), dt_secs as int, at, snaps@),
    {
        let at: i64 = now_millis();
        self.tick_at(dt_secs, at)
    }

    /// Restores the state of each asset from the last row the journal holds
    /// for it, each value brought back within the asset's limits.  Returns
    /// how many rows named a known asset.
    pub fn hydrate(&mut self, rows: &Vec<TelemetrySeed>) -> (updated: usize)
        requires
            old(self).wf(),
        ensures
            final(self).wf(),
            final(self).assets == old(self).assets,
            final(self).dispatches == old(self).dispatches,
            final(self).state@ == hydrated_upto(
                old(self).assets@,
                old(self).state@,
                rows@,
                rows@.len(),
            ),
            updated == known_rows(old(self).assets@, rows@, rows@.len()),
    {
        let mut updated: usize = 0;
        let mut i: usize = 0;
        while i < rows.len()
            invariant
                self.wf(),
                self.assets == old(self).assets,
                self.dispatches == old(self).dispatches,
                i <= rows.len(),
                updated <= i,
                updated == known_rows(old(self).assets@, rows@, i as nat),
                self.state@ == hydrated_upto(old(self).assets@, old(self).state@, rows@, i as nat),
            decreases rows.len() - i,
        {
            let row: TelemetrySeed = rows[i];
            match self.assets.get(row.asset_id) {
                Some(asset) => {
                    assert(asset.wf());
                    let state = BessState {
                        soc_mwhr: clamp_soc(asset, row.soc_mwhr),
                        current_mw: clamp_wide(
                            row.current_mw as i128,
                            asset.min_mw as i128,
                            asset.max_mw as i128,
                        ) as i64,
                        setpoint_mw: clamp_wide(
                            row.setpoint_mw as i128,
                            asset.min_mw as i128,
                            asset.max_mw as i128,
                        ) as i64,
                    };
                    self.state.insert(row.asset_id, state);
                    proof {
                        assert(self.state@.dom() =~= self.assets@.dom());
                    }
                    updated += 1;
                },
                None => {},
            }
            i += 1;
        }
        updated
    }
}

impl Simulator {
    /// Takes up again the setpoint of the last dispatch that the journal
    /// holds for each asset, brought within the power range of the asset, so
    /// that a restart keeps what was commanded.
    pub fn resume_setpoints(&mut self, rows: &Vec<DispatchSnapshotRow>)
        requires
            old(self).wf(),
        ensures
            final(self).wf(),
            final(self).assets == old(self).assets,
            final(self).dispatches == old(self).dispatches,
            final(self).state@ == resumed_upto(
                old(self).assets@,
                old(self).state@,
                rows@,
                rows@.len(),
            ),
    {
        let mut i: usize = 0;
        while i < rows.len()
            invariant
                self.wf(),
                self.assets == old(self).assets,
                self.dispatches == old(self).dispatches,
                i <= rows.len(),
                self.state@ == resumed_upto(old(self).assets@, old(self).state@, rows@, i as nat),
            decreases rows.len() - i,
        {
            let row: DispatchSnapshotRow = rows[i];
            match self.assets.find(row.asset_id) {
                Some(place) => {
                    proof {
                        self.assets.lemma_aligned(&self.state);
                        self.state.lemma_entry(place as int);
                    }
                    let asset: &Asset = self.assets.item_at(place);
                    assert(asset.wf());
                    let state: BessState = *self.state.item_at(place);
                    let setpoint: i64 = clamp_wide(
                        row.mw as i128,
                        asset.min_mw as i128,
                        asset.max_mw as i128,
                    ) as i64;
                    self.state.insert(
                        row.asset_id,
                        BessState {
                            soc_mwhr: state.soc_mwhr,
                            current_mw: state.current_mw,
                            setpoint_mw: setpoint,
                        },
                    );
                    proof {
                        assert(self.state@.dom() =~= self.assets@.dom());
                    }
                },
                None => {},
            }
            i += 1;
        }
    }
}

/// The starting state of an asset lies within its limits.
pub proof fn lemma_fresh_state_within(asset: &Asset)
    requires
        asset.wf(),
    ensures
        state_within(asset, fresh_state(asset)),
{
    let cap = usable_capacity(asset);
    let lo = asset.min_soc_pct as int;
    let hi = asset.max_soc_pct as int;
    lemma_share(cap, lo, hi, FULL_PCT as int);
    lemma_middle(cap, lo, hi, FULL_PCT as int);
}

/// The share for the mean of two percentages lies between the shares for each.
pub proof fn lemma_middle(cap: int, lo: int, hi: int, whole: int)
    by (nonlinear_arith)
    requires
        0 <= cap,
        0 <= lo <= hi <= whole,
        0 < whole,
    ensures
        cap * lo / whole <= cap * (lo + hi) / (2 * whole) <= cap * hi / whole,
{
}

/// SOC gate: an accepted discharge found the state of charge above the lower
/// bound by more than the tolerance, an accepted charge found it below the
/// upper bound by more than the tolerance.  The state of charge is the one
/// the request was judged by: the override where one was given, else the
/// simulator's own.
pub proof fn lemma_soc_gate(sim: &Simulator, req: DispatchRequest, soc_override: Option<i64>)
    requires
        sim.wf(),
        sim.gate(req, soc_override) is None,
    ensures
        sim.assets@.contains_key(req.asset_id),
        req.mw > 0 ==> sim.decision_soc(req.asset_id, soc_override) > spec_soc_bounds(
            &sim.assets@[req.asset_id],
        ).0 + EPSILON,
        req.mw < 0 ==> sim.decision_soc(req.asset_id, soc_override) < spec_soc_bounds(
            &sim.assets@[req.asset_id],
        ).1 - EPSILON,
        soc_override is None ==> sim.decision_soc(req.asset_id, soc_override)
            == sim.state@[req.asset_id].soc_mwhr,
        sim.assets@[req.asset_id].min_mw <= req.mw <= sim.assets@[req.asset_id].max_mw,
{
}

/// Every asset of the catalogue has exactly one state and exactly one last
/// dispatch, each its own.
pub proof fn lemma_one_last_dispatch(sim: &Simulator, id: u128)
    requires
        sim.wf(),
        sim.assets@.contains_key(id),
    ensures
        sim.state@.contains_key(id),
        sim.dispatches@.contains_key(id),
        sim.dispatches@[id].asset_id == id,
{
    assert(sim.state@.dom().contains(id));
    assert(sim.dispatches@.dom().contains(id));
}

} // verus!
