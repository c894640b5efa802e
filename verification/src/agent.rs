//! The agent's side of the link: the assets that one agent serves, the step
//! that advances them between telemetry emissions, and what a setpoint from
//! the headend does to them.

use vstd::prelude::*;
use crate::allocator::{all_wf, compute_allocations, local_split, within_limits, MAX_ASSETS};
use crate::clock::{format_rfc3339, rfc3339_text};
use crate::dispatch::{trim, trimmed};
use crate::ident::{hyphenated, parse_uuid, uuid_of_text, uuid_text};
use crate::idmap::IdMap;
use crate::model::{Asset, BessEvent, BessState, Telemetry};
use crate::physics::{
    initial_soc_mwhr, lemma_tick_keeps_state_within, snapshot_of, spec_tick, state_within,
    tick_asset_at,
};
use crate::simulator::{catalogue, catalogue_upto, fresh_state, lemma_fresh_state_within};
use crate::soc_events::{agent_signal, is_soc_event, maybe_soc_event, spec_zone, SocState};
use crate::wire::{AssetDescriptor, DispatchAck, Register, Setpoint};

verus! {

/// One asset that an agent serves: its configuration, its state, and the
/// zone its state of charge was last seen in.
#[derive(Debug)]
pub struct Unit {
    pub asset: Asset,
    pub state: BessState,
    pub zone: SocState,
}

/// The assets that one agent serves, and the name it registers under.
#[derive(Debug)]
pub struct Agent {
    pub units: IdMap<Unit>,
    pub gateway_id: String,
}

/// What a setpoint from the headend led to.
#[derive(Debug)]
pub struct Applied {
    /// The assets that the setpoint was for, in order of identifier.
    pub targets: Vec<u128>,
    /// The power that each of them was given.
    pub allocations: Vec<i64>,
    /// The dispatch that is to be acknowledged for each of them, if the
    /// setpoint names one.
    pub dispatch_id: Option<String>,
}

/// What one step of an asset produced.
#[derive(Debug)]
pub struct Observed {
    pub snap: Telemetry,
    pub event: Option<BessEvent>,
}

/// The asset that a setpoint names, if it names one in valid form.
pub open spec fn named_asset(sp: &Setpoint) -> Option<u128> {
    if trimmed(sp.asset_id@).len() > 0 {
        uuid_of_text(trimmed(sp.asset_id@))
    } else {
        None
    }
}

/// The site that a setpoint names, if it names one in valid form.
pub open spec fn named_site(sp: &Setpoint) -> Option<u128> {
    match sp.site_id {
        Some(text) => uuid_of_text(text@),
        None => None,
    }
}

/// The dispatch that a setpoint asks to be acknowledged.
pub open spec fn acknowledged(sp: &Setpoint) -> Option<String> {
    match sp.dispatch_id {
        Some(text) => if trimmed(text@).len() > 0 {
            Some(text)
        } else {
            None
        },
        None => None,
    }
}

/// The identifiers of the units of `site` among the first `n` units.
pub open spec fn site_units_upto(units: Seq<Unit>, site: u128, n: nat) -> Seq<u128>
    decreases n,
{
    if n == 0 {
        Seq::empty()
    } else {
        let before = site_units_upto(units, site, (n - 1) as nat);
        if units[n - 1].asset.site_id == site {
            before.push(units[n - 1].asset.id)
        } else {
            before
        }
    }
}

impl Agent {
    /// The invariant: each unit is stored under the identifier of its asset,
    /// its asset meets the configuration invariants, and its state lies
    /// within the limits of its asset.
    pub open spec fn wf(&self) -> bool {
        &&& self.units.wf()
        &&& self.units.ids().len() <= MAX_ASSETS
        &&& forall|id: u128| #[trigger]
            self.units@.contains_key(id) ==> {
                &&& self.units@[id].asset.wf()
                &&& self.units@[id].asset.id == id
                &&& state_within(&self.units@[id].asset, self.units@[id].state)
            }
    }

    /// The assets that a setpoint is for: the asset it names, if this agent
    /// serves it; else every asset that this agent serves at the site it
    /// names, in order of identifier; else none.
    pub open spec fn targets(&self, sp: &Setpoint) -> Seq<u128> {
        if named_asset(sp) is Some && self.units@.contains_key(named_asset(sp)->0) {
            seq![named_asset(sp)->0]
        } else if named_site(sp) is Some {
            site_units_upto(self.units.items(), named_site(sp)->0, self.units.items().len())
        } else {
            Seq::empty()
        }
    }

    /// An agent for `assets`: each at mid-band charge and zero power, its
    /// state of charge taken to be in range.  Of two assets with the same
    /// identifier the later one is kept.
    pub fn from_assets(assets: Vec<Asset>, gateway_id: String) -> (agent: Self)
        requires
            all_wf(assets@),
            assets.len() <= MAX_ASSETS,
        ensures
            agent.wf(),
            agent.gateway_id == gateway_id,
            agent.units@.dom() == catalogue(assets@).dom(),
            forall|id: u128| #[trigger]
                agent.units@.contains_key(id) ==> {
                    &&& agent.units@[id].asset == catalogue(assets@)[id]
                    &&& agent.units@[id].state == fresh_state(&agent.units@[id].asset)
                    &&& agent.units@[id].zone == SocState::InRange
                },
    {
        let mut units: IdMap<Unit> = IdMap::new();
        let mut i: usize = 0;
        while i < assets.len()
            invariant
                all_wf(assets@),
                assets.len() <= MAX_ASSETS,
                i <= assets.len(),
                units.wf(),
                units.ids().len() <= i,
                units@.dom() == catalogue_upto(assets@, i as nat).dom(),
                forall|id: u128| #[trigger]
                    units@.contains_key(id) ==> {
                        &&& units@[id].asset.wf()
                        &&& units@[id].asset.id == id
                        &&& units@[id].asset == catalogue_upto(assets@, i as nat)[id]
                        &&& units@[id].state == fresh_state(&units@[id].asset)
                        &&& units@[id].zone == SocState::InRange
                    },
            decreases assets.len() - i,
        {
            let asset: Asset = assets[i].clone();
            assert(asset.wf());
            let state = BessState {
                soc_mwhr: initial_soc_mwhr(&asset),
                current_mw: 0,
                setpoint_mw: 0,
            };
            let id: u128 = asset.id;
            units.insert(id, Unit { asset, state, zone: SocState::InRange });
            proof {
                assert(units@.dom() =~= catalogue_upto(assets@, (i + 1) as nat).dom());
            }
            i += 1;
        }
        proof {
            assert forall|id: u128| #[trigger] units@.contains_key(id) implies state_within(
                &units@[id].asset,
                units@[id].state,
            ) by {
                lemma_fresh_state_within(&units@[id].asset);
            }
        }
        Agent { units, gateway_id }
    }

    /// The asset that the agent registers as its primary one: the one with
    /// the smallest identifier.
    pub fn primary(&self) -> (id: Option<u128>)
        requires
            self.wf(),
        ensures
            match id {
                Some(first) => self.units@.contains_key(first) && forall|other: u128|
                    self.units@.contains_key(other) ==> first <= other,
                None => self.units@ == Map::<u128, Unit>::empty(),
            },
    {
        if self.units.len() == 0 {
            assert(self.units@ =~= Map::<u128, Unit>::empty()) by {
                assert forall|id: u128| !self.units@.contains_key(id) by {
                    if self.units@.contains_key(id) {
                        self.units.lemma_key(id);
                    }
                }
            }
            None
        } else {
            let first: u128 = self.units.id_at(0);
            proof {
                assert forall|other: u128| self.units@.contains_key(other) implies first
                    <= other by {
                    self.units.lemma_key(other);
                }
            }
            Some(first)
        }
    }

    /// The registration that the agent opens a connection with: the asset
    /// `primary` in the primary fields, and every asset it serves as a
    /// descriptor, in order of identifier.  None where the agent does not
    /// serve `primary`.
    pub fn registration(&self, primary: u128) -> (message: Option<Register>)
        requires
            self.wf(),
        ensures
            match message {
                None => !self.units@.contains_key(primary),
                Some(reg) => {
                    &&& self.units@.contains_key(primary)
                    &&& reg.asset_id@ == hyphenated(primary)
                    &&& reg.site_id@ == hyphenated(self.units@[primary].asset.site_id)
                    &&& reg.asset_name@ == self.units@[primary].asset.name@
                    &&& reg.site_name@ == self.units@[primary].asset.site_name@
                    &&& reg.gateway_id@ == self.gateway_id@
                    &&& reg.assets.len() == self.units.items().len()
                    &&& forall|i: int|
                        0 <= i < reg.assets.len() ==> is_descriptor_of(
                            &self.units.items()[i].asset,
                            &#[trigger] reg.assets[i],
                        )
                },
            },
    {
        let first: &Unit = match self.units.get(primary) {
            Some(unit) => unit,
            None => { return None; },
        };
        let mut descriptors: Vec<AssetDescriptor> = Vec::new();
        let n: usize = self.units.len();
        let mut i: usize = 0;
        while i < n
            invariant
                self.wf(),
                n == self.units.ids().len(),
                n == self.units.items().len(),
                i <= n,
                descriptors.len() == i,
                forall|j: int|
                    0 <= j < i ==> is_descriptor_of(
                        &self.units.items()[j].asset,
                        &#[trigger] descriptors[j],
                    ),
            decreases n - i,
        {
            let asset: &Asset = &self.units.item_at(i).asset;
            descriptors.push(
                AssetDescriptor {
                    asset_id: uuid_text(asset.id),
                    site_id: uuid_text(asset.site_id),
                    asset_name: asset.name.clone(),
                    site_name: asset.site_name.clone(),
                    location: asset.location.clone(),
                },
            );
            i += 1;
        }
        Some(
            Register {
                asset_id: uuid_text(first.asset.id),
                site_id: uuid_text(first.asset.site_id),
                asset_name: first.asset.name.clone(),
                site_name: first.asset.site_name.clone(),
                gateway_id: self.gateway_id.clone(),
                assets: descriptors,
            },
        )
    }

    /// The assets that a setpoint is for.
    pub fn resolve_targets(&self, sp: &Setpoint) -> (targets: Vec<u128>)
        requires
            self.wf(),
        ensures
            targets@ == self.targets(sp),
    {
        let mut targets: Vec<u128> = Vec::new();
        let name: &str = trim(sp.asset_id.as_str());
        if !name.is_empty() {
            match parse_uuid(name) {
                Some(id) => {
                    if self.units.contains_key(id) {
                        targets.push(id);
                        assert(targets@ =~= seq![id]);
                        return targets;
                    }
                },
                None => {},
            }
        }
        let site: u128 = match &sp.site_id {
            Some(text) => match parse_uuid(text.as_str()) {
                Some(site) => site,
                None => { return targets; },
            },
            None => { return targets; },
        };
        let n: usize = self.units.len();
        let mut i: usize = 0;
        while i < n
            invariant
                self.wf(),
                n == self.units.ids().len(),
                n == self.units.items().len(),
                i <= n,
                targets@ == site_units_upto(self.units.items(), site, i as nat),
            decreases n - i,
        {
            let unit: &Unit = self.units.item_at(i);
            if unit.asset.site_id == site {
                targets.push(unit.asset.id);
            }
            i += 1;
        }
        targets
    }
}

/// `desc` describes `asset`.
pub open spec fn is_descriptor_of(asset: &Asset, desc: &AssetDescriptor) -> bool {
    &&& desc.asset_id@ == hyphenated(asset.id)
    &&& desc.site_id@ == hyphenated(asset.site_id)
    &&& desc.asset_name@ == asset.name@
    &&& desc.site_name@ == asset.site_name@
    &&& desc.location@ == asset.location@
}

/// The assets of the units that `targets` names.
pub open spec fn target_assets(units: Map<u128, Unit>, targets: Seq<u128>) -> Seq<Asset> {
    Seq::new(targets.len(), |k: int| units[targets[k]].asset)
}

/// The unit `unit` with `mw` for its setpoint.
pub open spec fn with_setpoint(unit: Unit, mw: i64) -> Unit {
    Unit { state: BessState { setpoint_mw: mw, ..unit.state }, ..unit }
}

/// `targets` names `id`.
pub open spec fn is_target(targets: Seq<u128>, id: u128) -> bool {
    exists|k: int| 0 <= k < targets.len() && #[trigger] targets[k] == id
}

/// The units of a site among the first `n` are units of the agent, each
/// once, in increasing order of identifier.
pub proof fn lemma_site_units(agent: &Agent, site: u128, n: nat)
    requires
        agent.wf(),
        n <= agent.units.items().len(),
    ensures
        ({
            let list = site_units_upto(agent.units.items(), site, n);
            &&& list.len() <= n
            &&& crate::idmap::increasing(list)
            &&& forall|k: int| 0 <= k < list.len() ==> agent.units@.contains_key(#[trigger] list[k])
            &&& forall|k: int|
                0 <= k < list.len() && n > 0 ==> #[trigger] list[k] <= agent.units.ids()[n - 1]
        }),
    decreases n,
{
    if n > 0 {
        lemma_site_units(agent, site, (n - 1) as nat);
        agent.units.lemma_entry(n - 1);
        let ids = agent.units.ids();
        if n > 1 {
            assert(ids[n - 2] < ids[n - 1]);
        }
        let before = site_units_upto(agent.units.items(), site, (n - 1) as nat);
        let list = site_units_upto(agent.units.items(), site, n);
        if agent.units.items()[n - 1].asset.site_id == site {
            assert(list == before.push(ids[n - 1]));
            assert forall|a: int, b: int| 0 <= a < b < list.len() implies list[a] < list[b] by {
                if b == list.len() - 1 {
                    assert(before[a] <= ids[n - 2]);
                }
            }
        }
    }
}

impl Agent {
    /// The targets of a setpoint are units of the agent, each named once.
    pub proof fn lemma_targets(&self, sp: &Setpoint)
        requires
            self.wf(),
        ensures
            self.targets(sp).len() <= MAX_ASSETS,
            forall|k: int|
                0 <= k < self.targets(sp).len() ==> self.units@.contains_key(
                    #[trigger] self.targets(sp)[k],
                ),
            forall|a: int, b: int|
                0 <= a < b < self.targets(sp).len() ==> self.targets(sp)[a] != self.targets(sp)[b],
    {
        if named_asset(sp) is Some && self.units@.contains_key(named_asset(sp)->0) {
        } else if named_site(sp) is Some {
            lemma_site_units(self, named_site(sp)->0, self.units.items().len());
            let list = self.targets(sp);
            assert forall|a: int, b: int| 0 <= a < b < list.len() implies list[a] != list[b] by {
                assert(list[a] < list[b]);
            }
        }
    }

    /// Applies a setpoint from the headend: the power it commands is split
    /// over the assets it is for, and each share becomes the setpoint of its
    /// asset.  A setpoint that is for no asset of this agent changes nothing.
    pub fn apply_setpoint(&mut self, sp: &Setpoint) -> (applied: Applied)
        requires
            old(self).wf(),
        ensures
            final(self).wf(),
            final(self).gateway_id == old(self).gateway_id,
            applied.targets@ == old(self).targets(sp),
            applied.allocations@ == local_split(
                target_assets(old(self).units@, old(self).targets(sp)),
                sp.mw as int,
            ),
            within_limits(
                target_assets(old(self).units@, old(self).targets(sp)),
                applied.allocations@,
            ),
            applied.dispatch_id == acknowledged(sp),
            final(self).units@.dom() == old(self).units@.dom(),
            forall|k: int|
                0 <= k < applied.targets.len() ==> final(self).units@[#[trigger] applied.targets[k]]
                    == with_setpoint(old(self).units@[applied.targets[k]], applied.allocations[k]),
            forall|id: u128|
                #![trigger final(self).units@[id]]
                old(self).units@.contains_key(id) && !is_target(old(self).targets(sp), id)
                    ==> final(self).units@[id] == old(self).units@[id],
    {
        let targets: Vec<u128> = self.resolve_targets(sp);
        proof {
            self.lemma_targets(sp);
        }
        let ghost start = self.units@;
        let mut assets: Vec<Asset> = Vec::new();
        let mut i: usize = 0;
        while i < targets.len()
            invariant
                self.wf(),
                *self == *old(self),
                targets@ == self.targets(sp),
                forall|k: int|
                    0 <= k < targets.len() ==> self.units@.contains_key(#[trigger] targets[k]),
                i <= targets.len(),
                assets.len() == i,
                forall|k: int| 0 <= k < i ==> #[trigger] assets[k] == self.units@[targets[k]].asset,
            decreases targets.len() - i,
        {
            match self.units.get(targets[i]) {
                Some(unit) => {
                    assets.push(unit.asset.clone());
                },
                None => {},
            }
            i += 1;
        }
        proof {
            assert(assets@ =~= target_assets(start, targets@));
            assert forall|k: int| 0 <= k < assets.len() implies (#[trigger] assets@[k]).wf() by {
                assert(self.units@.contains_key(targets[k]));
            }
        }
        let allocations: Vec<i64> = compute_allocations(&assets, sp.mw);
        let mut k: usize = 0;
        while k < targets.len()
            invariant
                old(self).wf(),
                start == old(self).units@,
                self.wf(),
                self.gateway_id == old(self).gateway_id,
                targets@ == old(self).targets(sp),
                assets@ == target_assets(start, targets@),
                allocations.len() == targets.len(),
                within_limits(assets@, allocations@),
                forall|j: int| 0 <= j < targets.len() ==> start.contains_key(#[trigger] targets[j]),
                forall|a: int, b: int| 0 <= a < b < targets.len() ==> targets[a] != targets[b],
                k <= targets.len(),
                self.units@.dom() == start.dom(),
                forall|j: int|
                    0 <= j < k ==> self.units@[#[trigger] targets[j]] == with_setpoint(
                        start[targets[j]],
                        allocations[j],
                    ),
                forall|id: u128|
                    #![trigger self.units@[id]]
                    start.contains_key(id) && !(exists|j: int|
                        0 <= j < k && #[trigger] targets[j] == id) ==> self.units@[id] == start[id],
            decreases targets.len() - k,
        {
            let id: u128 = targets[k];
            let ghost before = self.units@;
            proof {
                assert(start.contains_key(id));
                assert(!(exists|j: int| 0 <= j < k && #[trigger] targets[j] == id)) by {
                    if exists|j: int| 0 <= j < k && #[trigger] targets[j] == id {
                        let j = choose|j: int| 0 <= j < k && #[trigger] targets[j] == id;
                        assert(targets[j] != targets[k as int]);
                    }
                }
                assert(before[id] == start[id]);
                assert(assets@[k as int] == start[id].asset);
                let share = allocations@[k as int];
                assert(assets@[k as int].min_mw <= share <= assets@[k as int].max_mw);
            }
            match self.units.get(id) {
                Some(unit) => {
                    let moved = Unit {
                        asset: unit.asset.clone(),
                        state: BessState {
                            soc_mwhr: unit.state.soc_mwhr,
                            current_mw: unit.state.current_mw,
                            setpoint_mw: allocations[k],
                        },
                        zone: unit.zone,
                    };
                    self.units.insert(id, moved);
                },
                None => {},
            }
            proof {
                assert(self.units@.dom() =~= start.dom());
                assert forall|j: int| 0 <= j < k + 1 implies self.units@[#[trigger] targets[j]]
                    == with_setpoint(start[targets[j]], allocations[j]) by {
                    if j < k {
                        assert(targets[j] != targets[k as int]);
                    }
                }
                assert forall|other: u128|
                    #![trigger self.units@[other]]
                    start.contains_key(other) && !(exists|j: int|
                        0 <= j < k + 1 && #[trigger] targets[j] == other) implies self.units@[other]
                        == start[other] by {
                    if other == id {
                        assert(targets[k as int] == other);
                    }
                    assert(!(exists|j: int| 0 <= j < k && #[trigger] targets[j] == other)) by {
                        if exists|j: int| 0 <= j < k && #[trigger] targets[j] == other {
                            let j = choose|j: int| 0 <= j < k && #[trigger] targets[j] == other;
                            assert(0 <= j < k + 1 && targets[j] == other);
                        }
                    }
                }
            }
            k += 1;
        }
        let dispatch_id: Option<String> = match &sp.dispatch_id {
            Some(text) => if trim(text.as_str()).is_empty() {
                None
            } else {
                Some(text.clone())
            },
            None => None,
        };
        Applied { targets, allocations, dispatch_id }
    }

    /// Ends a setpoint whose duration has run out: the setpoint of the asset
    /// goes back to zero.
    pub fn expire_setpoint(&mut self, asset_id: u128)
        requires
            old(self).wf(),
        ensures
            final(self).wf(),
            final(self).gateway_id == old(self).gateway_id,
            final(self).units@ == if old(self).units@.contains_key(asset_id) {
                old(self).units@.insert(asset_id, with_setpoint(old(self).units@[asset_id], 0))
            } else {
                old(self).units@
            },
    {
        match self.units.get(asset_id) {
            Some(unit) => {
                let moved = Unit {
                    asset: unit.asset.clone(),
                    state: BessState {
                        soc_mwhr: unit.state.soc_mwhr,
                        current_mw: unit.state.current_mw,
                        setpoint_mw: 0,
                    },
                    zone: unit.zone,
                };
                self.units.insert(asset_id, moved);
            },
            None => {},
        }
    }

    /// Advances every asset by `dt_secs`, in order of identifier; reports
    /// each as observed at `at`, together with the event that the zone of its
    /// state of charge calls for, if it changed.
    pub fn tick_at(&mut self, dt_secs: u64, at: i64) -> (seen: Vec<Observed>)
        requires
            old(self).wf(),
        ensures
            final(self).wf(),
            final(self).gateway_id == old(self).gateway_id,
            final(self).units.ids() == old(self).units.ids(),
            seen.len() == old(self).units.items().len(),
            forall|i: int|
                0 <= i < seen.len() ==> {
                    let before = old(self).units.items()[i];
                    let after = #[trigger] final(self).units.items()[i];
                    &&& after.asset == before.asset
                    &&& after.state == spec_tick(&before.asset, before.state, dt_secs as int)
                    &&& after.zone == spec_zone(&before.asset, after.state.soc_mwhr as int)
                    &&& snapshot_of(&before.asset, after.state, at, &seen[i].snap)
                    &&& match seen[i].event {
                        Some(e) => agent_signal(before.zone, after.zone) is Some && is_soc_event(
                            &e,
                            agent_signal(before.zone, after.zone)->0,
                            &before.asset,
                            &seen[i].snap,
                        ),
                        None => agent_signal(before.zone, after.zone) is None,
                    }
                },
    {
        let mut seen: Vec<Observed> = Vec::new();
        let n: usize = self.units.len();
        let mut i: usize = 0;
        while i < n
            invariant
                old(self).wf(),
                self.wf(),
                self.gateway_id == old(self).gateway_id,
                self.units.ids() == old(self).units.ids(),
                n == self.units.ids().len(),
                n == self.units.items().len(),
                i <= n,
                seen.len() == i,
                forall|j: int| i <= j < n ==> self.units.items()[j] == old(self).units.items()[j],
                forall|j: int|
                    0 <= j < i ==> {
                        let before = old(self).units.items()[j];
                        let after = #[trigger] self.units.items()[j];
                        &&& after.asset == before.asset
                        &&& after.state == spec_tick(&before.asset, before.state, dt_secs as int)
                        &&& after.zone == spec_zone(&before.asset, after.state.soc_mwhr as int)
                        &&& snapshot_of(&before.asset, after.state, at, &seen[j].snap)
                        &&& match seen[j].event {
                            Some(e) => agent_signal(before.zone, after.zone) is Some
                                && is_soc_event(
                                &e,
                                agent_signal(before.zone, after.zone)->0,
                                &before.asset,
                                &seen[j].snap,
                            ),
                            None => agent_signal(before.zone, after.zone) is None,
                        }
                    },
            decreases n - i,
        {
            proof {
                self.units.lemma_entry(i as int);
            }
            let unit: &Unit = self.units.item_at(i);
            let asset: Asset = unit.asset.clone();
            let mut state: BessState = unit.state;
            let mut zone: SocState = unit.zone;
            let ghost before = self.units.items()[i as int];
            let snap: Telemetry = tick_asset_at(&asset, &mut state, dt_secs, at);
            let event: Option<BessEvent> = maybe_soc_event(&mut zone, &asset, &snap);
            proof {
                lemma_tick_keeps_state_within(&asset, before.state, dt_secs);
            }
            self.units.set_at(i, Unit { asset, state, zone });
            seen.push(Observed { snap, event });
            i += 1;
        }
        seen
    }
}

/// `ack` tells the headend that `asset_id` applied the dispatch `dispatch_id`
/// at `at`.
pub open spec fn is_applied_ack(
    ack: &DispatchAck,
    dispatch_id: &String,
    asset_id: u128,
    at: i64,
) -> bool {
    &&& ack.dispatch_id@ == dispatch_id@
    &&& ack.asset_id@ == hyphenated(asset_id)
    &&& ack.status@ == "applied"@
    &&& Some(ack.timestamp@) == rfc3339_text(at)
    &&& ack.reason@ == Seq::<char>::empty()
}

/// The answer of an asset that applied a dispatch; none where the calendar
/// cannot hold the time.
pub fn dispatch_ack(dispatch_id: &String, asset_id: u128, at: i64) -> (ack: Option<DispatchAck>)
    ensures
        match ack {
            Some(a) => is_applied_ack(&a, dispatch_id, asset_id, at),
            None => rfc3339_text(at) is None,
        },
{
    let timestamp: String = match format_rfc3339(at) {
        Some(text) => text,
        None => { return None; },
    };
    Some(
        DispatchAck {
            dispatch_id: dispatch_id.clone(),
            asset_id: uuid_text(asset_id),
            status: "applied".to_owned(),
            timestamp,
            reason: String::new(),
        },
    )
}

} // verus!
