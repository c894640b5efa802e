//! The state of the headend: the simulator, the latest telemetry received
//! per asset, the stream registry, and the zone last seen per asset.

use vstd::prelude::*;
use crate::bootstrap::{choose_telemetry, is_chosen_telemetry};
use crate::idmap::IdMap;
use crate::journal::TelemetrySnapshotRow;
use crate::model::{BessEvent, Telemetry};
use crate::simulator::Simulator;
use crate::soc_events::SocState;
use crate::streams::{AgentStream, StreamRegistry};
use crate::model::Dispatch;

verus! {

/// Everything the headend holds in memory.
#[derive(Debug)]
pub struct Headend {
    pub sim: Simulator,
    pub latest: IdMap<Telemetry>,
    pub registry: StreamRegistry,
    pub soc_state: IdMap<SocState>,
}

impl Headend {
    /// The invariant: every part is well formed.
    pub open spec fn wf(&self) -> bool {
        &&& self.sim.wf()
        &&& self.latest.wf()
        &&& self.registry.wf()
        &&& self.soc_state.wf()
    }

    /// A headend over `sim` that has heard from no agent yet.
    pub fn new(sim: Simulator) -> (headend: Self)
        requires
            sim.wf(),
        ensures
            headend.wf(),
            headend.sim == sim,
            headend.latest@ == Map::<u128, Telemetry>::empty(),
            headend.registry.streams@ == Map::<u128, AgentStream>::empty(),
            headend.registry.pending@ == Map::<u128, Dispatch>::empty(),
            headend.soc_state@ == Map::<u128, SocState>::empty(),
    {
        Headend {
            sim,
            latest: IdMap::new(),
            registry: StreamRegistry::new(),
            soc_state: IdMap::new(),
        }
    }
}

impl Headend {
    /// Keeps a record that was pushed by a producer without a stream as the
    /// latest of its asset.
    pub fn store_telemetry(&mut self, snap: Telemetry)
        requires
            old(self).wf(),
        ensures
            final(self).wf(),
            final(self).sim == old(self).sim,
            final(self).registry == old(self).registry,
            final(self).soc_state == old(self).soc_state,
            final(self).latest@ == old(self).latest@.insert(snap.asset_id, snap),
    {
        self.latest.insert(snap.asset_id, snap);
    }

    /// The latest reading of an asset: the latest record received for it,
    /// else its live state observed at `now`; none for an asset that is
    /// unknown and was never heard of.
    pub fn latest_telemetry(&self, id: u128, now: i64) -> (snap: Option<Telemetry>)
        requires
            self.wf(),
        ensures
            is_chosen_telemetry(self.latest@, Seq::empty(), &self.sim, id, now, snap),
            snap is Some <==> self.latest@.contains_key(id) || self.sim.assets@.contains_key(id),
    {
        let no_rows: Vec<TelemetrySnapshotRow> = Vec::new();
        proof {
            assert(no_rows@ =~= Seq::<TelemetrySnapshotRow>::empty());
            if self.sim.assets@.contains_key(id) {
                assert(self.sim.state@.dom().contains(id));
            }
        }
        choose_telemetry(&self.latest, &no_rows, &self.sim, id, now)
    }
}

/// An event that the operator reports for an asset.
#[derive(Debug)]
pub struct EventRequest {
    pub asset_id: u128,
    pub event_type: String,
    pub severity: Option<String>,
    pub message: Option<String>,
}

/// `event` is what `req` reports, for an asset of `site_id`.
pub open spec fn is_reported_event(
    req: &EventRequest,
    site_id: u128,
    id: u128,
    at: i64,
    event: &BessEvent,
) -> bool {
    &&& event.id == id
    &&& event.asset_id == req.asset_id
    &&& event.site_id == site_id
    &&& event.timestamp == at
    &&& event.event_type@ == req.event_type@
    &&& event.severity@ == match req.severity {
        Some(text) => text@,
        None => "warning"@,
    }
    &&& event.message@ == match req.message {
        Some(text) => text@,
        None => Seq::<char>::empty(),
    }
}

/// The event that the operator reports with `req`, with identifier `id` and
/// time `at`: a warning without a message unless the request says otherwise.
/// None for an asset that the catalogue does not know.
pub fn create_event(
    sim: &Simulator,
    req: &EventRequest,
    id: u128,
    at: i64,
) -> (event: Option<BessEvent>)
    requires
        sim.readable(),
    ensures
        match event {
            Some(e) => sim.assets@.contains_key(req.asset_id) && is_reported_event(
                req,
                sim.assets@[req.asset_id].site_id,
                id,
                at,
                &e,
            ),
            None => !sim.assets@.contains_key(req.asset_id),
        },
{
    let site_id: u128 = match sim.assets.get(req.asset_id) {
        Some(asset) => asset.site_id,
        None => { return None; },
    };
    let severity: String = match &req.severity {
        Some(text) => text.clone(),
        None => "warning".to_owned(),
    };
    let message: String = match &req.message {
        Some(text) => text.clone(),
        None => String::new(),
    };
    Some(
        BessEvent {
            id,
            asset_id: req.asset_id,
            site_id,
            timestamp: at,
            event_type: req.event_type.clone(),
            severity,
            message,
        },
    )
}

/// At most one active setpoint: at any time each asset of the catalogue has
/// exactly one last dispatch, its own, and at most one parked dispatch, its
/// own.
pub proof fn lemma_one_active_setpoint(headend: &Headend, id: u128)
    requires
        headend.wf(),
        headend.sim.assets@.contains_key(id),
    ensures
        headend.sim.dispatches@.contains_key(id),
        headend.sim.dispatches@[id].asset_id == id,
        headend.registry.pending@.contains_key(id) ==> headend.registry.pending@[id].asset_id
            == id,
{
    crate::simulator::lemma_one_last_dispatch(&headend.sim, id);
}

} // verus!
