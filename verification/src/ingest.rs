//! The ingest pipeline: what one frame from an agent does to the state of
//! the headend, and what it asks of the journal.  One connection is served
//! by one task, which hands the frames over in the order they arrive.

use vstd::prelude::*;
use crate::clock::{now_millis, parse_rfc3339, rfc3339_millis};
use crate::headend::Headend;
use crate::ident::{parse_uuid, uuid_of_text, NIL};
use crate::journal::JournalAction;
use crate::model::{BessEvent, Telemetry};
use crate::soc_events::{headend_signal, is_soc_event, maybe_emit_soc_event, spec_zone};
use crate::streams::{clone_sink, AgentStream};
use crate::wire::{
    event_fault, event_from_proto, is_decoded_event, is_decoded_telemetry, telemetry_fault,
    telemetry_from_proto, AgentToHeadend, AssetDescriptor, DecodeError, DispatchAck, HeadendToAgent,
    Heartbeat, Register, WireEvent, WireTelemetry,
};

verus! {

/// One asset that a connection serves.
#[derive(Debug)]
pub struct Registration {
    pub asset_id: u128,
    pub asset_name: String,
    pub site_name: String,
    pub site_id: u128,
}

/// The content of a `Registration`.
pub struct RegistrationView {
    pub asset_id: u128,
    pub asset_name: Seq<char>,
    pub site_name: Seq<char>,
    pub site_id: u128,
}

impl View for Registration {
    type V = RegistrationView;

    open spec fn view(&self) -> RegistrationView {
        RegistrationView {
            asset_id: self.asset_id,
            asset_name: self.asset_name@,
            site_name: self.site_name@,
            site_id: self.site_id,
        }
    }
}

/// What the headend remembers of one connection: the peer, and the assets
/// that its latest registration named.
#[derive(Debug)]
pub struct Connection {
    pub peer: String,
    pub registered: Vec<Registration>,
}

/// `own` unless it is empty, else `fallback`.
pub open spec fn text_or(own: Seq<char>, fallback: Seq<char>) -> Seq<char> {
    if own.len() == 0 {
        fallback
    } else {
        own
    }
}

/// The site that a text names; the nil identifier where it names none.
pub open spec fn site_or_nil(text: Seq<char>) -> u128 {
    match uuid_of_text(text) {
        Some(id) => id,
        None => NIL,
    }
}

/// What a descriptor registers: nothing where its asset identifier is
/// malformed; else the asset, with the names and the site of the
/// registration standing in for those the descriptor leaves empty.
pub open spec fn described(reg: &Register, desc: &AssetDescriptor) -> Option<RegistrationView> {
    match uuid_of_text(desc.asset_id@) {
        Some(asset_id) => Some(
            RegistrationView {
                asset_id,
                asset_name: text_or(desc.asset_name@, reg.asset_name@),
                site_name: text_or(desc.site_name@, reg.site_name@),
                site_id: site_or_nil(text_or(desc.site_id@, reg.site_id@)),
            },
        ),
        None => None,
    }
}

/// What the first `n` descriptors of a registration register.
pub open spec fn described_upto(reg: &Register, n: nat) -> Seq<RegistrationView>
    decreases n,
{
    if n == 0 {
        Seq::empty()
    } else {
        let before = described_upto(reg, (n - 1) as nat);
        match described(reg, &reg.assets[n - 1]) {
            Some(entry) => before.push(entry),
            None => before,
        }
    }
}

/// What the primary fields of a registration register.
pub open spec fn primary(reg: &Register) -> Seq<RegistrationView> {
    match uuid_of_text(reg.asset_id@) {
        Some(asset_id) => seq![
            RegistrationView {
                asset_id,
                asset_name: reg.asset_name@,
                site_name: reg.site_name@,
                site_id: site_or_nil(reg.site_id@),
            },
        ],
        None => Seq::empty(),
    }
}

/// The assets that a registration registers: those of its descriptors, or,
/// where they register none, its primary asset.
pub open spec fn registrations(reg: &Register) -> Seq<RegistrationView> {
    let listed = described_upto(reg, reg.assets@.len());
    if listed.len() > 0 {
        listed
    } else {
        primary(reg)
    }
}

/// A copy of `own` unless it is empty, else of `fallback`.
fn owned_or(own: &String, fallback: &String) -> (text: String)
    ensures
        text@ == text_or(own@, fallback@),
{
    if own.as_str().is_empty() {
        fallback.clone()
    } else {
        own.clone()
    }
}

/// The site that a text names; the nil identifier where it names none.
fn parse_site(text: &String) -> (site: u128)
    ensures
        site == site_or_nil(text@),
{
    match parse_uuid(text.as_str()) {
        Some(id) => id,
        None => NIL,
    }
}

/// The assets that a registration registers.
pub fn plan_registrations(reg: &Register) -> (plan: Vec<Registration>)
    ensures
        plan.len() == registrations(reg).len(),
        forall|i: int| 0 <= i < plan.len() ==> (#[trigger] plan[i])@ == registrations(reg)[i],
{
    let mut plan: Vec<Registration> = Vec::new();
    let mut i: usize = 0;
    while i < reg.assets.len()
        invariant
            i <= reg.assets.len(),
            plan.len() == described_upto(reg, i as nat).len(),
            forall|j: int|
                0 <= j < plan.len() ==> (#[trigger] plan[j])@ == described_upto(reg, i as nat)[j],
        decreases reg.assets.len() - i,
    {
        let desc: &AssetDescriptor = &reg.assets[i];
        match parse_uuid(desc.asset_id.as_str()) {
            Some(asset_id) => {
                let site_id: u128 = if desc.site_id.as_str().is_empty() {
                    parse_site(&reg.site_id)
                } else {
                    parse_site(&desc.site_id)
                };
                plan.push(
                    Registration {
                        asset_id,
                        asset_name: owned_or(&desc.asset_name, &reg.asset_name),
                        site_name: owned_or(&desc.site_name, &reg.site_name),
                        site_id,
                    },
                );
            },
            None => {},
        }
        i += 1;
    }
    if plan.len() == 0 {
        match parse_uuid(reg.asset_id.as_str()) {
            Some(asset_id) => {
                plan.push(
                    Registration {
                        asset_id,
                        asset_name: reg.asset_name.clone(),
                        site_name: reg.site_name.clone(),
                        site_id: parse_site(&reg.site_id),
                    },
                );
            },
            None => {},
        }
    }
    plan
}

/// `action` opens the session of `entry` for `peer` at `at`.
pub open spec fn is_session_open(
    action: &JournalAction,
    entry: RegistrationView,
    peer: Seq<char>,
    at: i64,
) -> bool {
    match action {
        JournalAction::OpenSession { asset_id, peer: p, asset_name, site_name, connected_at } => {
            &&& *asset_id == entry.asset_id
            &&& p@ == peer
            &&& asset_name@ == entry.asset_name
            &&& site_name@ == entry.site_name
            &&& *connected_at == at
        },
        _ => false,
    }
}

/// `stream` serves `entry` for `peer` since `at`.
pub open spec fn is_stream_of(
    stream: &AgentStream,
    entry: RegistrationView,
    peer: Seq<char>,
    at: i64,
) -> bool {
    &&& stream.peer@ == peer
    &&& stream.asset_name@ == entry.asset_name
    &&& stream.site_name@ == entry.site_name
    &&& stream.site_id == entry.site_id
    &&& stream.connected_at == at
}

/// The first `n` entries of `plan` name `id`.
pub open spec fn names_asset(plan: Seq<RegistrationView>, n: int, id: u128) -> bool {
    exists|k: int| 0 <= k < n && #[trigger] plan[k].asset_id == id
}

/// What registering the first `n` entries of `plan` has done to the
/// registry `before`, leaving it as `after`.
pub open spec fn registered_upto(
    before: &crate::streams::StreamRegistry,
    after: &crate::streams::StreamRegistry,
    plan: Seq<RegistrationView>,
    n: int,
    peer: Seq<char>,
    at: i64,
) -> bool {
    &&& forall|id: u128|
        #![trigger after.streams@.contains_key(id)]
        #![trigger before.streams@.contains_key(id)]
        #![trigger names_asset(plan, n, id)]
        after.streams@.contains_key(id) <==> (before.streams@.contains_key(id) || names_asset(
            plan,
            n,
            id,
        ))
    &&& forall|id: u128|
        #![trigger after.streams@[id]]
        #![trigger before.streams@[id]]
        before.streams@.contains_key(id) && !names_asset(plan, n, id) ==> after.streams@[id]
            == before.streams@[id]
    &&& forall|k: int|
        0 <= k < n && (forall|j: int| k < j < n ==> plan[j].asset_id != plan[k].asset_id)
            ==> is_stream_of(&after.streams@[#[trigger] plan[k].asset_id], plan[k], peer, at)
    &&& forall|id: u128|
        #![trigger after.pending@.contains_key(id)]
        after.pending@.contains_key(id) ==> before.pending@.contains_key(id)
            && after.pending@[id] == before.pending@[id]
    &&& forall|id: u128|
        #![trigger before.pending@.contains_key(id)]
        before.pending@.contains_key(id) && !names_asset(plan, n, id)
            ==> after.pending@.contains_key(id)
}

/// What taking the registration `reg` at `now` does: the connection serves
/// the assets that the registration names; each of them has a stream of this
/// connection in place of any it had before; a dispatch parked for one of
/// them may have left the parked ones; and `actions` opens a session for
/// each, in their order.
pub open spec fn register_taken(
    before: &Headend,
    after: &Headend,
    conn_before: &Connection,
    conn_after: &Connection,
    reg: &Register,
    now: i64,
    actions: Seq<JournalAction>,
) -> bool {
    let plan = registrations(reg);
    &&& after.sim == before.sim
    &&& after.latest == before.latest
    &&& after.soc_state == before.soc_state
    &&& conn_after.peer == conn_before.peer
    &&& conn_after.registered.len() == plan.len()
    &&& forall|i: int| 0 <= i < plan.len() ==> (#[trigger] conn_after.registered[i])@ == plan[i]
    &&& registered_upto(
        &before.registry,
        &after.registry,
        plan,
        plan.len() as int,
        conn_before.peer@,
        now,
    )
    &&& actions.len() == plan.len()
    &&& forall|i: int|
        0 <= i < plan.len() ==> is_session_open(
            &#[trigger] actions[i],
            plan[i],
            conn_before.peer@,
            now,
        )
}

/// Takes a registration: the assets it names are served by this connection
/// from now on, each in place of any stream that served it before, and a
/// session is opened for each.  A dispatch parked for a registered asset is
/// offered to the connection and stays parked unless the mailbox takes it.
pub fn handle_register(
    headend: &mut Headend,
    conn: &mut Connection,
    tx: &tokio::sync::mpsc::Sender<HeadendToAgent>,
    reg: &Register,
    now: i64,
) -> (actions: Vec<JournalAction>)
    requires
        old(headend).wf(),
    ensures
        final(headend).wf(),
        register_taken(old(headend), final(headend), old(conn), final(conn), reg, now, actions@),
{
    let plan: Vec<Registration> = plan_registrations(reg);
    let ghost spec_plan = registrations(reg);
    let ghost peer = conn.peer@;
    let mut actions: Vec<JournalAction> = Vec::new();
    let mut i: usize = 0;
    while i < plan.len()
        invariant
            headend.wf(),
            headend.sim == old(headend).sim,
            headend.latest == old(headend).latest,
            headend.soc_state == old(headend).soc_state,
            *conn == *old(conn),
            peer == conn.peer@,
            spec_plan == registrations(reg),
            plan.len() == spec_plan.len(),
            forall|j: int| 0 <= j < plan.len() ==> (#[trigger] plan[j])@ == spec_plan[j],
            i <= plan.len(),
            registered_upto(
                &old(headend).registry,
                &headend.registry,
                spec_plan,
                i as int,
                peer,
                now,
            ),
            actions.len() == i,
            forall|j: int|
                0 <= j < i ==> is_session_open(&#[trigger] actions[j], spec_plan[j], peer, now),
        decreases plan.len() - i,
    {
        let entry: &Registration = &plan[i];
        let ghost before = headend.registry;
        assert(entry@ == spec_plan[i as int]);
        let stream = AgentStream {
            tx: clone_sink(tx),
            peer: conn.peer.clone(),
            asset_name: entry.asset_name.clone(),
            site_name: entry.site_name.clone(),
            site_id: entry.site_id,
            connected_at: now,
        };
        headend.registry.register(entry.asset_id, stream);
        actions.push(
            JournalAction::OpenSession {
                asset_id: entry.asset_id,
                peer: conn.peer.clone(),
                asset_name: entry.asset_name.clone(),
                site_name: entry.site_name.clone(),
                connected_at: now,
            },
        );
        proof {
            let after = headend.registry;
            let start = old(headend).registry;
            let id0 = entry.asset_id;
            assert forall|id: u128| names_asset(spec_plan, i + 1, id) <==> (names_asset(
                spec_plan,
                i as int,
                id,
            ) || id == id0) by {
                if names_asset(spec_plan, i as int, id) {
                    let k = choose|k: int| 0 <= k < i && #[trigger] spec_plan[k].asset_id == id;
                    assert(0 <= k < i + 1 && spec_plan[k].asset_id == id);
                }
                if id == id0 {
                    assert(spec_plan[i as int].asset_id == id);
                }
                if names_asset(spec_plan, i + 1, id) {
                    let k = choose|k: int| 0 <= k < i + 1 && #[trigger] spec_plan[k].asset_id == id;
                    if k < i {
                        assert(spec_plan[k].asset_id == id);
                    }
                }
            }
            assert forall|k: int|
                0 <= k < i + 1 && (forall|j: int|
                    k < j < i + 1
                        ==> spec_plan[j].asset_id != spec_plan[k].asset_id) implies is_stream_of(
                &after.streams@[#[trigger] spec_plan[k].asset_id],
                spec_plan[k],
                peer,
                now,
            ) by {
                if k < i {
                    assert(spec_plan[i as int].asset_id != spec_plan[k].asset_id);
                    assert forall|j: int| k < j < i implies spec_plan[j].asset_id
                        != spec_plan[k].asset_id by {}
                }
            }
            assert forall|id: u128|
                after.streams@.contains_key(id) <==> (start.streams@.contains_key(id)
                    || names_asset(spec_plan, i + 1, id)) by {
                assert(before.streams@.contains_key(id) <==> (start.streams@.contains_key(id)
                    || names_asset(spec_plan, i as int, id)));
            }
            assert forall|id: u128|
                start.streams@.contains_key(id)
                    && !names_asset(spec_plan, i + 1, id) implies after.streams@[id]
                    == start.streams@[id] by {
                assert(!names_asset(spec_plan, i as int, id));
                assert(id != id0);
            }
            assert forall|id: u128|
                after.pending@.contains_key(id) implies start.pending@.contains_key(
                id,
            ) && after.pending@[id] == start.pending@[id] by {
                assert(before.pending@.contains_key(id));
            }
            assert forall|id: u128|
                start.pending@.contains_key(id) && !names_asset(
                    spec_plan,
                    i + 1,
                    id,
                ) implies after.pending@.contains_key(id) by {
                assert(!names_asset(spec_plan, i as int, id));
                assert(id != id0);
                assert(before.pending@.contains_key(id));
            }
            assert(registered_upto(&start, &after, spec_plan, i + 1, peer, now));
        }
        i += 1;
    }
    conn.registered = plan;
    actions
}

/// What a telemetry record that was taken asks of the journal.
#[derive(Debug)]
pub struct TelemetryIngested {
    /// The record, to be appended.
    pub record: Telemetry,
    /// The event that the record raised, to be appended after it.
    pub event: Option<BessEvent>,
}

/// What taking the telemetry record `wire` does: `record` is what it says
/// and is the latest of its asset; the zone of a known asset is brought up
/// to date; and `event` is the event that the change of zone raised, if any.
pub open spec fn telemetry_taken(
    before: &Headend,
    after: &Headend,
    wire: &WireTelemetry,
    record: &Telemetry,
    event: Option<BessEvent>,
) -> bool {
    let id = record.asset_id;
    let known = before.sim.assets@.contains_key(id);
    let next = spec_zone(&before.sim.assets@[id], wire.soc_mwhr as int);
    let prev = if before.soc_state@.contains_key(id) {
        Some(before.soc_state@[id])
    } else {
        None
    };
    &&& after.sim == before.sim
    &&& after.registry == before.registry
    &&& is_decoded_telemetry(wire, record)
    &&& after.latest@.dom() == before.latest@.dom().insert(id)
    &&& is_decoded_telemetry(wire, &after.latest@[id])
    &&& forall|other: u128|
        other != id && before.latest@.contains_key(other) ==> after.latest@[other]
            == before.latest@[other]
    &&& after.soc_state@ == if known {
        before.soc_state@.insert(id, next)
    } else {
        before.soc_state@
    }
    &&& event is Some <==> known && headend_signal(prev, next) is Some
    &&& event is Some ==> is_soc_event(
        &event->0,
        headend_signal(prev, next)->0,
        &before.sim.assets@[id],
        record,
    )
}

/// Takes a telemetry record: it becomes the latest of its asset, the zone
/// of its asset is brought up to date, and the record is handed back for the
/// journal together with the event that the change of zone raised, if any.
/// A record that cannot be read changes nothing.
pub fn handle_agent_telemetry(headend: &mut Headend, wire: &WireTelemetry) -> (outcome: Result<
    TelemetryIngested,
    DecodeError,
>)
    requires
        old(headend).wf(),
    ensures
        final(headend).wf(),
        match outcome {
            Err(fault) => telemetry_fault(wire) == Some(fault) && *final(headend) == *old(headend),
            Ok(taken) => telemetry_fault(wire) is None && telemetry_taken(
                old(headend),
                final(headend),
                wire,
                &taken.record,
                taken.event,
            ),
        },
{
    let snap: Telemetry = match telemetry_from_proto(wire) {
        Ok(snap) => snap,
        Err(fault) => { return Err(fault); },
    };
    let id: u128 = snap.asset_id;
    let record: Telemetry = snap.clone();
    let event: Option<BessEvent> = maybe_emit_soc_event(
        &headend.sim,
        &mut headend.soc_state,
        &snap,
    );
    headend.latest.insert(id, snap);
    proof {
        assert(headend.latest@.dom() =~= old(headend).latest@.dom().insert(id));
    }
    Ok(TelemetryIngested { record, event })
}

/// Why a heartbeat cannot be read, if it cannot.
pub open spec fn heartbeat_fault(wire: &Heartbeat) -> Option<DecodeError> {
    if uuid_of_text(wire.asset_id@) is None {
        Some(DecodeError::BadAssetId)
    } else if rfc3339_millis(wire.timestamp@) is None {
        Some(DecodeError::BadTimestamp)
    } else {
        None
    }
}

/// Takes a heartbeat: the journal is asked to append it.
pub fn handle_agent_heartbeat(wire: &Heartbeat) -> (outcome: Result<JournalAction, DecodeError>)
    ensures
        match outcome {
            Err(fault) => heartbeat_fault(wire) == Some(fault),
            Ok(action) => heartbeat_fault(wire) is None && action
                == (JournalAction::AppendHeartbeat {
                asset_id: uuid_of_text(wire.asset_id@)->0,
                ts: rfc3339_millis(wire.timestamp@)->0,
            }),
        },
{
    let asset_id: u128 = match parse_uuid(wire.asset_id.as_str()) {
        Some(id) => id,
        None => { return Err(DecodeError::BadAssetId); },
    };
    let ts: i64 = match parse_rfc3339(wire.timestamp.as_str()) {
        Some(at) => at,
        None => { return Err(DecodeError::BadTimestamp); },
    };
    Ok(JournalAction::AppendHeartbeat { asset_id, ts })
}

/// Why an answer to a setpoint cannot be read, if it cannot.
pub open spec fn ack_fault(wire: &DispatchAck) -> Option<DecodeError> {
    if uuid_of_text(wire.dispatch_id@) is None {
        Some(DecodeError::BadDispatchId)
    } else if rfc3339_millis(wire.timestamp@) is None {
        Some(DecodeError::BadTimestamp)
    } else {
        None
    }
}

/// `action` attaches the answer `wire` to the dispatch it names.
pub open spec fn is_ack_update(action: &JournalAction, wire: &DispatchAck) -> bool {
    match action {
        JournalAction::UpdateDispatchAck { dispatch_id, status, acked_at, reason } => {
            &&& Some(*dispatch_id) == uuid_of_text(wire.dispatch_id@)
            &&& status@ == wire.status@
            &&& Some(*acked_at) == rfc3339_millis(wire.timestamp@)
            &&& reason@ == wire.reason@
        },
        _ => false,
    }
}

/// Takes an agent's answer to a setpoint: the journal is asked to attach
/// status, time and reason to the dispatch that the answer names.
pub fn handle_dispatch_ack(wire: &DispatchAck) -> (outcome: Result<JournalAction, DecodeError>)
    ensures
        match outcome {
            Err(fault) => ack_fault(wire) == Some(fault),
            Ok(action) => ack_fault(wire) is None && is_ack_update(&action, wire),
        },
{
    let dispatch_id: u128 = match parse_uuid(wire.dispatch_id.as_str()) {
        Some(id) => id,
        None => { return Err(DecodeError::BadDispatchId); },
    };
    let acked_at: i64 = match parse_rfc3339(wire.timestamp.as_str()) {
        Some(at) => at,
        None => { return Err(DecodeError::BadTimestamp); },
    };
    Ok(
        JournalAction::UpdateDispatchAck {
            dispatch_id,
            status: wire.status.clone(),
            acked_at,
            reason: wire.reason.clone(),
        },
    )
}

/// Takes an event from an agent: the journal is asked to append it.
pub fn handle_agent_event(wire: &WireEvent) -> (outcome: Result<JournalAction, DecodeError>)
    ensures
        match outcome {
            Err(fault) => event_fault(wire) == Some(fault),
            Ok(action) => {
                &&& event_fault(wire) is None
                &&& action matches JournalAction::AppendEvent(event)
                &&& is_decoded_event(wire, &event)
            },
        },
{
    match event_from_proto(wire) {
        Ok(event) => Ok(JournalAction::AppendEvent(event)),
        Err(fault) => Err(fault),
    }
}

/// What cleaning up after a connection does: the assets it served have no
/// stream, every other stream is as before, the connection serves nothing,
/// and `actions` closes the session of each asset it served, in their order.
pub open spec fn disconnected(
    before: &Headend,
    after: &Headend,
    conn_before: &Connection,
    conn_after: &Connection,
    actions: Seq<JournalAction>,
) -> bool {
    &&& after.sim == before.sim
    &&& after.latest == before.latest
    &&& after.soc_state == before.soc_state
    &&& after.registry.pending == before.registry.pending
    &&& conn_after.peer == conn_before.peer
    &&& conn_after.registered.len() == 0
    &&& forall|id: u128|
        #![trigger after.registry.streams@.contains_key(id)]
        after.registry.streams@.contains_key(id) <==> before.registry.streams@.contains_key(id)
            && !served(conn_before.registered@, id)
    &&& forall|id: u128|
        #![trigger after.registry.streams@[id]]
        after.registry.streams@.contains_key(id) ==> after.registry.streams@[id]
            == before.registry.streams@[id]
    &&& actions.len() == conn_before.registered.len()
    &&& forall|i: int|
        0 <= i < actions.len() ==> #[trigger] actions[i] == (JournalAction::CloseSession {
            asset_id: conn_before.registered[i].asset_id,
        })
}

/// Cleans up after a connection that ended: every asset it registered loses
/// its stream, and the journal is asked to close the session of each.  The
/// connection is left with no assets, so that a second call does nothing.
pub fn handle_disconnect(headend: &mut Headend, conn: &mut Connection) -> (actions: Vec<
    JournalAction,
>)
    requires
        old(headend).wf(),
    ensures
        final(headend).wf(),
        disconnected(old(headend), final(headend), old(conn), final(conn), actions@),
{
    let mut actions: Vec<JournalAction> = Vec::new();
    let mut i: usize = 0;
    let ghost all = conn.registered@;
    while i < conn.registered.len()
        invariant
            headend.wf(),
            headend.sim == old(headend).sim,
            headend.latest == old(headend).latest,
            headend.soc_state == old(headend).soc_state,
            headend.registry.pending == old(headend).registry.pending,
            *conn == *old(conn),
            all == conn.registered@,
            i <= conn.registered.len(),
            forall|id: u128|
                #![trigger headend.registry.streams@.contains_key(id)]
                headend.registry.streams@.contains_key(id) <==> old(
                    headend,
                ).registry.streams@.contains_key(id) && !served(all.subrange(0, i as int), id),
            forall|id: u128|
                #![trigger headend.registry.streams@[id]]
                headend.registry.streams@.contains_key(id) ==> headend.registry.streams@[id]
                    == old(headend).registry.streams@[id],
            actions.len() == i,
            forall|j: int|
                0 <= j < i ==> #[trigger] actions[j] == (JournalAction::CloseSession {
                    asset_id: all[j].asset_id,
                }),
        decreases conn.registered.len() - i,
    {
        let id: u128 = conn.registered[i].asset_id;
        let ghost before = headend.registry.streams@;
        headend.registry.deregister(id);
        actions.push(JournalAction::CloseSession { asset_id: id });
        proof {
            let shorter = all.subrange(0, i as int);
            let longer = all.subrange(0, i + 1);
            assert forall|other: u128| served(longer, other) <==> (served(shorter, other) || other
                == id) by {
                if served(shorter, other) {
                    let k = choose|k: int| 0 <= k < shorter.len()
                        && #[trigger] shorter[k].asset_id == other;
                    assert(longer[k].asset_id == other);
                }
                if other == id {
                    assert(longer[i as int].asset_id == other);
                }
                if served(longer, other) {
                    let k = choose|k: int| 0 <= k < longer.len()
                        && #[trigger] longer[k].asset_id == other;
                    if k < i {
                        assert(shorter[k].asset_id == other);
                    }
                }
            }
            assert forall|other: u128|
                #![trigger headend.registry.streams@.contains_key(other)]
                headend.registry.streams@.contains_key(other) <==> old(
                    headend,
                ).registry.streams@.contains_key(other) && !served(longer, other) by {
                assert(before.contains_key(other) <==> old(headend).registry.streams@.contains_key(
                    other,
                ) && !served(shorter, other));
            }
        }
        i += 1;
    }
    proof {
        assert(all.subrange(0, all.len() as int) == all);
    }
    conn.registered = Vec::new();
    actions
}

/// One of the registrations is of `id`.
pub open spec fn served(registered: Seq<Registration>, id: u128) -> bool {
    exists|k: int| 0 <= k < registered.len() && #[trigger] registered[k].asset_id == id
}

/// What a frame did, for the task that serves the connection.
#[derive(Debug)]
pub struct Ingested {
    /// What to ask of the journal, in this order.
    pub actions: Vec<JournalAction>,
    /// Why the frame was dropped, if it was.
    pub fault: Option<DecodeError>,
}

/// The event that follows the record in what a telemetry frame asks of the
/// journal, if one does.
pub open spec fn event_after_record(actions: Seq<JournalAction>) -> Option<BessEvent> {
    if actions.len() == 2 {
        match actions[1] {
            JournalAction::AppendEvent(event) => Some(event),
            _ => None,
        }
    } else {
        None
    }
}

/// What taking `frame` at `now` does.  A frame that cannot be read is
/// dropped with its fault: it changes nothing and asks nothing of the
/// journal.
pub open spec fn frame_taken(
    before: &Headend,
    after: &Headend,
    conn_before: &Connection,
    conn_after: &Connection,
    frame: &AgentToHeadend,
    now: i64,
    done: &Ingested,
) -> bool {
    &&& done.fault is Some ==> done.actions.len() == 0 && *after == *before && *conn_after
        == *conn_before
    &&& match frame {
        AgentToHeadend::Register(reg) => done.fault is None && register_taken(
            before,
            after,
            conn_before,
            conn_after,
            reg,
            now,
            done.actions@,
        ),
        AgentToHeadend::Telemetry(wire) => {
            &&& done.fault == telemetry_fault(wire)
            &&& *conn_after == *conn_before
            &&& done.fault is None ==> {
                &&& 1 <= done.actions.len() <= 2
                &&& done.actions[0] is AppendTelemetry
                &&& done.actions.len() == 2 ==> done.actions[1] is AppendEvent
                &&& telemetry_taken(
                    before,
                    after,
                    wire,
                    &done.actions[0]->AppendTelemetry_0,
                    event_after_record(done.actions@),
                )
            }
        },
        AgentToHeadend::Heartbeat(wire) => {
            &&& done.fault == heartbeat_fault(wire)
            &&& *after == *before
            &&& *conn_after == *conn_before
            &&& done.fault is None ==> done.actions.len() == 1 && done.actions[0]
                == (JournalAction::AppendHeartbeat {
                asset_id: uuid_of_text(wire.asset_id@)->0,
                ts: rfc3339_millis(wire.timestamp@)->0,
            })
        },
        AgentToHeadend::DispatchAck(wire) => {
            &&& done.fault == ack_fault(wire)
            &&& *after == *before
            &&& *conn_after == *conn_before
            &&& done.fault is None ==> done.actions.len() == 1 && is_ack_update(
                &done.actions[0],
                wire,
            )
        },
        AgentToHeadend::Event(wire) => {
            &&& done.fault == event_fault(wire)
            &&& *after == *before
            &&& *conn_after == *conn_before
            &&& done.fault is None ==> done.actions.len() == 1 && done.actions[0] is AppendEvent
                && is_decoded_event(wire, &done.actions[0]->AppendEvent_0)
        },
        AgentToHeadend::Empty => {
            &&& done.fault is None
            &&& done.actions.len() == 0
            &&& *after == *before
            &&& *conn_after == *conn_before
        },
    }
}

/// Takes one frame from an agent, with `now` for the time of a registration.
pub fn ingest_frame_at(
    headend: &mut Headend,
    conn: &mut Connection,
    tx: &tokio::sync::mpsc::Sender<HeadendToAgent>,
    frame: &AgentToHeadend,
    now: i64,
) -> (done: Ingested)
    requires
        old(headend).wf(),
    ensures
        final(headend).wf(),
        frame_taken(old(headend), final(headend), old(conn), final(conn), frame, now, &done),
{
    match frame {
        AgentToHeadend::Register(reg) => {
            let actions: Vec<JournalAction> = handle_register(headend, conn, tx, reg, now);
            Ingested { actions, fault: None }
        },
        AgentToHeadend::Telemetry(wire) => match handle_agent_telemetry(headend, wire) {
            Ok(taken) => {
                let mut actions: Vec<JournalAction> = Vec::new();
                actions.push(JournalAction::AppendTelemetry(taken.record));
                match taken.event {
                    Some(event) => {
                        actions.push(JournalAction::AppendEvent(event));
                    },
                    None => {},
                }
                Ingested { actions, fault: None }
            },
            Err(fault) => Ingested { actions: Vec::new(), fault: Some(fault) },
        },
        AgentToHeadend::Heartbeat(wire) => match handle_agent_heartbeat(wire) {
            Ok(action) => Ingested { actions: vec![action], fault: None },
            Err(fault) => Ingested { actions: Vec::new(), fault: Some(fault) },
        },
        AgentToHeadend::DispatchAck(wire) => match handle_dispatch_ack(wire) {
            Ok(action) => Ingested { actions: vec![action], fault: None },
            Err(fault) => Ingested { actions: Vec::new(), fault: Some(fault) },
        },
        AgentToHeadend::Event(wire) => match handle_agent_event(wire) {
            Ok(action) => Ingested { actions: vec![action], fault: None },
            Err(fault) => Ingested { actions: Vec::new(), fault: Some(fault) },
        },
        AgentToHeadend::Empty => Ingested { actions: Vec::new(), fault: None },
    }
}

/// Takes one frame from an agent.  A frame that cannot be read is dropped:
/// it changes nothing and asks nothing of the journal.  A registration is
/// taken at the current time.
pub fn ingest_frame(
    headend: &mut Headend,
    conn: &mut Connection,
    tx: &tokio::sync::mpsc::Sender<HeadendToAgent>,
    frame: &AgentToHeadend,
) -> (done: Ingested)
    requires
        old(headend).wf(),
    ensures
        final(headend).wf(),
        exists|now: i64| #[trigger]
            frame_taken(old(headend), final(headend), old(conn), final(conn), frame, now, &done),
{
    let now: i64 = now_millis();
    ingest_frame_at(headend, conn, tx, frame, now)
}

} // verus!
