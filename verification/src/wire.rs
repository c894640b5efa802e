//! The messages of the agent link and the conversions between them and the
//! data of the model.  On the wire identifiers are UUID text and timestamps
//! are RFC 3339 text.

use vstd::prelude::*;
use crate::clock::{format_rfc3339, parse_rfc3339, rfc3339_millis, rfc3339_text};
use crate::ident::{fresh_uuid, hyphenated, parse_uuid, uuid_of_text, uuid_text};
use crate::model::{
    distinct_keys, put_extra, with_extra, Asset, BessEvent, BessState, Dispatch, Extra, Telemetry,
    TelemetryValue,
};

verus! {

/// A commanded power level, as sent to an agent.
#[derive(Debug)]
pub struct Setpoint {
    pub asset_id: String,
    pub mw: i64,
    pub duration_s: Option<u64>,
    pub site_id: Option<String>,
    pub group_id: Option<String>,
    pub dispatch_id: Option<String>,
}

/// A copy of an optional text.
pub fn clone_text(text: &Option<String>) -> (copy: Option<String>)
    ensures
        copy == *text,
{
    match text {
        Some(t) => Some(t.clone()),
        None => None,
    }
}

impl Clone for Setpoint {
    fn clone(&self) -> (copy: Self)
        ensures
            copy == *self,
    {
        Setpoint {
            asset_id: self.asset_id.clone(),
            mw: self.mw,
            duration_s: self.duration_s,
            site_id: clone_text(&self.site_id),
            group_id: clone_text(&self.group_id),
            dispatch_id: clone_text(&self.dispatch_id),
        }
    }
}

/// What the headend sends to an agent.
#[derive(Debug)]
pub enum HeadendToAgent {
    Setpoint(Setpoint),
}

/// One asset that an agent registers.
#[derive(Debug)]
pub struct AssetDescriptor {
    pub asset_id: String,
    pub site_id: String,
    pub asset_name: String,
    pub site_name: String,
    pub location: String,
}

/// The opening message of an agent: its primary asset and, for a gateway,
/// every asset it serves.
#[derive(Debug)]
pub struct Register {
    pub asset_id: String,
    pub site_id: String,
    pub asset_name: String,
    pub site_name: String,
    pub gateway_id: String,
    pub assets: Vec<AssetDescriptor>,
}

/// The payload of an extras value on the wire.
#[derive(Debug)]
pub enum WireValue {
    F64(u64),
    I64(i64),
    U64(u64),
    Bool(bool),
    String(String),
}

/// An extras value on the wire; the payload may be missing.
#[derive(Debug)]
pub struct WireTelemetryValue {
    pub value: Option<WireValue>,
}

/// A named extras value on the wire.
#[derive(Debug)]
pub struct WireExtra {
    pub key: String,
    pub value: WireTelemetryValue,
}

/// A telemetry record on the wire.
#[derive(Debug)]
pub struct WireTelemetry {
    pub asset_id: String,
    pub site_id: String,
    pub site_name: String,
    pub timestamp: String,
    pub soc_mwhr: i64,
    pub soc_pct: i64,
    pub capacity_mwhr: i64,
    pub current_mw: i64,
    pub setpoint_mw: i64,
    pub max_mw: i64,
    pub min_mw: i64,
    pub status: String,
    pub extras: Vec<WireExtra>,
}

/// A sign of life from an agent.
#[derive(Debug)]
pub struct Heartbeat {
    pub asset_id: String,
    pub timestamp: String,
}

/// An agent's answer to a setpoint.
#[derive(Debug)]
pub struct DispatchAck {
    pub dispatch_id: String,
    pub asset_id: String,
    pub status: String,
    pub timestamp: String,
    pub reason: String,
}

/// An event on the wire.
#[derive(Debug)]
pub struct WireEvent {
    pub id: String,
    pub asset_id: String,
    pub site_id: String,
    pub timestamp: String,
    pub event_type: String,
    pub severity: String,
    pub message: String,
}

/// What an agent sends to the headend.
#[derive(Debug)]
pub enum AgentToHeadend {
    Register(Register),
    Telemetry(WireTelemetry),
    Heartbeat(Heartbeat),
    DispatchAck(DispatchAck),
    Event(WireEvent),
    /// A frame without a message.
    Empty,
}

/// Why a message could not be read.
#[derive(Clone, Copy, Debug, PartialEq, Eq, Structural)]
pub enum DecodeError {
    /// The asset identifier is not a UUID.
    BadAssetId,
    /// The site identifier is not a UUID.
    BadSiteId,
    /// The dispatch identifier is not a UUID.
    BadDispatchId,
    /// The timestamp is not RFC 3339.
    BadTimestamp,
}

/// The wire payload that stands for a value of the model.
pub open spec fn wire_value_of(value: TelemetryValue) -> WireValue {
    match value {
        TelemetryValue::F64(bits) => WireValue::F64(bits),
        TelemetryValue::I64(v) => WireValue::I64(v),
        TelemetryValue::U64(v) => WireValue::U64(v),
        TelemetryValue::Bool(v) => WireValue::Bool(v),
        TelemetryValue::String(v) => WireValue::String(v),
    }
}

/// The value of the model that a wire payload stands for.
pub open spec fn model_value_of(value: WireValue) -> TelemetryValue {
    match value {
        WireValue::F64(bits) => TelemetryValue::F64(bits),
        WireValue::I64(v) => TelemetryValue::I64(v),
        WireValue::U64(v) => TelemetryValue::U64(v),
        WireValue::Bool(v) => TelemetryValue::Bool(v),
        WireValue::String(v) => TelemetryValue::String(v),
    }
}

/// The extras of the model that the first `n` wire extras stand for: those
/// with a payload, put in one after the other, so that a later one takes
/// the place of an earlier one of the same name.
pub open spec fn decoded_extras_upto(extras: Seq<WireExtra>, n: nat) -> Seq<Extra>
    decreases n,
{
    if n == 0 {
        Seq::empty()
    } else {
        let before = decoded_extras_upto(extras, (n - 1) as nat);
        match extras[n - 1].value.value {
            Some(payload) => with_extra(
                before,
                Extra { key: extras[n - 1].key, value: model_value_of(payload) },
            ),
            None => before,
        }
    }
}

/// The extras of the model that wire extras stand for.
pub open spec fn decoded_extras(extras: Seq<WireExtra>) -> Seq<Extra> {
    decoded_extras_upto(extras, extras.len())
}

/// The wire extras that stand for extras of the model, one for one.
pub open spec fn encoded_extras(extras: Seq<Extra>) -> Seq<WireExtra> {
    Seq::new(
        extras.len(),
        |i: int|
            WireExtra {
                key: extras[i].key,
                value: WireTelemetryValue { value: Some(wire_value_of(extras[i].value)) },
            },
    )
}

/// The wire form of a value of the extras.
pub fn telemetry_value_to_proto(value: &TelemetryValue) -> (wire: Option<WireTelemetryValue>)
    ensures
        wire == Some(WireTelemetryValue { value: Some(wire_value_of(*value)) }),
{
    let payload = match value {
        TelemetryValue::F64(bits) => WireValue::F64(*bits),
        TelemetryValue::I64(v) => WireValue::I64(*v),
        TelemetryValue::U64(v) => WireValue::U64(*v),
        TelemetryValue::Bool(v) => WireValue::Bool(*v),
        TelemetryValue::String(v) => WireValue::String(v.clone()),
    };
    Some(WireTelemetryValue { value: Some(payload) })
}

/// The extras of the model for the extras of a wire record: entries without
/// a payload are left out, the others keep key and value, and no name
/// occurs twice.
pub fn proto_extras_to_map(extras: &Vec<WireExtra>) -> (map: Vec<Extra>)
    ensures
        map@ == decoded_extras(extras@),
        distinct_keys(map@),
{
    let mut map: Vec<Extra> = Vec::new();
    let mut i: usize = 0;
    while i < extras.len()
        invariant
            i <= extras.len(),
            map@ == decoded_extras_upto(extras@, i as nat),
            distinct_keys(map@),
        decreases extras.len() - i,
    {
        match &extras[i].value.value {
            Some(payload) => {
                let converted = match payload {
                    WireValue::F64(bits) => TelemetryValue::F64(*bits),
                    WireValue::I64(v) => TelemetryValue::I64(*v),
                    WireValue::U64(v) => TelemetryValue::U64(*v),
                    WireValue::Bool(v) => TelemetryValue::Bool(*v),
                    WireValue::String(v) => TelemetryValue::String(v.clone()),
                };
                put_extra(&mut map, Extra { key: extras[i].key.clone(), value: converted });
            },
            None => {},
        }
        i += 1;
    }
    map
}

/// The wire extras for extras of the model.
pub fn extras_to_proto(extras: &Vec<Extra>) -> (wire: Vec<WireExtra>)
    ensures
        wire@ == encoded_extras(extras@),
{
    let mut wire: Vec<WireExtra> = Vec::new();
    let mut i: usize = 0;
    while i < extras.len()
        invariant
            i <= extras.len(),
            wire.len() == i,
            forall|j: int| 0 <= j < i ==> wire@[j] == encoded_extras(extras@)[j],
        decreases extras.len() - i,
    {
        match telemetry_value_to_proto(&extras[i].value) {
            Some(value) => {
                wire.push(WireExtra { key: extras[i].key.clone(), value });
            },
            None => {},
        }
        i += 1;
    }
    assert(wire@ =~= encoded_extras(extras@));
    wire
}

/// `wire` is the wire form of `snap`.
pub open spec fn is_wire_telemetry(snap: &Telemetry, wire: &WireTelemetry) -> bool {
    &&& wire.asset_id@ == hyphenated(snap.asset_id)
    &&& wire.site_id@ == hyphenated(snap.site_id)
    &&& wire.site_name@ == snap.site_name@
    &&& Some(wire.timestamp@) == rfc3339_text(snap.timestamp)
    &&& wire.soc_mwhr == snap.soc_mwhr
    &&& wire.soc_pct == snap.soc_pct
    &&& wire.capacity_mwhr == snap.capacity_mwhr
    &&& wire.current_mw == snap.current_mw
    &&& wire.setpoint_mw == snap.setpoint_mw
    &&& wire.max_mw == snap.max_mw
    &&& wire.min_mw == snap.min_mw
    &&& wire.status@ == snap.status@
    &&& wire.extras@ == encoded_extras(snap.extras@)
}

/// The wire form of a telemetry record; `None` where the calendar cannot
/// hold its timestamp.
pub fn telemetry_to_proto(snap: &Telemetry) -> (wire: Option<WireTelemetry>)
    ensures
        match wire {
            Some(w) => is_wire_telemetry(snap, &w),
            None => rfc3339_text(snap.timestamp) is None,
        },
{
    let timestamp: String = match format_rfc3339(snap.timestamp) {
        Some(text) => text,
        None => { return None; },
    };
    Some(
        WireTelemetry {
            asset_id: uuid_text(snap.asset_id),
            site_id: uuid_text(snap.site_id),
            site_name: snap.site_name.clone(),
            timestamp,
            soc_mwhr: snap.soc_mwhr,
            soc_pct: snap.soc_pct,
            capacity_mwhr: snap.capacity_mwhr,
            current_mw: snap.current_mw,
            setpoint_mw: snap.setpoint_mw,
            max_mw: snap.max_mw,
            min_mw: snap.min_mw,
            status: snap.status.clone(),
            extras: extras_to_proto(&snap.extras),
        },
    )
}

/// Why a wire telemetry record cannot be read, if it cannot: the first of
/// asset identifier, site identifier and timestamp that is malformed.
pub open spec fn telemetry_fault(wire: &WireTelemetry) -> Option<DecodeError> {
    if uuid_of_text(wire.asset_id@) is None {
        Some(DecodeError::BadAssetId)
    } else if uuid_of_text(wire.site_id@) is None {
        Some(DecodeError::BadSiteId)
    } else if rfc3339_millis(wire.timestamp@) is None {
        Some(DecodeError::BadTimestamp)
    } else {
        None
    }
}

/// `snap` is what the wire record `wire` says.
pub open spec fn is_decoded_telemetry(wire: &WireTelemetry, snap: &Telemetry) -> bool {
    &&& Some(snap.asset_id) == uuid_of_text(wire.asset_id@)
    &&& Some(snap.site_id) == uuid_of_text(wire.site_id@)
    &&& snap.site_name@ == wire.site_name@
    &&& Some(snap.timestamp) == rfc3339_millis(wire.timestamp@)
    &&& snap.soc_mwhr == wire.soc_mwhr
    &&& snap.soc_pct == wire.soc_pct
    &&& snap.capacity_mwhr == wire.capacity_mwhr
    &&& snap.current_mw == wire.current_mw
    &&& snap.setpoint_mw == wire.setpoint_mw
    &&& snap.max_mw == wire.max_mw
    &&& snap.min_mw == wire.min_mw
    &&& snap.status@ == wire.status@
    &&& snap.extras@ == decoded_extras(wire.extras@)
}

/// Reads a telemetry record off the wire.
pub fn telemetry_from_proto(wire: &WireTelemetry) -> (snap: Result<Telemetry, DecodeError>)
    ensures
        match snap {
            Ok(s) => telemetry_fault(wire) is None && is_decoded_telemetry(wire, &s) && s.wf(),
            Err(fault) => telemetry_fault(wire) == Some(fault),
        },
{
    let asset_id: u128 = match parse_uuid(wire.asset_id.as_str()) {
        Some(id) => id,
        None => { return Err(DecodeError::BadAssetId); },
    };
    let site_id: u128 = match parse_uuid(wire.site_id.as_str()) {
        Some(id) => id,
        None => { return Err(DecodeError::BadSiteId); },
    };
    let timestamp: i64 = match parse_rfc3339(wire.timestamp.as_str()) {
        Some(at) => at,
        None => { return Err(DecodeError::BadTimestamp); },
    };
    Ok(
        Telemetry {
            asset_id,
            site_id,
            site_name: wire.site_name.clone(),
            timestamp,
            soc_mwhr: wire.soc_mwhr,
            soc_pct: wire.soc_pct,
            capacity_mwhr: wire.capacity_mwhr,
            current_mw: wire.current_mw,
            setpoint_mw: wire.setpoint_mw,
            max_mw: wire.max_mw,
            min_mw: wire.min_mw,
            status: wire.status.clone(),
            extras: proto_extras_to_map(&wire.extras),
        },
    )
}

/// `sp` commands what `dispatch` says, for an asset of site `site_id`.
pub open spec fn is_setpoint_of(dispatch: &Dispatch, site_id: Option<u128>, sp: &Setpoint) -> bool {
    &&& sp.asset_id@ == hyphenated(dispatch.asset_id)
    &&& sp.mw == dispatch.mw
    &&& sp.duration_s == dispatch.duration_s
    &&& match site_id {
        Some(site) => sp.site_id is Some && sp.site_id->0@ == hyphenated(site),
        None => sp.site_id is None,
    }
    &&& sp.group_id is None
    &&& sp.dispatch_id is Some
    &&& sp.dispatch_id->0@ == hyphenated(dispatch.id)
}

/// The setpoint message for a dispatch.
pub fn setpoint_for(dispatch: &Dispatch, site_id: Option<u128>) -> (sp: Setpoint)
    ensures
        is_setpoint_of(dispatch, site_id, &sp),
{
    let site: Option<String> = match site_id {
        Some(site) => Some(uuid_text(site)),
        None => None,
    };
    Setpoint {
        asset_id: uuid_text(dispatch.asset_id),
        mw: dispatch.mw,
        duration_s: dispatch.duration_s,
        site_id: site,
        group_id: None,
        dispatch_id: Some(uuid_text(dispatch.id)),
    }
}

/// The setpoint message for a dispatch of `asset`.
pub fn setpoint_from_dispatch(dispatch: &Dispatch, asset: &Asset) -> (sp: Setpoint)
    ensures
        is_setpoint_of(dispatch, Some(asset.site_id), &sp),
{
    setpoint_for(dispatch, Some(asset.site_id))
}

/// `sp` commands the setpoint that `state` holds, with no dispatch named.
pub open spec fn is_setpoint_of_state(asset: &Asset, state: &BessState, sp: &Setpoint) -> bool {
    &&& sp.asset_id@ == hyphenated(asset.id)
    &&& sp.mw == state.setpoint_mw
    &&& sp.duration_s is None
    &&& sp.site_id is Some
    &&& sp.site_id->0@ == hyphenated(asset.site_id)
    &&& sp.group_id is None
    &&& sp.dispatch_id is None
}

/// The setpoint message for the setpoint that `state` holds; none where it
/// is zero.
pub fn setpoint_from_state(asset: &Asset, state: &BessState) -> (sp: Option<Setpoint>)
    ensures
        match sp {
            Some(s) => state.setpoint_mw != 0 && is_setpoint_of_state(asset, state, &s),
            None => state.setpoint_mw == 0,
        },
{
    if state.setpoint_mw == 0 {
        return None;
    }
    Some(
        Setpoint {
            asset_id: uuid_text(asset.id),
            mw: state.setpoint_mw,
            duration_s: None,
            site_id: Some(uuid_text(asset.site_id)),
            group_id: None,
            dispatch_id: None,
        },
    )
}

/// `wire` is the wire form of `event`.
pub open spec fn is_wire_event(event: &BessEvent, wire: &WireEvent) -> bool {
    &&& wire.id@ == hyphenated(event.id)
    &&& wire.asset_id@ == hyphenated(event.asset_id)
    &&& wire.site_id@ == hyphenated(event.site_id)
    &&& Some(wire.timestamp@) == rfc3339_text(event.timestamp)
    &&& wire.event_type@ == event.event_type@
    &&& wire.severity@ == event.severity@
    &&& wire.message@ == event.message@
}

/// The wire form of an event; `None` where the calendar cannot hold its
/// timestamp.
pub fn to_proto_event(event: &BessEvent) -> (wire: Option<WireEvent>)
    ensures
        match wire {
            Some(w) => is_wire_event(event, &w),
            None => rfc3339_text(event.timestamp) is None,
        },
{
    let timestamp: String = match format_rfc3339(event.timestamp) {
        Some(text) => text,
        None => { return None; },
    };
    Some(
        WireEvent {
            id: uuid_text(event.id),
            asset_id: uuid_text(event.asset_id),
            site_id: uuid_text(event.site_id),
            timestamp,
            event_type: event.event_type.clone(),
            severity: event.severity.clone(),
            message: event.message.clone(),
        },
    )
}

/// Why a wire event cannot be read, if it cannot.
pub open spec fn event_fault(wire: &WireEvent) -> Option<DecodeError> {
    if uuid_of_text(wire.asset_id@) is None {
        Some(DecodeError::BadAssetId)
    } else if uuid_of_text(wire.site_id@) is None {
        Some(DecodeError::BadSiteId)
    } else if rfc3339_millis(wire.timestamp@) is None {
        Some(DecodeError::BadTimestamp)
    } else {
        None
    }
}

/// `event` is what the wire event `wire` says; where the wire names no valid
/// identifier of its own, the event has some other one.
pub open spec fn is_decoded_event(wire: &WireEvent, event: &BessEvent) -> bool {
    &&& uuid_of_text(wire.id@) is Some ==> Some(event.id) == uuid_of_text(wire.id@)
    &&& Some(event.asset_id) == uuid_of_text(wire.asset_id@)
    &&& Some(event.site_id) == uuid_of_text(wire.site_id@)
    &&& Some(event.timestamp) == rfc3339_millis(wire.timestamp@)
    &&& event.event_type@ == wire.event_type@
    &&& event.severity@ == wire.severity@
    &&& event.message@ == wire.message@
}

/// Reads an event off the wire.  An event that names no valid identifier of
/// its own is given a fresh one.
pub fn event_from_proto(wire: &WireEvent) -> (event: Result<BessEvent, DecodeError>)
    ensures
        match event {
            Ok(e) => event_fault(wire) is None && is_decoded_event(wire, &e),
            Err(fault) => event_fault(wire) == Some(fault),
        },
{
    let asset_id: u128 = match parse_uuid(wire.asset_id.as_str()) {
        Some(id) => id,
        None => { return Err(DecodeError::BadAssetId); },
    };
    let site_id: u128 = match parse_uuid(wire.site_id.as_str()) {
        Some(id) => id,
        None => { return Err(DecodeError::BadSiteId); },
    };
    let timestamp: i64 = match parse_rfc3339(wire.timestamp.as_str()) {
        Some(at) => at,
        None => { return Err(DecodeError::BadTimestamp); },
    };
    let id: u128 = match parse_uuid(wire.id.as_str()) {
        Some(id) => id,
        None => fresh_uuid(),
    };
    Ok(
        BessEvent {
            id,
            asset_id,
            site_id,
            timestamp,
            event_type: wire.event_type.clone(),
            severity: wire.severity.clone(),
            message: wire.message.clone(),
        },
    )
}

} // verus!
