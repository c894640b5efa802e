use der_core::fixed::SCALE;
use der_core::headend::Headend;
use der_core::ingest::{
    handle_agent_event, handle_agent_heartbeat, handle_agent_telemetry, handle_disconnect,
    handle_dispatch_ack, handle_register, ingest_frame, plan_registrations, Connection,
};
use der_core::journal::JournalAction;
use der_core::model::{Asset, Dispatch, DispatchStatus};
use der_core::physics::FULL_PCT;
use der_core::simulator::Simulator;
use der_core::soc_events::SocState;
use der_core::wire::{
    AgentToHeadend, AssetDescriptor, DecodeError, DispatchAck, HeadendToAgent, Heartbeat, Register,
    WireEvent, WireTelemetry,
};
use tokio::sync::mpsc::channel;

const MW: i64 = SCALE;

fn text(id: u128) -> String {
    uuid::Uuid::from_u128(id).to_string()
}

fn asset(id: u128) -> Asset {
    Asset {
        id,
        site_id: 7,
        site_name: "North".to_string(),
        name: format!("asset-{id}"),
        location: "Yard".to_string(),
        capacity_mwhr: 100 * MW,
        max_mw: 50 * MW,
        min_mw: -50 * MW,
        min_soc_pct: 0,
        max_soc_pct: FULL_PCT,
        efficiency: SCALE,
        ramp_rate_mw_per_min: 30 * MW,
    }
}

fn headend() -> Headend {
    Headend::new(Simulator::from_assets(vec![asset(1), asset(2)]))
}

fn connection() -> Connection {
    Connection { peer: "10.0.0.1:5000".to_string(), registered: Vec::new() }
}

fn descriptor(asset_id: &str, site_id: &str, asset_name: &str, site_name: &str) -> AssetDescriptor {
    AssetDescriptor {
        asset_id: asset_id.to_string(),
        site_id: site_id.to_string(),
        asset_name: asset_name.to_string(),
        site_name: site_name.to_string(),
        location: String::new(),
    }
}

fn register(assets: Vec<AssetDescriptor>) -> Register {
    Register {
        asset_id: text(1),
        site_id: text(7),
        asset_name: "primary".to_string(),
        site_name: "North".to_string(),
        gateway_id: "gw".to_string(),
        assets,
    }
}

fn telemetry(asset_id: u128, soc: i64) -> WireTelemetry {
    WireTelemetry {
        asset_id: text(asset_id),
        site_id: text(7),
        site_name: "North".to_string(),
        timestamp: "2024-01-02T03:04:05.678Z".to_string(),
        soc_mwhr: soc,
        soc_pct: 0,
        capacity_mwhr: 100 * MW,
        current_mw: 0,
        setpoint_mw: 0,
        max_mw: 50 * MW,
        min_mw: -50 * MW,
        status: "idle".to_string(),
        extras: Vec::new(),
    }
}

#[test]
fn legacy_registration_registers_the_primary_asset() {
    let plan = plan_registrations(&register(Vec::new()));
    assert_eq!(plan.len(), 1);
    assert_eq!(plan[0].asset_id, 1);
    assert_eq!(plan[0].site_id, 7);
    assert_eq!(plan[0].asset_name, "primary");
    assert_eq!(plan[0].site_name, "North");
}

#[test]
fn gateway_registration_registers_each_valid_descriptor() {
    let reg = register(vec![
        descriptor(&text(5), &text(8), "five", "South"),
        descriptor("not-a-uuid", &text(8), "bad", "South"),
        descriptor(&text(6), "", "", ""),
        descriptor(&text(4), "garbage", "four", ""),
    ]);
    let plan = plan_registrations(&reg);
    let ids: Vec<u128> = plan.iter().map(|r| r.asset_id).collect();
    assert_eq!(ids, vec![5, 6, 4]);
    assert_eq!(
        (plan[0].site_id, plan[0].asset_name.as_str(), plan[0].site_name.as_str()),
        (8, "five", "South")
    );
    // Empty fields fall back to those of the registration.
    assert_eq!(
        (plan[1].site_id, plan[1].asset_name.as_str(), plan[1].site_name.as_str()),
        (7, "primary", "North")
    );
    // A site that is given but malformed is the nil site.
    assert_eq!(
        (plan[2].site_id, plan[2].asset_name.as_str(), plan[2].site_name.as_str()),
        (0, "four", "North")
    );
}

#[test]
fn registration_falls_back_to_the_primary_where_no_descriptor_is_valid() {
    let reg = register(vec![descriptor("bad", "", "", "")]);
    let plan = plan_registrations(&reg);
    assert_eq!(plan.len(), 1);
    assert_eq!(plan[0].asset_id, 1);
    let mut nothing = register(Vec::new());
    nothing.asset_id = "bad".to_string();
    assert!(plan_registrations(&nothing).is_empty());
    let mut no_site = register(Vec::new());
    no_site.site_id = String::new();
    assert_eq!(plan_registrations(&no_site)[0].site_id, 0);
}

#[test]
fn registration_records_streams_and_opens_sessions() {
    let mut headend = headend();
    let mut conn = connection();
    let (tx, mut rx) = channel::<HeadendToAgent>(32);
    let reg = register(vec![
        descriptor(&text(2), &text(7), "two", "North"),
        descriptor(&text(1), &text(7), "one", "North"),
    ]);
    let actions = handle_register(&mut headend, &mut conn, &tx, &reg, 1234);
    assert_eq!(headend.registry.streams.len(), 2);
    let stream = headend.registry.streams.get(2).unwrap();
    assert_eq!(stream.peer, "10.0.0.1:5000");
    assert_eq!(stream.asset_name, "two");
    assert_eq!(stream.site_name, "North");
    assert_eq!(stream.site_id, 7);
    assert_eq!(stream.connected_at, 1234);
    assert_eq!(conn.registered.len(), 2);
    assert_eq!(conn.registered[0].asset_id, 2);
    assert_eq!(actions.len(), 2);
    match &actions[0] {
        JournalAction::OpenSession { asset_id, peer, asset_name, site_name, connected_at } => {
            assert_eq!(*asset_id, 2);
            assert_eq!(peer, "10.0.0.1:5000");
            assert_eq!(asset_name, "two");
            assert_eq!(site_name, "North");
            assert_eq!(*connected_at, 1234);
        }
        other => panic!("unexpected {other:?}"),
    }
    assert!(rx.try_recv().is_err());
    // The stream shares the mailbox of the connection.
    let dispatch = Dispatch {
        id: 9,
        asset_id: 1,
        mw: 5,
        duration_s: None,
        status: DispatchStatus::Accepted,
        reason: None,
        submitted_at: 0,
        clamped: false,
        placeholder: false,
    };
    assert!(headend.registry.send_or_park(dispatch, Some(7)).is_ok());
    assert!(rx.try_recv().is_ok());
}

#[test]
fn a_new_registration_replaces_the_assets_of_the_connection() {
    let mut headend = headend();
    let mut conn = connection();
    let (tx, _rx) = channel::<HeadendToAgent>(32);
    handle_register(&mut headend, &mut conn, &tx, &register(Vec::new()), 1);
    let again = register(vec![descriptor(&text(2), "", "", "")]);
    handle_register(&mut headend, &mut conn, &tx, &again, 2);
    assert_eq!(conn.registered.len(), 1);
    assert_eq!(conn.registered[0].asset_id, 2);
    assert_eq!(headend.registry.streams.len(), 2);
}

#[test]
fn telemetry_becomes_the_latest_and_is_journalled() {
    let mut headend = headend();
    let taken = handle_agent_telemetry(&mut headend, &telemetry(1, 50 * MW)).unwrap();
    assert_eq!(taken.record.asset_id, 1);
    assert_eq!(taken.record.timestamp, 1_704_164_645_678);
    assert!(taken.event.is_none());
    assert_eq!(headend.latest.get(1).unwrap().soc_mwhr, 50 * MW);
    assert_eq!(headend.soc_state.get(1), Some(&SocState::InRange));
    let taken = handle_agent_telemetry(&mut headend, &telemetry(1, 0)).unwrap();
    let event = taken.event.unwrap();
    assert_eq!(event.event_type, "MIN_SOC_REACHED");
    assert_eq!(event.timestamp, 1_704_164_645_678);
    assert_eq!(headend.latest.get(1).unwrap().soc_mwhr, 0);
    assert_eq!(headend.latest.len(), 1);
    assert!(handle_agent_telemetry(&mut headend, &telemetry(1, 0)).unwrap().event.is_none());
}

#[test]
fn telemetry_of_an_unknown_asset_is_kept_without_a_zone() {
    let mut headend = headend();
    let taken = handle_agent_telemetry(&mut headend, &telemetry(9, 0)).unwrap();
    assert!(taken.event.is_none());
    assert!(headend.latest.contains_key(9));
    assert_eq!(headend.soc_state.len(), 0);
}

#[test]
fn malformed_telemetry_changes_nothing() {
    let mut headend = headend();
    let mut wire = telemetry(1, 0);
    wire.asset_id = "one".to_string();
    assert_eq!(
        handle_agent_telemetry(&mut headend, &wire).unwrap_err(),
        DecodeError::BadAssetId
    );
    assert_eq!(headend.latest.len(), 0);
    assert_eq!(headend.soc_state.len(), 0);
}

#[test]
fn heartbeat_is_journalled() {
    let wire = Heartbeat { asset_id: text(1), timestamp: "1970-01-01T00:00:02Z".to_string() };
    match handle_agent_heartbeat(&wire).unwrap() {
        JournalAction::AppendHeartbeat { asset_id, ts } => assert_eq!((asset_id, ts), (1, 2_000)),
        other => panic!("unexpected {other:?}"),
    }
    let bad_id =
        Heartbeat { asset_id: "x".to_string(), timestamp: "1970-01-01T00:00:02Z".to_string() };
    assert_eq!(handle_agent_heartbeat(&bad_id).unwrap_err(), DecodeError::BadAssetId);
    let bad_ts = Heartbeat { asset_id: text(1), timestamp: "x".to_string() };
    assert_eq!(handle_agent_heartbeat(&bad_ts).unwrap_err(), DecodeError::BadTimestamp);
}

fn ack() -> DispatchAck {
    DispatchAck {
        dispatch_id: text(0xd),
        asset_id: text(1),
        status: "applied".to_string(),
        timestamp: "1970-01-01T00:00:03Z".to_string(),
        reason: "fine".to_string(),
    }
}

#[test]
fn dispatch_ack_is_bound_to_its_dispatch() {
    match handle_dispatch_ack(&ack()).unwrap() {
        JournalAction::UpdateDispatchAck { dispatch_id, status, acked_at, reason } => {
            assert_eq!(dispatch_id, 0xd);
            assert_eq!(status, "applied");
            assert_eq!(acked_at, 3_000);
            assert_eq!(reason, "fine");
        }
        other => panic!("unexpected {other:?}"),
    }
    let mut bad = ack();
    bad.timestamp = String::new();
    assert_eq!(handle_dispatch_ack(&bad).unwrap_err(), DecodeError::BadTimestamp);
    bad.dispatch_id = String::new();
    assert_eq!(handle_dispatch_ack(&bad).unwrap_err(), DecodeError::BadDispatchId);
}

fn event() -> WireEvent {
    WireEvent {
        id: text(0xe),
        asset_id: text(1),
        site_id: text(7),
        timestamp: "1970-01-01T00:00:04Z".to_string(),
        event_type: "RACK_FAULT".to_string(),
        severity: "warning".to_string(),
        message: "Rack 2/4 Trouble".to_string(),
    }
}

#[test]
fn agent_event_is_journalled() {
    match handle_agent_event(&event()).unwrap() {
        JournalAction::AppendEvent(e) => {
            assert_eq!((e.id, e.asset_id, e.site_id, e.timestamp), (0xe, 1, 7, 4_000));
            assert_eq!(e.event_type, "RACK_FAULT");
        }
        other => panic!("unexpected {other:?}"),
    }
    let mut bad = event();
    bad.asset_id = String::new();
    assert_eq!(handle_agent_event(&bad).unwrap_err(), DecodeError::BadAssetId);
}

#[test]
fn disconnect_removes_the_streams_of_the_connection_once() {
    let mut headend = headend();
    let mut conn = connection();
    let mut other = Connection { peer: "10.0.0.9:1".to_string(), registered: Vec::new() };
    let (tx, _rx) = channel::<HeadendToAgent>(32);
    handle_register(&mut headend, &mut conn, &tx, &register(Vec::new()), 1);
    let second = register(vec![descriptor(&text(2), "", "", "")]);
    handle_register(&mut headend, &mut other, &tx, &second, 2);
    let actions = handle_disconnect(&mut headend, &mut conn);
    assert_eq!(actions.len(), 1);
    assert!(matches!(actions[0], JournalAction::CloseSession { asset_id: 1 }));
    assert!(!headend.registry.streams.contains_key(1));
    assert!(headend.registry.streams.contains_key(2));
    assert!(conn.registered.is_empty());
    assert!(handle_disconnect(&mut headend, &mut conn).is_empty());
    assert!(headend.registry.streams.contains_key(2));
}

#[test]
fn frames_are_dispatched_by_kind() {
    let mut headend = headend();
    let mut conn = connection();
    let (tx, _rx) = channel::<HeadendToAgent>(32);
    let done = ingest_frame(
        &mut headend,
        &mut conn,
        &tx,
        &AgentToHeadend::Register(register(Vec::new())),
    );
    assert!(done.fault.is_none());
    assert!(matches!(done.actions[..], [JournalAction::OpenSession { asset_id: 1, .. }]));
    assert!(headend.registry.streams.get(1).unwrap().connected_at > 1_577_836_800_000);
    let done = ingest_frame(
        &mut headend,
        &mut conn,
        &tx,
        &AgentToHeadend::Telemetry(telemetry(1, 0)),
    );
    assert!(matches!(
        done.actions[..],
        [JournalAction::AppendTelemetry(_), JournalAction::AppendEvent(_)]
    ));
    let done = ingest_frame(
        &mut headend,
        &mut conn,
        &tx,
        &AgentToHeadend::Telemetry(telemetry(1, 0)),
    );
    assert!(matches!(done.actions[..], [JournalAction::AppendTelemetry(_)]));
    let beat = Heartbeat { asset_id: text(1), timestamp: "1970-01-01T00:00:02Z".to_string() };
    let done = ingest_frame(&mut headend, &mut conn, &tx, &AgentToHeadend::Heartbeat(beat));
    assert!(
        matches!(done.actions[..], [JournalAction::AppendHeartbeat { asset_id: 1, ts: 2_000 }])
    );
    let done = ingest_frame(&mut headend, &mut conn, &tx, &AgentToHeadend::DispatchAck(ack()));
    assert!(
        matches!(done.actions[..], [JournalAction::UpdateDispatchAck { dispatch_id: 0xd, .. }])
    );
    let done = ingest_frame(&mut headend, &mut conn, &tx, &AgentToHeadend::Event(event()));
    assert!(matches!(done.actions[..], [JournalAction::AppendEvent(_)]));
    let done = ingest_frame(&mut headend, &mut conn, &tx, &AgentToHeadend::Empty);
    assert!(done.actions.is_empty() && done.fault.is_none());
}

#[test]
fn a_frame_that_cannot_be_read_is_dropped_with_its_fault() {
    let mut headend = headend();
    let mut conn = connection();
    let (tx, _rx) = channel::<HeadendToAgent>(32);
    let mut wire = telemetry(1, 0);
    wire.timestamp = "x".to_string();
    let done = ingest_frame(&mut headend, &mut conn, &tx, &AgentToHeadend::Telemetry(wire));
    assert_eq!(done.fault, Some(DecodeError::BadTimestamp));
    assert!(done.actions.is_empty());
    assert_eq!(headend.latest.len(), 0);
}
