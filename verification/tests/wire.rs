use der_core::model::{
    put_extra, Asset, BessEvent, BessState, Dispatch, DispatchStatus, Extra, Telemetry,
    TelemetryValue,
};
use der_core::physics::FULL_PCT;
use der_core::wire::{
    event_from_proto, extras_to_proto, proto_extras_to_map, setpoint_for, setpoint_from_dispatch,
    setpoint_from_state, telemetry_from_proto, telemetry_to_proto, telemetry_value_to_proto,
    to_proto_event, DecodeError, WireEvent, WireExtra, WireTelemetry, WireTelemetryValue,
    WireValue,
};

const ASSET: &str = "550e8400-e29b-41d4-a716-446655440000";
const ASSET_ID: u128 = 0x550e8400_e29b_41d4_a716_446655440000;
const SITE: &str = "67e55044-10b1-426f-9247-bb680e5fe0c8";
const SITE_ID: u128 = 0x67e55044_10b1_426f_9247_bb680e5fe0c8;

fn telemetry() -> Telemetry {
    Telemetry {
        asset_id: ASSET_ID,
        site_id: SITE_ID,
        site_name: "North".to_string(),
        timestamp: 1_704_164_645_678,
        soc_mwhr: 42,
        soc_pct: 43,
        capacity_mwhr: 44,
        current_mw: -45,
        setpoint_mw: 46,
        max_mw: 47,
        min_mw: -48,
        status: "charging".to_string(),
        extras: vec![
            Extra { key: "voltage_v".to_string(), value: TelemetryValue::F64(800.5f64.to_bits()) },
            Extra { key: "cycle_count".to_string(), value: TelemetryValue::U64(12) },
        ],
    }
}

fn wire_telemetry() -> WireTelemetry {
    WireTelemetry {
        asset_id: ASSET.to_string(),
        site_id: SITE.to_string(),
        site_name: "North".to_string(),
        timestamp: "2024-01-02T03:04:05.678Z".to_string(),
        soc_mwhr: 42,
        soc_pct: 43,
        capacity_mwhr: 44,
        current_mw: -45,
        setpoint_mw: 46,
        max_mw: 47,
        min_mw: -48,
        status: "charging".to_string(),
        extras: vec![
            WireExtra {
                key: "voltage_v".to_string(),
                value: WireTelemetryValue { value: Some(WireValue::F64(800.5f64.to_bits())) },
            },
            WireExtra { key: "nothing".to_string(), value: WireTelemetryValue { value: None } },
            WireExtra {
                key: "cycle_count".to_string(),
                value: WireTelemetryValue { value: Some(WireValue::U64(12)) },
            },
        ],
    }
}

#[test]
fn telemetry_goes_on_the_wire_as_text() {
    let wire = telemetry_to_proto(&telemetry()).unwrap();
    assert_eq!(wire.asset_id, ASSET);
    assert_eq!(wire.site_id, SITE);
    assert_eq!(wire.site_name, "North");
    assert_eq!(wire.timestamp, "2024-01-02T03:04:05.678Z");
    assert_eq!(
        (wire.soc_mwhr, wire.soc_pct, wire.capacity_mwhr, wire.current_mw),
        (42, 43, 44, -45)
    );
    assert_eq!((wire.setpoint_mw, wire.max_mw, wire.min_mw), (46, 47, -48));
    assert_eq!(wire.status, "charging");
    assert_eq!(wire.extras.len(), 2);
    assert_eq!(wire.extras[0].key, "voltage_v");
    assert!(matches!(wire.extras[1].value.value, Some(WireValue::U64(12))));
}

#[test]
fn identifier_text_agrees_with_the_uuid_crate() {
    let wire = telemetry_to_proto(&telemetry()).unwrap();
    assert_eq!(wire.asset_id, uuid::Uuid::from_u128(ASSET_ID).to_string());
    assert_eq!(uuid::Uuid::parse_str(&wire.site_id).unwrap().as_u128(), SITE_ID);
}

#[test]
fn timestamp_text_has_millisecond_precision_in_utc() {
    let mut snap = telemetry();
    snap.timestamp = 1_500;
    assert_eq!(telemetry_to_proto(&snap).unwrap().timestamp, "1970-01-01T00:00:01.500Z");
    snap.timestamp = -1;
    assert_eq!(telemetry_to_proto(&snap).unwrap().timestamp, "1969-12-31T23:59:59.999Z");
}

#[test]
fn telemetry_with_a_timestamp_beyond_the_calendar_has_no_wire_form() {
    let mut snap = telemetry();
    snap.timestamp = i64::MAX;
    assert!(telemetry_to_proto(&snap).is_none());
}

#[test]
fn telemetry_is_read_off_the_wire() {
    let snap = telemetry_from_proto(&wire_telemetry()).unwrap();
    assert_eq!(snap.asset_id, ASSET_ID);
    assert_eq!(snap.site_id, SITE_ID);
    assert_eq!(snap.site_name, "North");
    assert_eq!(snap.timestamp, 1_704_164_645_678);
    assert_eq!(
        (snap.soc_mwhr, snap.soc_pct, snap.capacity_mwhr, snap.current_mw),
        (42, 43, 44, -45)
    );
    assert_eq!((snap.setpoint_mw, snap.max_mw, snap.min_mw), (46, 47, -48));
    assert_eq!(snap.status, "charging");
    assert_eq!(snap.extras.len(), 2);
    assert_eq!(snap.extras[1].key, "cycle_count");
}

#[test]
fn timestamps_with_an_offset_are_brought_to_utc() {
    let mut wire = wire_telemetry();
    wire.timestamp = "2024-01-02T05:04:05.678+02:00".to_string();
    assert_eq!(telemetry_from_proto(&wire).unwrap().timestamp, 1_704_164_645_678);
}

#[test]
fn identifiers_are_read_in_every_notation() {
    let mut wire = wire_telemetry();
    wire.asset_id = "550E8400E29B41D4A716446655440000".to_string();
    wire.site_id = format!("urn:uuid:{SITE}");
    let snap = telemetry_from_proto(&wire).unwrap();
    assert_eq!(snap.asset_id, ASSET_ID);
    assert_eq!(snap.site_id, SITE_ID);
}

#[test]
fn the_first_malformed_field_is_reported() {
    let mut wire = wire_telemetry();
    wire.timestamp = "yesterday".to_string();
    assert_eq!(telemetry_from_proto(&wire).unwrap_err(), DecodeError::BadTimestamp);
    wire.site_id = "nowhere".to_string();
    assert_eq!(telemetry_from_proto(&wire).unwrap_err(), DecodeError::BadSiteId);
    wire.asset_id = String::new();
    assert_eq!(telemetry_from_proto(&wire).unwrap_err(), DecodeError::BadAssetId);
}

#[test]
fn round_trip_keeps_a_record() {
    let wire = telemetry_to_proto(&telemetry()).unwrap();
    let back = telemetry_from_proto(&wire).unwrap();
    let again = telemetry_to_proto(&back).unwrap();
    assert_eq!(format!("{wire:?}"), format!("{again:?}"));
    assert_eq!(format!("{back:?}"), format!("{:?}", telemetry()));
}

#[test]
fn every_kind_of_value_keeps_its_kind() {
    let values = [
        TelemetryValue::F64(1.5f64.to_bits()),
        TelemetryValue::I64(-3),
        TelemetryValue::U64(3),
        TelemetryValue::Bool(true),
        TelemetryValue::String("ok".to_string()),
    ];
    let wire: Vec<WireTelemetryValue> =
        values.iter().map(|v| telemetry_value_to_proto(v).unwrap()).collect();
    assert!(matches!(wire[0].value, Some(WireValue::F64(bits)) if f64::from_bits(bits) == 1.5));
    assert!(matches!(wire[1].value, Some(WireValue::I64(-3))));
    assert!(matches!(wire[2].value, Some(WireValue::U64(3))));
    assert!(matches!(wire[3].value, Some(WireValue::Bool(true))));
    assert!(matches!(&wire[4].value, Some(WireValue::String(s)) if s == "ok"));
}

#[test]
fn extras_without_a_payload_are_left_out() {
    let map = proto_extras_to_map(&wire_telemetry().extras);
    assert_eq!(map.len(), 2);
    assert_eq!(map[0].key, "voltage_v");
    assert!(matches!(map[0].value, TelemetryValue::F64(bits) if f64::from_bits(bits) == 800.5));
    assert_eq!(map[1].key, "cycle_count");
    assert!(matches!(map[1].value, TelemetryValue::U64(12)));
    assert!(proto_extras_to_map(&Vec::new()).is_empty());
}

#[test]
fn a_later_extra_takes_the_place_of_an_earlier_one_of_its_name() {
    let named = |key: &str, value: Option<WireValue>| WireExtra {
        key: key.to_string(),
        value: WireTelemetryValue { value },
    };
    let wire = vec![
        named("a", Some(WireValue::I64(1))),
        named("b", Some(WireValue::I64(2))),
        named("a", Some(WireValue::Bool(true))),
        named("b", None),
        named("c", Some(WireValue::U64(3))),
    ];
    let map = proto_extras_to_map(&wire);
    assert_eq!(map.len(), 3);
    assert_eq!(map[0].key, "a");
    assert!(matches!(map[0].value, TelemetryValue::Bool(true)));
    assert_eq!(map[1].key, "b");
    assert!(matches!(map[1].value, TelemetryValue::I64(2)));
    assert_eq!(map[2].key, "c");
    let mut extras = map;
    put_extra(&mut extras, Extra { key: "c".to_string(), value: TelemetryValue::U64(4) });
    put_extra(&mut extras, Extra { key: "d".to_string(), value: TelemetryValue::U64(5) });
    assert_eq!(extras.len(), 4);
    assert!(matches!(extras[2].value, TelemetryValue::U64(4)));
    assert_eq!(extras[3].key, "d");
}

#[test]
fn extras_convert_one_for_one_to_the_wire() {
    let extras = vec![
        Extra { key: "a".to_string(), value: TelemetryValue::Bool(false) },
        Extra { key: "b".to_string(), value: TelemetryValue::String("x".to_string()) },
        Extra { key: "c".to_string(), value: TelemetryValue::I64(i64::MIN) },
    ];
    let wire = extras_to_proto(&extras);
    assert_eq!(wire.len(), 3);
    assert!(matches!(wire[0].value.value, Some(WireValue::Bool(false))));
    assert!(matches!(&wire[1].value.value, Some(WireValue::String(s)) if s == "x"));
    assert!(matches!(wire[2].value.value, Some(WireValue::I64(i64::MIN))));
    let back = proto_extras_to_map(&wire);
    assert_eq!(format!("{back:?}"), format!("{extras:?}"));
}

fn dispatch() -> Dispatch {
    Dispatch {
        id: 0xd15,
        asset_id: ASSET_ID,
        mw: 3_000_000_000,
        duration_s: Some(900),
        status: DispatchStatus::Accepted,
        reason: None,
        submitted_at: 1,
        clamped: false,
        placeholder: false,
    }
}

fn asset() -> Asset {
    Asset {
        id: ASSET_ID,
        site_id: SITE_ID,
        site_name: "North".to_string(),
        name: "B1".to_string(),
        location: "Yard".to_string(),
        capacity_mwhr: 100,
        max_mw: 50,
        min_mw: -50,
        min_soc_pct: 0,
        max_soc_pct: FULL_PCT,
        efficiency: 1,
        ramp_rate_mw_per_min: 1,
    }
}

#[test]
fn setpoint_of_a_dispatch_names_asset_site_and_dispatch() {
    let sp = setpoint_from_dispatch(&dispatch(), &asset());
    assert_eq!(sp.asset_id, ASSET);
    assert_eq!(sp.mw, 3_000_000_000);
    assert_eq!(sp.duration_s, Some(900));
    assert_eq!(sp.site_id.as_deref(), Some(SITE));
    assert_eq!(sp.group_id, None);
    assert_eq!(sp.dispatch_id.as_deref(), Some("00000000-0000-0000-0000-000000000d15"));
    let bare = setpoint_for(&dispatch(), None);
    assert_eq!(bare.site_id, None);
    assert_eq!(bare.asset_id, ASSET);
}

#[test]
fn setpoint_of_a_state_names_no_dispatch() {
    let state = BessState { soc_mwhr: 1, current_mw: 2, setpoint_mw: -7 };
    let sp = setpoint_from_state(&asset(), &state).unwrap();
    assert_eq!(sp.asset_id, ASSET);
    assert_eq!(sp.mw, -7);
    assert_eq!(sp.duration_s, None);
    assert_eq!(sp.site_id.as_deref(), Some(SITE));
    assert_eq!(sp.dispatch_id, None);
    let idle = BessState { soc_mwhr: 1, current_mw: 2, setpoint_mw: 0 };
    assert!(setpoint_from_state(&asset(), &idle).is_none());
}

fn event() -> BessEvent {
    BessEvent {
        id: 0xe,
        asset_id: ASSET_ID,
        site_id: SITE_ID,
        timestamp: 1_704_164_645_678,
        event_type: "HVAC_FAILED".to_string(),
        severity: "alarm".to_string(),
        message: "HVAC Failed".to_string(),
    }
}

#[test]
fn event_goes_on_the_wire_and_back() {
    let wire = to_proto_event(&event()).unwrap();
    assert_eq!(wire.id, "00000000-0000-0000-0000-00000000000e");
    assert_eq!(wire.asset_id, ASSET);
    assert_eq!(wire.site_id, SITE);
    assert_eq!(wire.timestamp, "2024-01-02T03:04:05.678Z");
    assert_eq!(wire.event_type, "HVAC_FAILED");
    assert_eq!(wire.severity, "alarm");
    assert_eq!(wire.message, "HVAC Failed");
    let back = event_from_proto(&wire).unwrap();
    assert_eq!(format!("{back:?}"), format!("{:?}", event()));
}

#[test]
fn event_without_an_identifier_gets_a_fresh_one() {
    let mut wire: WireEvent = to_proto_event(&event()).unwrap();
    wire.id = String::new();
    let first = event_from_proto(&wire).unwrap();
    let second = event_from_proto(&wire).unwrap();
    assert_ne!(first.id, second.id);
    assert_eq!(first.asset_id, ASSET_ID);
}

#[test]
fn malformed_event_is_refused() {
    let mut wire = to_proto_event(&event()).unwrap();
    wire.timestamp = "soon".to_string();
    assert_eq!(event_from_proto(&wire).unwrap_err(), DecodeError::BadTimestamp);
    wire.site_id = "x".to_string();
    assert_eq!(event_from_proto(&wire).unwrap_err(), DecodeError::BadSiteId);
    wire.asset_id = "y".to_string();
    assert_eq!(event_from_proto(&wire).unwrap_err(), DecodeError::BadAssetId);
    let mut late = event();
    late.timestamp = i64::MIN;
    assert!(to_proto_event(&late).is_none());
}
