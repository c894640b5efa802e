use der_core::bootstrap::{
    bootstrap_to_proto, build_bootstrap_at, build_bootstrap_response, choose_setpoint,
    choose_telemetry, missing_setpoint_ids, missing_telemetry_ids, parse_asset_ids,
    setpoint_from_row,
};
use der_core::fixed::SCALE;
use der_core::idmap::IdMap;
use der_core::journal::{DispatchSnapshotRow, TelemetrySnapshotRow};
use der_core::model::{Asset, BessState, DispatchRequest, Telemetry};
use der_core::physics::{snapshot, FULL_PCT};
use der_core::simulator::{Simulator, TelemetrySeed};

const MW: i64 = SCALE;

fn asset(id: u128) -> Asset {
    Asset {
        id,
        site_id: 7,
        site_name: "North".to_string(),
        name: format!("asset-{id}"),
        location: "Yard".to_string(),
        capacity_mwhr: 100 * MW,
        max_mw: 50 * MW,
        min_mw: -50 * MW,
        min_soc_pct: 0,
        max_soc_pct: FULL_PCT,
        efficiency: SCALE,
        ramp_rate_mw_per_min: 30 * MW,
    }
}

fn row(asset_id: u128, soc: i64, ts: i64) -> TelemetrySnapshotRow {
    TelemetrySnapshotRow {
        asset_id,
        site_id: 7,
        site_name: "North".to_string(),
        ts,
        soc_mwhr: soc,
        soc_pct: 0,
        capacity_mwhr: 100 * MW,
        current_mw: 0,
        setpoint_mw: 0,
        max_mw: 50 * MW,
        min_mw: -50 * MW,
        status: "idle".to_string(),
        extras: Vec::new(),
    }
}

fn cached(asset_id: u128, soc: i64) -> Telemetry {
    snapshot(&asset(asset_id), &BessState { soc_mwhr: soc, current_mw: 0, setpoint_mw: 0 }, 5)
}

#[test]
fn bootstrap_answers_every_identifier_in_the_order_asked() {
    let sim = Simulator::from_assets(vec![asset(1), asset(2)]);
    let latest: IdMap<Telemetry> = IdMap::new();
    let entries = build_bootstrap_at(
        &latest,
        &sim,
        &vec![2, 9, 1, 2],
        &Vec::new(),
        &Vec::new(),
        50,
    );
    let ids: Vec<u128> = entries.iter().map(|e| e.asset_id).collect();
    assert_eq!(ids, vec![2, 9, 1, 2]);
    assert!(entries[0].telemetry.is_some());
    assert!(entries[1].telemetry.is_none());
    assert!(entries[1].setpoint.is_none());
    assert!(entries[2].telemetry.is_some());
    assert!(build_bootstrap_at(&latest, &sim, &Vec::new(), &Vec::new(), &Vec::new(), 0).is_empty());
}

#[test]
fn telemetry_comes_from_the_cache_first() {
    let sim = Simulator::from_assets(vec![asset(1)]);
    let mut latest: IdMap<Telemetry> = IdMap::new();
    latest.insert(1, cached(1, 33 * MW));
    let rows = vec![row(1, 42 * MW, 9)];
    let chosen = choose_telemetry(&latest, &rows, &sim, 1, 50).unwrap();
    assert_eq!(chosen.soc_mwhr, 33 * MW);
    assert_eq!(chosen.timestamp, 5);
}

#[test]
fn telemetry_comes_from_the_journal_after_a_restart() {
    let sim = Simulator::from_assets(vec![asset(1)]);
    let latest: IdMap<Telemetry> = IdMap::new();
    let rows = vec![row(2, MW, 8), row(1, 42 * MW, 9)];
    let chosen = choose_telemetry(&latest, &rows, &sim, 1, 50).unwrap();
    assert_eq!(chosen.soc_mwhr, 42 * MW);
    assert_eq!(chosen.timestamp, 9);
    assert_eq!(chosen.status, "idle");
}

#[test]
fn journal_telemetry_serves_an_asset_the_catalogue_does_not_know() {
    let sim = Simulator::from_assets(vec![asset(1)]);
    let latest: IdMap<Telemetry> = IdMap::new();
    let rows = vec![row(9, 42 * MW, 9)];
    assert_eq!(choose_telemetry(&latest, &rows, &sim, 9, 50).unwrap().soc_mwhr, 42 * MW);
}

#[test]
fn the_last_journal_row_of_an_asset_is_used() {
    let sim = Simulator::from_assets(vec![asset(1)]);
    let latest: IdMap<Telemetry> = IdMap::new();
    let rows = vec![row(1, 10 * MW, 1), row(1, 20 * MW, 2), row(2, 30 * MW, 3)];
    assert_eq!(choose_telemetry(&latest, &rows, &sim, 1, 50).unwrap().soc_mwhr, 20 * MW);
}

#[test]
fn telemetry_is_synthetic_where_nothing_was_recorded() {
    let mut sim = Simulator::from_assets(vec![asset(1)]);
    sim.set_dispatch(
        DispatchRequest {
            asset_id: 1,
            mw: 10 * MW,
            duration_s: None,
            site_id: None,
            clamped: false,
        },
        None,
    )
    .unwrap();
    let latest: IdMap<Telemetry> = IdMap::new();
    let chosen = choose_telemetry(&latest, &Vec::new(), &sim, 1, 50).unwrap();
    assert_eq!(chosen.soc_mwhr, 50 * MW);
    assert_eq!(chosen.current_mw, 0);
    assert_eq!(chosen.setpoint_mw, 10 * MW);
    assert_eq!(chosen.timestamp, 50);
    assert_eq!(chosen.status, "idle");
    // The live state is not advanced.
    assert_eq!(sim.state.get(1).unwrap().current_mw, 0);
    assert!(choose_telemetry(&latest, &Vec::new(), &sim, 2, 50).is_none());
}

#[test]
fn setpoint_comes_from_the_last_dispatch_in_memory() {
    let mut sim = Simulator::from_assets(vec![asset(1)]);
    let dispatch = sim
        .set_dispatch_with(
            DispatchRequest {
                asset_id: 1,
                mw: 5 * MW,
                duration_s: Some(60),
                site_id: None,
                clamped: false,
            },
            None,
            0x77,
            1,
        )
        .unwrap();
    let rows = vec![DispatchSnapshotRow { id: 3, asset_id: 1, mw: 3 * MW, duration_s: None }];
    let sp = choose_setpoint(&sim, &rows, 1).unwrap();
    assert_eq!(sp.mw, dispatch.mw);
    assert_eq!(sp.duration_s, Some(60));
    assert_eq!(sp.asset_id, "00000000-0000-0000-0000-000000000001");
    assert_eq!(sp.site_id.as_deref(), Some("00000000-0000-0000-0000-000000000007"));
    assert_eq!(sp.dispatch_id.as_deref(), Some("00000000-0000-0000-0000-000000000077"));
}

#[test]
fn a_fresh_simulator_has_no_setpoint_to_answer() {
    let sim = Simulator::from_assets(vec![asset(1)]);
    assert!(sim.dispatches.get(1).unwrap().placeholder);
    assert!(choose_setpoint(&sim, &Vec::new(), 1).is_none());
    let other = vec![DispatchSnapshotRow { id: 3, asset_id: 2, mw: 3 * MW, duration_s: None }];
    assert!(choose_setpoint(&sim, &other, 1).is_none());
}

#[test]
fn a_commanded_zero_is_answered_from_memory() {
    let mut sim = Simulator::from_assets(vec![asset(1)]);
    let request =
        DispatchRequest { asset_id: 1, mw: 0, duration_s: None, site_id: None, clamped: false };
    let dispatch = sim.set_dispatch_with(request, None, 0x88, 1).unwrap();
    assert!(!dispatch.placeholder);
    let rows = vec![DispatchSnapshotRow { id: 3, asset_id: 1, mw: 3 * MW, duration_s: None }];
    let sp = choose_setpoint(&sim, &rows, 1).unwrap();
    assert_eq!(sp.mw, 0);
    assert_eq!(sp.dispatch_id.as_deref(), Some("00000000-0000-0000-0000-000000000088"));
}

#[test]
fn setpoint_comes_from_the_journal_where_memory_has_none() {
    let sim = Simulator::from_assets(vec![asset(1)]);
    let rows = vec![
        DispatchSnapshotRow { id: 2, asset_id: 1, mw: 2 * MW, duration_s: Some(5) },
        DispatchSnapshotRow { id: 3, asset_id: 1, mw: 3 * MW, duration_s: Some(-1) },
    ];
    let sp = choose_setpoint(&sim, &rows, 1).unwrap();
    assert_eq!(sp.mw, 3 * MW);
    assert_eq!(sp.duration_s, None);
    assert_eq!(sp.dispatch_id.as_deref(), Some("00000000-0000-0000-0000-000000000003"));
    assert_eq!(sp.site_id.as_deref(), Some("00000000-0000-0000-0000-000000000007"));
}

#[test]
fn setpoint_comes_from_the_live_state_last() {
    let mut sim = Simulator::from_assets(vec![asset(1), asset(2)]);
    let seed = TelemetrySeed {
        asset_id: 1,
        soc_mwhr: 50 * MW,
        current_mw: 0,
        setpoint_mw: -4 * MW,
    };
    assert_eq!(sim.hydrate(&vec![seed]), 1);
    let sp = choose_setpoint(&sim, &Vec::new(), 1).unwrap();
    assert_eq!(sp.mw, -4 * MW);
    assert_eq!(sp.dispatch_id, None);
    assert_eq!(sp.duration_s, None);
    assert!(choose_setpoint(&sim, &Vec::new(), 2).is_none());
    assert!(choose_setpoint(&sim, &Vec::new(), 3).is_none());
}

#[test]
fn journal_row_becomes_a_setpoint() {
    let sp = setpoint_from_row(
        &DispatchSnapshotRow { id: 0x10, asset_id: 1, mw: -MW, duration_s: Some(90) },
        &asset(1),
    );
    assert_eq!(sp.mw, -MW);
    assert_eq!(sp.duration_s, Some(90));
    assert_eq!(sp.group_id, None);
    assert_eq!(sp.dispatch_id.as_deref(), Some("00000000-0000-0000-0000-000000000010"));
}

#[test]
fn bootstrap_after_a_crash_serves_what_the_journal_holds() {
    // The caches are empty: no telemetry was received and nothing was
    // submitted since the start.
    let mut sim = Simulator::from_assets(vec![asset(0x59)]);
    let seed = TelemetrySeed {
        asset_id: 0x59,
        soc_mwhr: 42 * MW,
        current_mw: 0,
        setpoint_mw: 3 * MW,
    };
    assert_eq!(sim.hydrate(&vec![seed]), 1);
    let latest: IdMap<Telemetry> = IdMap::new();
    let telemetry_rows = vec![row(0x59, 42 * MW, 9)];
    let dispatch_rows =
        vec![DispatchSnapshotRow { id: 3, asset_id: 0x59, mw: 3 * MW, duration_s: None }];
    let entries =
        build_bootstrap_response(&latest, &sim, &vec![0x59], &telemetry_rows, &dispatch_rows);
    assert_eq!(entries.len(), 1);
    assert_eq!(entries[0].asset_id, 0x59);
    assert_eq!(entries[0].telemetry.as_ref().unwrap().soc_mwhr, 42 * MW);
    assert_eq!(entries[0].setpoint.as_ref().unwrap().mw, 3 * MW);
    assert_eq!(
        entries[0].setpoint.as_ref().unwrap().dispatch_id.as_deref(),
        Some("00000000-0000-0000-0000-000000000003")
    );
    assert_eq!(
        entries[0].setpoint.as_ref().unwrap().asset_id,
        "00000000-0000-0000-0000-000000000059"
    );
    let response = bootstrap_to_proto(&entries);
    assert_eq!(response.assets.len(), 1);
    assert_eq!(response.assets[0].asset_id, "00000000-0000-0000-0000-000000000059");
    assert_eq!(response.assets[0].telemetry.as_ref().unwrap().soc_mwhr, 42 * MW);
    assert_eq!(
        response.assets[0].telemetry.as_ref().unwrap().timestamp,
        "1970-01-01T00:00:00.009Z"
    );
    assert_eq!(response.assets[0].setpoint.as_ref().unwrap().mw, 3 * MW);
}

#[test]
fn the_dispatch_in_memory_goes_before_the_journal() {
    let mut sim = Simulator::from_assets(vec![asset(0x59)]);
    let request = DispatchRequest {
        asset_id: 0x59,
        mw: 7 * MW,
        duration_s: None,
        site_id: None,
        clamped: false,
    };
    sim.set_dispatch(request, None).unwrap();
    let latest: IdMap<Telemetry> = IdMap::new();
    let dispatch_rows =
        vec![DispatchSnapshotRow { id: 3, asset_id: 0x59, mw: 3 * MW, duration_s: None }];
    let entries = build_bootstrap_response(&latest, &sim, &vec![0x59], &Vec::new(), &dispatch_rows);
    assert_eq!(entries[0].setpoint.as_ref().unwrap().mw, 7 * MW);
    assert_eq!(entries[0].telemetry.as_ref().unwrap().soc_mwhr, 50 * MW);
}

#[test]
fn telemetry_beyond_the_calendar_is_left_off_the_wire() {
    let sim = Simulator::from_assets(vec![asset(1)]);
    let latest: IdMap<Telemetry> = IdMap::new();
    let entries = build_bootstrap_at(&latest, &sim, &vec![1], &Vec::new(), &Vec::new(), i64::MAX);
    assert!(entries[0].telemetry.is_some());
    let response = bootstrap_to_proto(&entries);
    assert!(response.assets[0].telemetry.is_none());
    assert!(response.assets[0].setpoint.is_none());
}

#[test]
fn asked_identifiers_are_parsed_or_the_first_bad_one_is_named() {
    let good = vec![
        "00000000-0000-0000-0000-000000000001".to_string(),
        "{00000000-0000-0000-0000-000000000002}".to_string(),
    ];
    assert_eq!(parse_asset_ids(&good), Ok(vec![1, 2]));
    let bad = vec![good[0].clone(), "two".to_string(), "three".to_string()];
    assert_eq!(parse_asset_ids(&bad), Err(1));
    assert_eq!(parse_asset_ids(&Vec::new()), Ok(Vec::new()));
}

#[test]
fn missing_identifiers_keep_the_order_asked() {
    let sim = Simulator::from_assets(vec![asset(1), asset(2)]);
    let mut latest: IdMap<Telemetry> = IdMap::new();
    latest.insert(2, cached(2, MW));
    assert_eq!(missing_telemetry_ids(&latest, &vec![3, 2, 1, 3]), vec![3, 1, 3]);
    assert_eq!(missing_setpoint_ids(&sim, &vec![3, 2, 1]), vec![3, 2, 1]);
    let mut commanded = Simulator::from_assets(vec![asset(1), asset(2)]);
    let request =
        DispatchRequest { asset_id: 2, mw: MW, duration_s: None, site_id: None, clamped: false };
    commanded.set_dispatch(request, None).unwrap();
    assert_eq!(missing_setpoint_ids(&commanded, &vec![3, 2, 1]), vec![3, 1]);
}
