use der_core::fixed::SCALE;
use der_core::idmap::IdMap;
use der_core::journal::DispatchSnapshotRow;
use der_core::model::{Asset, BessState, DispatchRequest, DispatchStatus};
use der_core::physics::FULL_PCT;
use der_core::simulator::{DispatchError, Simulator, TelemetrySeed};

const MW: i64 = SCALE;
const SECOND: u64 = 1_000_000_000;

fn asset(id: u128, site: u128) -> Asset {
    Asset {
        id,
        site_id: site,
        site_name: format!("site-{site}"),
        name: format!("asset-{id}"),
        location: "Here".to_string(),
        capacity_mwhr: 100 * MW,
        max_mw: 50 * MW,
        min_mw: -50 * MW,
        min_soc_pct: 0,
        max_soc_pct: FULL_PCT,
        efficiency: SCALE,
        ramp_rate_mw_per_min: 30 * MW,
    }
}

fn request(asset_id: u128, mw: i64) -> DispatchRequest {
    DispatchRequest { asset_id, mw, duration_s: Some(60), site_id: None, clamped: false }
}

#[test]
fn fresh_simulator_starts_every_asset_at_mid_band() {
    let mut banded = asset(3, 1);
    banded.min_soc_pct = 20 * SCALE;
    banded.max_soc_pct = 80 * SCALE;
    let sim = Simulator::from_assets(vec![asset(2, 1), banded, asset(1, 2)]);
    assert_eq!(sim.assets.len(), 3);
    assert_eq!(sim.state.len(), 3);
    assert_eq!(sim.dispatches.len(), 3);
    assert_eq!(
        sim.state.get(1),
        Some(&BessState { soc_mwhr: 50 * MW, current_mw: 0, setpoint_mw: 0 })
    );
    assert_eq!(sim.state.get(3).unwrap().soc_mwhr, 50 * MW);
    let idle = sim.dispatches.get(2).unwrap();
    assert_eq!(idle.asset_id, 2);
    assert_eq!(idle.mw, 0);
    assert_eq!(idle.duration_s, None);
    assert_eq!(idle.status, DispatchStatus::Accepted);
    assert_eq!(idle.reason, None);
    assert!(!idle.clamped);
    assert!(idle.placeholder);
}

#[test]
fn assets_are_listed_in_order_of_identifier() {
    let sim = Simulator::from_assets(vec![asset(5, 1), asset(2, 1), asset(9, 2)]);
    let ids: Vec<u128> = sim.assets().iter().map(|a| a.id).collect();
    assert_eq!(ids, vec![2, 5, 9]);
    assert_eq!(sim.asset(5).unwrap().name, "asset-5");
    assert!(sim.asset(6).is_none());
    let of_site: Vec<u128> = sim.assets_of_site(1).iter().map(|a| a.id).collect();
    assert_eq!(of_site, vec![2, 5]);
    assert!(sim.assets_of_site(3).is_empty());
}

#[test]
fn a_later_asset_replaces_an_earlier_one_of_the_same_identifier() {
    let mut second = asset(1, 1);
    second.name = "second".to_string();
    let sim = Simulator::from_assets(vec![asset(1, 1), second]);
    assert_eq!(sim.assets.len(), 1);
    assert_eq!(sim.asset(1).unwrap().name, "second");
}

#[test]
fn accepted_dispatch_becomes_the_setpoint() {
    let mut sim = Simulator::from_assets(vec![asset(1, 1)]);
    let mut req = request(1, 10 * MW);
    req.clamped = true;
    let dispatch = sim.set_dispatch_with(req, None, 77, 1234).unwrap();
    assert_eq!(dispatch.id, 77);
    assert_eq!(dispatch.asset_id, 1);
    assert_eq!(dispatch.mw, 10 * MW);
    assert_eq!(dispatch.duration_s, Some(60));
    assert_eq!(dispatch.status, DispatchStatus::Accepted);
    assert_eq!(dispatch.reason, None);
    assert_eq!(dispatch.submitted_at, 1234);
    assert!(dispatch.clamped);
    assert_eq!(sim.state.get(1).unwrap().setpoint_mw, 10 * MW);
    assert_eq!(sim.state.get(1).unwrap().current_mw, 0);
    assert_eq!(sim.dispatches.get(1).unwrap().id, 77);
    assert_eq!(sim.dispatches.len(), 1);
}

#[test]
fn dispatch_then_tick_follows_the_ramp() {
    let mut sim = Simulator::from_assets(vec![asset(1, 1)]);
    sim.set_dispatch(request(1, 10 * MW), None).unwrap();
    let snaps = sim.tick_at(4 * SECOND, 9);
    assert_eq!(snaps.len(), 1);
    assert_eq!(snaps[0].current_mw, 2 * MW);
    assert_eq!(snaps[0].soc_mwhr, 49_997_777_778);
    assert_eq!(snaps[0].timestamp, 9);
    assert_eq!(sim.state.get(1).unwrap().current_mw, 2 * MW);
}

#[test]
fn fresh_dispatches_get_distinct_identifiers() {
    let mut sim = Simulator::from_assets(vec![asset(1, 1)]);
    let a = sim.set_dispatch(request(1, MW), None).unwrap();
    let b = sim.set_dispatch(request(1, MW), None).unwrap();
    assert_ne!(a.id, b.id);
    // Version 4, RFC 4122 variant.
    assert_eq!((a.id >> 76) & 0xf, 4);
    assert_eq!((a.id >> 62) & 0x3, 2);
    assert!(a.submitted_at > 1_577_836_800_000);
}

#[test]
fn unknown_asset_is_not_found() {
    let mut sim = Simulator::from_assets(vec![asset(1, 1)]);
    assert_eq!(sim.set_dispatch(request(2, MW), None).unwrap_err(), DispatchError::NotFound);
}

#[test]
fn discharge_at_the_lower_bound_is_refused() {
    let mut sim = Simulator::from_assets(vec![asset(1, 1)]);
    sim.state.insert(1, BessState { soc_mwhr: 1_000, current_mw: 0, setpoint_mw: 0 });
    assert_eq!(sim.set_dispatch(request(1, MW), None).unwrap_err(), DispatchError::AtMinSoc);
    assert_eq!(sim.state.get(1).unwrap().setpoint_mw, 0);
    sim.state.insert(1, BessState { soc_mwhr: 1_001, current_mw: 0, setpoint_mw: 0 });
    assert!(sim.set_dispatch(request(1, MW), None).is_ok());
    sim.state.insert(1, BessState { soc_mwhr: 0, current_mw: 0, setpoint_mw: 0 });
    assert!(sim.set_dispatch(request(1, -MW), None).is_ok());
    assert!(sim.set_dispatch(request(1, 0), None).is_ok());
}

#[test]
fn charge_at_the_upper_bound_is_refused() {
    let mut sim = Simulator::from_assets(vec![asset(1, 1)]);
    sim.state.insert(1, BessState { soc_mwhr: 100 * MW - 1_000, current_mw: 0, setpoint_mw: 0 });
    assert_eq!(sim.set_dispatch(request(1, -MW), None).unwrap_err(), DispatchError::AtMaxSoc);
    sim.state.insert(1, BessState { soc_mwhr: 100 * MW - 1_001, current_mw: 0, setpoint_mw: 0 });
    assert!(sim.set_dispatch(request(1, -MW), None).is_ok());
}

#[test]
fn power_outside_the_range_is_out_of_bounds() {
    let mut sim = Simulator::from_assets(vec![asset(1, 1)]);
    assert_eq!(
        sim.set_dispatch(request(1, 50 * MW + 1), None).unwrap_err(),
        DispatchError::OutOfBounds
    );
    assert_eq!(
        sim.set_dispatch(request(1, -50 * MW - 1), None).unwrap_err(),
        DispatchError::OutOfBounds
    );
    assert!(sim.set_dispatch(request(1, 50 * MW), None).is_ok());
    assert!(sim.set_dispatch(request(1, -50 * MW), None).is_ok());
}

#[test]
fn soc_gate_comes_before_the_limit_gate() {
    let mut sim = Simulator::from_assets(vec![asset(1, 1)]);
    sim.state.insert(1, BessState { soc_mwhr: 0, current_mw: 0, setpoint_mw: 0 });
    assert_eq!(sim.set_dispatch(request(1, 80 * MW), None).unwrap_err(), DispatchError::AtMinSoc);
}

#[test]
fn reported_soc_overrides_the_simulators_own() {
    let mut sim = Simulator::from_assets(vec![asset(1, 1)]);
    assert_eq!(
        sim.set_dispatch(request(1, MW), Some(500)).unwrap_err(),
        DispatchError::AtMinSoc
    );
    sim.state.insert(1, BessState { soc_mwhr: 0, current_mw: 0, setpoint_mw: 0 });
    assert!(sim.set_dispatch(request(1, MW), Some(40 * MW)).is_ok());
}

#[test]
fn refused_dispatch_leaves_the_last_dispatch_in_place() {
    let mut sim = Simulator::from_assets(vec![asset(1, 1)]);
    let first = sim.set_dispatch(request(1, 5 * MW), None).unwrap();
    assert!(sim.set_dispatch(request(1, 500 * MW), None).is_err());
    assert_eq!(sim.dispatches.get(1).unwrap().id, first.id);
    assert_eq!(sim.state.get(1).unwrap().setpoint_mw, 5 * MW);
}

#[test]
fn tick_advances_every_asset() {
    let mut sim = Simulator::from_assets(vec![asset(2, 1), asset(1, 1)]);
    sim.set_dispatch(request(1, 10 * MW), None).unwrap();
    sim.set_dispatch(request(2, -10 * MW), None).unwrap();
    let snaps = sim.tick(4 * SECOND);
    assert_eq!(snaps.len(), 2);
    assert_eq!(snaps[0].asset_id, 1);
    assert_eq!(snaps[0].current_mw, 2 * MW);
    assert_eq!(snaps[1].asset_id, 2);
    assert_eq!(snaps[1].current_mw, -2 * MW);
    assert_eq!(snaps[0].timestamp, snaps[1].timestamp);
}

#[test]
fn hydrate_restores_state_within_limits() {
    let mut sim = Simulator::from_assets(vec![asset(1, 1), asset(2, 1)]);
    let rows = vec![
        TelemetrySeed { asset_id: 1, soc_mwhr: 42 * MW, current_mw: 3 * MW, setpoint_mw: 4 * MW },
        TelemetrySeed { asset_id: 9, soc_mwhr: 1, current_mw: 1, setpoint_mw: 1 },
        TelemetrySeed {
            asset_id: 2,
            soc_mwhr: 500 * MW,
            current_mw: -90 * MW,
            setpoint_mw: 90 * MW,
        },
    ];
    assert_eq!(sim.hydrate(&rows), 2);
    assert_eq!(
        sim.state.get(1),
        Some(&BessState { soc_mwhr: 42 * MW, current_mw: 3 * MW, setpoint_mw: 4 * MW })
    );
    assert_eq!(
        sim.state.get(2),
        Some(&BessState { soc_mwhr: 100 * MW, current_mw: -50 * MW, setpoint_mw: 50 * MW })
    );
    assert_eq!(sim.state.len(), 2);
}

#[test]
fn hydrate_applies_rows_in_order() {
    let mut sim = Simulator::from_assets(vec![asset(1, 1)]);
    let rows = vec![
        TelemetrySeed { asset_id: 1, soc_mwhr: 10 * MW, current_mw: 0, setpoint_mw: 0 },
        TelemetrySeed { asset_id: 1, soc_mwhr: 20 * MW, current_mw: 0, setpoint_mw: 0 },
    ];
    assert_eq!(sim.hydrate(&rows), 2);
    assert_eq!(sim.state.get(1).unwrap().soc_mwhr, 20 * MW);
}

#[test]
fn id_map_keeps_order_and_replaces() {
    let mut map: IdMap<&str> = IdMap::new();
    assert_eq!(map.len(), 0);
    assert_eq!(map.insert(5, "five"), None);
    assert_eq!(map.insert(1, "one"), None);
    assert_eq!(map.insert(9, "nine"), None);
    assert_eq!(map.insert(5, "FIVE"), Some("five"));
    assert_eq!(map.len(), 3);
    assert_eq!((map.id_at(0), map.id_at(1), map.id_at(2)), (1, 5, 9));
    assert_eq!(*map.item_at(1), "FIVE");
    assert_eq!(map.get(9), Some(&"nine"));
    assert_eq!(map.get(2), None);
    assert_eq!(map.find(9), Some(2));
    assert!(map.contains_key(1));
    assert_eq!(map.remove(1), Some("one"));
    assert_eq!(map.remove(1), None);
    assert_eq!(map.len(), 2);
    assert_eq!(map.id_at(0), 5);
    map.set_at(0, "again");
    assert_eq!(map.get(5), Some(&"again"));
}

#[test]
fn id_map_handles_the_ends_of_the_range() {
    let mut map: IdMap<u8> = IdMap::new();
    map.insert(u128::MAX, 1);
    map.insert(0, 2);
    map.insert(u128::MAX / 2, 3);
    assert_eq!((map.id_at(0), map.id_at(1), map.id_at(2)), (0, u128::MAX / 2, u128::MAX));
    assert_eq!(map.get(u128::MAX), Some(&1));
}

#[test]
fn resumed_setpoints_are_brought_within_the_power_range() {
    let mut sim = Simulator::from_assets(vec![asset(1, 1), asset(2, 1)]);
    let rows = vec![
        DispatchSnapshotRow { id: 10, asset_id: 1, mw: 7 * MW, duration_s: None },
        DispatchSnapshotRow { id: 11, asset_id: 9, mw: 7 * MW, duration_s: None },
        DispatchSnapshotRow { id: 12, asset_id: 2, mw: -90 * MW, duration_s: Some(5) },
    ];
    sim.resume_setpoints(&rows);
    assert_eq!(
        sim.state.get(1),
        Some(&BessState { soc_mwhr: 50 * MW, current_mw: 0, setpoint_mw: 7 * MW })
    );
    assert_eq!(sim.state.get(2).unwrap().setpoint_mw, -50 * MW);
    assert_eq!(sim.state.len(), 2);
    assert_eq!(sim.dispatches.get(1).unwrap().mw, 0);
}
