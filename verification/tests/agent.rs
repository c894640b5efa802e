use der_core::agent::{dispatch_ack, Agent};
use der_core::fixed::SCALE;
use der_core::model::{Asset, BessState};
use der_core::physics::FULL_PCT;
use der_core::soc_events::SocState;
use der_core::wire::Setpoint;

const MW: i64 = SCALE;
const SECOND: u64 = 1_000_000_000;

fn text(id: u128) -> String {
    uuid::Uuid::from_u128(id).to_string()
}

fn asset(id: u128, site: u128, cap: i64, max: i64) -> Asset {
    Asset {
        id,
        site_id: site,
        site_name: format!("site-{site}"),
        name: format!("asset-{id}"),
        location: "Yard".to_string(),
        capacity_mwhr: cap * MW,
        max_mw: max * MW,
        min_mw: -max * MW,
        min_soc_pct: 0,
        max_soc_pct: FULL_PCT,
        efficiency: SCALE,
        ramp_rate_mw_per_min: 30 * MW,
    }
}

fn gateway() -> Agent {
    Agent::from_assets(
        vec![asset(3, 7, 300, 20), asset(1, 7, 100, 40), asset(2, 8, 100, 40)],
        "gw-7".to_string(),
    )
}

fn setpoint(asset_id: &str, site_id: Option<&str>, mw: i64) -> Setpoint {
    Setpoint {
        asset_id: asset_id.to_string(),
        mw,
        duration_s: Some(60),
        site_id: site_id.map(str::to_string),
        group_id: None,
        dispatch_id: Some(text(0xd)),
    }
}

#[test]
fn fresh_agent_starts_its_assets_at_mid_band() {
    let agent = gateway();
    assert_eq!(agent.units.len(), 3);
    let unit = agent.units.get(3).unwrap();
    assert_eq!(unit.state, BessState { soc_mwhr: 150 * MW, current_mw: 0, setpoint_mw: 0 });
    assert_eq!(unit.zone, SocState::InRange);
    assert_eq!(unit.asset.name, "asset-3");
    assert_eq!(agent.gateway_id, "gw-7");
}

#[test]
fn primary_asset_is_the_one_with_the_smallest_identifier() {
    assert_eq!(gateway().primary(), Some(1));
    assert_eq!(Agent::from_assets(Vec::new(), String::new()).primary(), None);
}

#[test]
fn registration_lists_every_asset_in_order() {
    let agent = gateway();
    let reg = agent.registration(3).unwrap();
    assert_eq!(reg.asset_id, text(3));
    assert_eq!(reg.site_id, text(7));
    assert_eq!(reg.asset_name, "asset-3");
    assert_eq!(reg.site_name, "site-7");
    assert_eq!(reg.gateway_id, "gw-7");
    let ids: Vec<&str> = reg.assets.iter().map(|d| d.asset_id.as_str()).collect();
    assert_eq!(ids, vec![text(1), text(2), text(3)]);
    assert_eq!(reg.assets[1].site_id, text(8));
    assert_eq!(reg.assets[1].asset_name, "asset-2");
    assert_eq!(reg.assets[1].site_name, "site-8");
    assert_eq!(reg.assets[1].location, "Yard");
    assert!(agent.registration(9).is_none());
}

#[test]
fn a_known_asset_goes_before_the_site() {
    let agent = gateway();
    assert_eq!(agent.resolve_targets(&setpoint(&text(2), Some(&text(7)), MW)), vec![2]);
    assert_eq!(agent.resolve_targets(&setpoint(&format!(" {} ", text(2)), None, MW)), vec![2]);
}

#[test]
fn a_site_fans_out_over_its_local_assets() {
    let agent = gateway();
    assert_eq!(agent.resolve_targets(&setpoint("", Some(&text(7)), MW)), vec![1, 3]);
    assert_eq!(agent.resolve_targets(&setpoint(&text(9), Some(&text(7)), MW)), vec![1, 3]);
    assert_eq!(agent.resolve_targets(&setpoint("junk", Some(&text(8)), MW)), vec![2]);
}

#[test]
fn a_setpoint_for_nobody_has_no_targets() {
    let agent = gateway();
    assert!(agent.resolve_targets(&setpoint("", None, MW)).is_empty());
    assert!(agent.resolve_targets(&setpoint(&text(9), None, MW)).is_empty());
    assert!(agent.resolve_targets(&setpoint("", Some(&text(9)), MW)).is_empty());
    assert!(agent.resolve_targets(&setpoint("", Some("junk"), MW)).is_empty());
}

#[test]
fn setpoint_for_one_asset_is_applied_to_it() {
    let mut agent = gateway();
    let applied = agent.apply_setpoint(&setpoint(&text(2), None, 5 * MW));
    assert_eq!(applied.targets, vec![2]);
    assert_eq!(applied.allocations, vec![5 * MW]);
    assert_eq!(applied.dispatch_id, Some(text(0xd)));
    assert_eq!(agent.units.get(2).unwrap().state.setpoint_mw, 5 * MW);
    assert_eq!(agent.units.get(1).unwrap().state.setpoint_mw, 0);
}

#[test]
fn setpoint_beyond_the_range_of_an_asset_is_cut_to_it() {
    let mut agent = gateway();
    let applied = agent.apply_setpoint(&setpoint(&text(3), None, 50 * MW));
    assert_eq!(applied.allocations, vec![20 * MW]);
    assert_eq!(agent.units.get(3).unwrap().state.setpoint_mw, 20 * MW);
}

#[test]
fn setpoint_for_a_site_is_split_by_capacity() {
    let mut agent = gateway();
    let applied = agent.apply_setpoint(&setpoint("", Some(&text(7)), 35 * MW));
    assert_eq!(applied.targets, vec![1, 3]);
    assert_eq!(applied.allocations, vec![15 * MW, 20 * MW]);
    assert_eq!(agent.units.get(1).unwrap().state.setpoint_mw, 15 * MW);
    assert_eq!(agent.units.get(3).unwrap().state.setpoint_mw, 20 * MW);
    assert_eq!(agent.units.get(2).unwrap().state.setpoint_mw, 0);
    assert_eq!(agent.units.get(1).unwrap().state.soc_mwhr, 50 * MW);
}

#[test]
fn setpoint_without_a_dispatch_asks_for_no_ack() {
    let mut agent = gateway();
    let mut sp = setpoint(&text(2), None, MW);
    sp.dispatch_id = Some("  ".to_string());
    assert_eq!(agent.apply_setpoint(&sp).dispatch_id, None);
    sp.dispatch_id = None;
    assert_eq!(agent.apply_setpoint(&sp).dispatch_id, None);
}

#[test]
fn setpoint_for_nobody_changes_nothing() {
    let mut agent = gateway();
    let applied = agent.apply_setpoint(&setpoint(&text(9), None, MW));
    assert!(applied.targets.is_empty() && applied.allocations.is_empty());
    for id in [1, 2, 3] {
        assert_eq!(agent.units.get(id).unwrap().state.setpoint_mw, 0);
    }
}

#[test]
fn an_expired_setpoint_goes_back_to_zero() {
    let mut agent = gateway();
    agent.apply_setpoint(&setpoint(&text(2), None, 5 * MW));
    agent.expire_setpoint(2);
    agent.expire_setpoint(9);
    assert_eq!(agent.units.get(2).unwrap().state.setpoint_mw, 0);
    assert_eq!(agent.units.len(), 3);
}

#[test]
fn tick_advances_every_asset_and_reports_it() {
    let mut agent = gateway();
    agent.apply_setpoint(&setpoint(&text(1), None, 10 * MW));
    let seen = agent.tick_at(4 * SECOND, 99);
    assert_eq!(seen.len(), 3);
    assert_eq!(seen[0].snap.asset_id, 1);
    assert_eq!(seen[0].snap.current_mw, 2 * MW);
    assert_eq!(seen[0].snap.soc_mwhr, 49_997_777_778);
    assert_eq!(seen[0].snap.timestamp, 99);
    assert!(seen[0].event.is_none());
    assert_eq!(seen[1].snap.current_mw, 0);
    assert_eq!(agent.units.get(1).unwrap().state.current_mw, 2 * MW);
}

#[test]
fn tick_raises_an_event_when_the_charge_runs_out() {
    let mut a = asset(1, 7, 100, 40);
    a.ramp_rate_mw_per_min = 1_000_000 * MW;
    let mut agent = Agent::from_assets(vec![a], String::new());
    agent.apply_setpoint(&setpoint(&text(1), None, 40 * MW));
    // 40 MW for two hours empties 50 MWh.
    let seen = agent.tick_at(7_200 * SECOND, 5);
    assert_eq!(seen[0].snap.soc_mwhr, 0);
    assert_eq!(seen[0].snap.current_mw, 0);
    let event = seen[0].event.as_ref().unwrap();
    assert_eq!(event.event_type, "MIN_SOC_REACHED");
    assert_eq!(event.severity, "warning");
    assert_eq!(event.timestamp, 5);
    assert_eq!(agent.units.get(1).unwrap().zone, SocState::BelowMin);
    assert_eq!(agent.units.get(1).unwrap().state.setpoint_mw, 0);
    assert!(agent.tick_at(SECOND, 6)[0].event.is_none());
}

#[test]
fn ack_names_dispatch_and_asset() {
    let ack = dispatch_ack(&text(0xd), 2, 1_500).unwrap();
    assert_eq!(ack.dispatch_id, text(0xd));
    assert_eq!(ack.asset_id, text(2));
    assert_eq!(ack.status, "applied");
    assert_eq!(ack.timestamp, "1970-01-01T00:00:01.500Z");
    assert_eq!(ack.reason, "");
    assert!(dispatch_ack(&text(0xd), 2, i64::MAX).is_none());
}
