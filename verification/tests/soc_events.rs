use der_core::fixed::SCALE;
use der_core::idmap::IdMap;
use der_core::model::{Asset, BessState, Telemetry};
use der_core::physics::{snapshot, FULL_PCT};
use der_core::simulator::Simulator;
use der_core::soc_events::{
    maybe_emit_soc_event, maybe_soc_event, observe_zone, soc_event, soc_zone, SocSignal, SocState,
};

const MW: i64 = SCALE;

fn asset() -> Asset {
    Asset {
        id: 1,
        site_id: 7,
        site_name: "North".to_string(),
        name: "B1".to_string(),
        location: "Yard".to_string(),
        capacity_mwhr: 100 * MW,
        max_mw: 50 * MW,
        min_mw: -50 * MW,
        min_soc_pct: 10 * SCALE,
        max_soc_pct: 90 * SCALE,
        efficiency: SCALE,
        ramp_rate_mw_per_min: 30 * MW,
    }
}

fn reading(asset_id: u128, soc: i64, at: i64) -> Telemetry {
    let mut a = asset();
    a.id = asset_id;
    snapshot(&a, &BessState { soc_mwhr: soc, current_mw: 0, setpoint_mw: 0 }, at)
}

#[test]
fn zones_have_a_tolerance_at_each_bound() {
    let a = asset();
    assert_eq!(soc_zone(&a, 10 * MW), SocState::BelowMin);
    assert_eq!(soc_zone(&a, 10 * MW + 1_000), SocState::BelowMin);
    assert_eq!(soc_zone(&a, 10 * MW + 1_001), SocState::InRange);
    assert_eq!(soc_zone(&a, 90 * MW - 1_001), SocState::InRange);
    assert_eq!(soc_zone(&a, 90 * MW - 1_000), SocState::AboveMax);
    assert_eq!(soc_zone(&a, 95 * MW), SocState::AboveMax);
    assert_eq!(soc_zone(&a, 0), SocState::BelowMin);
}

#[test]
fn the_lower_bound_wins_where_the_band_is_a_point() {
    let mut a = asset();
    a.min_soc_pct = 50 * SCALE;
    a.max_soc_pct = 50 * SCALE;
    assert_eq!(soc_zone(&a, 50 * MW), SocState::BelowMin);
}

#[test]
fn headend_raises_events_on_entering_a_boundary_zone_only() {
    let sim = Simulator::from_assets(vec![asset()]);
    let mut zones: IdMap<SocState> = IdMap::new();
    assert_eq!(observe_zone(&sim, &mut zones, &reading(1, 50 * MW, 1)), None);
    assert_eq!(zones.get(1), Some(&SocState::InRange));
    assert_eq!(observe_zone(&sim, &mut zones, &reading(1, 5 * MW, 2)), Some(SocSignal::MinReached));
    assert_eq!(observe_zone(&sim, &mut zones, &reading(1, 6 * MW, 3)), None);
    assert_eq!(observe_zone(&sim, &mut zones, &reading(1, 50 * MW, 4)), None);
    assert_eq!(
        observe_zone(&sim, &mut zones, &reading(1, 95 * MW, 5)),
        Some(SocSignal::MaxReached)
    );
    assert_eq!(observe_zone(&sim, &mut zones, &reading(1, 95 * MW, 6)), None);
    assert_eq!(observe_zone(&sim, &mut zones, &reading(1, 5 * MW, 7)), Some(SocSignal::MinReached));
    assert_eq!(zones.get(1), Some(&SocState::BelowMin));
}

#[test]
fn first_reading_in_a_boundary_zone_raises_an_event() {
    let sim = Simulator::from_assets(vec![asset()]);
    let mut zones: IdMap<SocState> = IdMap::new();
    let event = maybe_emit_soc_event(&sim, &mut zones, &reading(1, 95 * MW, 1234)).unwrap();
    assert_eq!(event.asset_id, 1);
    assert_eq!(event.site_id, 7);
    assert_eq!(event.timestamp, 1234);
    assert_eq!(event.event_type, "MAX_SOC_REACHED");
    assert_eq!(event.severity, "warning");
    assert_eq!(event.message, "Max SOC reached");
    assert!(maybe_emit_soc_event(&sim, &mut zones, &reading(1, 95 * MW, 1235)).is_none());
}

#[test]
fn telemetry_of_an_unknown_asset_raises_nothing() {
    let sim = Simulator::from_assets(vec![asset()]);
    let mut zones: IdMap<SocState> = IdMap::new();
    assert!(maybe_emit_soc_event(&sim, &mut zones, &reading(2, 0, 1)).is_none());
    assert_eq!(zones.len(), 0);
}

#[test]
fn zones_are_kept_per_asset() {
    let mut other = asset();
    other.id = 2;
    let sim = Simulator::from_assets(vec![asset(), other]);
    let mut zones: IdMap<SocState> = IdMap::new();
    assert!(maybe_emit_soc_event(&sim, &mut zones, &reading(1, 5 * MW, 1)).is_some());
    assert!(maybe_emit_soc_event(&sim, &mut zones, &reading(2, 5 * MW, 1)).is_some());
    assert!(maybe_emit_soc_event(&sim, &mut zones, &reading(1, 5 * MW, 2)).is_none());
}

#[test]
fn agent_raises_and_clears() {
    let a = asset();
    let mut zone = SocState::InRange;
    assert!(maybe_soc_event(&mut zone, &a, &reading(1, 50 * MW, 1)).is_none());
    let low = maybe_soc_event(&mut zone, &a, &reading(1, 5 * MW, 2)).unwrap();
    assert_eq!((low.event_type.as_str(), low.severity.as_str()), ("MIN_SOC_REACHED", "warning"));
    assert_eq!(low.message, "Min SOC reached");
    assert_eq!(zone, SocState::BelowMin);
    assert!(maybe_soc_event(&mut zone, &a, &reading(1, 5 * MW, 3)).is_none());
    let cleared = maybe_soc_event(&mut zone, &a, &reading(1, 50 * MW, 4)).unwrap();
    assert_eq!(
        (cleared.event_type.as_str(), cleared.severity.as_str(), cleared.message.as_str()),
        ("MIN_SOC_REACHED", "clear", "Min SOC cleared")
    );
    let high = maybe_soc_event(&mut zone, &a, &reading(1, 95 * MW, 5)).unwrap();
    assert_eq!((high.event_type.as_str(), high.severity.as_str()), ("MAX_SOC_REACHED", "warning"));
    let cleared = maybe_soc_event(&mut zone, &a, &reading(1, 50 * MW, 6)).unwrap();
    assert_eq!(
        (cleared.event_type.as_str(), cleared.severity.as_str(), cleared.message.as_str()),
        ("MAX_SOC_REACHED", "clear", "Max SOC cleared")
    );
    assert_eq!(zone, SocState::InRange);
    assert_eq!(cleared.timestamp, 6);
    assert_eq!(cleared.site_id, 7);
}

#[test]
fn agent_goes_from_one_end_to_the_other_without_a_clear() {
    let a = asset();
    let mut zone = SocState::BelowMin;
    let event = maybe_soc_event(&mut zone, &a, &reading(1, 95 * MW, 1)).unwrap();
    assert_eq!(
        (event.event_type.as_str(), event.severity.as_str()),
        ("MAX_SOC_REACHED", "warning")
    );
}

#[test]
fn soc_event_carries_the_identifier_it_is_given() {
    let event = soc_event(SocSignal::MinReached, &asset(), &reading(1, 0, 9), 0xfeed);
    assert_eq!(event.id, 0xfeed);
    assert_eq!(event.event_type, "MIN_SOC_REACHED");
}
