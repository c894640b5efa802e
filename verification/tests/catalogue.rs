use der_core::catalogue::{
    default_max_soc_pct, default_min_soc_pct, load_assets, AssetCfg, AssetsFile, CatalogueError,
    SiteCfg,
};
use der_core::fixed::SCALE;
use der_core::journal::{RangeError, TimeRange};
use der_core::model::Asset;

const MW: i64 = SCALE;

fn site(id: u128, name: &str) -> SiteCfg {
    SiteCfg { id, name: name.to_string(), location: format!("{name} yard") }
}

fn cfg(id: u128, site_id: u128) -> AssetCfg {
    AssetCfg {
        id,
        site_id,
        name: format!("asset-{id}"),
        capacity_mwhr: 100 * MW,
        max_mw: 50 * MW,
        min_mw: -50 * MW,
        min_soc_pct: default_min_soc_pct(),
        max_soc_pct: default_max_soc_pct(),
        efficiency: 920_000_000,
        ramp_rate_mw_per_min: 20 * MW,
    }
}

#[test]
fn defaults_span_the_whole_band() {
    assert_eq!(default_min_soc_pct(), 0);
    assert_eq!(default_max_soc_pct(), 100 * SCALE);
}

#[test]
fn assets_take_name_and_location_from_their_site() {
    let file = AssetsFile {
        sites: vec![site(1, "North"), site(2, "South")],
        assets: vec![cfg(10, 2), cfg(11, 1)],
    };
    let assets = load_assets(&file).unwrap();
    assert_eq!(assets.len(), 2);
    assert_eq!(assets[0].id, 10);
    assert_eq!(assets[0].site_id, 2);
    assert_eq!(assets[0].site_name, "South");
    assert_eq!(assets[0].location, "South yard");
    assert_eq!(assets[0].name, "asset-10");
    assert_eq!(assets[0].capacity_mwhr, 100 * MW);
    assert_eq!(assets[0].efficiency, 920_000_000);
    assert_eq!(assets[0].ramp_rate_mw_per_min, 20 * MW);
    assert_eq!((assets[0].min_mw, assets[0].max_mw), (-50 * MW, 50 * MW));
    assert_eq!((assets[0].min_soc_pct, assets[0].max_soc_pct), (0, 100 * SCALE));
    assert_eq!(assets[1].site_name, "North");
    assert!(assets.iter().all(Asset::is_valid));
}

#[test]
fn the_last_site_of_an_identifier_is_the_one_that_counts() {
    let file = AssetsFile { sites: vec![site(1, "Old"), site(1, "New")], assets: vec![cfg(10, 1)] };
    assert_eq!(load_assets(&file).unwrap()[0].site_name, "New");
}

#[test]
fn an_asset_without_a_site_fails_the_catalogue() {
    let file = AssetsFile { sites: vec![site(1, "North")], assets: vec![cfg(10, 1), cfg(11, 3)] };
    assert_eq!(load_assets(&file).unwrap_err(), CatalogueError::SiteNotFound(1));
}

#[test]
fn an_asset_that_breaks_an_invariant_fails_the_catalogue() {
    let mut wrong = Vec::new();
    let mut a = cfg(10, 1);
    a.min_mw = MW;
    wrong.push(a);
    let mut a = cfg(10, 1);
    a.max_mw = -MW;
    wrong.push(a);
    let mut a = cfg(10, 1);
    a.efficiency = 0;
    wrong.push(a);
    let mut a = cfg(10, 1);
    a.efficiency = SCALE + 1;
    wrong.push(a);
    let mut a = cfg(10, 1);
    a.min_soc_pct = 60 * SCALE;
    a.max_soc_pct = 40 * SCALE;
    wrong.push(a);
    let mut a = cfg(10, 1);
    a.max_soc_pct = 101 * SCALE;
    wrong.push(a);
    let mut a = cfg(10, 1);
    a.capacity_mwhr = -1;
    wrong.push(a);
    let mut a = cfg(10, 1);
    a.ramp_rate_mw_per_min = -1;
    wrong.push(a);
    let mut a = cfg(10, 1);
    a.max_mw = 1_000_001 * MW;
    wrong.push(a);
    for bad in wrong {
        let file = AssetsFile { sites: vec![site(1, "North")], assets: vec![cfg(9, 1), bad] };
        assert_eq!(load_assets(&file).unwrap_err(), CatalogueError::InvalidAsset(1));
    }
}

#[test]
fn the_site_is_looked_up_before_the_limits_are_checked() {
    let mut bad = cfg(10, 5);
    bad.efficiency = 0;
    let file = AssetsFile { sites: vec![site(1, "North")], assets: vec![bad] };
    assert_eq!(load_assets(&file).unwrap_err(), CatalogueError::SiteNotFound(0));
}

#[test]
fn an_empty_catalogue_loads() {
    let file = AssetsFile { sites: Vec::new(), assets: Vec::new() };
    assert!(load_assets(&file).unwrap().is_empty());
}

#[test]
fn time_range_reads_both_ends() {
    let range = TimeRange {
        start: Some("1970-01-01T00:00:01Z".to_string()),
        end: Some("1970-01-01T01:00:00+01:00".to_string()),
    };
    assert_eq!(range.bounds(), Ok((Some(1_000), Some(0))));
    assert_eq!(TimeRange { start: None, end: None }.bounds(), Ok((None, None)));
    let open = TimeRange { start: None, end: Some("1970-01-01T00:00:00.250Z".to_string()) };
    assert_eq!(open.bounds(), Ok((None, Some(250))));
}

#[test]
fn time_range_reports_the_first_malformed_end() {
    let range = TimeRange { start: Some("then".to_string()), end: Some("now".to_string()) };
    assert_eq!(range.bounds(), Err(RangeError::BadStart));
    let range = TimeRange { start: None, end: Some("now".to_string()) };
    assert_eq!(range.bounds(), Err(RangeError::BadEnd));
    let range = TimeRange { start: Some("1970-01-01".to_string()), end: None };
    assert_eq!(range.bounds(), Err(RangeError::BadStart));
}

#[test]
fn a_catalogue_beyond_the_limit_is_refused() {
    let one = AssetCfg {
        id: 0,
        site_id: 1,
        name: String::new(),
        capacity_mwhr: 0,
        max_mw: 0,
        min_mw: 0,
        min_soc_pct: 0,
        max_soc_pct: 0,
        efficiency: 1,
        ramp_rate_mw_per_min: 0,
    };
    let mut assets = Vec::with_capacity(1_000_001);
    for k in 0..1_000_001u128 {
        assets.push(AssetCfg { id: k, name: String::new(), ..one });
    }
    let file = AssetsFile { sites: vec![site(1, "North")], assets };
    assert_eq!(load_assets(&file).unwrap_err(), CatalogueError::TooManyAssets);
    assert_eq!(
        der_core::catalogue::load_assets_for_site(&file, 1).unwrap_err(),
        CatalogueError::TooManyAssets
    );
}

#[test]
fn validity_is_decided_field_by_field() {
    let file = AssetsFile { sites: vec![site(1, "North")], assets: vec![cfg(10, 1)] };
    let mut asset = load_assets(&file).unwrap().remove(0);
    assert!(asset.is_valid());
    asset.min_mw = 0;
    asset.max_mw = 0;
    asset.capacity_mwhr = 0;
    asset.ramp_rate_mw_per_min = 0;
    asset.efficiency = 1;
    asset.min_soc_pct = 100 * SCALE;
    asset.max_soc_pct = 100 * SCALE;
    assert!(asset.is_valid());
    asset.min_soc_pct = -1;
    assert!(!asset.is_valid());
    asset.min_soc_pct = 0;
    asset.min_mw = -1_000_001 * MW;
    assert!(!asset.is_valid());
}
