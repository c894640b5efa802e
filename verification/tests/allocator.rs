use der_core::allocator::{compute_allocations, compute_site_allocations, AllocationView};
use der_core::fixed::{SCALE, TOLERANCE};
use der_core::model::Asset;
use der_core::physics::FULL_PCT;

const MW: i64 = SCALE;

fn asset(id: u128, cap: i64, min: i64, max: i64) -> Asset {
    Asset {
        id,
        site_id: 9,
        site_name: "Site".to_string(),
        name: format!("asset-{id}"),
        location: "Here".to_string(),
        capacity_mwhr: cap * MW,
        max_mw: max * MW,
        min_mw: min * MW,
        min_soc_pct: 0,
        max_soc_pct: FULL_PCT,
        efficiency: SCALE,
        ramp_rate_mw_per_min: 10 * MW,
    }
}

fn site() -> Vec<Asset> {
    vec![asset(1, 100, -40, 40), asset(2, 300, -20, 20)]
}

fn total(split: &[AllocationView]) -> i64 {
    split.iter().map(|a| a.mw).sum()
}

#[test]
fn clean_split_by_capacity() {
    let split = compute_site_allocations(&site(), 10 * MW);
    assert_eq!(
        split,
        vec![
            AllocationView {
                asset_id: 1,
                mw_raw: 2_500_000_000,
                mw: 2_500_000_000,
                clamped: false,
            },
            AllocationView {
                asset_id: 2,
                mw_raw: 7_500_000_000,
                mw: 7_500_000_000,
                clamped: false,
            },
        ]
    );
}

#[test]
fn split_within_limits_needs_no_repair() {
    let split = compute_site_allocations(&site(), 20 * MW);
    assert_eq!(split[0].mw, 5 * MW);
    assert_eq!(split[1].mw, 15 * MW);
    assert!(!split[0].clamped && !split[1].clamped);
}

#[test]
fn repair_hands_the_cut_to_the_asset_with_room() {
    let split = compute_site_allocations(&site(), 35 * MW);
    assert_eq!(split[0].mw_raw, 8_750_000_000);
    assert_eq!(split[1].mw_raw, 26_250_000_000);
    assert_eq!(split[0].mw, 15 * MW);
    assert_eq!(split[1].mw, 20 * MW);
    assert_eq!(total(&split), 35 * MW);
    assert!(split[1].clamped);
    assert!(split[0].clamped);
    assert!(-40 * MW <= split[0].mw && split[0].mw <= 40 * MW);
}

#[test]
fn repair_works_downward_for_a_charge_request() {
    let split = compute_site_allocations(&site(), -35 * MW);
    assert_eq!(split[0].mw, -15 * MW);
    assert_eq!(split[1].mw, -20 * MW);
    assert_eq!(total(&split), -35 * MW);
}

#[test]
fn request_beyond_the_site_saturates_every_asset() {
    let split = compute_site_allocations(&site(), 100 * MW);
    assert_eq!(split[0].mw, 40 * MW);
    assert_eq!(split[1].mw, 20 * MW);
    assert!(split[0].clamped && split[1].clamped);
}

#[test]
fn no_capacity_gives_a_zero_allocation() {
    let assets = vec![asset(1, 0, -40, 40), asset(2, 0, -20, 20)];
    let split = compute_site_allocations(&assets, 10 * MW);
    assert_eq!(
        split,
        vec![
            AllocationView { asset_id: 1, mw_raw: 0, mw: 0, clamped: false },
            AllocationView { asset_id: 2, mw_raw: 0, mw: 0, clamped: false },
        ]
    );
}

#[test]
fn no_assets_give_no_allocations() {
    assert!(compute_site_allocations(&Vec::new(), 10 * MW).is_empty());
}

#[test]
fn an_asset_without_capacity_takes_part_in_repair_only() {
    let assets = vec![asset(1, 0, -40, 40), asset(2, 100, -20, 20)];
    let split = compute_site_allocations(&assets, 30 * MW);
    assert_eq!(split[0].mw_raw, 0);
    assert_eq!(split[1].mw_raw, 30 * MW);
    assert_eq!(split[0].mw, 10 * MW);
    assert_eq!(split[1].mw, 20 * MW);
}

#[test]
fn shares_are_cut_to_whole_units_and_stay_within_tolerance() {
    let assets = vec![asset(1, 1, -40, 40), asset(2, 1, -40, 40), asset(3, 1, -40, 40)];
    let split = compute_site_allocations(&assets, 10 * MW);
    for share in &split {
        assert_eq!(share.mw, 3_333_333_333);
        assert!(!share.clamped);
    }
    assert!((10 * MW - total(&split)).abs() <= TOLERANCE);
}

#[test]
fn every_share_is_within_the_limits_of_its_asset() {
    let assets = vec![asset(1, 5, -1, 2), asset(2, 50, -3, 4), asset(3, 500, 0, 1)];
    for request in [-100, -7, -1, 0, 1, 3, 7, 100] {
        let split = compute_site_allocations(&assets, request * MW);
        for (share, a) in split.iter().zip(assets.iter()) {
            assert!(a.min_mw <= share.mw && share.mw <= a.max_mw);
            assert_eq!(share.asset_id, a.id);
        }
    }
}

#[test]
fn feasible_requests_are_conserved() {
    let assets = vec![asset(1, 5, -1, 2), asset(2, 50, -3, 4), asset(3, 500, 0, 1)];
    for request in [-4, -3, -1, 0, 1, 3, 6, 7] {
        let split = compute_site_allocations(&assets, request * MW);
        assert!((request * MW - total(&split)).abs() <= TOLERANCE, "request {request}");
    }
}

#[test]
fn allocation_reads_nothing_but_limits_and_capacity() {
    let mut renamed = site();
    renamed[0].name = "other".to_string();
    renamed[1].site_name = "elsewhere".to_string();
    renamed[1].efficiency = 1;
    assert_eq!(
        compute_site_allocations(&site(), 35 * MW),
        compute_site_allocations(&renamed, 35 * MW)
    );
    assert_eq!(
        compute_site_allocations(&site(), 35 * MW),
        compute_site_allocations(&site(), 35 * MW)
    );
}

#[test]
fn gateway_split_matches_the_site_split_where_there_is_capacity() {
    assert_eq!(compute_allocations(&site(), 35 * MW), vec![15 * MW, 20 * MW]);
    assert_eq!(compute_allocations(&site(), 10 * MW), vec![2_500_000_000, 7_500_000_000]);
}

#[test]
fn gateway_split_is_equal_where_there_is_no_capacity() {
    let assets = vec![asset(1, 0, -40, 40), asset(2, 0, -2, 2)];
    assert_eq!(compute_allocations(&assets, 10 * MW), vec![5 * MW, 2 * MW]);
    assert!(compute_allocations(&Vec::new(), 10 * MW).is_empty());
}

#[test]
fn what_the_division_leaves_over_goes_out_in_whole_units() {
    // Each of 1999 equal assets is due 1.000000000999... MW: the shares
    // are cut to 1 MW, and the 1998 units cut off go to the first 1998
    // assets, one each.
    let assets: Vec<Asset> = (0..1_999).map(|k| asset(k, 1, -40, 40)).collect();
    let request: i64 = 1_999 * MW + 1_998;
    let split = compute_site_allocations(&assets, request);
    assert_eq!(total(&split), request);
    for share in &split[..1_998] {
        assert_eq!(share.mw_raw, MW);
        assert_eq!(share.mw, MW + 1);
        assert!(!share.clamped);
    }
    assert_eq!(split[1_998].mw, MW);
}

#[test]
fn a_large_site_delivers_any_request_it_can() {
    let assets: Vec<Asset> = (0..2_000).map(|k| asset(k, 1 + (k as i64 % 7), -40, 40)).collect();
    for request in [1_999, 1_000_000, 7 * MW + 13, -(7 * MW + 13), 79_999 * MW + 1, -80_000 * MW] {
        let split = compute_site_allocations(&assets, request);
        let missing = (request - total(&split)).abs();
        assert!(missing <= TOLERANCE, "request {request} misses {missing}");
        for (share, a) in split.iter().zip(assets.iter()) {
            assert!(a.min_mw <= share.mw && share.mw <= a.max_mw);
        }
    }
}

#[test]
fn units_go_only_to_assets_with_room() {
    // The second asset is full after the first cut; what the division
    // leaves over goes to the others.
    let assets = vec![
        asset(1, 1, -40, 40),
        asset(2, 100, -1, 1),
        asset(3, 1, -40, 40),
        asset(4, 1, -40, 40),
    ];
    let request: i64 = 11 * MW + 3;
    let split = compute_site_allocations(&assets, request);
    assert_eq!(total(&split), request);
    assert_eq!(
        split.iter().map(|a| a.mw).collect::<Vec<i64>>(),
        vec![3_333_333_335, MW, 3_333_333_334, 3_333_333_334]
    );
    assert_eq!(split[0].mw_raw, 106_796_116);
    assert_eq!(split[1].mw_raw, 10_679_611_653);
}

#[test]
fn a_request_beyond_the_limits_delivers_the_sum_of_the_limits() {
    let assets = vec![asset(1, 5, -1, 2), asset(2, 50, -3, 4), asset(3, 500, 0, 1)];
    let up = compute_site_allocations(&assets, 7 * MW + 5_000);
    assert_eq!(total(&up), 7 * MW);
    assert_eq!(up.iter().map(|a| a.mw).collect::<Vec<i64>>(), vec![2 * MW, 4 * MW, MW]);
    let down = compute_site_allocations(&assets, -1_000 * MW);
    assert_eq!(total(&down), -4 * MW);
    assert_eq!(down.iter().map(|a| a.mw).collect::<Vec<i64>>(), vec![-MW, -3 * MW, 0]);
}
