//! Splitting a site-level power request over the assets of the site:
//! capacity-weighted shares, limited to each asset's power range, followed by
//! a bounded number of passes that hand what the limits cut off to the assets
//! that still have room.  A pass spreads the residual in proportion to the
//! room and then hands what the division left over out in whole units, so
//! that nothing is lost to rounding.

use vstd::prelude::*;
use crate::fixed::{
    abs, clamp, clamp_wide, div_toward_zero, trunc_div, lemma_quotient_bounds, EPSILON, LIMIT,
    TOLERANCE,
};
use crate::model::Asset;
use crate::physics::lemma_product_bound;

verus! {

/// Most assets that one request may be split over.
pub const MAX_ASSETS: usize = 1_000_000;

/// Most room that one asset can have: from one end of the widest power range
/// to the other.
pub const ROOM_LIMIT: i64 = 2_000_000_000_000_000;

/// Number of repair passes.
pub const REPAIR_PASSES: usize = 3;

/// The share of a site request that one asset is given.
#[derive(Clone, Copy, Debug, PartialEq, Eq, Structural)]
pub struct AllocationView {
    pub asset_id: u128,
    pub mw_raw: i64,
    pub mw: i64,
    pub clamped: bool,
}

/// Every asset of the list meets the configuration invariants.
pub open spec fn all_wf(assets: Seq<Asset>) -> bool {
    forall|i: int| 0 <= i < assets.len() ==> (#[trigger] assets[i]).wf()
}

/// Sum of the capacities of the first `n` assets.
pub open spec fn capacity_upto(assets: Seq<Asset>, n: nat) -> int
    decreases n,
{
    if n == 0 {
        0
    } else {
        capacity_upto(assets, (n - 1) as nat) + assets[n - 1].capacity_mwhr
    }
}

/// Sum of the capacities of all assets.
pub open spec fn capacity_sum(assets: Seq<Asset>) -> int {
    capacity_upto(assets, assets.len())
}

/// Sum of the first `n` values.
pub open spec fn sum_upto(values: Seq<i64>, n: nat) -> int
    decreases n,
{
    if n == 0 {
        0
    } else {
        sum_upto(values, (n - 1) as nat) + values[n - 1]
    }
}

/// Sum of all values.
pub open spec fn sum_of(values: Seq<i64>) -> int {
    sum_upto(values, values.len())
}

/// The capacity-weighted share of `total` for an asset of capacity `cap`
/// among assets of `cap_sum` in all; zero where there is no capacity to
/// weigh by.
pub open spec fn raw_share(total: int, cap: int, cap_sum: int) -> int {
    if cap_sum <= 0 {
        0
    } else {
        trunc_div(total * cap, cap_sum)
    }
}

/// The raw shares, one per asset.
pub open spec fn raw_split(assets: Seq<Asset>, total: int) -> Seq<i64> {
    Seq::new(
        assets.len(),
        |i: int| raw_share(total, assets[i].capacity_mwhr as int, capacity_sum(assets)) as i64,
    )
}

/// The raw shares, each limited to its asset's power range.
pub open spec fn limited_split(assets: Seq<Asset>, total: int) -> Seq<i64> {
    Seq::new(
        assets.len(),
        |i: int|
            clamp(
                raw_share(total, assets[i].capacity_mwhr as int, capacity_sum(assets)),
                assets[i].min_mw as int,
                assets[i].max_mw as int,
            ) as i64,
    )
}

/// Room that `asset` has left at `value` in the direction of the residual:
/// up to its maximum where more is needed, down to its minimum where less.
pub open spec fn headroom(asset: Asset, value: int, upward: bool) -> int {
    if upward {
        asset.max_mw - value
    } else {
        value - asset.min_mw
    }
}

/// Total room of the first `n` assets in the given direction.
pub open spec fn headroom_upto(assets: Seq<Asset>, values: Seq<i64>, upward: bool, n: nat) -> int
    decreases n,
{
    if n == 0 {
        0
    } else {
        let h = headroom(assets[n - 1], values[n - 1] as int, upward);
        headroom_upto(assets, values, upward, (n - 1) as nat) + if h > 0 {
            h
        } else {
            0
        }
    }
}

/// Total room of all assets in the given direction.
pub open spec fn headroom_sum(assets: Seq<Asset>, values: Seq<i64>, upward: bool) -> int {
    headroom_upto(assets, values, upward, assets.len())
}

/// The value of one asset after a repair pass that spreads `residual` over
/// `room` of total headroom: an asset with room takes the part of the
/// residual that its room is of the total, as far as its limits allow.
pub open spec fn repaired_value(asset: Asset, value: int, residual: int, room: int) -> int {
    let h = headroom(asset, value, residual > 0);
    if h > 0 {
        clamp(value + trunc_div(residual * h, room), asset.min_mw as int, asset.max_mw as int)
    } else {
        value
    }
}

/// A repair pass has nothing to do or nothing to work with.
pub open spec fn repair_stops(assets: Seq<Asset>, values: Seq<i64>, total: int) -> bool {
    let residual = total - sum_of(values);
    abs(residual) <= TOLERANCE || headroom_sum(assets, values, residual > 0) <= EPSILON
}

/// The values after the residual was spread over the room: each asset with
/// room takes its part.
pub open spec fn spread(assets: Seq<Asset>, values: Seq<i64>, total: int) -> Seq<i64> {
    let residual = total - sum_of(values);
    let room = headroom_sum(assets, values, residual > 0);
    Seq::new(
        values.len(),
        |i: int| repaired_value(assets[i], values[i] as int, residual, room) as i64,
    )
}

/// How many of the first `n` assets have room in the given direction.
pub open spec fn roomy_upto(assets: Seq<Asset>, values: Seq<i64>, upward: bool, n: nat) -> nat
    decreases n,
{
    if n == 0 {
        0
    } else {
        roomy_upto(assets, values, upward, (n - 1) as nat) + if headroom(
            assets[n - 1],
            values[n - 1] as int,
            upward,
        ) > 0 {
            1nat
        } else {
            0nat
        }
    }
}

/// Whole units still to hand out after the first `n` assets had their turn:
/// in order, each asset with room takes one unit while any is left.
pub open spec fn units_left(
    assets: Seq<Asset>,
    values: Seq<i64>,
    upward: bool,
    units: int,
    n: nat,
) -> int
    decreases n,
{
    if n == 0 {
        units
    } else {
        let left = units_left(assets, values, upward, units, (n - 1) as nat);
        if left > 0 && headroom(assets[n - 1], values[n - 1] as int, upward) > 0 {
            left - 1
        } else {
            left
        }
    }
}

/// The value of asset `i` after `units` whole units were handed out in
/// order: one unit further in the given direction where a unit was left for
/// it and it had room.
pub open spec fn rounded_value(
    assets: Seq<Asset>,
    values: Seq<i64>,
    upward: bool,
    units: int,
    i: int,
) -> int {
    if units_left(assets, values, upward, units, i as nat) > 0 && headroom(
        assets[i],
        values[i] as int,
        upward,
    ) > 0 {
        if upward {
            values[i] + 1
        } else {
            values[i] - 1
        }
    } else {
        values[i] as int
    }
}

/// The values after `units` whole units were handed out in order.
pub open spec fn rounded(assets: Seq<Asset>, values: Seq<i64>, upward: bool, units: int) -> Seq<
    i64,
> {
    Seq::new(values.len(), |i: int| rounded_value(assets, values, upward, units, i) as i64)
}

/// The values after what is missing from the total was handed out in whole
/// units, one to each asset with room, in order.
pub open spec fn rounded_off(assets: Seq<Asset>, values: Seq<i64>, total: int) -> Seq<i64> {
    let residual = total - sum_of(values);
    rounded(assets, values, residual > 0, abs(residual))
}

/// One repair pass: nothing where it stops; else the residual is spread over
/// the room and what the division left over is handed out in whole units.
pub open spec fn repair_pass(assets: Seq<Asset>, values: Seq<i64>, total: int) -> Seq<i64> {
    if repair_stops(assets, values, total) {
        values
    } else {
        rounded_off(assets, spread(assets, values, total), total)
    }
}

/// `passes` repair passes in a row.
pub open spec fn repaired(assets: Seq<Asset>, values: Seq<i64>, total: int, passes: nat) -> Seq<
    i64,
>
    decreases passes,
{
    if passes == 0 {
        values
    } else {
        repaired(assets, repair_pass(assets, values, total), total, (passes - 1) as nat)
    }
}

/// The power that each asset ends up with.
pub open spec fn final_split(assets: Seq<Asset>, total: int) -> Seq<i64> {
    if capacity_sum(assets) <= 0 {
        raw_split(assets, total)
    } else {
        repaired(assets, limited_split(assets, total), total, REPAIR_PASSES as nat)
    }
}

/// The allocation of `total` over `assets`: for each asset its raw share, its
/// final power, and whether the two differ by more than the tolerance.
pub open spec fn spec_allocations(assets: Seq<Asset>, total: int) -> Seq<AllocationView> {
    Seq::new(
        assets.len(),
        |i: int|
            AllocationView {
                asset_id: assets[i].id,
                mw_raw: raw_split(assets, total)[i],
                mw: final_split(assets, total)[i],
                clamped: abs(raw_split(assets, total)[i] - final_split(assets, total)[i])
                    > TOLERANCE,
            },
    )
}

/// Sum of the powers of the first `n` allocations.
pub open spec fn allocated_upto(allocations: Seq<AllocationView>, n: nat) -> int
    decreases n,
{
    if n == 0 {
        0
    } else {
        allocated_upto(allocations, (n - 1) as nat) + allocations[n - 1].mw
    }
}

/// The power that the allocations hand out between them.
pub open spec fn allocated(allocations: Seq<AllocationView>) -> int {
    allocated_upto(allocations, allocations.len())
}

/// Every value lies within the power range of its asset.
pub open spec fn within_limits(assets: Seq<Asset>, values: Seq<i64>) -> bool {
    &&& values.len() == assets.len()
    &&& forall|i: int|
        0 <= i < assets.len() ==> assets[i].min_mw <= #[trigger] values[i] <= assets[i].max_mw
}

/// The capacities of assets that meet the invariants add up to at least each
/// of them and to at most `LIMIT` apiece.
pub proof fn lemma_capacity_upto(assets: Seq<Asset>, n: nat)
    requires
        all_wf(assets),
        n <= assets.len(),
    ensures
        0 <= capacity_upto(assets, n) <= n * LIMIT,
        forall|i: int|
            0 <= i < n ==> (#[trigger] assets[i]).capacity_mwhr <= capacity_upto(assets, n),
    decreases n,
{
    if n > 0 {
        lemma_capacity_upto(assets, (n - 1) as nat);
        assert(assets[n - 1].wf());
    }
}

/// A sum of `n` 64-bit values is at most `n` times the largest of them.
pub proof fn lemma_sum_upto_bound(values: Seq<i64>, n: nat)
    requires
        n <= values.len(),
    ensures
        -(n * 0x8000_0000_0000_0000) <= sum_upto(values, n) <= n * 0x8000_0000_0000_0000,
    decreases n,
{
    if n > 0 {
        lemma_sum_upto_bound(values, (n - 1) as nat);
    }
}

/// The room of assets holding values within their limits is not negative
/// and at most twice `LIMIT` apiece.
pub proof fn lemma_headroom_upto_bound(assets: Seq<Asset>, values: Seq<i64>, upward: bool, n: nat)
    requires
        all_wf(assets),
        within_limits(assets, values),
        n <= assets.len(),
    ensures
        0 <= headroom_upto(assets, values, upward, n) <= n * ROOM_LIMIT,
        forall|i: int|
            0 <= i < n ==> headroom(#[trigger] assets[i], values[i] as int, upward)
                <= headroom_upto(assets, values, upward, n),
    decreases n,
{
    if n > 0 {
        lemma_headroom_upto_bound(assets, values, upward, (n - 1) as nat);
        assert(assets[n - 1].wf());
        assert(assets[n - 1].min_mw <= values[n - 1] <= assets[n - 1].max_mw);
    }
}

/// A capacity-weighted share is no larger in magnitude than the whole.
pub proof fn lemma_raw_share_bound(total: int, cap: int, cap_sum: int)
    requires
        0 <= cap <= cap_sum,
    ensures
        abs(raw_share(total, cap, cap_sum)) <= abs(total),
{
    if cap_sum > 0 {
        let n = abs(total) * cap;
        assert(0 <= n <= abs(total) * cap_sum) by (nonlinear_arith)
            requires
                0 <= cap <= cap_sum,
                0 <= abs(total),
                n == abs(total) * cap,
        ;
        lemma_quotient_bounds(n, cap_sum);
        let q = n / cap_sum;
        assert(q <= abs(total)) by (nonlinear_arith)
            requires
                cap_sum > 0,
                cap_sum * q <= n,
                n <= abs(total) * cap_sum,
        ;
        if total >= 0 {
            assert(total * cap == n);
        } else {
            assert(-(total * cap) == n) by (nonlinear_arith)
                requires
                    n == (-total) * cap,
            ;
        }
    }
}

/// Sum of the capacities of `assets`.
fn total_capacity(assets: &Vec<Asset>) -> (sum: i128)
    requires
        all_wf(assets@),
        assets.len() <= MAX_ASSETS,
    ensures
        sum == capacity_sum(assets@),
        0 <= sum <= assets.len() * LIMIT,
{
    let mut sum: i128 = 0;
    let mut i: usize = 0;
    while i < assets.len()
        invariant
            all_wf(assets@),
            assets.len() <= MAX_ASSETS,
            i <= assets.len(),
            sum == capacity_upto(assets@, i as nat),
            0 <= sum <= i * LIMIT,
        decreases assets.len() - i,
    {
        assert(assets@[i as int].wf());
        sum = sum + (assets[i].capacity_mwhr as i128);
        i += 1;
    }
    sum
}

/// Sum of `values`.
fn total_of(values: &Vec<i64>) -> (sum: i128)
    requires
        values.len() <= MAX_ASSETS,
    ensures
        sum == sum_of(values@),
{
    let mut sum: i128 = 0;
    let mut i: usize = 0;
    while i < values.len()
        invariant
            values.len() <= MAX_ASSETS,
            i <= values.len(),
            sum == sum_upto(values@, i as nat),
        decreases values.len() - i,
    {
        proof {
            lemma_sum_upto_bound(values@, i as nat);
        }
        sum = sum + (values[i] as i128);
        i += 1;
    }
    sum
}

/// Total room of `assets` at `values` in the given direction.
fn total_headroom(assets: &Vec<Asset>, values: &Vec<i64>, upward: bool) -> (room: i128)
    requires
        all_wf(assets@),
        within_limits(assets@, values@),
        assets.len() <= MAX_ASSETS,
    ensures
        room == headroom_sum(assets@, values@, upward),
{
    let mut room: i128 = 0;
    let mut i: usize = 0;
    while i < assets.len()
        invariant
            all_wf(assets@),
            within_limits(assets@, values@),
            assets.len() <= MAX_ASSETS,
            i <= assets.len(),
            room == headroom_upto(assets@, values@, upward, i as nat),
        decreases assets.len() - i,
    {
        proof {
            lemma_headroom_upto_bound(assets@, values@, upward, i as nat);
            assert(assets@[i as int].wf());
            assert(assets@[i as int].min_mw <= values@[i as int] <= assets@[i as int].max_mw);
        }
        let h: i128 = if upward {
            (assets[i].max_mw as i128) - (values[i] as i128)
        } else {
            (values[i] as i128) - (assets[i].min_mw as i128)
        };
        if h > 0 {
            room = room + h;
        }
        i += 1;
    }
    room
}

/// The raw shares of `total`, given the sum of the capacities.
fn raw_shares(assets: &Vec<Asset>, total: i64, cap_sum: i128) -> (raw: Vec<i64>)
    requires
        all_wf(assets@),
        cap_sum == capacity_sum(assets@),
    ensures
        raw@ == raw_split(assets@, total as int),
        forall|i: int|
            0 <= i < assets.len() ==> #[trigger] raw@[i] == raw_share(
                total as int,
                assets@[i].capacity_mwhr as int,
                capacity_sum(assets@),
            ),
{
    let mut raw: Vec<i64> = Vec::new();
    let mut i: usize = 0;
    while i < assets.len()
        invariant
            all_wf(assets@),
            cap_sum == capacity_sum(assets@),
            i <= assets.len(),
            raw.len() == i,
            forall|j: int| 0 <= j < i ==> raw@[j] == raw_split(assets@, total as int)[j],
            forall|j: int|
                0 <= j < i ==> #[trigger] raw@[j] == raw_share(
                    total as int,
                    assets@[j].capacity_mwhr as int,
                    capacity_sum(assets@),
                ),
        decreases assets.len() - i,
    {
        let share: i64 = if cap_sum <= 0 {
            0
        } else {
            proof {
                assert(assets@[i as int].wf());
                lemma_capacity_upto(assets@, assets@.len());
                lemma_product_bound(
                    total as int,
                    assets@[i as int].capacity_mwhr as int,
                    0x8000_0000_0000_0000,
                    LIMIT as int,
                );
                lemma_raw_share_bound(
                    total as int,
                    assets@[i as int].capacity_mwhr as int,
                    cap_sum as int,
                );
            }
            div_toward_zero((total as i128) * (assets[i].capacity_mwhr as i128), cap_sum) as i64
        };
        raw.push(share);
        i += 1;
    }
    assert(raw@ =~= raw_split(assets@, total as int));
    raw
}

/// The raw shares limited to the power range of each asset.
fn limit_shares(assets: &Vec<Asset>, raw: &Vec<i64>, Ghost(total): Ghost<int>) -> (values: Vec<i64>)
    requires
        all_wf(assets@),
        raw@ == raw_split(assets@, total),
        forall|i: int|
            0 <= i < assets.len() ==> #[trigger] raw@[i] == raw_share(
                total,
                assets@[i].capacity_mwhr as int,
                capacity_sum(assets@),
            ),
    ensures
        values@ == limited_split(assets@, total),
        within_limits(assets@, values@),
{
    let mut values: Vec<i64> = Vec::new();
    let mut i: usize = 0;
    while i < assets.len()
        invariant
            all_wf(assets@),
            raw@ == raw_split(assets@, total),
            forall|i: int|
                0 <= i < assets.len() ==> #[trigger] raw@[i] == raw_share(
                    total,
                    assets@[i].capacity_mwhr as int,
                    capacity_sum(assets@),
                ),
            i <= assets.len(),
            values.len() == i,
            forall|j: int| 0 <= j < i ==> values@[j] == limited_split(assets@, total)[j],
            forall|j: int|
                0 <= j < i ==> assets@[j].min_mw <= #[trigger] values@[j] <= assets@[j].max_mw,
        decreases assets.len() - i,
    {
        assert(assets@[i as int].wf());
        let value: i128 = clamp_wide(
            raw[i] as i128,
            assets[i].min_mw as i128,
            assets[i].max_mw as i128,
        );
        values.push(value as i64);
        i += 1;
    }
    assert(values@ =~= limited_split(assets@, total));
    values
}

/// Values within the limits of their assets add up to at most `LIMIT` apiece.
pub proof fn lemma_sum_within_limits(assets: Seq<Asset>, values: Seq<i64>, n: nat)
    requires
        all_wf(assets),
        within_limits(assets, values),
        n <= assets.len(),
    ensures
        -(n * LIMIT) <= sum_upto(values, n) <= n * LIMIT,
    decreases n,
{
    if n > 0 {
        lemma_sum_within_limits(assets, values, (n - 1) as nat);
        assert(assets[n - 1].wf());
        assert(assets[n - 1].min_mw <= values[n - 1] <= assets[n - 1].max_mw);
    }
}

/// Hands what `values` miss of `total` out in whole units, one to each asset
/// with room, in order.
fn round_off(assets: &Vec<Asset>, values: &mut Vec<i64>, total: i64)
    requires
        all_wf(assets@),
        within_limits(assets@, old(values)@),
        assets.len() <= MAX_ASSETS,
    ensures
        final(values)@ == rounded_off(assets@, old(values)@, total as int),
        within_limits(assets@, final(values)@),
{
    let sum: i128 = total_of(values);
    proof {
        lemma_sum_within_limits(assets@, values@, values@.len());
    }
    let residual: i128 = (total as i128) - sum;
    let upward: bool = residual > 0;
    let units: i128 = if residual < 0 {
        -residual
    } else {
        residual
    };
    let mut left: i128 = units;
    let ghost before = values@;
    let ghost after = rounded_off(assets@, before, total as int);
    let mut i: usize = 0;
    while i < assets.len()
        invariant
            all_wf(assets@),
            within_limits(assets@, before),
            within_limits(assets@, values@),
            i <= assets.len(),
            upward == (total - sum_of(before) > 0),
            units == abs(total - sum_of(before)),
            after == rounded(assets@, before, upward, units as int),
            left == units_left(assets@, before, upward, units as int, i as nat),
            0 <= left <= units,
            forall|j: int| 0 <= j < i ==> values@[j] == after[j],
            forall|j: int| i <= j < assets.len() ==> values@[j] == before[j],
        decreases assets.len() - i,
    {
        proof {
            assert(assets@[i as int].wf());
            assert(assets@[i as int].min_mw <= before[i as int] <= assets@[i as int].max_mw);
        }
        let value: i64 = values[i];
        let roomy: bool = if upward {
            value < assets[i].max_mw
        } else {
            value > assets[i].min_mw
        };
        if left > 0 && roomy {
            let moved: i64 = if upward {
                value + 1
            } else {
                value - 1
            };
            values.set(i, moved);
            left = left - 1;
        }
        proof {
            assert(values@[i as int] == after[i as int]);
        }
        i += 1;
    }
    assert(values@ =~= after);
}

/// One repair pass over `values`.
fn repair_once(assets: &Vec<Asset>, values: &mut Vec<i64>, total: i64)
    requires
        all_wf(assets@),
        within_limits(assets@, old(values)@),
        assets.len() <= MAX_ASSETS,
    ensures
        final(values)@ == repair_pass(assets@, old(values)@, total as int),
        within_limits(assets@, final(values)@),
{
    let sum: i128 = total_of(values);
    proof {
        lemma_sum_within_limits(assets@, values@, values@.len());
    }
    let residual: i128 = (total as i128) - sum;
    if -(TOLERANCE as i128) <= residual && residual <= (TOLERANCE as i128) {
        return ;
    }
    let upward: bool = residual > 0;
    let room: i128 = total_headroom(assets, values, upward);
    if room <= (EPSILON as i128) {
        return ;
    }
    let ghost before = values@;
    let ghost after = spread(assets@, before, total as int);
    let mut i: usize = 0;
    while i < assets.len()
        invariant
            all_wf(assets@),
            within_limits(assets@, before),
            within_limits(assets@, values@),
            assets.len() <= MAX_ASSETS,
            i <= assets.len(),
            residual == total - sum_of(before),
            -(0x8000_0000_0000_0000 + MAX_ASSETS * LIMIT) <= residual <= 0x8000_0000_0000_0000
                + MAX_ASSETS * LIMIT,
            upward == (residual > 0),
            room == headroom_sum(assets@, before, upward),
            room > EPSILON,
            after == spread(assets@, before, total as int),
            !repair_stops(assets@, before, total as int),
            forall|j: int| 0 <= j < i ==> values@[j] == after[j],
            forall|j: int| i <= j < assets.len() ==> values@[j] == before[j],
        decreases assets.len() - i,
    {
        proof {
            assert(assets@[i as int].wf());
            assert(assets@[i as int].min_mw <= before[i as int] <= assets@[i as int].max_mw);
        }
        let value: i128 = values[i] as i128;
        let h: i128 = if upward {
            (assets[i].max_mw as i128) - value
        } else {
            value - (assets[i].min_mw as i128)
        };
        if h > 0 {
            proof {
                lemma_product_bound(
                    residual as int,
                    h as int,
                    0x8000_0000_0000_0000 + MAX_ASSETS * LIMIT,
                    ROOM_LIMIT as int,
                );
            }
            let delta: i128 = div_toward_zero(residual * h, room);
            let moved: i128 = clamp_wide(
                value + delta,
                assets[i].min_mw as i128,
                assets[i].max_mw as i128,
            );
            values.set(i, moved as i64);
        }
        proof {
            assert(values@[i as int] == after[i as int]);
        }
        i += 1;
    }
    assert(values@ =~= after);
    round_off(assets, values, total);
}

/// Splits `mw_total` over `assets` by capacity, keeps every share within the
/// power range of its asset, and repairs what the limits cut off in at most
/// three passes.  The result depends on nothing but the order, capacities and
/// limits of the assets and the total.  Where there is capacity to weigh by,
/// the shares add up, within the tolerance, to what the assets can deliver
/// of the total: to the total itself where it lies between the sums of their
/// power limits.
pub fn compute_site_allocations(assets: &Vec<Asset>, mw_total: i64) -> (allocations: Vec<
    AllocationView,
>)
    requires
        all_wf(assets@),
        assets.len() <= MAX_ASSETS,
    ensures
        allocations@ == spec_allocations(assets@, mw_total as int),
        forall|i: int|
            0 <= i < assets.len() ==> assets[i].min_mw <= (#[trigger] allocations[i]).mw
                <= assets[i].max_mw,
        capacity_sum(assets@) > 0 ==> abs(
            deliverable(assets@, mw_total as int) - allocated(allocations@),
        ) <= TOLERANCE,
        capacity_sum(assets@) > 0 && feasible(assets@, mw_total as int) ==> abs(
            mw_total - allocated(allocations@),
        ) <= TOLERANCE,
{
    let cap_sum: i128 = total_capacity(assets);
    let raw: Vec<i64> = raw_shares(assets, mw_total, cap_sum);
    let mut values: Vec<i64>;
    if cap_sum <= 0 {
        values = raw_shares(assets, mw_total, cap_sum);
        proof {
            assert forall|i: int| 0 <= i < assets.len() implies assets@[i].min_mw
                <= #[trigger] values@[i] <= assets@[i].max_mw by {
                assert(assets@[i].wf());
            }
        }
    } else {
        values = limit_shares(assets, &raw, Ghost(mw_total as int));
        let mut pass: usize = 0;
        while pass < REPAIR_PASSES
            invariant
                all_wf(assets@),
                assets.len() <= MAX_ASSETS,
                within_limits(assets@, values@),
                pass <= REPAIR_PASSES,
                repaired(assets@, values@, mw_total as int, (REPAIR_PASSES - pass) as nat)
                    == final_split(assets@, mw_total as int),
                capacity_sum(assets@) > 0,
            decreases REPAIR_PASSES - pass,
        {
            repair_once(assets, &mut values, mw_total);
            pass += 1;
        }
    }
    assert(values@ == final_split(assets@, mw_total as int));
    let mut allocations: Vec<AllocationView> = Vec::new();
    let mut i: usize = 0;
    while i < assets.len()
        invariant
            within_limits(assets@, values@),
            raw@ == raw_split(assets@, mw_total as int),
            values@ == final_split(assets@, mw_total as int),
            i <= assets.len(),
            allocations.len() == i,
            forall|j: int|
                0 <= j < i ==> allocations@[j] == spec_allocations(assets@, mw_total as int)[j],
        decreases assets.len() - i,
    {
        let gap: i128 = (raw[i] as i128) - (values[i] as i128);
        allocations.push(
            AllocationView {
                asset_id: assets[i].id,
                mw_raw: raw[i],
                mw: values[i],
                clamped: gap > (TOLERANCE as i128) || gap < -(TOLERANCE as i128),
            },
        );
        i += 1;
    }
    assert(allocations@ =~= spec_allocations(assets@, mw_total as int));
    proof {
        if capacity_sum(assets@) > 0 {
            lemma_allocation_delivers(assets@, mw_total as int);
            lemma_allocated_is_sum(assets@, mw_total as int, assets@.len());
        }
    }
    allocations
}

/// Sum of the lower power limits of the first `n` assets.
pub open spec fn min_upto(assets: Seq<Asset>, n: nat) -> int
    decreases n,
{
    if n == 0 {
        0
    } else {
        min_upto(assets, (n - 1) as nat) + assets[n - 1].min_mw
    }
}

/// Sum of the upper power limits of the first `n` assets.
pub open spec fn max_upto(assets: Seq<Asset>, n: nat) -> int
    decreases n,
{
    if n == 0 {
        0
    } else {
        max_upto(assets, (n - 1) as nat) + assets[n - 1].max_mw
    }
}

/// The assets can deliver `total` between them.
pub open spec fn feasible(assets: Seq<Asset>, total: int) -> bool {
    min_upto(assets, assets.len()) <= total <= max_upto(assets, assets.len())
}

/// Two lists of assets agree in what the allocator reads: identity,
/// capacity and power limits, in the same order.
pub open spec fn same_limits(a: Seq<Asset>, b: Seq<Asset>) -> bool {
    &&& a.len() == b.len()
    &&& forall|i: int|
        0 <= i < a.len() ==> {
            &&& (#[trigger] a[i]).id == b[i].id
            &&& a[i].capacity_mwhr == b[i].capacity_mwhr
            &&& a[i].min_mw == b[i].min_mw
            &&& a[i].max_mw == b[i].max_mw
        }
}

/// The room of assets holding values within their limits is the distance of
/// the sum of the values from the sum of the limits.
pub proof fn lemma_headroom_is_distance(assets: Seq<Asset>, values: Seq<i64>, n: nat)
    requires
        within_limits(assets, values),
        n <= assets.len(),
    ensures
        headroom_upto(assets, values, true, n) == max_upto(assets, n) - sum_upto(values, n),
        headroom_upto(assets, values, false, n) == sum_upto(values, n) - min_upto(assets, n),
    decreases n,
{
    if n > 0 {
        lemma_headroom_is_distance(assets, values, (n - 1) as nat);
        assert(assets[n - 1].min_mw <= values[n - 1] <= assets[n - 1].max_mw);
    }
}

/// The part `m * h / room` of a residual `m` that falls to room `h` of
/// `room` in all is at most `h`, and misses the exact part by less than one.
pub proof fn lemma_part(m: int, h: int, room: int)
    by (nonlinear_arith)
    requires
        0 <= m <= room,
        0 <= h,
        0 < room,
    ensures
        0 <= (m * h) / room <= h,
        room * ((m * h) / room) <= m * h <= room * ((m * h) / room) + room - 1,
{
}

/// The part of a residual handed to an asset, by magnitude and direction.
pub proof fn lemma_part_signed(residual: int, h: int, room: int)
    requires
        residual != 0,
        0 <= h,
        0 < room,
    ensures
        residual > 0 ==> trunc_div(residual * h, room) == (abs(residual) * h) / room,
        residual < 0 ==> trunc_div(residual * h, room) == -((abs(residual) * h) / room),
{
    let m = abs(residual);
    assert(m * h >= 0) by (nonlinear_arith)
        requires
            m >= 0,
            h >= 0,
    ;
    if residual < 0 {
        assert(residual * h == -(m * h)) by (nonlinear_arith)
            requires
                m == -residual,
        ;
        if m * h == 0 {
            assert(0int / room == 0) by (nonlinear_arith)
                requires
                    room > 0,
            ;
        }
    }
}

/// A residual smaller than the room gives an asset with room less than its
/// room.
pub proof fn lemma_part_strict(m: int, h: int, room: int)
    by (nonlinear_arith)
    requires
        0 <= m < room,
        0 < h,
    ensures
        (m * h) / room < h,
{
}

/// A residual of at least the room gives an asset at least its room.
pub proof fn lemma_part_full(m: int, h: int, room: int)
    by (nonlinear_arith)
    requires
        0 < room <= m,
        0 <= h,
    ensures
        (m * h) / room >= h,
{
}

/// What spreading a residual smaller than the room does to the first `n`
/// values: every value stays within its limits, an asset with room keeps
/// some of it, and the sum moves toward the total by the residual's share of
/// the room seen so far, short by less than one unit per asset with room.
pub proof fn lemma_spread_prefix(assets: Seq<Asset>, values: Seq<i64>, total: int, n: nat)
    requires
        all_wf(assets),
        within_limits(assets, values),
        n <= assets.len(),
        total - sum_of(values) != 0,
        abs(total - sum_of(values)) < headroom_sum(assets, values, total - sum_of(values) > 0),
    ensures
        ({
            let residual = total - sum_of(values);
            let upward = residual > 0;
            let m = abs(residual);
            let room = headroom_sum(assets, values, upward);
            let next = spread(assets, values, total);
            let seen = headroom_upto(assets, values, upward, n);
            let roomy = roomy_upto(assets, values, upward, n);
            let moved = if upward {
                sum_upto(next, n) - sum_upto(values, n)
            } else {
                sum_upto(values, n) - sum_upto(next, n)
            };
            &&& room * moved <= m * seen <= room * moved + roomy * (room - 1)
            &&& roomy_upto(assets, next, upward, n) == roomy
            &&& forall|i: int|
                0 <= i < n ==> assets[i].min_mw <= #[trigger] next[i] <= assets[i].max_mw
        }),
    decreases n,
{
    let residual = total - sum_of(values);
    let m = abs(residual);
    let upward = residual > 0;
    let room = headroom_sum(assets, values, upward);
    let next = spread(assets, values, total);
    if n == 0 {
        assert(m * 0 == 0) by (nonlinear_arith);
        assert(room * 0 == 0) by (nonlinear_arith);
        assert(0 * (room - 1) == 0) by (nonlinear_arith);
    } else {
        let k = (n - 1) as nat;
        lemma_spread_prefix(assets, values, total, k);
        let asset = assets[n - 1];
        let value = values[n - 1] as int;
        assert(asset.wf());
        assert(asset.min_mw <= values[n - 1] <= asset.max_mw);
        let h = headroom(asset, value, upward);
        let seen_k = headroom_upto(assets, values, upward, k);
        let roomy_k = roomy_upto(assets, values, upward, k);
        let moved_k = if upward {
            sum_upto(next, k) - sum_upto(values, k)
        } else {
            sum_upto(values, k) - sum_upto(next, k)
        };
        assert(next[n - 1] == repaired_value(asset, value, residual, room) as i64);
        if h > 0 {
            lemma_part(m, h, room);
            lemma_part_strict(m, h, room);
            lemma_part_signed(residual, h, room);
            let q = (m * h) / room;
            assert(m * (seen_k + h) == m * seen_k + m * h) by (nonlinear_arith);
            assert(room * (moved_k + q) == room * moved_k + room * q) by (nonlinear_arith);
            assert((roomy_k + 1) * (room - 1) == roomy_k * (room - 1) + (room - 1))
                by (nonlinear_arith);
            if upward {
                assert(next[n - 1] == value + q);
            } else {
                assert(next[n - 1] == value - q);
            }
            assert(headroom(asset, next[n - 1] as int, upward) == h - q);
        } else {
            assert(next[n - 1] == value);
        }
    }
}

/// What spreading a residual of at least the room does to the first `n`
/// values: every asset ends at its limit in the direction of the residual.
pub proof fn lemma_spread_saturates(assets: Seq<Asset>, values: Seq<i64>, total: int, n: nat)
    requires
        all_wf(assets),
        within_limits(assets, values),
        n <= assets.len(),
        total - sum_of(values) != 0,
        0 < headroom_sum(assets, values, total - sum_of(values) > 0) <= abs(
            total - sum_of(values),
        ),
    ensures
        ({
            let upward = total - sum_of(values) > 0;
            let next = spread(assets, values, total);
            &&& roomy_upto(assets, next, upward, n) == 0
            &&& sum_upto(next, n) == if upward {
                max_upto(assets, n)
            } else {
                min_upto(assets, n)
            }
            &&& forall|i: int|
                0 <= i < n ==> assets[i].min_mw <= #[trigger] next[i] <= assets[i].max_mw
        }),
    decreases n,
{
    let residual = total - sum_of(values);
    let m = abs(residual);
    let upward = residual > 0;
    let room = headroom_sum(assets, values, upward);
    let next = spread(assets, values, total);
    if n > 0 {
        lemma_spread_saturates(assets, values, total, (n - 1) as nat);
        let asset = assets[n - 1];
        let value = values[n - 1] as int;
        assert(asset.wf());
        assert(asset.min_mw <= values[n - 1] <= asset.max_mw);
        let h = headroom(asset, value, upward);
        assert(next[n - 1] == repaired_value(asset, value, residual, room) as i64);
        if h > 0 {
            lemma_part_full(m, h, room);
            lemma_part_signed(residual, h, room);
        }
        if upward {
            assert(next[n - 1] == asset.max_mw);
        } else {
            assert(next[n - 1] == asset.min_mw);
        }
    }
}

/// What handing out `units` whole units does to the first `n` values: every
/// value stays within its limits, each asset with room takes one unit until
/// none is left, and the sum moves by what was handed out.
pub proof fn lemma_round_off(
    assets: Seq<Asset>,
    values: Seq<i64>,
    upward: bool,
    units: int,
    n: nat,
)
    requires
        all_wf(assets),
        within_limits(assets, values),
        n <= assets.len(),
        0 <= units,
    ensures
        ({
            let next = rounded(assets, values, upward, units);
            let left = units_left(assets, values, upward, units, n);
            let roomy = roomy_upto(assets, values, upward, n);
            let moved = if upward {
                sum_upto(next, n) - sum_upto(values, n)
            } else {
                sum_upto(values, n) - sum_upto(next, n)
            };
            &&& left == if units > roomy {
                units - roomy
            } else {
                0
            }
            &&& moved == units - left
            &&& forall|i: int|
                0 <= i < n ==> assets[i].min_mw <= #[trigger] next[i] <= assets[i].max_mw
        }),
    decreases n,
{
    let next = rounded(assets, values, upward, units);
    if n > 0 {
        let k = (n - 1) as nat;
        lemma_round_off(assets, values, upward, units, k);
        let asset = assets[n - 1];
        assert(asset.wf());
        assert(asset.min_mw <= values[n - 1] <= asset.max_mw);
        assert(next[n - 1] == rounded_value(assets, values, upward, units, n - 1) as i64);
    }
}

/// The sum of values within their limits lies between the sums of the
/// limits.
pub proof fn lemma_sum_between_limits(assets: Seq<Asset>, values: Seq<i64>, n: nat)
    requires
        within_limits(assets, values),
        n <= assets.len(),
    ensures
        min_upto(assets, n) <= sum_upto(values, n) <= max_upto(assets, n),
    decreases n,
{
    if n > 0 {
        lemma_sum_between_limits(assets, values, (n - 1) as nat);
        assert(assets[n - 1].min_mw <= values[n - 1] <= assets[n - 1].max_mw);
    }
}

/// The total that the assets can deliver between them and that is nearest
/// to `total`: `total` itself where it lies between the sums of the power
/// limits, else the sum that it lies beyond.
pub open spec fn deliverable(assets: Seq<Asset>, total: int) -> int {
    clamp(total, min_upto(assets, assets.len()), max_upto(assets, assets.len()))
}

/// One repair pass over values within their limits leaves every value
/// within its limits and the sum within the tolerance of what the assets can
/// deliver of the total.
pub proof fn lemma_pass_conserves(assets: Seq<Asset>, values: Seq<i64>, total: int)
    requires
        all_wf(assets),
        within_limits(assets, values),
    ensures
        within_limits(assets, repair_pass(assets, values, total)),
        abs(deliverable(assets, total) - sum_of(repair_pass(assets, values, total)))
            <= TOLERANCE,
{
    let n = assets.len();
    let residual = total - sum_of(values);
    let m = abs(residual);
    let upward = residual > 0;
    let room = headroom_sum(assets, values, upward);
    lemma_headroom_is_distance(assets, values, n);
    lemma_sum_between_limits(assets, values, n);
    if !repair_stops(assets, values, total) {
        let mid = spread(assets, values, total);
        let next = rounded_off(assets, mid, total);
        assert(mid.len() == n);
        let rest = total - sum_of(mid);
        if m >= room {
            lemma_spread_saturates(assets, values, total, n);
            assert(within_limits(assets, mid));
            lemma_round_off(assets, mid, rest > 0, abs(rest), n);
            assert(rest != 0 ==> (rest > 0) == upward);
            assert(sum_of(next) == sum_of(mid));
        } else {
            lemma_spread_prefix(assets, values, total, n);
            assert(within_limits(assets, mid));
            let roomy = roomy_upto(assets, values, upward, n);
            let moved = if upward {
                sum_upto(mid, n) - sum_upto(values, n)
            } else {
                sum_upto(values, n) - sum_upto(mid, n)
            };
            assert(moved <= m) by (nonlinear_arith)
                requires
                    room * moved <= m * room,
                    room > 0,
            ;
            assert(m - moved <= roomy) by (nonlinear_arith)
                requires
                    m * room <= room * moved + roomy * (room - 1),
                    room > 0,
                    roomy >= 0,
            ;
            assert(abs(rest) == m - moved);
            assert(rest != 0 ==> (rest > 0) == upward);
            lemma_round_off(assets, mid, rest > 0, abs(rest), n);
            assert(sum_of(next) == total);
        }
        assert(within_limits(assets, next));
        lemma_sum_between_limits(assets, next, n);
    }
}

/// The allocations hand out what the final powers add up to.
pub proof fn lemma_allocated_is_sum(assets: Seq<Asset>, total: int, n: nat)
    requires
        n <= assets.len(),
        final_split(assets, total).len() == assets.len(),
    ensures
        allocated_upto(spec_allocations(assets, total), n) == sum_upto(
            final_split(assets, total),
            n,
        ),
    decreases n,
{
    if n > 0 {
        lemma_allocated_is_sum(assets, total, (n - 1) as nat);
    }
}

/// Conservation law: where the assets have capacity to weigh by and can
/// deliver the total between them, the final powers add up to the total
/// within the tolerance, however many assets there are, and each lies within
/// the power range of its asset.
pub proof fn lemma_allocation_conserves(assets: Seq<Asset>, total: int)
    requires
        all_wf(assets),
        capacity_sum(assets) > 0,
        feasible(assets, total),
    ensures
        abs(total - sum_of(final_split(assets, total))) <= TOLERANCE,
        abs(total - allocated(spec_allocations(assets, total))) <= TOLERANCE,
        within_limits(assets, final_split(assets, total)),
{
    lemma_allocation_delivers(assets, total);
}

/// Conservation law for any total: where the assets have capacity to weigh
/// by, the final powers add up, within the tolerance, to what the assets can
/// deliver of the total.  That is the total itself where it lies between the
/// sums of the power limits, and the sum of the limits on its side where it
/// lies beyond: the assets are then driven to their limits.
pub proof fn lemma_allocation_delivers(assets: Seq<Asset>, total: int)
    requires
        all_wf(assets),
        capacity_sum(assets) > 0,
    ensures
        abs(deliverable(assets, total) - sum_of(final_split(assets, total))) <= TOLERANCE,
        abs(deliverable(assets, total) - allocated(spec_allocations(assets, total)))
            <= TOLERANCE,
        within_limits(assets, final_split(assets, total)),
{
    let start = limited_split(assets, total);
    assert(within_limits(assets, start)) by {
        assert forall|i: int| 0 <= i < assets.len() implies assets[i].min_mw
            <= #[trigger] start[i] <= assets[i].max_mw by {
            assert(assets[i].wf());
        }
    }
    let first = repair_pass(assets, start, total);
    lemma_pass_conserves(assets, start, total);
    let second = repair_pass(assets, first, total);
    lemma_pass_conserves(assets, first, total);
    let third = repair_pass(assets, second, total);
    lemma_pass_conserves(assets, second, total);
    assert(repaired(assets, start, total, 3) == third) by {
        reveal_with_fuel(repaired, 4);
    }
    lemma_allocated_is_sum(assets, total, assets.len());
}

/// Determinism: the allocation is a function of the total and of the
/// identity, capacity and power limits of the assets in their order.
pub proof fn lemma_allocation_deterministic(a: Seq<Asset>, b: Seq<Asset>, total: int)
    requires
        same_limits(a, b),
    ensures
        spec_allocations(a, total) == spec_allocations(b, total),
{
    lemma_same_capacity(a, b, a.len());
    assert(raw_split(a, total) =~= raw_split(b, total));
    let start_a = limited_split(a, total);
    let start_b = limited_split(b, total);
    assert(start_a =~= start_b);
    lemma_same_repair(a, b, start_a, total, REPAIR_PASSES as nat);
    assert(spec_allocations(a, total) =~= spec_allocations(b, total));
}

/// Lists that agree in what the allocator reads have the same capacity.
pub proof fn lemma_same_capacity(a: Seq<Asset>, b: Seq<Asset>, n: nat)
    requires
        same_limits(a, b),
        n <= a.len(),
    ensures
        capacity_upto(a, n) == capacity_upto(b, n),
    decreases n,
{
    if n > 0 {
        lemma_same_capacity(a, b, (n - 1) as nat);
    }
}

/// Lists that agree in what the allocator reads have the same room.
pub proof fn lemma_same_headroom(
    a: Seq<Asset>,
    b: Seq<Asset>,
    values: Seq<i64>,
    upward: bool,
    n: nat,
)
    requires
        same_limits(a, b),
        n <= a.len(),
    ensures
        headroom_upto(a, values, upward, n) == headroom_upto(b, values, upward, n),
    decreases n,
{
    if n > 0 {
        lemma_same_headroom(a, b, values, upward, (n - 1) as nat);
    }
}

/// Lists that agree in what the allocator reads hand whole units out alike.
pub proof fn lemma_same_units(
    a: Seq<Asset>,
    b: Seq<Asset>,
    values: Seq<i64>,
    upward: bool,
    units: int,
    n: nat,
)
    requires
        same_limits(a, b),
        n <= a.len(),
    ensures
        units_left(a, values, upward, units, n) == units_left(b, values, upward, units, n),
    decreases n,
{
    if n > 0 {
        lemma_same_units(a, b, values, upward, units, (n - 1) as nat);
        assert(a[n - 1].min_mw == b[n - 1].min_mw);
    }
}

/// Lists that agree in what the allocator reads are repaired alike in one
/// pass.
pub proof fn lemma_same_pass(a: Seq<Asset>, b: Seq<Asset>, values: Seq<i64>, total: int)
    requires
        same_limits(a, b),
        values.len() == a.len(),
    ensures
        repair_pass(a, values, total) == repair_pass(b, values, total),
{
    let residual = total - sum_of(values);
    let upward = residual > 0;
    lemma_same_headroom(a, b, values, upward, a.len());
    let room = headroom_sum(a, values, upward);
    assert(room == headroom_sum(b, values, upward));
    assert(repair_stops(a, values, total) == repair_stops(b, values, total));
    if !repair_stops(a, values, total) {
        assert forall|i: int| 0 <= i < values.len() implies repaired_value(
            a[i],
            values[i] as int,
            residual,
            room,
        ) == repaired_value(b[i], values[i] as int, residual, room) by {
            assert(a[i].min_mw == b[i].min_mw);
        }
        let mid = spread(a, values, total);
        assert(mid =~= spread(b, values, total));
        let rest = total - sum_of(mid);
        let up = rest > 0;
        let units = abs(rest);
        assert forall|i: int| 0 <= i < mid.len() implies #[trigger] rounded_value(
            a,
            mid,
            up,
            units,
            i,
        ) == rounded_value(b, mid, up, units, i) by {
            lemma_same_units(a, b, mid, up, units, i as nat);
            assert(a[i].min_mw == b[i].min_mw);
        }
        assert(rounded(a, mid, up, units) =~= rounded(b, mid, up, units));
        assert(rounded_off(a, mid, total) =~= rounded_off(b, mid, total));
    }
}

/// Lists that agree in what the allocator reads are repaired alike.
pub proof fn lemma_same_repair(
    a: Seq<Asset>,
    b: Seq<Asset>,
    values: Seq<i64>,
    total: int,
    passes: nat,
)
    requires
        same_limits(a, b),
        values.len() == a.len(),
    ensures
        repaired(a, values, total, passes) == repaired(b, values, total, passes),
    decreases passes,
{
    if passes > 0 {
        lemma_same_pass(a, b, values, total);
        assert(repair_pass(a, values, total).len() == values.len());
        lemma_same_repair(a, b, repair_pass(a, values, total), total, (passes - 1) as nat);
    }
}

/// An equal share of `total` for each of `n` assets, each limited to the
/// power range of its asset.
pub open spec fn equal_split(assets: Seq<Asset>, total: int) -> Seq<i64> {
    Seq::new(
        assets.len(),
        |i: int|
            clamp(
                trunc_div(total, assets.len() as int),
                assets[i].min_mw as int,
                assets[i].max_mw as int,
            ) as i64,
    )
}

/// The power that each local asset of a gateway ends up with: as for a site
/// request, but with equal shares where there is no capacity to weigh by.
pub open spec fn local_split(assets: Seq<Asset>, total: int) -> Seq<i64> {
    if capacity_sum(assets) <= 0 {
        equal_split(assets, total)
    } else {
        repaired(assets, limited_split(assets, total), total, REPAIR_PASSES as nat)
    }
}

/// Splits `mw_total` over the local assets of a gateway.
pub fn compute_allocations(assets: &Vec<Asset>, mw_total: i64) -> (values: Vec<i64>)
    requires
        all_wf(assets@),
        assets.len() <= MAX_ASSETS,
    ensures
        values@ == local_split(assets@, mw_total as int),
        within_limits(assets@, values@),
        capacity_sum(assets@) > 0 ==> abs(deliverable(assets@, mw_total as int) - sum_of(values@))
            <= TOLERANCE,
{
    let cap_sum: i128 = total_capacity(assets);
    let mut values: Vec<i64> = Vec::new();
    if assets.len() == 0 {
        assert(values@ =~= local_split(assets@, mw_total as int)) by {
            reveal_with_fuel(repaired, 4);
        }
        return values;
    }
    if cap_sum <= 0 {
        let per: i128 = div_toward_zero(mw_total as i128, assets.len() as i128);
        let mut i: usize = 0;
        while i < assets.len()
            invariant
                all_wf(assets@),
                i <= assets.len(),
                values.len() == i,
                per == trunc_div(mw_total as int, assets.len() as int),
                forall|j: int|
                    0 <= j < i ==> values@[j] == equal_split(assets@, mw_total as int)[j],
                forall|j: int|
                    0 <= j < i ==> assets@[j].min_mw <= #[trigger] values@[j] <= assets@[j].max_mw,
            decreases assets.len() - i,
        {
            assert(assets@[i as int].wf());
            let value: i128 = clamp_wide(per, assets[i].min_mw as i128, assets[i].max_mw as i128);
            values.push(value as i64);
            i += 1;
        }
        assert(values@ =~= equal_split(assets@, mw_total as int));
        return values;
    }
    let raw: Vec<i64> = raw_shares(assets, mw_total, cap_sum);
    values = limit_shares(assets, &raw, Ghost(mw_total as int));
    let mut pass: usize = 0;
    while pass < REPAIR_PASSES
        invariant
            all_wf(assets@),
            assets.len() <= MAX_ASSETS,
            within_limits(assets@, values@),
            pass <= REPAIR_PASSES,
            repaired(assets@, values@, mw_total as int, (REPAIR_PASSES - pass) as nat)
                == local_split(assets@, mw_total as int),
            capacity_sum(assets@) > 0,
        decreases REPAIR_PASSES - pass,
    {
        repair_once(assets, &mut values, mw_total);
        pass += 1;
    }
    proof {
        lemma_allocation_delivers(assets@, mw_total as int);
    }
    values
}

} // verus!
