//! The bootstrap responder: for each asset an agent asks about, the latest
//! telemetry and the active setpoint, each taken from the first source that
//! has it.

use vstd::prelude::*;
use crate::clock::now_millis;
use crate::ident::{hyphenated, parse_uuid, uuid_of_text, uuid_text};
use crate::idmap::IdMap;
use crate::journal::{is_row_telemetry, DispatchSnapshotRow, TelemetrySnapshotRow};
use crate::model::{Asset, BessState, Telemetry};
use crate::physics::{snapshot_of, spec_tick, tick_asset_at};
use crate::simulator::Simulator;
use crate::wire::{
    is_setpoint_of, is_setpoint_of_state, is_wire_telemetry, setpoint_from_dispatch,
    setpoint_from_state, telemetry_to_proto, Setpoint, WireTelemetry,
};

verus! {

/// What the headend knows of one asset that an agent asked about.
#[derive(Debug)]
pub struct BootstrapEntry {
    pub asset_id: u128,
    pub telemetry: Option<Telemetry>,
    pub setpoint: Option<Setpoint>,
}

/// One asset of a bootstrap answer on the wire.
#[derive(Debug)]
pub struct AssetBootstrap {
    pub asset_id: String,
    pub telemetry: Option<WireTelemetry>,
    pub setpoint: Option<Setpoint>,
}

/// A bootstrap answer on the wire.
#[derive(Debug)]
pub struct BootstrapResponse {
    pub assets: Vec<AssetBootstrap>,
}

/// Where the telemetry of a bootstrap entry comes from.
pub enum TelemetrySource {
    /// The latest record received from an agent.
    Cache,
    /// The journal row at this place of the rows read back.
    Journal(int),
    /// A step of length zero on the live state.
    Synthetic,
    /// Nowhere: the asset is unknown and nothing was ever recorded for it.
    Missing,
}

/// Where the setpoint of a bootstrap entry comes from.
pub enum SetpointSource {
    /// The last dispatch submitted since the start, held in memory.
    Memory,
    /// The journal row at this place of the rows read back.
    Journal(int),
    /// The setpoint of the live state, where it is not zero.
    State,
    /// Nowhere.
    Missing,
}

/// The place of the last of the first `n` telemetry rows that is of `id`.
pub open spec fn last_telemetry_row(rows: Seq<TelemetrySnapshotRow>, id: u128, n: nat) -> Option<
    int,
>
    decreases n,
{
    if n == 0 {
        None
    } else if rows[n - 1].asset_id == id {
        Some(n - 1)
    } else {
        last_telemetry_row(rows, id, (n - 1) as nat)
    }
}

/// The place of the last of the first `n` dispatch rows that is of `id`.
pub open spec fn last_dispatch_row(rows: Seq<DispatchSnapshotRow>, id: u128, n: nat) -> Option<int>
    decreases n,
{
    if n == 0 {
        None
    } else if rows[n - 1].asset_id == id {
        Some(n - 1)
    } else {
        last_dispatch_row(rows, id, (n - 1) as nat)
    }
}

/// The source of the telemetry for `id`: the cache, else the journal, else
/// the live state of a known asset.
pub open spec fn telemetry_source(
    latest: Map<u128, Telemetry>,
    rows: Seq<TelemetrySnapshotRow>,
    sim: &Simulator,
    id: u128,
) -> TelemetrySource {
    if latest.contains_key(id) {
        TelemetrySource::Cache
    } else {
        match last_telemetry_row(rows, id, rows.len()) {
            Some(k) => TelemetrySource::Journal(k),
            None => if sim.assets@.contains_key(id) && sim.state@.contains_key(id) {
                TelemetrySource::Synthetic
            } else {
                TelemetrySource::Missing
            },
        }
    }
}

/// A dispatch for `id` was submitted since the start and is held in memory.
/// The placeholder that an asset starts with is no such dispatch.
pub open spec fn holds_command(sim: &Simulator, id: u128) -> bool {
    sim.dispatches@.contains_key(id) && !sim.dispatches@[id].placeholder
}

/// The source of the setpoint for `id`: the dispatch submitted since the
/// start, else the journal, else a setpoint of the live state that is not
/// zero.  A setpoint names the site of its asset, so an unknown asset has
/// none.
pub open spec fn setpoint_source(
    sim: &Simulator,
    rows: Seq<DispatchSnapshotRow>,
    id: u128,
) -> SetpointSource {
    if !sim.assets@.contains_key(id) {
        SetpointSource::Missing
    } else if holds_command(sim, id) {
        SetpointSource::Memory
    } else {
        match last_dispatch_row(rows, id, rows.len()) {
            Some(k) => SetpointSource::Journal(k),
            None => if sim.state@.contains_key(id) && sim.state@[id].setpoint_mw != 0 {
                SetpointSource::State
            } else {
                SetpointSource::Missing
            },
        }
    }
}

/// `sp` commands what the journal row `row` says, for `asset`.  A duration
/// that is negative in the journal is no duration.
pub open spec fn is_setpoint_of_row(
    row: DispatchSnapshotRow,
    asset: &Asset,
    sp: &Setpoint,
) -> bool {
    &&& sp.asset_id@ == hyphenated(row.asset_id)
    &&& sp.mw == row.mw
    &&& sp.duration_s == match row.duration_s {
        Some(d) => if d >= 0 {
            Some(d as u64)
        } else {
            None
        },
        None => None,
    }
    &&& sp.site_id is Some
    &&& sp.site_id->0@ == hyphenated(asset.site_id)
    &&& sp.group_id is None
    &&& sp.dispatch_id is Some
    &&& sp.dispatch_id->0@ == hyphenated(row.id)
}

/// `telemetry` is what the bootstrap answers for `id`, observed at `now`
/// where it is synthetic.
pub open spec fn is_chosen_telemetry(
    latest: Map<u128, Telemetry>,
    rows: Seq<TelemetrySnapshotRow>,
    sim: &Simulator,
    id: u128,
    now: i64,
    telemetry: Option<Telemetry>,
) -> bool {
    match telemetry_source(latest, rows, sim, id) {
        TelemetrySource::Cache => telemetry is Some && telemetry->0.same_as(&latest[id]),
        TelemetrySource::Journal(k) => telemetry is Some && is_row_telemetry(
            &rows[k],
            &telemetry->0,
        ),
        TelemetrySource::Synthetic => telemetry is Some && snapshot_of(
            &sim.assets@[id],
            spec_tick(&sim.assets@[id], sim.state@[id], 0),
            now,
            &telemetry->0,
        ),
        TelemetrySource::Missing => telemetry is None,
    }
}

/// `setpoint` is what the bootstrap answers for `id`.
pub open spec fn is_chosen_setpoint(
    sim: &Simulator,
    rows: Seq<DispatchSnapshotRow>,
    id: u128,
    setpoint: Option<Setpoint>,
) -> bool {
    match setpoint_source(sim, rows, id) {
        SetpointSource::Memory => setpoint is Some && is_setpoint_of(
            &sim.dispatches@[id],
            Some(sim.assets@[id].site_id),
            &setpoint->0,
        ),
        SetpointSource::Journal(k) => setpoint is Some && is_setpoint_of_row(
            rows[k],
            &sim.assets@[id],
            &setpoint->0,
        ),
        SetpointSource::State => setpoint is Some && is_setpoint_of_state(
            &sim.assets@[id],
            &sim.state@[id],
            &setpoint->0,
        ),
        SetpointSource::Missing => setpoint is None,
    }
}

/// `entries` answers a bootstrap request for `asset_ids`: one entry per
/// identifier asked, in the order asked, each with the telemetry and the
/// setpoint chosen for it.
pub open spec fn is_bootstrap_answer(
    latest: Map<u128, Telemetry>,
    sim: &Simulator,
    asset_ids: Seq<u128>,
    telemetry_rows: Seq<TelemetrySnapshotRow>,
    dispatch_rows: Seq<DispatchSnapshotRow>,
    now: i64,
    entries: Seq<BootstrapEntry>,
) -> bool {
    &&& entries.len() == asset_ids.len()
    &&& forall|i: int|
        0 <= i < asset_ids.len() ==> {
            &&& (#[trigger] entries[i]).asset_id == asset_ids[i]
            &&& is_chosen_telemetry(
                latest,
                telemetry_rows,
                sim,
                asset_ids[i],
                now,
                entries[i].telemetry,
            )
            &&& is_chosen_setpoint(sim, dispatch_rows, asset_ids[i], entries[i].setpoint)
        }
}

/// The identifiers that the texts denote, or the place of the first text
/// that denotes none.
pub fn parse_asset_ids(texts: &Vec<String>) -> (ids: Result<Vec<u128>, usize>)
    ensures
        match ids {
            Ok(list) => list.len() == texts.len() && forall|i: int|
                0 <= i < texts.len() ==> uuid_of_text(texts[i]@) == Some(#[trigger] list[i]),
            Err(bad) => bad < texts.len() && uuid_of_text(texts[bad as int]@) is None && forall|
                i: int,
            |
                0 <= i < bad ==> (#[trigger] uuid_of_text(texts[i]@)) is Some,
        },
{
    let mut list: Vec<u128> = Vec::new();
    let mut i: usize = 0;
    while i < texts.len()
        invariant
            i <= texts.len(),
            list.len() == i,
            forall|j: int| 0 <= j < i ==> uuid_of_text(texts[j]@) == Some(#[trigger] list[j]),
            forall|j: int| 0 <= j < i ==> (#[trigger] uuid_of_text(texts[j]@)) is Some,
        decreases texts.len() - i,
    {
        match parse_uuid(texts[i].as_str()) {
            Some(id) => {
                list.push(id);
            },
            None => {
                return Err(i);
            },
        }
        i += 1;
    }
    Ok(list)
}

/// The asked-for identifiers that the cache has no telemetry for, in the
/// order asked.
pub fn missing_telemetry_ids(
    latest: &IdMap<Telemetry>,
    asset_ids: &Vec<u128>,
) -> (missing: Vec<u128>)
    requires
        latest.wf(),
    ensures
        missing@ == asset_ids@.filter(|id: u128| !latest@.contains_key(id)),
{
    let mut missing: Vec<u128> = Vec::new();
    let mut i: usize = 0;
    while i < asset_ids.len()
        invariant
            latest.wf(),
            i <= asset_ids.len(),
            missing@ == asset_ids@.subrange(0, i as int).filter(
                |id: u128| !latest@.contains_key(id),
            ),
        decreases asset_ids.len() - i,
    {
        proof {
            reveal(Seq::filter);
            let longer = asset_ids@.subrange(0, i + 1);
            assert(longer.drop_last() == asset_ids@.subrange(0, i as int));
            assert(longer.last() == asset_ids@[i as int]);
        }
        if !latest.contains_key(asset_ids[i]) {
            missing.push(asset_ids[i]);
        }
        i += 1;
    }
    assert(asset_ids@.subrange(0, asset_ids.len() as int) == asset_ids@);
    missing
}

/// The asked-for identifiers whose setpoint the memory cannot give, in the
/// order asked: the journal is to be asked for these.
pub fn missing_setpoint_ids(sim: &Simulator, asset_ids: &Vec<u128>) -> (missing: Vec<u128>)
    requires
        sim.readable(),
    ensures
        missing@ == asset_ids@.filter(
            |id: u128| !(holds_command(sim, id) && sim.assets@.contains_key(id)),
        ),
{
    let mut missing: Vec<u128> = Vec::new();
    let mut i: usize = 0;
    while i < asset_ids.len()
        invariant
            sim.readable(),
            i <= asset_ids.len(),
            missing@ == asset_ids@.subrange(0, i as int).filter(
                |id: u128| !(holds_command(sim, id) && sim.assets@.contains_key(id)),
            ),
        decreases asset_ids.len() - i,
    {
        proof {
            reveal(Seq::filter);
            let longer = asset_ids@.subrange(0, i + 1);
            assert(longer.drop_last() == asset_ids@.subrange(0, i as int));
            assert(longer.last() == asset_ids@[i as int]);
        }
        let held: bool = match sim.dispatches.get(asset_ids[i]) {
            Some(dispatch) => !dispatch.placeholder,
            None => false,
        };
        if !(held && sim.assets.contains_key(asset_ids[i])) {
            missing.push(asset_ids[i]);
        }
        i += 1;
    }
    assert(asset_ids@.subrange(0, asset_ids.len() as int) == asset_ids@);
    missing
}

/// The last telemetry row of `id`.
fn find_telemetry_row(rows: &Vec<TelemetrySnapshotRow>, id: u128) -> (place: Option<usize>)
    ensures
        match place {
            Some(k) => k < rows.len() && last_telemetry_row(rows@, id, rows@.len()) == Some(
                k as int,
            ),
            None => last_telemetry_row(rows@, id, rows@.len()) is None,
        },
{
    let mut n: usize = rows.len();
    while n > 0
        invariant
            n <= rows.len(),
            last_telemetry_row(rows@, id, rows@.len()) == last_telemetry_row(rows@, id, n as nat),
        decreases n,
    {
        if rows[n - 1].asset_id == id {
            return Some(n - 1);
        }
        n -= 1;
    }
    None
}

/// The last dispatch row of `id`.
fn find_dispatch_row(rows: &Vec<DispatchSnapshotRow>, id: u128) -> (place: Option<usize>)
    ensures
        match place {
            Some(k) => k < rows.len() && last_dispatch_row(rows@, id, rows@.len()) == Some(
                k as int,
            ),
            None => last_dispatch_row(rows@, id, rows@.len()) is None,
        },
{
    let mut n: usize = rows.len();
    while n > 0
        invariant
            n <= rows.len(),
            last_dispatch_row(rows@, id, rows@.len()) == last_dispatch_row(rows@, id, n as nat),
        decreases n,
    {
        if rows[n - 1].asset_id == id {
            return Some(n - 1);
        }
        n -= 1;
    }
    None
}

/// The setpoint message for a dispatch row of `asset`.
pub fn setpoint_from_row(row: &DispatchSnapshotRow, asset: &Asset) -> (sp: Setpoint)
    ensures
        is_setpoint_of_row(*row, asset, &sp),
{
    let duration_s: Option<u64> = match row.duration_s {
        Some(d) => if d >= 0 {
            Some(d as u64)
        } else {
            None
        },
        None => None,
    };
    Setpoint {
        asset_id: uuid_text(row.asset_id),
        mw: row.mw,
        duration_s,
        site_id: Some(uuid_text(asset.site_id)),
        group_id: None,
        dispatch_id: Some(uuid_text(row.id)),
    }
}

/// The telemetry that the bootstrap answers for `id`.
pub fn choose_telemetry(
    latest: &IdMap<Telemetry>,
    rows: &Vec<TelemetrySnapshotRow>,
    sim: &Simulator,
    id: u128,
    now: i64,
) -> (telemetry: Option<Telemetry>)
    requires
        latest.wf(),
        sim.readable(),
    ensures
        is_chosen_telemetry(latest@, rows@, sim, id, now, telemetry),
{
    match latest.get(id) {
        Some(snap) => { return Some(snap.clone()); },
        None => {},
    }
    match find_telemetry_row(rows, id) {
        Some(k) => { return Some(rows[k].to_telemetry()); },
        None => {},
    }
    match sim.assets.get(id) {
        Some(asset) => {
            match sim.state.get(id) {
                Some(state) => {
                    let mut scratch: BessState = *state;
                    Some(tick_asset_at(asset, &mut scratch, 0, now))
                },
                None => None,
            }
        },
        None => None,
    }
}

/// The setpoint that the bootstrap answers for `id`.
pub fn choose_setpoint(sim: &Simulator, rows: &Vec<DispatchSnapshotRow>, id: u128) -> (setpoint:
    Option<Setpoint>)
    requires
        sim.readable(),
    ensures
        is_chosen_setpoint(sim, rows@, id, setpoint),
{
    let asset: &Asset = match sim.assets.get(id) {
        Some(asset) => asset,
        None => { return None; },
    };
    match sim.dispatches.get(id) {
        Some(dispatch) => {
            if !dispatch.placeholder {
                return Some(setpoint_from_dispatch(dispatch, asset));
            }
        },
        None => {},
    }
    match find_dispatch_row(rows, id) {
        Some(k) => { return Some(setpoint_from_row(&rows[k], asset)); },
        None => {},
    }
    match sim.state.get(id) {
        Some(state) => setpoint_from_state(asset, state),
        None => None,
    }
}

/// The bootstrap answer for `asset_ids`: one entry per identifier, in the
/// order asked, observed at `now` where telemetry is synthetic.
pub fn build_bootstrap_at(
    latest: &IdMap<Telemetry>,
    sim: &Simulator,
    asset_ids: &Vec<u128>,
    telemetry_rows: &Vec<TelemetrySnapshotRow>,
    dispatch_rows: &Vec<DispatchSnapshotRow>,
    now: i64,
) -> (entries: Vec<BootstrapEntry>)
    requires
        latest.wf(),
        sim.readable(),
    ensures
        is_bootstrap_answer(
            latest@,
            sim,
            asset_ids@,
            telemetry_rows@,
            dispatch_rows@,
            now,
            entries@,
        ),
{
    let mut entries: Vec<BootstrapEntry> = Vec::new();
    let mut i: usize = 0;
    while i < asset_ids.len()
        invariant
            latest.wf(),
            sim.readable(),
            i <= asset_ids.len(),
            entries.len() == i,
            forall|j: int|
                0 <= j < i ==> {
                    &&& (#[trigger] entries[j]).asset_id == asset_ids[j]
                    &&& is_chosen_telemetry(
                        latest@,
                        telemetry_rows@,
                        sim,
                        asset_ids[j],
                        now,
                        entries[j].telemetry,
                    )
                    &&& is_chosen_setpoint(sim, dispatch_rows@, asset_ids[j], entries[j].setpoint)
                },
        decreases asset_ids.len() - i,
    {
        let id: u128 = asset_ids[i];
        let telemetry: Option<Telemetry> = choose_telemetry(latest, telemetry_rows, sim, id, now);
        let setpoint: Option<Setpoint> = choose_setpoint(sim, dispatch_rows, id);
        entries.push(BootstrapEntry { asset_id: id, telemetry, setpoint });
        i += 1;
    }
    entries
}

/// The bootstrap answer for `asset_ids`, observed now.
pub fn build_bootstrap_response(
    latest: &IdMap<Telemetry>,
    sim: &Simulator,
    asset_ids: &Vec<u128>,
    telemetry_rows: &Vec<TelemetrySnapshotRow>,
    dispatch_rows: &Vec<DispatchSnapshotRow>,
) -> (entries: Vec<BootstrapEntry>)
    requires
        latest.wf(),
        sim.readable(),
    ensures
        exists|now: i64| #[trigger]
            is_bootstrap_answer(
                latest@,
                sim,
                asset_ids@,
                telemetry_rows@,
                dispatch_rows@,
                now,
                entries@,
            ),
{
    let now: i64 = now_millis();
    build_bootstrap_at(latest, sim, asset_ids, telemetry_rows, dispatch_rows, now)
}

/// `wire` is the wire form of `entry`: telemetry whose timestamp the
/// calendar cannot hold is left out.
pub open spec fn is_wire_entry(entry: &BootstrapEntry, wire: &AssetBootstrap) -> bool {
    &&& wire.asset_id@ == hyphenated(entry.asset_id)
    &&& wire.setpoint == entry.setpoint
    &&& match wire.telemetry {
        Some(w) => entry.telemetry is Some && is_wire_telemetry(&entry.telemetry->0, &w),
        None => entry.telemetry is Some ==> crate::clock::rfc3339_text(
            entry.telemetry->0.timestamp,
        ) is None,
    }
}

/// The wire form of a bootstrap answer.
pub fn bootstrap_to_proto(entries: &Vec<BootstrapEntry>) -> (response: BootstrapResponse)
    ensures
        response.assets.len() == entries.len(),
        forall|i: int|
            0 <= i < entries.len() ==> is_wire_entry(&entries[i], &#[trigger] response.assets[i]),
{
    let mut assets: Vec<AssetBootstrap> = Vec::new();
    let mut i: usize = 0;
    while i < entries.len()
        invariant
            i <= entries.len(),
            assets.len() == i,
            forall|k: int| 0 <= k < i ==> is_wire_entry(&entries[k], &#[trigger] assets[k]),
        decreases entries.len() - i,
    {
        let telemetry: Option<WireTelemetry> = match &entries[i].telemetry {
            Some(snap) => telemetry_to_proto(snap),
            None => None,
        };
        let setpoint: Option<Setpoint> = match &entries[i].setpoint {
            Some(sp) => Some(sp.clone()),
            None => None,
        };
        assets.push(
            AssetBootstrap { asset_id: uuid_text(entries[i].asset_id), telemetry, setpoint },
        );
        i += 1;
    }
    BootstrapResponse { assets }
}

/// After a restart the journal speaks: for an asset of the catalogue for
/// which nothing was submitted since the start, the setpoint answered is
/// that of the last dispatch row that the journal holds for it.  Without
/// such a row it is the setpoint of the live state where that is not zero,
/// and none where it is zero.
pub proof fn lemma_restart_serves_journal(
    sim: &Simulator,
    rows: Seq<DispatchSnapshotRow>,
    id: u128,
    setpoint: Option<Setpoint>,
)
    requires
        sim.assets@.contains_key(id),
        !holds_command(sim, id),
        is_chosen_setpoint(sim, rows, id, setpoint),
    ensures
        match last_dispatch_row(rows, id, rows.len()) {
            Some(k) => 0 <= k < rows.len() && rows[k].asset_id == id && setpoint is Some
                && is_setpoint_of_row(rows[k], &sim.assets@[id], &setpoint->0),
            None => if sim.state@.contains_key(id) && sim.state@[id].setpoint_mw != 0 {
                setpoint is Some && is_setpoint_of_state(
                    &sim.assets@[id],
                    &sim.state@[id],
                    &setpoint->0,
                )
            } else {
                setpoint is None
            },
        },
{
    lemma_last_dispatch_row(rows, id, rows.len());
}

/// The last dispatch row of `id` among the first `n` is a row of `id`; no
/// later one among them is.
pub proof fn lemma_last_dispatch_row(rows: Seq<DispatchSnapshotRow>, id: u128, n: nat)
    requires
        n <= rows.len(),
    ensures
        match last_dispatch_row(rows, id, n) {
            Some(k) => 0 <= k < n && rows[k].asset_id == id && forall|j: int|
                k < j < n ==> (#[trigger] rows[j]).asset_id != id,
            None => forall|j: int| 0 <= j < n ==> (#[trigger] rows[j]).asset_id != id,
        },
    decreases n,
{
    if n > 0 && rows[n - 1].asset_id != id {
        lemma_last_dispatch_row(rows, id, (n - 1) as nat);
    }
}

/// Bootstrap totality: the answer has telemetry for an identifier wherever
/// the cache or the journal holds a record for it or the simulator knows the
/// asset; for an asset that is unknown and was never recorded there is none
/// to give.
pub proof fn lemma_bootstrap_total(
    latest: Map<u128, Telemetry>,
    rows: Seq<TelemetrySnapshotRow>,
    sim: &Simulator,
    id: u128,
    now: i64,
    telemetry: Option<Telemetry>,
)
    requires
        is_chosen_telemetry(latest, rows, sim, id, now, telemetry),
    ensures
        telemetry is Some <==> (latest.contains_key(id) || last_telemetry_row(
            rows,
            id,
            rows.len(),
        ) is Some || (sim.assets@.contains_key(id) && sim.state@.contains_key(id))),
        sim.wf() && sim.assets@.contains_key(id) ==> telemetry is Some,
{
    if sim.wf() && sim.assets@.contains_key(id) {
        assert(sim.state@.dom().contains(id));
    }
}

} // verus!
