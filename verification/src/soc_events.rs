//! Edge detection on the state of charge: an event is raised when an asset
//! enters the zone at either end of its charge band, never while it stays.

use vstd::prelude::*;
use crate::fixed::EPSILON;
use crate::ident::fresh_uuid;
use crate::idmap::IdMap;
use crate::model::{Asset, BessEvent, Telemetry};
use crate::physics::{soc_bounds, spec_soc_bounds};
use crate::simulator::Simulator;

verus! {

/// Where the state of charge stands within the charge band.
#[derive(Clone, Copy, Debug, PartialEq, Eq, Structural)]
pub enum SocState {
    BelowMin,
    InRange,
    AboveMax,
}

/// What a change of zone signals.
#[derive(Clone, Copy, Debug, PartialEq, Eq, Structural)]
pub enum SocSignal {
    MinReached,
    MaxReached,
    MinCleared,
    MaxCleared,
}

/// The zone of a state of charge: at the lower bound within the tolerance,
/// else at the upper bound within the tolerance, else in range.
pub open spec fn spec_zone(asset: &Asset, soc_mwhr: int) -> SocState {
    if soc_mwhr <= spec_soc_bounds(asset).0 + EPSILON {
        SocState::BelowMin
    } else if soc_mwhr >= spec_soc_bounds(asset).1 - EPSILON {
        SocState::AboveMax
    } else {
        SocState::InRange
    }
}

/// What the headend signals when an asset last seen in `prev` is seen in
/// `next`: entering a zone at an end of the band, and nothing else.
pub open spec fn headend_signal(prev: Option<SocState>, next: SocState) -> Option<SocSignal> {
    if prev == Some(next) {
        None
    } else {
        match next {
            SocState::BelowMin => Some(SocSignal::MinReached),
            SocState::AboveMax => Some(SocSignal::MaxReached),
            SocState::InRange => None,
        }
    }
}

/// What an agent signals when its asset moves from `prev` to `next`:
/// entering a zone at an end of the band, and leaving one for the range.
pub open spec fn agent_signal(prev: SocState, next: SocState) -> Option<SocSignal> {
    if prev == next {
        None
    } else {
        match next {
            SocState::BelowMin => Some(SocSignal::MinReached),
            SocState::AboveMax => Some(SocSignal::MaxReached),
            SocState::InRange => match prev {
                SocState::BelowMin => Some(SocSignal::MinCleared),
                SocState::AboveMax => Some(SocSignal::MaxCleared),
                SocState::InRange => None,
            },
        }
    }
}

/// Type, severity and message of the event for a signal.
pub open spec fn signal_texts(signal: SocSignal) -> (Seq<char>, Seq<char>, Seq<char>) {
    match signal {
        SocSignal::MinReached => ("MIN_SOC_REACHED"@, "warning"@, "Min SOC reached"@),
        SocSignal::MaxReached => ("MAX_SOC_REACHED"@, "warning"@, "Max SOC reached"@),
        SocSignal::MinCleared => ("MIN_SOC_REACHED"@, "clear"@, "Min SOC cleared"@),
        SocSignal::MaxCleared => ("MAX_SOC_REACHED"@, "clear"@, "Max SOC cleared"@),
    }
}

/// `event` reports `signal` for the asset and time of `snap`.
pub open spec fn is_soc_event(
    event: &BessEvent,
    signal: SocSignal,
    asset: &Asset,
    snap: &Telemetry,
) -> bool {
    &&& event.asset_id == snap.asset_id
    &&& event.site_id == asset.site_id
    &&& event.timestamp == snap.timestamp
    &&& event.event_type@ == signal_texts(signal).0
    &&& event.severity@ == signal_texts(signal).1
    &&& event.message@ == signal_texts(signal).2
}

/// The zone of a state of charge.
pub fn soc_zone(asset: &Asset, soc_mwhr: i64) -> (zone: SocState)
    ensures
        zone == spec_zone(asset, soc_mwhr as int),
{
    let (min_soc, max_soc) = soc_bounds(asset);
    if (soc_mwhr as i128) <= (min_soc as i128) + (EPSILON as i128) {
        SocState::BelowMin
    } else if (soc_mwhr as i128) >= (max_soc as i128) - (EPSILON as i128) {
        SocState::AboveMax
    } else {
        SocState::InRange
    }
}

/// The event for `signal`, with the given identifier.
pub fn soc_event(signal: SocSignal, asset: &Asset, snap: &Telemetry, id: u128) -> (event: BessEvent)
    ensures
        event.id == id,
        is_soc_event(&event, signal, asset, snap),
{
    let (event_type, severity, message) = match signal {
        SocSignal::MinReached => ("MIN_SOC_REACHED", "warning", "Min SOC reached"),
        SocSignal::MaxReached => ("MAX_SOC_REACHED", "warning", "Max SOC reached"),
        SocSignal::MinCleared => ("MIN_SOC_REACHED", "clear", "Min SOC cleared"),
        SocSignal::MaxCleared => ("MAX_SOC_REACHED", "clear", "Max SOC cleared"),
    };
    BessEvent {
        id,
        asset_id: snap.asset_id,
        site_id: asset.site_id,
        timestamp: snap.timestamp,
        event_type: event_type.to_owned(),
        severity: severity.to_owned(),
        message: message.to_owned(),
    }
}

/// Records the zone of `snap` for its asset and says what the change, if
/// any, signals at the headend.  Telemetry of an unknown asset changes
/// nothing and signals nothing.
pub fn observe_zone(sim: &Simulator, zones: &mut IdMap<SocState>, snap: &Telemetry) -> (signal:
    Option<SocSignal>)
    requires
        sim.wf(),
        old(zones).wf(),
    ensures
        final(zones).wf(),
        !sim.assets@.contains_key(snap.asset_id) ==> signal is None && *final(zones) == *old(zones),
        sim.assets@.contains_key(snap.asset_id) ==> {
            let next = spec_zone(&sim.assets@[snap.asset_id], snap.soc_mwhr as int);
            let prev = if old(zones)@.contains_key(snap.asset_id) {
                Some(old(zones)@[snap.asset_id])
            } else {
                None
            };
            &&& final(zones)@ == old(zones)@.insert(snap.asset_id, next)
            &&& signal == headend_signal(prev, next)
        },
{
    let asset: &Asset = match sim.assets.get(snap.asset_id) {
        Some(asset) => asset,
        None => { return None; },
    };
    let next: SocState = soc_zone(asset, snap.soc_mwhr);
    let prev: Option<SocState> = zones.insert(snap.asset_id, next);
    match prev {
        Some(zone) => {
            if zone == next {
                return None;
            }
        },
        None => {},
    }
    match next {
        SocState::BelowMin => Some(SocSignal::MinReached),
        SocState::AboveMax => Some(SocSignal::MaxReached),
        SocState::InRange => None,
    }
}

/// Records the zone of `snap` for its asset and raises the event that the
/// change, if any, calls for at the headend.
pub fn maybe_emit_soc_event(
    sim: &Simulator,
    zones: &mut IdMap<SocState>,
    snap: &Telemetry,
) -> (event: Option<BessEvent>)
    requires
        sim.wf(),
        old(zones).wf(),
    ensures
        final(zones).wf(),
        !sim.assets@.contains_key(snap.asset_id) ==> event is None && *final(zones) == *old(zones),
        sim.assets@.contains_key(snap.asset_id) ==> {
            let asset = sim.assets@[snap.asset_id];
            let next = spec_zone(&asset, snap.soc_mwhr as int);
            let prev = if old(zones)@.contains_key(snap.asset_id) {
                Some(old(zones)@[snap.asset_id])
            } else {
                None
            };
            &&& final(zones)@ == old(zones)@.insert(snap.asset_id, next)
            &&& match event {
                Some(e) => headend_signal(prev, next) is Some && is_soc_event(
                    &e,
                    headend_signal(prev, next)->0,
                    &asset,
                    snap,
                ),
                None => headend_signal(prev, next) is None,
            }
        },
{
    match observe_zone(sim, zones, snap) {
        Some(signal) => {
            match sim.assets.get(snap.asset_id) {
                Some(asset) => Some(soc_event(signal, asset, snap, fresh_uuid())),
                None => None,
            }
        },
        None => None,
    }
}

/// Moves the zone that an agent remembers for its asset to the zone of
/// `snap`, and raises the event that the change, if any, calls for.
pub fn maybe_soc_event(zone: &mut SocState, asset: &Asset, snap: &Telemetry) -> (event: Option<
    BessEvent,
>)
    ensures
        *final(zone) == spec_zone(asset, snap.soc_mwhr as int),
        match event {
            Some(e) => agent_signal(*old(zone), *final(zone)) is Some && is_soc_event(
                &e,
                agent_signal(*old(zone), *final(zone))->0,
                asset,
                snap,
            ),
            None => agent_signal(*old(zone), *final(zone)) is None,
        },
{
    let next: SocState = soc_zone(asset, snap.soc_mwhr);
    let prev: SocState = *zone;
    if prev == next {
        return None;
    }
    *zone = next;
    let signal: SocSignal = match next {
        SocState::BelowMin => SocSignal::MinReached,
        SocState::AboveMax => SocSignal::MaxReached,
        SocState::InRange => match prev {
            SocState::BelowMin => SocSignal::MinCleared,
            _ => SocSignal::MaxCleared,
        },
    };
    Some(soc_event(signal, asset, snap, fresh_uuid()))
}

/// Edge-only events: no signal is given while the zone stays what it was,
/// at the headend or at an agent.
pub proof fn lemma_edge_only(prev: SocState, next: SocState)
    ensures
        headend_signal(Some(prev), next) is Some ==> prev != next,
        agent_signal(prev, next) is Some ==> prev != next,
        prev == next
            ==> headend_signal(Some(prev), next) is None && agent_signal(prev, next) is None,
{
}

} // verus!
