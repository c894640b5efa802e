//! What the core exchanges with the journal: the rows it reads back for
//! recovery and bootstrap, and the appends it asks for.  The journal itself
//! is kept outside; the core stays correct without one.

use vstd::prelude::*;
use crate::clock::{parse_rfc3339, rfc3339_millis};
use crate::model::{clone_extras, BessEvent, Dispatch, Extra, Telemetry};

verus! {

/// The latest telemetry row of an asset.
#[derive(Debug)]
pub struct TelemetrySnapshotRow {
    pub asset_id: u128,
    pub site_id: u128,
    pub site_name: String,
    pub ts: i64,
    pub soc_mwhr: i64,
    pub soc_pct: i64,
    pub capacity_mwhr: i64,
    pub current_mw: i64,
    pub setpoint_mw: i64,
    pub max_mw: i64,
    pub min_mw: i64,
    pub status: String,
    pub extras: Vec<Extra>,
}

/// The latest dispatch row of an asset.
#[derive(Clone, Copy, Debug, PartialEq, Eq, Structural)]
pub struct DispatchSnapshotRow {
    pub id: u128,
    pub asset_id: u128,
    pub mw: i64,
    pub duration_s: Option<i64>,
}

/// An optional start and end of a history query, as RFC 3339 text.
#[derive(Debug)]
pub struct TimeRange {
    pub start: Option<String>,
    pub end: Option<String>,
}

/// Which end of a time range is malformed.
#[derive(Clone, Copy, Debug, PartialEq, Eq, Structural)]
pub enum RangeError {
    BadStart,
    BadEnd,
}

/// The instant that an optional text denotes: none for no text, an error
/// for text that is not RFC 3339.
pub open spec fn optional_instant(text: Option<String>) -> Option<Option<i64>> {
    match text {
        None => Some(None),
        Some(t) => match rfc3339_millis(t@) {
            Some(at) => Some(Some(at)),
            None => None,
        },
    }
}

impl TimeRange {
    /// The start and end as instants.  A malformed start is reported before
    /// a malformed end.
    pub fn bounds(&self) -> (bounds: Result<(Option<i64>, Option<i64>), RangeError>)
        ensures
            match bounds {
                Ok((start, end)) => optional_instant(self.start) == Some(start)
                    && optional_instant(self.end) == Some(end),
                Err(RangeError::BadStart) => optional_instant(self.start) is None,
                Err(RangeError::BadEnd) => optional_instant(self.start) is Some
                    && optional_instant(self.end) is None,
            },
    {
        let start: Option<i64> = match &self.start {
            Some(text) => match parse_rfc3339(text.as_str()) {
                Some(at) => Some(at),
                None => { return Err(RangeError::BadStart); },
            },
            None => None,
        };
        let end: Option<i64> = match &self.end {
            Some(text) => match parse_rfc3339(text.as_str()) {
                Some(at) => Some(at),
                None => { return Err(RangeError::BadEnd); },
            },
            None => None,
        };
        Ok((start, end))
    }
}

/// `snap` is the telemetry record that `row` holds.
pub open spec fn is_row_telemetry(row: &TelemetrySnapshotRow, snap: &Telemetry) -> bool {
    &&& snap.asset_id == row.asset_id
    &&& snap.site_id == row.site_id
    &&& snap.site_name@ == row.site_name@
    &&& snap.timestamp == row.ts
    &&& snap.soc_mwhr == row.soc_mwhr
    &&& snap.soc_pct == row.soc_pct
    &&& snap.capacity_mwhr == row.capacity_mwhr
    &&& snap.current_mw == row.current_mw
    &&& snap.setpoint_mw == row.setpoint_mw
    &&& snap.max_mw == row.max_mw
    &&& snap.min_mw == row.min_mw
    &&& snap.status@ == row.status@
    &&& snap.extras@ == row.extras@
}

impl TelemetrySnapshotRow {
    /// The telemetry record that the row holds.
    pub fn to_telemetry(&self) -> (snap: Telemetry)
        ensures
            is_row_telemetry(self, &snap),
    {
        Telemetry {
            asset_id: self.asset_id,
            site_id: self.site_id,
            site_name: self.site_name.clone(),
            timestamp: self.ts,
            soc_mwhr: self.soc_mwhr,
            soc_pct: self.soc_pct,
            capacity_mwhr: self.capacity_mwhr,
            current_mw: self.current_mw,
            setpoint_mw: self.setpoint_mw,
            max_mw: self.max_mw,
            min_mw: self.min_mw,
            status: self.status.clone(),
            extras: clone_extras(&self.extras),
        }
    }
}

/// What the core asks the journal to do.  Every request is best effort: a
/// journal that fails or is absent changes no control decision.
#[derive(Debug)]
pub enum JournalAction {
    /// Append a telemetry record.
    AppendTelemetry(Telemetry),
    /// Append an accepted dispatch.
    AppendDispatch(Dispatch),
    /// Attach an agent's answer to the dispatch it names.
    UpdateDispatchAck { dispatch_id: u128, status: String, acked_at: i64, reason: String },
    /// Append a heartbeat.
    AppendHeartbeat { asset_id: u128, ts: i64 },
    /// Append an event.
    AppendEvent(BessEvent),
    /// Open a session for an asset, closing any session still open for it.
    OpenSession {
        asset_id: u128,
        peer: String,
        asset_name: String,
        site_name: String,
        connected_at: i64,
    },
    /// Close the open session of an asset.
    CloseSession { asset_id: u128 },
}

} // verus!
