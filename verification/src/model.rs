//! The data the control plane works on: asset configuration, per-asset
//! state, telemetry observations, dispatch commands and events.
//!
//! Identifiers are UUIDs held as the 128-bit number their sixteen bytes spell
//! in big-endian order; timestamps are milliseconds since the Unix epoch (UTC).

use vstd::prelude::*;
use crate::fixed::{LIMIT, SCALE};

verus! {

/// Configuration of one battery: identity, site, and operating limits.
#[derive(Debug)]
pub struct Asset {
    pub id: u128,
    pub site_id: u128,
    pub site_name: String,
    pub name: String,
    pub location: String,
    pub capacity_mwhr: i64,
    pub max_mw: i64,
    pub min_mw: i64,
    pub min_soc_pct: i64,
    pub max_soc_pct: i64,
    pub efficiency: i64,
    pub ramp_rate_mw_per_min: i64,
}

impl Asset {
    /// The configuration invariants: discharge and charge limits straddle
    /// zero, the allowed charge band lies within 0..100 %, capacity and ramp
    /// rate are not negative, efficiency is in (0, 1], and every magnitude is
    /// at most `LIMIT`.
    pub open spec fn wf(&self) -> bool {
        &&& -LIMIT <= self.min_mw <= 0 <= self.max_mw <= LIMIT
        &&& 0 <= self.min_soc_pct <= self.max_soc_pct <= 100 * SCALE
        &&& 0 <= self.capacity_mwhr <= LIMIT
        &&& 0 < self.efficiency <= SCALE
        &&& 0 <= self.ramp_rate_mw_per_min <= LIMIT
    }

    /// Decides `wf`.
    pub fn is_valid(&self) -> (ok: bool)
        ensures
            ok == self.wf(),
    {
        -LIMIT <= self.min_mw && self.min_mw <= 0 && 0 <= self.max_mw && self.max_mw <= LIMIT
            && 0 <= self.min_soc_pct && self.min_soc_pct <= self.max_soc_pct
            && self.max_soc_pct <= 100 * SCALE && 0 <= self.capacity_mwhr
            && self.capacity_mwhr <= LIMIT && 0 < self.efficiency && self.efficiency <= SCALE
            && 0 <= self.ramp_rate_mw_per_min && self.ramp_rate_mw_per_min <= LIMIT
    }
}

impl Clone for Asset {
    fn clone(&self) -> (copy: Self)
        ensures
            copy == *self,
    {
        Asset {
            id: self.id,
            site_id: self.site_id,
            site_name: self.site_name.clone(),
            name: self.name.clone(),
            location: self.location.clone(),
            capacity_mwhr: self.capacity_mwhr,
            max_mw: self.max_mw,
            min_mw: self.min_mw,
            min_soc_pct: self.min_soc_pct,
            max_soc_pct: self.max_soc_pct,
            efficiency: self.efficiency,
            ramp_rate_mw_per_min: self.ramp_rate_mw_per_min,
        }
    }
}

/// Mutable state of one battery.
#[derive(Clone, Copy, Debug, PartialEq, Eq, Structural)]
pub struct BessState {
    pub soc_mwhr: i64,
    pub current_mw: i64,
    pub setpoint_mw: i64,
}

/// One value of the device-level extras of a telemetry record.  A floating
/// point reading is carried as its IEEE-754 bit pattern and never interpreted.
#[derive(Debug)]
pub enum TelemetryValue {
    F64(u64),
    I64(i64),
    U64(u64),
    Bool(bool),
    String(String),
}

impl Clone for TelemetryValue {
    fn clone(&self) -> (copy: Self)
        ensures
            copy == *self,
    {
        match self {
            TelemetryValue::F64(bits) => TelemetryValue::F64(*bits),
            TelemetryValue::I64(v) => TelemetryValue::I64(*v),
            TelemetryValue::U64(v) => TelemetryValue::U64(*v),
            TelemetryValue::Bool(v) => TelemetryValue::Bool(*v),
            TelemetryValue::String(v) => TelemetryValue::String(v.clone()),
        }
    }
}

/// A named device-level reading.
#[derive(Debug)]
pub struct Extra {
    pub key: String,
    pub value: TelemetryValue,
}

impl Clone for Extra {
    fn clone(&self) -> (copy: Self)
        ensures
            copy == *self,
    {
        Extra { key: self.key.clone(), value: self.value.clone() }
    }
}

/// No name occurs twice among `extras`: they are a bag of named readings.
pub open spec fn distinct_keys(extras: Seq<Extra>) -> bool {
    forall|i: int, j: int|
        0 <= i < j < extras.len() ==> (#[trigger] extras[i]).key@ != (#[trigger] extras[j]).key@
}

/// The place of the reading named `key` among the first `n` extras.
pub open spec fn key_place(extras: Seq<Extra>, key: Seq<char>, n: nat) -> Option<int>
    decreases n,
{
    if n == 0 {
        None
    } else if extras[n - 1].key@ == key {
        Some(n - 1)
    } else {
        key_place(extras, key, (n - 1) as nat)
    }
}

/// The extras after the reading `extra` was put in: it takes the place of
/// the reading of the same name, or comes last where there is none.
pub open spec fn with_extra(extras: Seq<Extra>, extra: Extra) -> Seq<Extra> {
    match key_place(extras, extra.key@, extras.len()) {
        Some(k) => extras.update(k, extra),
        None => extras.push(extra),
    }
}

/// What `key_place` finds is a reading of that name; where it finds none,
/// none of the first `n` readings has the name.
pub proof fn lemma_key_place(extras: Seq<Extra>, key: Seq<char>, n: nat)
    requires
        n <= extras.len(),
    ensures
        match key_place(extras, key, n) {
            Some(k) => 0 <= k < n && extras[k].key@ == key,
            None => forall|i: int| 0 <= i < n ==> (#[trigger] extras[i]).key@ != key,
        },
    decreases n,
{
    if n > 0 && extras[n - 1].key@ != key {
        lemma_key_place(extras, key, (n - 1) as nat);
    }
}

/// Putting a reading in keeps the names distinct.
pub proof fn lemma_with_extra_distinct(extras: Seq<Extra>, extra: Extra)
    requires
        distinct_keys(extras),
    ensures
        distinct_keys(with_extra(extras, extra)),
{
    lemma_key_place(extras, extra.key@, extras.len());
    let after = with_extra(extras, extra);
    assert forall|i: int, j: int| 0 <= i < j < after.len() implies (#[trigger] after[i]).key@
        != (#[trigger] after[j]).key@ by {
        match key_place(extras, extra.key@, extras.len()) {
            Some(k) => {
                assert(after[i].key@ == extras[i].key@);
                assert(after[j].key@ == extras[j].key@);
            },
            None => {
                if j < extras.len() {
                    assert(after[i] == extras[i]);
                    assert(after[j] == extras[j]);
                } else {
                    assert(after[i] == extras[i]);
                }
            },
        }
    }
}

/// Puts the reading `extra` into `extras`, in place of the reading of the
/// same name where there is one.
pub fn put_extra(extras: &mut Vec<Extra>, extra: Extra)
    ensures
        final(extras)@ == with_extra(old(extras)@, extra),
        distinct_keys(old(extras)@) ==> distinct_keys(final(extras)@),
{
    proof {
        if distinct_keys(extras@) {
            lemma_with_extra_distinct(extras@, extra);
        }
    }
    let mut n: usize = extras.len();
    while n > 0
        invariant
            n <= extras.len(),
            extras@ == old(extras)@,
            key_place(extras@, extra.key@, extras@.len()) == key_place(
                extras@,
                extra.key@,
                n as nat,
            ),
        decreases n,
    {
        if extras[n - 1].key == extra.key {
            extras.set(n - 1, extra);
            return ;
        }
        n -= 1;
    }
    extras.push(extra);
}

/// Copies a list of extras.
pub fn clone_extras(extras: &Vec<Extra>) -> (copy: Vec<Extra>)
    ensures
        copy@ == extras@,
{
    let mut copy: Vec<Extra> = Vec::new();
    let mut i: usize = 0;
    while i < extras.len()
        invariant
            i <= extras.len(),
            copy@ == extras@.subrange(0, i as int),
        decreases extras.len() - i,
    {
        copy.push(extras[i].clone());
        i += 1;
    }
    copy
}

/// One observation of an asset.
#[derive(Debug)]
pub struct Telemetry {
    pub asset_id: u128,
    pub site_id: u128,
    pub site_name: String,
    pub timestamp: i64,
    pub soc_mwhr: i64,
    pub soc_pct: i64,
    pub capacity_mwhr: i64,
    pub current_mw: i64,
    pub setpoint_mw: i64,
    pub max_mw: i64,
    pub min_mw: i64,
    pub status: String,
    /// Device-level readings by name; no name occurs twice.
    pub extras: Vec<Extra>,
}

impl Telemetry {
    /// The invariant: no name occurs twice among the extras.
    pub open spec fn wf(&self) -> bool {
        distinct_keys(self.extras@)
    }

    /// Two records that agree in every field.
    pub open spec fn same_as(&self, other: &Telemetry) -> bool {
        &&& self.asset_id == other.asset_id
        &&& self.site_id == other.site_id
        &&& self.site_name@ == other.site_name@
        &&& self.timestamp == other.timestamp
        &&& self.soc_mwhr == other.soc_mwhr
        &&& self.soc_pct == other.soc_pct
        &&& self.capacity_mwhr == other.capacity_mwhr
        &&& self.current_mw == other.current_mw
        &&& self.setpoint_mw == other.setpoint_mw
        &&& self.max_mw == other.max_mw
        &&& self.min_mw == other.min_mw
        &&& self.status@ == other.status@
        &&& self.extras@ == other.extras@
    }
}

impl Clone for Telemetry {
    fn clone(&self) -> (copy: Self)
        ensures
            copy.same_as(self),
    {
        Telemetry {
            asset_id: self.asset_id,
            site_id: self.site_id,
            site_name: self.site_name.clone(),
            timestamp: self.timestamp,
            soc_mwhr: self.soc_mwhr,
            soc_pct: self.soc_pct,
            capacity_mwhr: self.capacity_mwhr,
            current_mw: self.current_mw,
            setpoint_mw: self.setpoint_mw,
            max_mw: self.max_mw,
            min_mw: self.min_mw,
            status: self.status.clone(),
            extras: clone_extras(&self.extras),
        }
    }
}

/// Whether a submitted command was taken.
#[derive(Clone, Copy, Debug, PartialEq, Eq, Structural)]
pub enum DispatchStatus {
    Accepted,
    Rejected,
}

/// One commanded setpoint.  Positive power discharges, negative charges.
#[derive(Debug)]
pub struct Dispatch {
    pub id: u128,
    pub asset_id: u128,
    pub mw: i64,
    pub duration_s: Option<u64>,
    pub status: DispatchStatus,
    pub reason: Option<String>,
    pub submitted_at: i64,
    pub clamped: bool,
    /// Set on the dispatch that an asset starts with, which nobody
    /// submitted: it stands for "nothing commanded yet".
    pub placeholder: bool,
}

impl Clone for Dispatch {
    fn clone(&self) -> (copy: Self)
        ensures
            copy == *self,
    {
        let reason: Option<String> = match &self.reason {
            Some(text) => Some(text.clone()),
            None => None,
        };
        Dispatch {
            id: self.id,
            asset_id: self.asset_id,
            mw: self.mw,
            duration_s: self.duration_s,
            status: self.status,
            reason,
            submitted_at: self.submitted_at,
            clamped: self.clamped,
            placeholder: self.placeholder,
        }
    }
}

/// A request to command one asset.
#[derive(Clone, Copy, Debug, PartialEq, Eq, Structural)]
pub struct DispatchRequest {
    pub asset_id: u128,
    pub mw: i64,
    pub duration_s: Option<u64>,
    pub site_id: Option<u128>,
    pub clamped: bool,
}

/// Something worth recording that happened to an asset.
#[derive(Debug)]
pub struct BessEvent {
    pub id: u128,
    pub asset_id: u128,
    pub site_id: u128,
    pub timestamp: i64,
    pub event_type: String,
    pub severity: String,
    pub message: String,
}

} // verus!
