//! Simulated equipment faults of an agent: now and then an asset raises one
//! of a fixed set of faults, and a fault that has stood long enough clears.
//! Chance comes in from outside as two numbers, so that what happens for
//! given numbers is fixed.

use vstd::prelude::*;
use crate::ident::fresh_uuid;
use crate::model::{Asset, BessEvent, Telemetry};

verus! {

/// A fault is raised where the roll, taken modulo this, ...
pub const ROLL_RANGE: u64 = 1_000;

/// ... is below this: five times in a thousand.
pub const ROLL_HITS: u64 = 5;

/// Least time between two faults raised for one asset, in milliseconds.
pub const MIN_INTERVAL_MS: i64 = 120_000;

/// Time after which a fault clears, in milliseconds.
pub const CLEAR_AFTER_MS: i64 = 300_000;

/// The faults that an asset can raise, in the order they are picked from.
#[derive(Clone, Copy, Debug, PartialEq, Eq, Structural)]
pub enum Fault {
    RackFault,
    HvacFailed,
    InverterFault,
    CommsDegraded,
}

/// The faults that stand for one asset, each with the time it was raised,
/// and the time a fault was last raised.
#[derive(Clone, Copy, Debug, PartialEq, Eq, Structural)]
pub struct FaultLog {
    pub rack_fault: Option<i64>,
    pub hvac_failed: Option<i64>,
    pub inverter_fault: Option<i64>,
    pub comms_degraded: Option<i64>,
    pub last_raised: Option<i64>,
}

/// A random 64-bit number.
///
/// Calls `rand::random::<u64>`.  Nothing is claimed of the value.  The call
/// gives up where the operating system has no random numbers to seed from.
#[verifier::external_body]
pub(crate) fn random_u64() -> (roll: u64) {
    rand::random::<u64>()
}

/// The fault at place `k` of the order they are picked from.
pub open spec fn fault_at(k: int) -> Fault {
    if k == 0 {
        Fault::RackFault
    } else if k == 1 {
        Fault::HvacFailed
    } else if k == 2 {
        Fault::InverterFault
    } else {
        Fault::CommsDegraded
    }
}

/// Type, severity and message of the event that raises `fault`.
pub open spec fn fault_texts(fault: Fault) -> (Seq<char>, Seq<char>, Seq<char>) {
    match fault {
        Fault::RackFault => ("RACK_FAULT"@, "warning"@, "Rack 2/4 Trouble"@),
        Fault::HvacFailed => ("HVAC_FAILED"@, "alarm"@, "HVAC Failed"@),
        Fault::InverterFault => ("INVERTER_FAULT"@, "alarm"@, "Inverter Fault Detected"@),
        Fault::CommsDegraded => ("COMMS_DEGRADED"@, "warning"@, "Site comms degraded"@),
    }
}

impl FaultLog {
    /// The time `fault` was raised, if it stands.
    pub open spec fn since(&self, fault: Fault) -> Option<i64> {
        match fault {
            Fault::RackFault => self.rack_fault,
            Fault::HvacFailed => self.hvac_failed,
            Fault::InverterFault => self.inverter_fault,
            Fault::CommsDegraded => self.comms_degraded,
        }
    }

    /// The log with `fault` standing since `since`, or not at all.
    pub open spec fn with(&self, fault: Fault, since: Option<i64>) -> FaultLog {
        match fault {
            Fault::RackFault => FaultLog { rack_fault: since, ..*self },
            Fault::HvacFailed => FaultLog { hvac_failed: since, ..*self },
            Fault::InverterFault => FaultLog { inverter_fault: since, ..*self },
            Fault::CommsDegraded => FaultLog { comms_degraded: since, ..*self },
        }
    }

    /// The faults that do not stand among the first `n`, in their order.
    pub open spec fn free_upto(&self, n: nat) -> Seq<Fault>
        decreases n,
    {
        if n == 0 {
            Seq::empty()
        } else {
            let before = self.free_upto((n - 1) as nat);
            if self.since(fault_at(n - 1)) is None {
                before.push(fault_at(n - 1))
            } else {
                before
            }
        }
    }

    /// The fault that rolls `roll` and `pick` raise at `at`, if any: the
    /// roll must hit, the last fault must be long enough ago, and a fault
    /// must be free; `pick` chooses among the free ones.
    pub open spec fn raised(&self, roll: u64, pick: u64, at: i64) -> Option<Fault> {
        let free = self.free_upto(4);
        if roll % ROLL_RANGE >= ROLL_HITS {
            None
        } else if self.last_raised is Some && at - self.last_raised->0 < MIN_INTERVAL_MS {
            None
        } else if free.len() == 0 {
            None
        } else {
            Some(free[(pick as int) % (free.len() as int)])
        }
    }

    /// The log after rolls `roll` and `pick` at `at`.  A roll that hits long
    /// enough after the last fault counts as a fault raised even where none
    /// is free.
    pub open spec fn after_roll(&self, roll: u64, pick: u64, at: i64) -> FaultLog {
        if roll % ROLL_RANGE >= ROLL_HITS || (self.last_raised is Some && at
            - self.last_raised->0 < MIN_INTERVAL_MS) {
            *self
        } else {
            let marked = FaultLog { last_raised: Some(at), ..*self };
            match self.raised(roll, pick, at) {
                Some(fault) => marked.with(fault, Some(at)),
                None => marked,
            }
        }
    }

    /// `fault` stands and has stood long enough at `at` to clear.
    pub open spec fn clears(&self, fault: Fault, at: i64) -> bool {
        self.since(fault) is Some && at - self.since(fault)->0 >= CLEAR_AFTER_MS
    }

    /// The log after the faults that clear at `at` have cleared.
    pub open spec fn after_clearing(&self, at: i64) -> FaultLog {
        FaultLog {
            rack_fault: if self.clears(Fault::RackFault, at) {
                None
            } else {
                self.rack_fault
            },
            hvac_failed: if self.clears(Fault::HvacFailed, at) {
                None
            } else {
                self.hvac_failed
            },
            inverter_fault: if self.clears(Fault::InverterFault, at) {
                None
            } else {
                self.inverter_fault
            },
            comms_degraded: if self.clears(Fault::CommsDegraded, at) {
                None
            } else {
                self.comms_degraded
            },
            last_raised: self.last_raised,
        }
    }

    /// The faults that clear at `at` among the first `n`, in their order.
    pub open spec fn cleared_upto(&self, at: i64, n: nat) -> Seq<Fault>
        decreases n,
    {
        if n == 0 {
            Seq::empty()
        } else {
            let before = self.cleared_upto(at, (n - 1) as nat);
            if self.clears(fault_at(n - 1), at) {
                before.push(fault_at(n - 1))
            } else {
                before
            }
        }
    }

    /// A log in which no fault stands.
    pub fn new() -> (log: Self)
        ensures
            log == (FaultLog {
                rack_fault: None,
                hvac_failed: None,
                inverter_fault: None,
                comms_degraded: None,
                last_raised: None,
            }),
    {
        FaultLog {
            rack_fault: None,
            hvac_failed: None,
            inverter_fault: None,
            comms_degraded: None,
            last_raised: None,
        }
    }

    /// The time `fault` was raised, if it stands.
    pub fn standing_since(&self, fault: Fault) -> (since: Option<i64>)
        ensures
            since == self.since(fault),
    {
        match fault {
            Fault::RackFault => self.rack_fault,
            Fault::HvacFailed => self.hvac_failed,
            Fault::InverterFault => self.inverter_fault,
            Fault::CommsDegraded => self.comms_degraded,
        }
    }

    /// Makes `fault` stand since `since`, or not at all.
    pub fn set(&mut self, fault: Fault, since: Option<i64>)
        ensures
            *final(self) == old(self).with(fault, since),
    {
        match fault {
            Fault::RackFault => {
                self.rack_fault = since;
            },
            Fault::HvacFailed => {
                self.hvac_failed = since;
            },
            Fault::InverterFault => {
                self.inverter_fault = since;
            },
            Fault::CommsDegraded => {
                self.comms_degraded = since;
            },
        }
    }

    /// Takes rolls `roll` and `pick` at `at` and says which fault they
    /// raise, if any.
    pub fn roll(&mut self, roll: u64, pick: u64, at: i64) -> (fault: Option<Fault>)
        ensures
            fault == old(self).raised(roll, pick, at),
            *final(self) == old(self).after_roll(roll, pick, at),
    {
        if roll % ROLL_RANGE >= ROLL_HITS {
            return None;
        }
        match self.last_raised {
            Some(last) => {
                if (at as i128) - (last as i128) < (MIN_INTERVAL_MS as i128) {
                    return None;
                }
            },
            None => {},
        }
        self.last_raised = Some(at);
        let mut free: Vec<Fault> = Vec::new();
        let order: [Fault; 4] = [
            Fault::RackFault,
            Fault::HvacFailed,
            Fault::InverterFault,
            Fault::CommsDegraded,
        ];
        let mut k: usize = 0;
        while k < 4
            invariant
                k <= 4,
                order@.len() == 4,
                forall|j: int| 0 <= j < 4 ==> order@[j] == fault_at(j),
                forall|f: Fault| self.since(f) == old(self).since(f),
                free@ == old(self).free_upto(k as nat),
            decreases 4 - k,
        {
            if self.standing_since(order[k]).is_none() {
                free.push(order[k]);
            }
            k += 1;
        }
        if free.len() == 0 {
            return None;
        }
        let fault: Fault = free[(pick % (free.len() as u64)) as usize];
        self.set(fault, Some(at));
        Some(fault)
    }

    /// Clears the faults that have stood long enough at `at` and lists them.
    pub fn clear(&mut self, at: i64) -> (cleared: Vec<Fault>)
        ensures
            *final(self) == old(self).after_clearing(at),
            cleared@ == old(self).cleared_upto(at, 4),
    {
        let mut cleared: Vec<Fault> = Vec::new();
        let order: [Fault; 4] = [
            Fault::RackFault,
            Fault::HvacFailed,
            Fault::InverterFault,
            Fault::CommsDegraded,
        ];
        let mut k: usize = 0;
        while k < 4
            invariant
                k <= 4,
                order@.len() == 4,
                forall|j: int| 0 <= j < 4 ==> order@[j] == fault_at(j),
                self.last_raised == old(self).last_raised,
                forall|j: int|
                    0 <= j < 4 ==> self.since(#[trigger] fault_at(j)) == if j < k
                        && old(self).clears(fault_at(j), at) {
                        None
                    } else {
                        old(self).since(fault_at(j))
                    },
                cleared@ == old(self).cleared_upto(at, k as nat),
            decreases 4 - k,
        {
            assert(old(self).since(fault_at(k as int)) == self.since(fault_at(k as int)));
            let ghost before = *self;
            match self.standing_since(order[k]) {
                Some(since) => {
                    if (at as i128) - (since as i128) >= (CLEAR_AFTER_MS as i128) {
                        self.set(order[k], None);
                        cleared.push(order[k]);
                    }
                },
                None => {},
            }
            proof {
                assert forall|j: int| 0 <= j < 4 implies self.since(#[trigger] fault_at(j)) == if j
                    < k + 1 && old(self).clears(fault_at(j), at) {
                    None
                } else {
                    old(self).since(fault_at(j))
                } by {
                    assert(before.since(fault_at(j)) == if j < k && old(self).clears(
                        fault_at(j),
                        at,
                    ) {
                        None
                    } else {
                        old(self).since(fault_at(j))
                    });
                }
            }
            k += 1;
        }
        proof {
            assert(self.since(fault_at(0)) == self.rack_fault);
            assert(self.since(fault_at(1)) == self.hvac_failed);
            assert(self.since(fault_at(2)) == self.inverter_fault);
            assert(self.since(fault_at(3)) == self.comms_degraded);
        }
        cleared
    }
}

/// `event` raises `fault` for the asset and time of `snap`.
pub open spec fn is_fault_event(
    event: &BessEvent,
    fault: Fault,
    asset: &Asset,
    snap: &Telemetry,
) -> bool {
    &&& event.asset_id == asset.id
    &&& event.site_id == asset.site_id
    &&& event.timestamp == snap.timestamp
    &&& event.event_type@ == fault_texts(fault).0
    &&& event.severity@ == fault_texts(fault).1
    &&& event.message@ == fault_texts(fault).2
}

/// `event` clears `fault` for the asset and time of `snap`.
pub open spec fn is_clear_event(
    event: &BessEvent,
    fault: Fault,
    asset: &Asset,
    snap: &Telemetry,
) -> bool {
    &&& event.asset_id == asset.id
    &&& event.site_id == asset.site_id
    &&& event.timestamp == snap.timestamp
    &&& event.event_type@ == fault_texts(fault).0
    &&& event.severity@ == "clear"@
    &&& event.message@ == "Cleared"@
}

/// The event that raises `fault`, or clears it, with a fresh identifier.
pub fn fault_event(fault: Fault, clear: bool, asset: &Asset, snap: &Telemetry) -> (event: BessEvent)
    ensures
        clear ==> is_clear_event(&event, fault, asset, snap),
        !clear ==> is_fault_event(&event, fault, asset, snap),
{
    let (event_type, severity, message) = match fault {
        Fault::RackFault => ("RACK_FAULT", "warning", "Rack 2/4 Trouble"),
        Fault::HvacFailed => ("HVAC_FAILED", "alarm", "HVAC Failed"),
        Fault::InverterFault => ("INVERTER_FAULT", "alarm", "Inverter Fault Detected"),
        Fault::CommsDegraded => ("COMMS_DEGRADED", "warning", "Site comms degraded"),
    };
    BessEvent {
        id: fresh_uuid(),
        asset_id: asset.id,
        site_id: asset.site_id,
        timestamp: snap.timestamp,
        event_type: event_type.to_owned(),
        severity: if clear {
            "clear".to_owned()
        } else {
            severity.to_owned()
        },
        message: if clear {
            "Cleared".to_owned()
        } else {
            message.to_owned()
        },
    }
}

/// Clears the faults of `asset` that have stood long enough at the time of
/// `snap`, with an event for each.
pub fn maybe_clear_random_events(
    log: &mut FaultLog,
    asset: &Asset,
    snap: &Telemetry,
) -> (events: Vec<BessEvent>)
    ensures
        *final(log) == old(log).after_clearing(snap.timestamp),
        events.len() == old(log).cleared_upto(snap.timestamp, 4).len(),
        forall|i: int|
            0 <= i < events.len() ==> is_clear_event(
                &#[trigger] events[i],
                old(log).cleared_upto(snap.timestamp, 4)[i],
                asset,
                snap,
            ),
{
    let cleared: Vec<Fault> = log.clear(snap.timestamp);
    let mut events: Vec<BessEvent> = Vec::new();
    let mut i: usize = 0;
    while i < cleared.len()
        invariant
            i <= cleared.len(),
            events.len() == i,
            forall|j: int|
                0 <= j < i ==> is_clear_event(&#[trigger] events[j], cleared[j], asset, snap),
        decreases cleared.len() - i,
    {
        events.push(fault_event(cleared[i], true, asset, snap));
        i += 1;
    }
    events
}

/// Raises the fault of `asset` that the rolls call for at the time of
/// `snap`, if any, with an event for it.
pub fn random_event_for(
    log: &mut FaultLog,
    asset: &Asset,
    snap: &Telemetry,
    roll: u64,
    pick: u64,
) -> (event: Option<BessEvent>)
    ensures
        *final(log) == old(log).after_roll(roll, pick, snap.timestamp),
        match event {
            Some(e) => old(log).raised(roll, pick, snap.timestamp) is Some && is_fault_event(
                &e,
                old(log).raised(roll, pick, snap.timestamp)->0,
                asset,
                snap,
            ),
            None => old(log).raised(roll, pick, snap.timestamp) is None,
        },
{
    match log.roll(roll, pick, snap.timestamp) {
        Some(fault) => Some(fault_event(fault, false, asset, snap)),
        None => None,
    }
}

/// Rolls the dice for `asset` at the time of `snap`, and raises the fault
/// they call for, if any.
pub fn maybe_random_event(log: &mut FaultLog, asset: &Asset, snap: &Telemetry) -> (event: Option<
    BessEvent,
>)
    ensures
        exists|roll: u64, pick: u64|
            {
                &&& #[trigger] old(log).after_roll(roll, pick, snap.timestamp) == *final(log)
                &&& match event {
                    Some(e) => old(log).raised(roll, pick, snap.timestamp) is Some
                        && is_fault_event(
                        &e,
                        old(log).raised(roll, pick, snap.timestamp)->0,
                        asset,
                        snap,
                    ),
                    None => old(log).raised(roll, pick, snap.timestamp) is None,
                }
            },
{
    let roll: u64 = random_u64();
    let pick: u64 = random_u64();
    random_event_for(log, asset, snap, roll, pick)
}

} // verus!
