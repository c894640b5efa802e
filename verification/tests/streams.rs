use der_core::model::{Dispatch, DispatchStatus};
use der_core::streams::{AgentStream, DeliveryError, SendOutcome, StreamRegistry};
use der_core::wire::HeadendToAgent;
use tokio::sync::mpsc::{channel, Receiver, Sender};

fn dispatch(id: u128, asset_id: u128, mw: i64) -> Dispatch {
    Dispatch {
        id,
        asset_id,
        mw,
        duration_s: Some(30),
        status: DispatchStatus::Accepted,
        reason: None,
        submitted_at: 5,
        clamped: false,
        placeholder: false,
    }
}

fn stream(tx: Sender<HeadendToAgent>, site_id: u128) -> AgentStream {
    AgentStream {
        tx,
        peer: "10.0.0.1:5000".to_string(),
        asset_name: "B1".to_string(),
        site_name: "North".to_string(),
        site_id,
        connected_at: 100,
    }
}

fn mailbox(capacity: usize) -> (Sender<HeadendToAgent>, Receiver<HeadendToAgent>) {
    channel(capacity)
}

#[test]
fn setpoint_reaches_a_connected_agent() {
    let (tx, mut rx) = mailbox(32);
    let mut registry = StreamRegistry::new();
    registry.register(1, stream(tx, 7));
    assert_eq!(registry.send_or_park(dispatch(0x2a, 1, 5_000_000_000), Some(7)), Ok(()));
    assert_eq!(registry.pending.len(), 0);
    let HeadendToAgent::Setpoint(sp) = rx.try_recv().unwrap();
    assert_eq!(sp.asset_id, "00000000-0000-0000-0000-000000000001");
    assert_eq!(sp.mw, 5_000_000_000);
    assert_eq!(sp.duration_s, Some(30));
    assert_eq!(sp.site_id.as_deref(), Some("00000000-0000-0000-0000-000000000007"));
    assert_eq!(sp.group_id, None);
    assert_eq!(sp.dispatch_id.as_deref(), Some("00000000-0000-0000-0000-00000000002a"));
    assert!(rx.try_recv().is_err());
}

#[test]
fn setpoint_for_an_absent_agent_is_parked() {
    let mut registry = StreamRegistry::new();
    assert_eq!(
        registry.send_or_park(dispatch(10, 1, 5), None),
        Err(DeliveryError::AgentNotConnected)
    );
    assert_eq!(registry.pending.get(1).unwrap().id, 10);
}

#[test]
fn a_new_request_replaces_the_parked_one() {
    let mut registry = StreamRegistry::new();
    let _ = registry.send_or_park(dispatch(10, 1, 5), None);
    let _ = registry.send_or_park(dispatch(11, 1, 6), None);
    let _ = registry.send_or_park(dispatch(12, 2, 7), None);
    assert_eq!(registry.pending.len(), 2);
    assert_eq!(registry.pending.get(1).unwrap().id, 11);
    assert_eq!(registry.pending.get(2).unwrap().id, 12);
}

#[test]
fn full_mailbox_parks_the_dispatch() {
    let (tx, mut rx) = mailbox(1);
    let mut registry = StreamRegistry::new();
    registry.register(1, stream(tx, 7));
    assert_eq!(registry.send_or_park(dispatch(10, 1, 5), Some(7)), Ok(()));
    assert_eq!(
        registry.send_or_park(dispatch(11, 1, 6), Some(7)),
        Err(DeliveryError::MailboxFull)
    );
    assert_eq!(registry.pending.get(1).unwrap().id, 11);
    let HeadendToAgent::Setpoint(sp) = rx.try_recv().unwrap();
    assert_eq!(sp.mw, 5);
    assert!(rx.try_recv().is_err());
}

#[test]
fn closed_mailbox_counts_as_not_connected() {
    let (tx, rx) = mailbox(4);
    drop(rx);
    let mut registry = StreamRegistry::new();
    registry.register(1, stream(tx, 7));
    assert_eq!(
        registry.send_or_park(dispatch(10, 1, 5), Some(7)),
        Err(DeliveryError::AgentNotConnected)
    );
    assert!(registry.pending.contains_key(1));
    assert!(registry.streams.contains_key(1));
}

#[test]
fn parked_dispatch_is_delivered_on_registration() {
    let mut registry = StreamRegistry::new();
    let _ = registry.send_or_park(dispatch(0xabc, 1, 5_000_000_000), Some(3));
    let (tx, mut rx) = mailbox(32);
    let done = registry.register(1, stream(tx, 7));
    assert!(done.replaced.is_none());
    assert_eq!(done.delivered.unwrap().id, 0xabc);
    assert!(!registry.pending.contains_key(1));
    let HeadendToAgent::Setpoint(sp) = rx.try_recv().unwrap();
    assert_eq!(sp.mw, 5_000_000_000);
    assert_eq!(sp.dispatch_id.as_deref(), Some("00000000-0000-0000-0000-000000000abc"));
    // The site is the one the agent registered for.
    assert_eq!(sp.site_id.as_deref(), Some("00000000-0000-0000-0000-000000000007"));
}

#[test]
fn parked_dispatch_stays_when_the_mailbox_refuses_it() {
    let mut registry = StreamRegistry::new();
    let _ = registry.send_or_park(dispatch(10, 1, 5), None);
    let (tx, _rx) = mailbox(1);
    tx.try_send(HeadendToAgent::Setpoint(der_core::wire::setpoint_for(&dispatch(1, 1, 1), None)))
        .unwrap();
    let done = registry.register(1, stream(tx, 7));
    assert!(done.delivered.is_none());
    assert_eq!(registry.pending.get(1).unwrap().id, 10);
    assert!(registry.streams.contains_key(1));
}

#[test]
fn registration_leaves_other_parked_dispatches_alone() {
    let mut registry = StreamRegistry::new();
    let _ = registry.send_or_park(dispatch(10, 1, 5), None);
    let _ = registry.send_or_park(dispatch(20, 2, 5), None);
    let (tx, _rx) = mailbox(8);
    registry.register(1, stream(tx, 7));
    assert!(!registry.pending.contains_key(1));
    assert_eq!(registry.pending.get(2).unwrap().id, 20);
}

#[test]
fn second_registration_replaces_the_first() {
    let mut registry = StreamRegistry::new();
    let (tx1, mut rx1) = mailbox(8);
    let (tx2, mut rx2) = mailbox(8);
    registry.register(1, stream(tx1, 7));
    let mut second = stream(tx2, 7);
    second.peer = "10.0.0.2:6000".to_string();
    let done = registry.register(1, second);
    assert_eq!(done.replaced.unwrap().peer, "10.0.0.1:5000");
    assert_eq!(registry.streams.len(), 1);
    assert_eq!(registry.streams.get(1).unwrap().peer, "10.0.0.2:6000");
    assert_eq!(registry.send_or_park(dispatch(10, 1, 5), None), Ok(()));
    assert!(rx1.try_recv().is_err());
    assert!(rx2.try_recv().is_ok());
}

#[test]
fn deregister_hands_the_stream_back() {
    let mut registry = StreamRegistry::new();
    let (tx, _rx) = mailbox(8);
    registry.register(1, stream(tx, 7));
    assert_eq!(registry.deregister(1).unwrap().asset_name, "B1");
    assert!(registry.deregister(1).is_none());
    assert_eq!(registry.streams.len(), 0);
}

#[test]
fn settle_pending_follows_the_outcome() {
    let mut registry = StreamRegistry::new();
    let _ = registry.send_or_park(dispatch(10, 1, 5), None);
    assert!(registry.settle_pending(1, SendOutcome::Full).is_none());
    assert!(registry.pending.contains_key(1));
    assert!(registry.settle_pending(1, SendOutcome::Closed).is_none());
    assert!(registry.pending.contains_key(1));
    assert_eq!(registry.settle_pending(1, SendOutcome::Accepted).unwrap().id, 10);
    assert!(!registry.pending.contains_key(1));
}

#[test]
fn park_unless_accepted_answers_for_each_outcome() {
    let mut registry = StreamRegistry::new();
    assert_eq!(
        registry.park_unless_accepted(dispatch(1, 1, 5), Some(SendOutcome::Accepted)),
        Ok(())
    );
    assert_eq!(registry.pending.len(), 0);
    assert_eq!(
        registry.park_unless_accepted(dispatch(2, 1, 5), Some(SendOutcome::Full)),
        Err(DeliveryError::MailboxFull)
    );
    assert_eq!(
        registry.park_unless_accepted(dispatch(3, 2, 5), Some(SendOutcome::Closed)),
        Err(DeliveryError::AgentNotConnected)
    );
    assert_eq!(
        registry.park_unless_accepted(dispatch(4, 3, 5), None),
        Err(DeliveryError::AgentNotConnected)
    );
    assert_eq!(registry.pending.len(), 3);
}
