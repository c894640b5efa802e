//! The registry of live agent streams, keyed by asset, and the setpoints
//! parked for assets whose agent could not be reached.

use vstd::prelude::*;
use crate::idmap::IdMap;
use crate::model::Dispatch;
use crate::wire::{setpoint_for, HeadendToAgent, Setpoint};

verus! {

/// Least capacity of the mailbox of a connection.  A mailbox that is full
/// stands for a stream that has stalled.
pub const MAILBOX_CAPACITY: usize = 32;

/// The sending half of the bounded mailbox of a connection.
#[verifier::external_type_specification]
#[verifier::external_body]
#[verifier::reject_recursive_types(T)]
pub struct ExSender<T>(tokio::sync::mpsc::Sender<T>);

/// What became of a message offered to a mailbox.
#[derive(Clone, Copy, Debug, PartialEq, Eq, Structural)]
pub enum SendOutcome {
    /// The mailbox took the message.
    Accepted,
    /// The mailbox had no room.
    Full,
    /// The receiving half is gone.
    Closed,
}

/// Why a setpoint did not reach its agent.
#[derive(Clone, Copy, Debug, PartialEq, Eq, Structural)]
pub enum DeliveryError {
    /// No live stream serves the asset.
    AgentNotConnected,
    /// The mailbox of the stream is full.
    MailboxFull,
}

/// Offers `message` to a mailbox without waiting.
///
/// Calls `tokio::sync::mpsc::Sender::try_send`.  The outcome depends on the
/// state of the channel, so nothing is claimed of it.
#[verifier::external_body]
pub(crate) fn offer(
    sink: &tokio::sync::mpsc::Sender<HeadendToAgent>,
    message: HeadendToAgent,
) -> (outcome: SendOutcome) {
    match sink.try_send(message) {
        Ok(()) => SendOutcome::Accepted,
        Err(tokio::sync::mpsc::error::TrySendError::Full(_)) => SendOutcome::Full,
        Err(tokio::sync::mpsc::error::TrySendError::Closed(_)) => SendOutcome::Closed,
    }
}

/// Another handle on the same mailbox.
///
/// Calls the `Clone` impl of `tokio::sync::mpsc::Sender`.
#[verifier::external_body]
pub(crate) fn clone_sink(sink: &tokio::sync::mpsc::Sender<HeadendToAgent>) -> (copy:
    tokio::sync::mpsc::Sender<HeadendToAgent>) {
    sink.clone()
}

/// A live agent stream serving one asset.
#[derive(Debug)]
pub struct AgentStream {
    pub tx: tokio::sync::mpsc::Sender<HeadendToAgent>,
    pub peer: String,
    pub asset_name: String,
    pub site_name: String,
    pub site_id: u128,
    pub connected_at: i64,
}

/// What registering a stream did besides recording it.
#[derive(Debug)]
pub struct Registered {
    /// The stream that served the asset until now.
    pub replaced: Option<AgentStream>,
    /// The parked dispatch that the new stream took.
    pub delivered: Option<Dispatch>,
}

/// Live streams and parked dispatches, each keyed by asset.
#[derive(Debug)]
pub struct StreamRegistry {
    pub streams: IdMap<AgentStream>,
    pub pending: IdMap<Dispatch>,
}

/// The parked dispatches after a parked one was offered to a new stream: it
/// leaves if and only if the mailbox took it.
pub open spec fn pending_after_offer(
    pending: Map<u128, Dispatch>,
    asset_id: u128,
    outcome: SendOutcome,
) -> Map<u128, Dispatch> {
    if outcome == SendOutcome::Accepted {
        pending.remove(asset_id)
    } else {
        pending
    }
}

/// The answer to a caller whose setpoint met `outcome`; no outcome means
/// that there was no stream to offer it to.
pub open spec fn delivery_result(outcome: Option<SendOutcome>) -> Result<(), DeliveryError> {
    match outcome {
        Some(SendOutcome::Accepted) => Ok(()),
        Some(SendOutcome::Full) => Err(DeliveryError::MailboxFull),
        Some(SendOutcome::Closed) => Err(DeliveryError::AgentNotConnected),
        None => Err(DeliveryError::AgentNotConnected),
    }
}

impl StreamRegistry {
    /// The invariant: both maps are well formed, and each parked dispatch is
    /// parked under its own asset.
    pub open spec fn wf(&self) -> bool {
        &&& self.streams.wf()
        &&& self.pending.wf()
        &&& forall|id: u128| #[trigger]
            self.pending@.contains_key(id) ==> self.pending@[id].asset_id == id
    }

    /// A registry without streams or parked dispatches.
    pub fn new() -> (registry: Self)
        ensures
            registry.wf(),
            registry.streams@ == Map::<u128, AgentStream>::empty(),
            registry.pending@ == Map::<u128, Dispatch>::empty(),
    {
        StreamRegistry { streams: IdMap::new(), pending: IdMap::new() }
    }

    /// Settles a parked dispatch that was offered to the stream of its
    /// asset: it is taken out if and only if the mailbox took it.
    pub fn settle_pending(&mut self, asset_id: u128, outcome: SendOutcome) -> (delivered: Option<
        Dispatch,
    >)
        requires
            old(self).wf(),
            old(self).pending@.contains_key(asset_id),
        ensures
            final(self).wf(),
            final(self).streams == old(self).streams,
            final(self).pending@ == pending_after_offer(old(self).pending@, asset_id, outcome),
            delivered == if outcome == SendOutcome::Accepted {
                Some(old(self).pending@[asset_id])
            } else {
                None
            },
    {
        match outcome {
            SendOutcome::Accepted => self.pending.remove(asset_id),
            _ => None,
        }
    }

    /// Records `stream` as the stream of `asset_id`, in place of any earlier
    /// one.  A dispatch parked for the asset is offered to the new stream and
    /// leaves the parked ones if and only if the mailbox takes it.
    pub fn register(&mut self, asset_id: u128, stream: AgentStream) -> (done: Registered)
        requires
            old(self).wf(),
        ensures
            final(self).wf(),
            final(self).streams@ == old(self).streams@.insert(asset_id, stream),
            done.replaced == if old(self).streams@.contains_key(asset_id) {
                Some(old(self).streams@[asset_id])
            } else {
                None
            },
            match done.delivered {
                Some(dispatch) => {
                    &&& old(self).pending@.contains_key(asset_id)
                    &&& dispatch == old(self).pending@[asset_id]
                    &&& final(self).pending@ == old(self).pending@.remove(asset_id)
                },
                None => final(self).pending@ == old(self).pending@,
            },
    {
        let outcome: Option<SendOutcome> = match self.pending.get(asset_id) {
            Some(parked) => {
                let sp: Setpoint = setpoint_for(parked, Some(stream.site_id));
                Some(offer(&stream.tx, HeadendToAgent::Setpoint(sp)))
            },
            None => None,
        };
        let replaced: Option<AgentStream> = self.streams.insert(asset_id, stream);
        let delivered: Option<Dispatch> = match outcome {
            Some(outcome) => self.settle_pending(asset_id, outcome),
            None => None,
        };
        Registered { replaced, delivered }
    }

    /// Forgets the stream of `asset_id` and hands it back.
    pub fn deregister(&mut self, asset_id: u128) -> (stream: Option<AgentStream>)
        requires
            old(self).wf(),
        ensures
            final(self).wf(),
            final(self).pending == old(self).pending,
            final(self).streams@ == old(self).streams@.remove(asset_id),
            stream == if old(self).streams@.contains_key(asset_id) {
                Some(old(self).streams@[asset_id])
            } else {
                None
            },
    {
        self.streams.remove(asset_id)
    }

    /// Answers the caller for a setpoint that met `outcome`, and parks the
    /// dispatch unless the mailbox took it.  A dispatch parked earlier for the
    /// same asset is replaced.
    pub fn park_unless_accepted(
        &mut self,
        dispatch: Dispatch,
        outcome: Option<SendOutcome>,
    ) -> (result: Result<(), DeliveryError>)
        requires
            old(self).wf(),
        ensures
            final(self).wf(),
            final(self).streams == old(self).streams,
            result == delivery_result(outcome),
            final(self).pending@ == if outcome == Some(SendOutcome::Accepted) {
                old(self).pending@
            } else {
                old(self).pending@.insert(dispatch.asset_id, dispatch)
            },
    {
        match outcome {
            Some(SendOutcome::Accepted) => Ok(()),
            Some(SendOutcome::Full) => {
                self.pending.insert(dispatch.asset_id, dispatch);
                Err(DeliveryError::MailboxFull)
            },
            _ => {
                self.pending.insert(dispatch.asset_id, dispatch);
                Err(DeliveryError::AgentNotConnected)
            },
        }
    }

    /// Offers the setpoint of `dispatch` to the stream of its asset without
    /// waiting; where there is no stream or the mailbox does not take it, the
    /// dispatch is parked, replacing any dispatch parked for the asset, and
    /// the caller is told why.
    pub fn send_or_park(&mut self, dispatch: Dispatch, site_id: Option<u128>) -> (result: Result<
        (),
        DeliveryError,
    >)
        requires
            old(self).wf(),
        ensures
            final(self).wf(),
            final(self).streams == old(self).streams,
            !old(self).streams@.contains_key(dispatch.asset_id) ==> result == Err::<
                (),
                DeliveryError,
            >(DeliveryError::AgentNotConnected),
            match result {
                Ok(()) => old(self).streams@.contains_key(dispatch.asset_id)
                    && final(self).pending@ == old(self).pending@,
                Err(_) => final(self).pending@ == old(self).pending@.insert(
                    dispatch.asset_id,
                    dispatch,
                ),
            },
    {
        let outcome: Option<SendOutcome> = match self.streams.get(dispatch.asset_id) {
            Some(stream) => {
                let sp: Setpoint = setpoint_for(&dispatch, site_id);
                Some(offer(&stream.tx, HeadendToAgent::Setpoint(sp)))
            },
            None => None,
        };
        self.park_unless_accepted(dispatch, outcome)
    }
}

/// Pending drain: a dispatch parked for an asset leaves the parked ones when
/// a stream registers for the asset if and only if the mailbox of the stream
/// takes it; no other parked dispatch is touched.
pub proof fn lemma_pending_drain(pending: Map<u128, Dispatch>, asset_id: u128, outcome: SendOutcome)
    requires
        pending.contains_key(asset_id),
    ensures
        !pending_after_offer(pending, asset_id, outcome).contains_key(asset_id) <==> outcome
            == SendOutcome::Accepted,
        forall|other: u128|
            other != asset_id ==> (pending_after_offer(pending, asset_id, outcome).contains_key(
                other,
            ) <==> pending.contains_key(other)),
        forall|other: u128|
            other != asset_id && pending.contains_key(other) ==> pending_after_offer(
                pending,
                asset_id,
                outcome,
            )[other] == pending[other],
{
}

} // verus!
