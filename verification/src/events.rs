//! What the manager asks of the transport below, and the queue in which the
//! requests wait.

use crate::types::{GoodbyeReason, IpAddress, PeerId};
use smallvec::SmallVec;
use vstd::prelude::*;

verus! {

/// A request of the manager to the transport below, or a notice to it.
#[derive(Debug)]
pub enum PeerManagerEvent {
    /// A peer has dialed this node.
    PeerConnectedIncoming(PeerId),
    /// A peer has been dialed.
    PeerConnectedOutgoing(PeerId),
    /// A peer has disconnected.
    PeerDisconnected(PeerId),
    /// A status request is to be sent to the peer.
    Status(PeerId),
    /// A ping is to be sent to the peer.
    Ping(PeerId),
    /// The peer is to be told goodbye for the given reason and disconnected.
    DisconnectPeer(PeerId, GoodbyeReason),
    /// The peer is to be banned, with the given addresses.
    Banned(PeerId, Vec<IpAddress>),
    /// The ban of the peer and of the given addresses is to be lifted.
    UnBanned(PeerId, Vec<IpAddress>),
    /// That many more peers are to be looked for.
    DiscoverPeers(usize),
}

/// What a [`PeerManagerEvent`] holds.
pub enum PeerManagerEventView {
    PeerConnectedIncoming(PeerId),
    PeerConnectedOutgoing(PeerId),
    PeerDisconnected(PeerId),
    Status(PeerId),
    Ping(PeerId),
    DisconnectPeer(PeerId, GoodbyeReason),
    Banned(PeerId, Seq<IpAddress>),
    UnBanned(PeerId, Seq<IpAddress>),
    DiscoverPeers(usize),
}

impl View for PeerManagerEvent {
    type V = PeerManagerEventView;

    open spec fn view(&self) -> PeerManagerEventView {
        match self {
            PeerManagerEvent::PeerConnectedIncoming(id) => PeerManagerEventView::PeerConnectedIncoming(
                *id,
            ),
            PeerManagerEvent::PeerConnectedOutgoing(id) => PeerManagerEventView::PeerConnectedOutgoing(
                *id,
            ),
            PeerManagerEvent::PeerDisconnected(id) => PeerManagerEventView::PeerDisconnected(*id),
            PeerManagerEvent::Status(id) => PeerManagerEventView::Status(*id),
            PeerManagerEvent::Ping(id) => PeerManagerEventView::Ping(*id),
            PeerManagerEvent::DisconnectPeer(id, reason) => PeerManagerEventView::DisconnectPeer(
                *id,
                *reason,
            ),
            PeerManagerEvent::Banned(id, ips) => PeerManagerEventView::Banned(*id, ips@),
            PeerManagerEvent::UnBanned(id, ips) => PeerManagerEventView::UnBanned(*id, ips@),
            PeerManagerEvent::DiscoverPeers(n) => PeerManagerEventView::DiscoverPeers(*n),
        }
    }
}

/// The requests that wait for the transport, oldest first: a
/// `smallvec::SmallVec` that keeps up to sixteen of them in place and grows
/// beyond that as a vector does.
///
/// The verifier does not look into the queue. What it holds goes by the
/// name [`queued`], and the functions below say, without proof, what the
/// calls into `smallvec` do to it.
#[verifier::external_body]
#[derive(Debug)]
pub struct EventQueue {
    inner: SmallVec<[PeerManagerEvent; 16]>,
}

/// The requests that wait in a queue, oldest first.
pub uninterp spec fn queued(queue: EventQueue) -> Seq<PeerManagerEventView>;

impl EventQueue {
    /// Calls `SmallVec::new`. Taken on trust: the new vector is empty.
    #[verifier::external_body]
    pub(crate) fn new() -> (queue: EventQueue)
        ensures
            queued(queue) == Seq::<PeerManagerEventView>::empty(),
    {
        EventQueue { inner: SmallVec::new() }
    }

    /// Calls `SmallVec::push`. Taken on trust: the item is appended and the
    /// items before it stay as they are. Like a vector, it fails only where
    /// memory for one more item cannot be had.
    #[verifier::external_body]
    pub(crate) fn push(&mut self, event: PeerManagerEvent)
        ensures
            queued(*final(self)) == queued(*old(self)).push(event@),
    {
        self.inner.push(event)
    }

    /// Calls `SmallVec::len`. Taken on trust: the result is the number of
    /// items held.
    #[verifier::external_body]
    pub(crate) fn len(&self) -> (n: usize)
        ensures
            n == queued(*self).len(),
    {
        self.inner.len()
    }

    /// Calls `SmallVec::remove` with index zero, which panics on an empty
    /// vector: the queue must hold an item. Taken on trust: the first item
    /// is handed over and the others move up in their order.
    #[verifier::external_body]
    pub(crate) fn pop_front(&mut self) -> (event: PeerManagerEvent)
        requires
            queued(*old(self)).len() > 0,
        ensures
            event@ == queued(*old(self))[0],
            queued(*final(self)) == queued(*old(self)).subrange(
                1,
                queued(*old(self)).len() as int,
            ),
    {
        self.inner.remove(0)
    }
}

} // verus!
