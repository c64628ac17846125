//! The rules of the relay that follows a forwarded handshake.
//!
//! Both directions are open at once. What arrives from one peer is passed to
//! the other as it came. The first end of stream or failure, on either side,
//! ends the relay as a whole: there is no half-closed state.

use vstd::prelude::*;

verus! {

/// One end of a relayed connection.
#[derive(Clone, Copy, Debug, PartialEq, Eq, Structural)]
pub enum Peer {
    Client,
    Backend,
}

impl Peer {
    /// The peer at the other end.
    pub open spec fn spec_other(self) -> Peer {
        match self {
            Peer::Client => Peer::Backend,
            Peer::Backend => Peer::Client,
        }
    }

    /// The peer at the other end.
    #[verifier::when_used_as_spec(spec_other)]
    pub fn other(self) -> (peer: Peer)
        ensures
            peer == self.spec_other(),
    {
        match self {
            Peer::Client => Peer::Backend,
            Peer::Backend => Peer::Client,
        }
    }
}

/// What happened on one of the two sockets.
#[derive(Clone, Debug, PartialEq, Eq)]
pub enum RelayEvent {
    /// A read from `from` returned `bytes`. A read that returns nothing is
    /// the end of that peer's stream.
    Received { from: Peer, bytes: Vec<u8> },
    /// A read from, or a write to, `peer` failed.
    Failed { peer: Peer },
}

/// What to do about it.
#[derive(Clone, Debug, PartialEq, Eq)]
pub enum RelayAction {
    /// Write all of `bytes` to `to`.
    Send { to: Peer, bytes: Vec<u8> },
    /// Close both sockets and stop.
    Close,
}

/// Whether `event` ends the relay.
pub open spec fn ends_relay(event: RelayEvent) -> bool {
    match event {
        RelayEvent::Received { from, bytes } => bytes@.len() == 0,
        RelayEvent::Failed { peer } => true,
    }
}

/// The bytes that `action` writes to `to`.
pub open spec fn sent_to(action: RelayAction, to: Peer) -> Seq<u8> {
    match action {
        RelayAction::Send { to: target, bytes } => if target == to {
            bytes@
        } else {
            Seq::empty()
        },
        RelayAction::Close => Seq::empty(),
    }
}

/// The bytes that `event` brings from `from`.
pub open spec fn received_from(event: RelayEvent, from: Peer) -> Seq<u8> {
    match event {
        RelayEvent::Received { from: source, bytes } => if source == from {
            bytes@
        } else {
            Seq::empty()
        },
        RelayEvent::Failed { peer } => Seq::empty(),
    }
}

/// One step of the relay: whether it is open afterwards, and what is to be
/// done.
pub open spec fn relay_step(open: bool, event: RelayEvent) -> (bool, RelayAction) {
    match event {
        RelayEvent::Received { from, bytes } => if open && bytes@.len() > 0 {
            (true, RelayAction::Send { to: from.spec_other(), bytes })
        } else {
            (false, RelayAction::Close)
        },
        RelayEvent::Failed { peer } => (false, RelayAction::Close),
    }
}

/// All that is written to `to` while `events` happen one after the other.
pub open spec fn forwarded(open: bool, events: Seq<RelayEvent>, to: Peer) -> Seq<u8>
    decreases events.len(),
{
    if events.len() == 0 {
        Seq::empty()
    } else {
        let (still_open, action) = relay_step(open, events[0]);
        sent_to(action, to) + forwarded(still_open, events.drop_first(), to)
    }
}

/// All that is read from `from` before the first event that ends the relay.
pub open spec fn arrived(events: Seq<RelayEvent>, from: Peer) -> Seq<u8>
    decreases events.len(),
{
    if events.len() == 0 || ends_relay(events[0]) {
        Seq::empty()
    } else {
        received_from(events[0], from) + arrived(events.drop_first(), from)
    }
}

/// A relay that has ended writes nothing more.
pub proof fn lemma_closed_relay_is_silent(events: Seq<RelayEvent>, to: Peer)
    ensures
        forwarded(false, events, to) == Seq::<u8>::empty(),
    decreases events.len(),
{
    if events.len() > 0 {
        lemma_closed_relay_is_silent(events.drop_first(), to);
    }
}

/// What is written to one peer is, byte for byte and in order, what was read
/// from the other up to the first end of stream or failure on either side,
/// and nothing after it.
pub proof fn lemma_relay_preserves_streams(events: Seq<RelayEvent>, from: Peer)
    ensures
        forwarded(true, events, from.spec_other()) == arrived(events, from),
    decreases events.len(),
{
    if events.len() > 0 {
        if ends_relay(events[0]) {
            lemma_closed_relay_is_silent(events.drop_first(), from.spec_other());
        } else {
            lemma_relay_preserves_streams(events.drop_first(), from);
        }
    }
}

/// The relay of one connection.
pub struct Relay {
    open: bool,
}

impl Relay {
    /// Whether the relay still passes bytes on.
    pub closed spec fn spec_is_open(&self) -> bool {
        self.open
    }

    /// A relay with both directions open.
    pub fn new() -> (relay: Relay)
        ensures
            relay.spec_is_open(),
    {
        Relay { open: true }
    }

    /// Whether the relay still passes bytes on.
    #[verifier::when_used_as_spec(spec_is_open)]
    pub fn is_open(&self) -> (open: bool)
        ensures
            open == self.spec_is_open(),
    {
        self.open
    }

    /// Decides what follows from `event`.
    ///
    /// While the relay is open, bytes from one peer go to the other,
    /// unchanged and all of them. The first event that ends the relay closes
    /// it for good: from then on the answer is `Close`, whatever arrives.
    pub fn on_event(&mut self, event: RelayEvent) -> (action: RelayAction)
        ensures
            (final(self).spec_is_open(), action) == relay_step(old(self).spec_is_open(), event),
            final(self).spec_is_open() == (old(self).spec_is_open() && !ends_relay(event)),
    {
        if !self.open {
            return RelayAction::Close;
        }
        match event {
            RelayEvent::Received { from, bytes } => {
                if bytes.len() == 0 {
                    self.open = false;
                    RelayAction::Close
                } else {
                    RelayAction::Send { to: from.other(), bytes }
                }
            },
            RelayEvent::Failed { peer } => {
                self.open = false;
                RelayAction::Close
            },
        }
    }
}

} // verus!
