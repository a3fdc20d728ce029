//! The session bridge: the owning unit that adapts one live connection
//! to the internal protocol.
//!
//! It decodes inbound wire frames into chat messages tagged with its
//! own session identity, encodes outbound events onto the transport,
//! and on transport closure reports its own removal to the aggregator —
//! exactly once. Open is the working state; Closed is terminal.

use vstd::prelude::*;
use crate::codec;
use crate::msg::{ChatMessage, OutboundEvent, SessionId};

verus! {

/// State of one bridge: it is open until the transport closes under
/// it, and closed for good afterwards.
#[derive(Clone, Copy, Debug, PartialEq, Eq, Structural)]
pub enum BridgeState {
    Open,
    Closed,
}

/// What the bridge asks the driver to do with one inbound text frame.
pub enum InboundDisposition {
    /// The frame decoded into a message: hand it to the aggregator as
    /// `deliver_from_session(id, message)`.
    Forward(ChatMessage),
    /// The frame was malformed: log it and drop it; the connection
    /// stays open.
    DropFrame,
}

/// One session bridge. The driver owns the transport and the mailbox
/// and feeds frames and events in; the bridge owns the decisions.
pub struct SessionBridge {
    id: SessionId,
    state: BridgeState,
}

impl SessionBridge {
    /// The bridge's session identity within its user's aggregator.
    pub closed spec fn spec_id(self) -> SessionId {
        self.id
    }

    /// The bridge's lifecycle state.
    pub closed spec fn spec_state(self) -> BridgeState {
        self.state
    }

    /// A fresh bridge for a connection that just completed its
    /// upgrade, under the identity the driver assigned it.
    pub fn new(id: SessionId) -> (r: SessionBridge)
        ensures
            r.spec_id() == id,
            r.spec_state() == BridgeState::Open,
    {
        SessionBridge { id, state: BridgeState::Open }
    }

    /// The session identity, for tagging forwarded messages.
    pub fn id(&self) -> (r: SessionId)
        ensures
            r == self.spec_id(),
    {
        self.id
    }

    /// The lifecycle state, for the driver's loop condition.
    pub fn state(&self) -> (r: BridgeState)
        ensures
            r == self.spec_state(),
    {
        self.state
    }

    /// Decides what to do with one inbound text frame: a well-formed
    /// frame becomes a message to forward under this bridge's
    /// identity; a malformed one is dropped without closing the
    /// connection.
    pub fn on_inbound_text(&self, frame: &[char]) -> (d: InboundDisposition)
        requires
            self.spec_state() == BridgeState::Open,
        ensures
            match d {
                InboundDisposition::Forward(m) => codec::spec_decode_msg(frame@) == Some(m@),
                InboundDisposition::DropFrame => codec::spec_decode_msg(frame@) is None,
            },
    {
        match codec::decode_message(frame) {
            Some(m) => InboundDisposition::Forward(m),
            None => InboundDisposition::DropFrame,
        }
    }

    /// Encodes one outbound event for the transport. Encoding is
    /// total: no outbound event is ever lost to a serialization
    /// failure.
    pub fn on_outbound_event(&self, e: &OutboundEvent) -> (r: Vec<char>)
        ensures
            r@ == codec::spec_encode_event(e@),
    {
        codec::encode_event(e)
    }

    /// The transport closed (or failed fatally): the bridge closes,
    /// and reports its removal to the aggregator exactly once — on the
    /// transition out of Open, and never from the Closed state.
    pub fn on_transport_close(&mut self) -> (report: bool)
        ensures
            final(self).spec_id() == old(self).spec_id(),
            final(self).spec_state() == BridgeState::Closed,
            report == (old(self).spec_state() == BridgeState::Open),
    {
        let was_open = match self.state {
            BridgeState::Open => true,
            BridgeState::Closed => false,
        };
        self.state = BridgeState::Closed;
        was_open
    }
}

} // verus!
