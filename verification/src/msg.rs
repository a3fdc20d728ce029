//! Shared data types: session identifiers, chat messages and the events
//! that flow from an aggregator toward a session.

use vstd::prelude::*;

verus! {

/// Identifier of one live session within one user's aggregator.
///
/// Opaque: it is only ever compared for equality, to exclude the source
/// of a sync echo and to find the entry to remove. The driver that owns
/// the transports assigns each new connection a value not currently in
/// use for that user.
#[derive(Clone, Copy, Debug, Hash, PartialEq, Eq, Structural)]
pub struct SessionId(pub u64);

/// Mathematical value of a [`ChatMessage`].
pub struct ChatMessageView {
    pub recipient: Seq<char>,
    pub sender: Seq<char>,
    pub text: Seq<char>,
    pub time_ms: int,
}

/// One chat message. Immutable once constructed. `time_ms` is a UTC
/// timestamp in milliseconds since the epoch; text fields are held as
/// character vectors so that contracts speak directly of their
/// characters.
pub struct ChatMessage {
    pub recipient: Vec<char>,
    pub sender: Vec<char>,
    pub text: Vec<char>,
    pub time_ms: i64,
}

impl View for ChatMessage {
    type V = ChatMessageView;

    open spec fn view(&self) -> ChatMessageView {
        ChatMessageView {
            recipient: self.recipient@,
            sender: self.sender@,
            text: self.text@,
            time_ms: self.time_ms as int,
        }
    }
}

/// Copies the characters of `v` into a fresh vector.
pub fn clone_chars(v: &Vec<char>) -> (r: Vec<char>)
    ensures
        r@ == v@,
{
    let mut out: Vec<char> = Vec::new();
    let mut i: usize = 0;
    while i < v.len()
        invariant
            i <= v.len(),
            out@.len() == i,
            forall|k: int| 0 <= k < i ==> out@[k] == v@[k],
        decreases v.len() - i,
    {
        out.push(v[i]);
        i = i + 1;
    }
    assert(out@ =~= v@);
    out
}

impl Clone for ChatMessage {
    fn clone(&self) -> (r: Self)
        ensures
            r@ == self@,
    {
        ChatMessage {
            recipient: clone_chars(&self.recipient),
            sender: clone_chars(&self.sender),
            text: clone_chars(&self.text),
            time_ms: self.time_ms,
        }
    }
}

/// Mathematical value of an [`OutboundEvent`].
pub enum OutboundEventView {
    Chat(ChatMessageView),
    ContactAdded(Seq<char>),
    ContactRemoved(Seq<char>),
    SyncEcho(ChatMessageView),
}

/// One event sent from an aggregator or the registry toward a session,
/// to be encoded onto that session's transport.
pub enum OutboundEvent {
    /// A message addressed to this user, delivered through the registry.
    Chat(ChatMessage),
    /// Another user appeared (presence hook; not needed for delivery).
    ContactAdded(Vec<char>),
    /// A user went away (presence hook; not needed for delivery).
    ContactRemoved(Vec<char>),
    /// A copy of a message that one of this user's *other* sessions just
    /// sent, relayed so every device shows the same conversation.
    SyncEcho(ChatMessage),
}

impl View for OutboundEvent {
    type V = OutboundEventView;

    open spec fn view(&self) -> OutboundEventView {
        match self {
            OutboundEvent::Chat(m) => OutboundEventView::Chat(m@),
            OutboundEvent::ContactAdded(n) => OutboundEventView::ContactAdded(n@),
            OutboundEvent::ContactRemoved(n) => OutboundEventView::ContactRemoved(n@),
            OutboundEvent::SyncEcho(m) => OutboundEventView::SyncEcho(m@),
        }
    }
}

} // verus!
