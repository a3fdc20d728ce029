//! The per-user aggregator: owner of the set of live sessions for one
//! user name.
//!
//! It fans messages delivered through the registry out to every session,
//! fans a message sent by one of its own sessions out to that user's
//! *other* sessions (the sync echo) and hands it back for forwarding to
//! the registry, and tracks session arrival and departure. When its last
//! session is removed it reports its own removal and terminates; the
//! terminated state is absorbing.

use vstd::prelude::*;
use crate::msg::{ChatMessage, OutboundEvent, OutboundEventView, SessionId};

verus! {

/// Mathematical value of a [`UserAggregator`].
pub struct AggregatorView {
    pub name: Seq<char>,
    pub sessions: Seq<SessionId>,
    pub terminated: bool,
}

/// The sessions of `sessions` other than `source`, in order: the sync
/// echo targets for a message sent by `source`.
pub open spec fn others(sessions: Seq<SessionId>, source: SessionId) -> Seq<SessionId>
    decreases sessions.len(),
{
    if sessions.len() == 0 {
        sessions
    } else {
        let rest = others(sessions.drop_last(), source);
        if sessions.last() == source {
            rest
        } else {
            rest.push(sessions.last())
        }
    }
}

/// A session never sees an echo of its own message, and every other
/// session sees exactly the echoes addressed to it: the echo targets
/// are the other sessions, and nothing else.
pub proof fn lemma_sync_excludes_source(sessions: Seq<SessionId>, source: SessionId)
    ensures
        !others(sessions, source).contains(source),
        forall|id: SessionId|
            sessions.contains(id) && id != source ==> others(sessions, source).contains(id),
        forall|id: SessionId|
            others(sessions, source).contains(id) ==> sessions.contains(id) && id != source,
    decreases sessions.len(),
{
    if sessions.len() > 0 {
        let pre = sessions.drop_last();
        let last = sessions.last();
        lemma_sync_excludes_source(pre, source);
        let rest = others(pre, source);
        let r = others(sessions, source);
        assert forall|id: SessionId| sessions.contains(id) && id != source implies r.contains(
            id,
        ) by {
            let k = choose|k: int| 0 <= k < sessions.len() && sessions[k] == id;
            if k == sessions.len() - 1 {
                assert(id == last);
                assert(r == rest.push(last));
                assert(r[rest.len() as int] == id);
                assert(r.contains(id));
            } else {
                assert(pre[k] == id);
                assert(pre.contains(id));
                let j = choose|j: int| 0 <= j < rest.len() && rest[j] == id;
                assert(r[j] == id);
                assert(r.contains(id));
            }
        }
        assert forall|id: SessionId| r.contains(id) implies sessions.contains(id) && id
            != source by {
            let j = choose|j: int| 0 <= j < r.len() && r[j] == id;
            if last != source && j == r.len() - 1 {
                assert(r == rest.push(last));
                assert(r[j] == last);
                assert(sessions[sessions.len() - 1] == id);
                assert(sessions.contains(id));
            } else {
                assert(rest[j] == id);
                assert(rest.contains(id));
                assert(pre.contains(id) && id != source);
                let k = choose|k: int| 0 <= k < pre.len() && pre[k] == id;
                assert(sessions[k] == id);
                assert(sessions.contains(id));
            }
        }
        assert(!r.contains(source));
    }
}

/// Result of removing a session from an aggregator.
#[derive(Clone, Copy, Debug, PartialEq, Eq, Structural)]
pub enum RemoveOutcome {
    /// No session with that id was present; the call changed nothing.
    /// (Defensive: a double removal is logged and ignored, not an
    /// error.)
    NotFound,
    /// The session was removed and others remain.
    Removed,
    /// The removed session was the last one: the aggregator has
    /// terminated, and its removal must now be reported to the
    /// registry. This is the unique teardown path.
    TerminatedLast,
}

/// What `deliver_from_session` asks the driver to do: echo the message
/// to the sender's sibling sessions, then forward it toward its
/// recipient through the registry.
pub struct SessionFanout {
    /// Every live session of this user except the source, in list
    /// order; each is to be sent `echo`.
    pub echo_targets: Vec<SessionId>,
    /// The sync echo of the message, for the sibling sessions.
    pub echo: OutboundEvent,
    /// The message, unchanged, to be forwarded to the registry for
    /// delivery to its recipient.
    pub forward: ChatMessage,
}

/// The owning unit for one user's sessions. All mutation goes through
/// `&mut self` methods; the driver serializes them in the user's one
/// processing loop.
pub struct UserAggregator {
    name: Vec<char>,
    sessions: Vec<SessionId>,
    terminated: bool,
}

impl View for UserAggregator {
    type V = AggregatorView;

    closed spec fn view(&self) -> AggregatorView {
        AggregatorView {
            name: self.name@,
            sessions: self.sessions@,
            terminated: self.terminated,
        }
    }
}

impl UserAggregator {
    /// Well-formedness: session ids are unique, and a terminated
    /// aggregator holds no sessions.
    pub open spec fn wf(self) -> bool {
        &&& forall|i: int, j: int|
            0 <= i < j < self@.sessions.len() ==> self@.sessions[i] != self@.sessions[j]
        &&& self@.terminated ==> self@.sessions.len() == 0
    }

    /// A fresh aggregator for `name`: live, with no sessions yet. The
    /// registry creates one the first time a name is looked up.
    pub fn new(name: Vec<char>) -> (r: UserAggregator)
        ensures
            r.wf(),
            r@.name == name@,
            r@.sessions == Seq::<SessionId>::empty(),
            !r@.terminated,
    {
        let r = UserAggregator { name, sessions: Vec::new(), terminated: false };
        proof {
            assert(r@.sessions =~= Seq::<SessionId>::empty());
        }
        r
    }

    /// The user name this aggregator serves.
    pub fn name(&self) -> (r: &Vec<char>)
        ensures
            r@ == self@.name,
    {
        &self.name
    }

    /// Whether the aggregator has terminated; no operation is valid on
    /// a terminated aggregator, and its driver's loop stops.
    pub fn is_terminated(&self) -> (r: bool)
        ensures
            r == self@.terminated,
    {
        self.terminated
    }

    /// Index of `id` in the session list, if present.
    fn find(&self, id: SessionId) -> (r: Option<usize>)
        ensures
            match r {
                Some(i) => i < self@.sessions.len() && self@.sessions[i as int] == id,
                None => !self@.sessions.contains(id),
            },
    {
        let mut i: usize = 0;
        while i < self.sessions.len()
            invariant
                i <= self@.sessions.len(),
                forall|k: int| 0 <= k < i ==> self@.sessions[k] != id,
            decreases self@.sessions.len() - i,
        {
            if self.sessions[i] == id {
                return Some(i);
            }
            i = i + 1;
        }
        assert forall|k: int| 0 <= k < self@.sessions.len() implies self@.sessions[k] != id by {}
        None
    }

    /// Whether a session with `id` is in the list.
    pub fn has_session(&self, id: SessionId) -> (r: bool)
        ensures
            r == self@.sessions.contains(id),
    {
        let r = self.find(id);
        match r {
            Some(i) => {
                assert(self@.sessions[i as int] == id);
                true
            },
            None => false,
        }
    }

    /// Attaches a new session. The driver hands each connection an id
    /// not currently in the list (ids are never reused while live), so
    /// a duplicate add cannot arise.
    pub fn add_session(&mut self, id: SessionId)
        requires
            old(self).wf(),
            !old(self)@.terminated,
            !old(self)@.sessions.contains(id),
        ensures
            final(self).wf(),
            final(self)@.name == old(self)@.name,
            !final(self)@.terminated,
            final(self)@.sessions == old(self)@.sessions.push(id),
    {
        self.sessions.push(id);
        proof {
            assert(forall|k: int| 0 <= k < old(self)@.sessions.len()
                ==> old(self)@.sessions[k] != id);
        }
    }

    /// Detaches the session `id`, defensively ignoring an id that is
    /// not in the list. Removing the last session terminates the
    /// aggregator, which must then be removed from the registry.
    pub fn remove_session(&mut self, id: SessionId) -> (out: RemoveOutcome)
        requires
            old(self).wf(),
            !old(self)@.terminated,
        ensures
            final(self).wf(),
            final(self)@.name == old(self)@.name,
            match out {
                RemoveOutcome::NotFound => {
                    &&& !old(self)@.sessions.contains(id)
                    &&& final(self)@ == old(self)@
                },
                RemoveOutcome::Removed => {
                    &&& exists|i: int|
                        0 <= i < old(self)@.sessions.len() && old(self)@.sessions[i] == id
                            && final(self)@.sessions == old(self)@.sessions.remove(i)
                    &&& !final(self)@.sessions.contains(id)
                    &&& final(self)@.sessions.len() > 0
                    &&& !final(self)@.terminated
                },
                RemoveOutcome::TerminatedLast => {
                    &&& old(self)@.sessions =~= seq![id]
                    &&& final(self)@.sessions.len() == 0
                    &&& final(self)@.terminated
                },
            },
    {
        let found = self.find(id);
        match found {
            None => RemoveOutcome::NotFound,
            Some(i) => {
                let ghost pre = self@.sessions;
                self.sessions.remove(i);
                proof {
                    assert(self@.sessions =~= pre.remove(i as int));
                    assert(forall|k: int| 0 <= k < self@.sessions.len()
                        ==> #[trigger] self@.sessions[k] == (if k < i as int {
                            pre[k]
                        } else {
                            pre[k + 1]
                        }));
                    assert(!self@.sessions.contains(id)) by {
                        if self@.sessions.contains(id) {
                            let k = choose|k: int| 0 <= k < self@.sessions.len()
                                && self@.sessions[k] == id;
                        }
                    }
                }
                if self.sessions.is_empty() {
                    self.terminated = true;
                    proof {
                        assert(pre =~= seq![id]);
                    }
                    RemoveOutcome::TerminatedLast
                } else {
                    RemoveOutcome::Removed
                }
            },
        }
    }

    /// Fan-out for a message delivered through the registry (addressed
    /// to this user from elsewhere, including a relayed self-send):
    /// every current session is a target, in list order, and each is to
    /// be sent the message.
    pub fn deliver_from_registry(&self, m: ChatMessage) -> (r: (Vec<SessionId>, OutboundEvent))
        ensures
            r.0@ == self@.sessions,
            r.1@ == OutboundEventView::Chat(m@),
    {
        (self.broadcast_targets(), OutboundEvent::Chat(m))
    }

    /// Fan-out for a message sent by this user's own session `source`:
    /// a sync echo goes to every *other* session, and the message goes
    /// back out toward its recipient through the registry. Both halves
    /// are best-effort and independent.
    pub fn deliver_from_session(&self, source: SessionId, m: ChatMessage) -> (plan: SessionFanout)
        ensures
            plan.echo_targets@ == others(self@.sessions, source),
            plan.echo@ == OutboundEventView::SyncEcho(m@),
            plan.forward == m,
    {
        let mut echo_targets: Vec<SessionId> = Vec::new();
        let mut i: usize = 0;
        while i < self.sessions.len()
            invariant
                i <= self@.sessions.len(),
                echo_targets@ == others(self@.sessions.subrange(0, i as int), source),
            decreases self@.sessions.len() - i,
        {
            let ghost prefix = self@.sessions.subrange(0, i as int);
            let s = self.sessions[i];
            if s.0 != source.0 {
                echo_targets.push(s);
            }
            proof {
                let next_prefix = self@.sessions.subrange(0, i + 1 as int);
                assert(next_prefix.drop_last() =~= prefix);
                assert(next_prefix.last() == self@.sessions[i as int]);
                if s.0 == source.0 {
                    assert(s == source);
                }
            }
            i = i + 1;
        }
        proof {
            assert(self@.sessions.subrange(0, self@.sessions.len() as int) =~= self@.sessions);
        }
        SessionFanout { echo_targets, echo: OutboundEvent::SyncEcho(m.clone()), forward: m }
    }

    /// Targets for an event that goes to every session: the whole
    /// session list, in order.
    fn broadcast_targets(&self) -> (targets: Vec<SessionId>)
        ensures
            targets@ == self@.sessions,
    {
        let mut targets: Vec<SessionId> = Vec::new();
        let mut i: usize = 0;
        while i < self.sessions.len()
            invariant
                i <= self@.sessions.len(),
                targets@ == self@.sessions.subrange(0, i as int),
            decreases self@.sessions.len() - i,
        {
            targets.push(self.sessions[i]);
            proof {
                assert(self@.sessions.subrange(0, i + 1 as int) =~= self@.sessions.subrange(
                    0,
                    i as int,
                ).push(self@.sessions[i as int]));
            }
            i = i + 1;
        }
        proof {
            assert(self@.sessions.subrange(0, self@.sessions.len() as int) =~= self@.sessions);
        }
        targets
    }

    /// Presence hook: every session is told that `name` appeared.
    pub fn notify_contact_added(&self, name: Vec<char>) -> (r: (Vec<SessionId>, OutboundEvent))
        ensures
            r.0@ == self@.sessions,
            r.1@ == OutboundEventView::ContactAdded(name@),
    {
        (self.broadcast_targets(), OutboundEvent::ContactAdded(name))
    }

    /// Presence hook: every session is told that `name` went away.
    pub fn notify_contact_removed(&self, name: Vec<char>) -> (r: (Vec<SessionId>, OutboundEvent))
        ensures
            r.0@ == self@.sessions,
            r.1@ == OutboundEventView::ContactRemoved(name@),
    {
        (self.broadcast_targets(), OutboundEvent::ContactRemoved(name))
    }
}

} // verus!
