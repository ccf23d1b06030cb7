//! Per-connection, typed, bidirectional message queues, decoupled from raw
//! transport.
//!
//! A postbox holds an inbox of messages the transport collaborator received
//! and an outbox of messages awaiting flush. Sending enqueues; the transport
//! drains the outbox; arrival order is preserved throughout. The concrete
//! client connection demultiplexes state updates out of its inbox while
//! leaving every other message queued.

use vstd::prelude::*;

use crate::message::WorldState;

verus! {

/// Generic bidirectional queue: `I` flows in from the transport, `O` flows
/// out to it.
pub struct PostBox<I, O> {
    pub inbox: Vec<I>,
    pub outbox: Vec<O>,
}

impl<I, O> PostBox<I, O> {
    pub fn new() -> (r: Self)
        ensures
            r.inbox@ == Seq::<I>::empty(),
            r.outbox@ == Seq::<O>::empty(),
    {
        PostBox { inbox: Vec::new(), outbox: Vec::new() }
    }

    /// Enqueues a message for a later flush by the transport collaborator.
    pub fn send(&mut self, msg: O)
        ensures
            final(self).outbox@ == old(self).outbox@.push(msg),
            final(self).inbox@ == old(self).inbox@,
    {
        self.outbox.push(msg);
    }

    /// Hands a received message over from the transport collaborator.
    pub fn enqueue_inbound(&mut self, msg: I)
        ensures
            final(self).inbox@ == old(self).inbox@.push(msg),
            final(self).outbox@ == old(self).outbox@,
    {
        self.inbox.push(msg);
    }

    /// Removes and returns every queued outbound message in arrival order;
    /// the transport collaborator flushes them.
    pub fn drain_outbox(&mut self) -> (out: Vec<O>)
        ensures
            out@ == old(self).outbox@,
            final(self).outbox@ == Seq::<O>::empty(),
            final(self).inbox@ == old(self).inbox@,
    {
        let mut out: Vec<O> = Vec::new();
        core::mem::swap(&mut out, &mut self.outbox);
        out
    }

    pub fn inbox_len(&self) -> (n: usize)
        ensures
            n == self.inbox@.len(),
    {
        self.inbox.len()
    }

    pub fn outbox_len(&self) -> (n: usize)
        ensures
            n == self.outbox@.len(),
    {
        self.outbox.len()
    }
}

/// A message from the server: either one synchronization unit or an opaque
/// application payload that this crate passes through untouched.
pub enum ServerToClientMessage {
    StateUpdate(WorldState),
    Payload(Vec<u8>),
}

/// A message to the server: a command issued at a frame (encoded bytes), or
/// an opaque application payload.
pub enum ClientToServerMessage {
    Command(u32, Vec<u8>),
    Payload(Vec<u8>),
}

/// The client connection's postbox.
pub type ClientPostBox = PostBox<ServerToClientMessage, ClientToServerMessage>;

/// The state updates of an inbox, in arrival order.
pub open spec fn state_updates(s: Seq<ServerToClientMessage>) -> Seq<WorldState>
    decreases s.len(),
{
    if s.len() == 0 {
        Seq::empty()
    } else {
        let rest = state_updates(s.drop_first());
        match s[0] {
            ServerToClientMessage::StateUpdate(u) => seq![u] + rest,
            _ => rest,
        }
    }
}

/// The other messages of an inbox, in arrival order.
pub open spec fn other_messages(s: Seq<ServerToClientMessage>) -> Seq<ServerToClientMessage>
    decreases s.len(),
{
    if s.len() == 0 {
        Seq::empty()
    } else {
        let rest = other_messages(s.drop_first());
        match s[0] {
            ServerToClientMessage::StateUpdate(_) => rest,
            _ => seq![s[0]] + rest,
        }
    }
}

/// Removes exactly the state updates from the inbox, in arrival order, and
/// leaves every other message queued in arrival order.
pub fn drain_state_updates(pb: &mut ClientPostBox) -> (out: Vec<WorldState>)
    ensures
        out@ == state_updates(old(pb).inbox@),
        final(pb).inbox@ == other_messages(old(pb).inbox@),
        final(pb).outbox@ == old(pb).outbox@,
{
    let mut incoming: Vec<ServerToClientMessage> = Vec::new();
    core::mem::swap(&mut incoming, &mut pb.inbox);
    let ghost orig = incoming@;
    let mut updates: Vec<WorldState> = Vec::new();
    let mut rest: Vec<ServerToClientMessage> = Vec::new();
    while incoming.len() > 0
        invariant
            state_updates(orig) == updates@ + state_updates(incoming@),
            other_messages(orig) == rest@ + other_messages(incoming@),
        decreases incoming@.len(),
    {
        let ghost pre = incoming@;
        let m = incoming.remove(0);
        proof {
            assert(incoming@ =~= pre.drop_first());
            assert(m == pre[0]);
        }
        match m {
            ServerToClientMessage::StateUpdate(u) => {
                let ghost pre_updates = updates@;
                updates.push(u);
                proof {
                    assert(pre_updates + (seq![u] + state_updates(incoming@))
                        =~= updates@ + state_updates(incoming@));
                }
            },
            other => {
                let ghost pre_rest = rest@;
                let ghost o = other;
                rest.push(other);
                proof {
                    assert(pre_rest + (seq![o] + other_messages(incoming@))
                        =~= rest@ + other_messages(incoming@));
                }
            },
        }
    }
    proof {
        assert(incoming@.len() == 0);
        assert(updates@ + state_updates(incoming@) =~= updates@);
        assert(rest@ + other_messages(incoming@) =~= rest@);
    }
    pb.inbox = rest;
    updates
}

} // verus!
