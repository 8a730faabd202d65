//! The two ways in which a client reaches an authority: a world of its own
//! in the same process, or one behind a transport.
//!
//! Both take a client's messages with `submit` and hand out with `poll` the
//! batches that have come up since the last poll, oldest first. Neither
//! blocks, keeps time or talks to a transport: a local world is ticked when
//! its driver says how far the countdown has run, and a remote one is two
//! queues that its driver empties into the transport and fills from it.

use vstd::prelude::*;
use crate::event::{ClientMessage, Event, ServerMessage};
use crate::id::Id;
use crate::model::{lists_deaths, ticked, Model, ModelView};
use crate::scalar::Double;

verus! {

/// The batches of events that a list of messages carries, in order.
pub open spec fn batches(messages: Seq<ServerMessage>) -> Seq<Seq<Event>> {
    messages.map_values(|message: ServerMessage| message.events())
}

/// A local connection as contracts see it.
pub struct LocalView {
    /// The world that the connection owns.
    pub model: ModelView,
    /// Seconds until the next tick is due, as the driver last gave them.
    pub next_tick: Double,
    /// The batches not yet polled, oldest first.
    pub pending: Seq<Seq<Event>>,
}

impl LocalView {
    /// The connection after a client's message: the world has applied the
    /// event, and the event waits to be polled, in a batch of its own.
    pub open spec fn submitted(self, message: ClientMessage) -> LocalView {
        LocalView {
            model: ModelView {
                players: message->Event_0.apply(self.model.players),
                ..self.model
            },
            pending: self.pending.push(seq![message->Event_0]),
            ..self
        }
    }
}

/// A remote connection as contracts see it.
pub struct RemoteView {
    /// The messages submitted and not yet taken for sending, oldest first.
    pub outgoing: Seq<ClientMessage>,
    /// The batches delivered and not yet polled, oldest first.
    pub pending: Seq<Seq<Event>>,
}

/// A connection as contracts see it.
pub enum ConnectionView {
    Local(LocalView),
    Remote(RemoteView),
}

impl ConnectionView {
    /// The batches not yet polled, oldest first.
    pub open spec fn pending(self) -> Seq<Seq<Event>> {
        match self {
            ConnectionView::Local(local) => local.pending,
            ConnectionView::Remote(remote) => remote.pending,
        }
    }

    /// The connection after a client's message. A local world applies it at
    /// once and queues the event for the next poll; a remote connection
    /// queues the message for sending.
    pub open spec fn submitted(self, message: ClientMessage) -> ConnectionView {
        match self {
            ConnectionView::Local(local) => ConnectionView::Local(local.submitted(message)),
            ConnectionView::Remote(remote) => ConnectionView::Remote(
                RemoteView { outgoing: remote.outgoing.push(message), ..remote },
            ),
        }
    }

    /// The connection after a poll: nothing waits to be polled, and nothing
    /// else has changed.
    pub open spec fn polled(self) -> ConnectionView {
        match self {
            ConnectionView::Local(local) => ConnectionView::Local(
                LocalView { pending: Seq::empty(), ..local },
            ),
            ConnectionView::Remote(remote) => ConnectionView::Remote(
                RemoteView { pending: Seq::empty(), ..remote },
            ),
        }
    }
}

/// An authority in the client's own process: a world, and the countdown to
/// its next tick.
#[derive(Debug)]
pub struct LocalConnection {
    model: Model,
    next_tick: Double,
    outbox: Vec<ServerMessage>,
}

impl View for LocalConnection {
    type V = LocalView;

    closed spec fn view(&self) -> LocalView {
        LocalView {
            model: self.model@,
            next_tick: self.next_tick,
            pending: batches(self.outbox@),
        }
    }
}

impl LocalConnection {
    /// A connection to `model`, whose next tick is due in `next_tick`
    /// seconds. Nothing waits to be polled.
    pub fn new(model: Model, next_tick: Double) -> (connection: LocalConnection)
        ensures
            connection@ == (LocalView {
                model: model@,
                next_tick,
                pending: Seq::<Seq<Event>>::empty(),
            }),
    {
        let connection = LocalConnection { model, next_tick, outbox: Vec::new() };
        proof {
            assert(batches(connection.outbox@) =~= Seq::<Seq<Event>>::empty());
        }
        connection
    }

    /// The world that the connection owns.
    pub fn model(&self) -> (model: &Model)
        ensures
            model@ == self@.model,
    {
        &self.model
    }

    /// Seconds until the next tick is due, as the driver last gave them.
    pub fn next_tick(&self) -> (seconds: Double)
        ensures
            seconds == self@.next_tick,
    {
        self.next_tick
    }

    /// One step of catching up with time. The driver gives the countdown as
    /// it now stands: after it has subtracted the time that passed, or after
    /// it has added one tick's period for the tick that this function ran
    /// last. If the countdown is at zero or below, the world is ticked once,
    /// the deaths wait to be polled in a batch of their own, and the answer
    /// is `true`: the driver adds a period and calls again. Otherwise nothing
    /// but the countdown changes.
    ///
    /// A driver that was halted for long finds many ticks due at once. How
    /// many of them it runs in one frame is its own choice: it may stop
    /// calling and start the countdown afresh.
    pub fn advance(&mut self, next_tick: Double) -> (due: bool)
        ensures
            due == next_tick.is_at_most_zero(),
            final(self)@.next_tick == next_tick,
            !due ==> final(self)@ == (LocalView { next_tick, ..old(self)@ }),
            due ==> {
                &&& final(self)@.model == (ModelView {
                    players: ticked(old(self)@.model.players),
                    ..old(self)@.model
                })
                &&& final(self)@.pending.len() == old(self)@.pending.len() + 1
                &&& final(self)@.pending.drop_last() == old(self)@.pending
                &&& old(self)@.model.well_keyed() ==> lists_deaths(
                    final(self)@.pending.last(),
                    old(self)@.model.players,
                )
            },
            old(self)@.model.well_keyed() ==> final(self)@.model.well_keyed(),
    {
        self.next_tick = next_tick;
        if next_tick.at_most_zero() {
            let events = self.model.tick();
            self.outbox.push(ServerMessage::Update(events));
            proof {
                assert(batches(self.outbox@).drop_last() =~= batches(old(self).outbox@));
            }
            true
        } else {
            false
        }
    }

    /// Applies a client's message to the world at once. The event that the
    /// world hands back waits to be polled, in a batch of its own.
    pub fn submit(&mut self, player_id: Id, message: ClientMessage)
        ensures
            final(self)@ == old(self)@.submitted(message),
            old(self)@.model.well_keyed() ==> final(self)@.model.well_keyed(),
    {
        let events = self.model.handle_message(player_id, message);
        self.outbox.push(ServerMessage::Update(events));
        proof {
            assert(batches(self.outbox@) =~= batches(old(self).outbox@).push(
                seq![message->Event_0],
            ));
        }
    }

    /// Hands out the batches that have come up since the last poll, oldest
    /// first.
    pub fn poll(&mut self) -> (messages: Vec<ServerMessage>)
        ensures
            batches(messages@) == old(self)@.pending,
            final(self)@ == (LocalView { pending: Seq::<Seq<Event>>::empty(), ..old(self)@ }),
    {
        let mut messages: Vec<ServerMessage> = Vec::new();
        std::mem::swap(&mut self.outbox, &mut messages);
        proof {
            assert(batches(self.outbox@) =~= Seq::<Seq<Event>>::empty());
        }
        messages
    }
}

/// An authority behind a transport, as far as the library goes: what the
/// client wants sent, and what has arrived for it.
#[derive(Debug)]
pub struct RemoteConnection {
    outgoing: Vec<ClientMessage>,
    incoming: Vec<ServerMessage>,
}

impl View for RemoteConnection {
    type V = RemoteView;

    closed spec fn view(&self) -> RemoteView {
        RemoteView { outgoing: self.outgoing@, pending: batches(self.incoming@) }
    }
}

impl RemoteConnection {
    /// A connection with nothing to send and nothing arrived.
    pub fn new() -> (connection: RemoteConnection)
        ensures
            connection@ == (RemoteView {
                outgoing: Seq::<ClientMessage>::empty(),
                pending: Seq::<Seq<Event>>::empty(),
            }),
    {
        let connection = RemoteConnection { outgoing: Vec::new(), incoming: Vec::new() };
        proof {
            assert(batches(connection.incoming@) =~= Seq::<Seq<Event>>::empty());
        }
        connection
    }

    /// Queues a client's message for sending.
    pub fn submit(&mut self, message: ClientMessage)
        ensures
            final(self)@ == (RemoteView {
                outgoing: old(self)@.outgoing.push(message),
                ..old(self)@
            }),
    {
        self.outgoing.push(message);
    }

    /// Hands out the messages queued for sending, oldest first, and empties
    /// the queue. The driver gives them to the transport.
    pub fn take_outgoing(&mut self) -> (messages: Vec<ClientMessage>)
        ensures
            messages@ == old(self)@.outgoing,
            final(self)@ == (RemoteView {
                outgoing: Seq::<ClientMessage>::empty(),
                ..old(self)@
            }),
    {
        let mut messages: Vec<ClientMessage> = Vec::new();
        std::mem::swap(&mut self.outgoing, &mut messages);
        messages
    }

    /// Takes in a message that the transport has brought. The driver calls
    /// this for each message in the order of arrival.
    pub fn deliver(&mut self, message: ServerMessage)
        ensures
            final(self)@ == (RemoteView {
                pending: old(self)@.pending.push(message.events()),
                ..old(self)@
            }),
    {
        self.incoming.push(message);
        proof {
            assert(batches(self.incoming@) =~= batches(old(self).incoming@).push(message.events()));
        }
    }

    /// Hands out the batches that have arrived since the last poll, oldest
    /// first; none if nothing has.
    pub fn poll(&mut self) -> (messages: Vec<ServerMessage>)
        ensures
            batches(messages@) == old(self)@.pending,
            final(self)@ == (RemoteView { pending: Seq::<Seq<Event>>::empty(), ..old(self)@ }),
    {
        let mut messages: Vec<ServerMessage> = Vec::new();
        std::mem::swap(&mut self.incoming, &mut messages);
        proof {
            assert(batches(self.incoming@) =~= Seq::<Seq<Event>>::empty());
        }
        messages
    }
}

/// A client's way to its authority.
#[derive(Debug)]
pub enum Connection {
    Local(LocalConnection),
    Remote(RemoteConnection),
}

impl View for Connection {
    type V = ConnectionView;

    open spec fn view(&self) -> ConnectionView {
        match self {
            Connection::Local(local) => ConnectionView::Local(local@),
            Connection::Remote(remote) => ConnectionView::Remote(remote@),
        }
    }
}

impl Connection {
    /// Tests whether the authority is behind a transport.
    pub fn is_remote(&self) -> (remote: bool)
        ensures
            remote == (self@ is Remote),
    {
        match self {
            Connection::Local(_) => false,
            Connection::Remote(_) => true,
        }
    }

    /// Hands a client's message to the authority. `player_id` says whose
    /// client it is.
    pub fn submit(&mut self, player_id: Id, message: ClientMessage)
        ensures
            final(self)@ == old(self)@.submitted(message),
    {
        match self {
            Connection::Local(local) => local.submit(player_id, message),
            Connection::Remote(remote) => remote.submit(message),
        }
    }

    /// Hands out the batches that the authority has produced since the last
    /// poll, oldest first; none if there are none.
    pub fn poll(&mut self) -> (messages: Vec<ServerMessage>)
        ensures
            batches(messages@) == old(self)@.pending(),
            final(self)@ == old(self)@.polled(),
    {
        match self {
            Connection::Local(local) => local.poll(),
            Connection::Remote(remote) => remote.poll(),
        }
    }
}

} // verus!
