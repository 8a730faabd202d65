//! A client's side of the game: its copy of the world, the player that it
//! predicts, and what each frame does with the authority's word.
//!
//! A frame goes in three steps. `receive` polls the connection and applies
//! what the authority sent. The driver then moves the predicted player, and
//! whoever else it draws, by the time that has passed: `steer` turns keys
//! into the input that the driver integrates, `integrated` and `apply` take
//! the outcome. `send` reports the predicted player to the authority if the
//! authority was heard from, and submits whatever else is queued.

use vstd::prelude::*;
use crate::connection::{batches, Connection, ConnectionView};
use crate::event::{
    lemma_replay_keeps_keys, lemma_replay_push, replay, ClientMessage, Event, ServerMessage,
};
use crate::id::Id;
use crate::model::{Model, ModelView, WelcomeMessage};
use crate::player::Player;
use crate::scalar::{Single, Vec2};

verus! {

broadcast use Seq::lemma_flatten_push;

/// The input along one axis: minus one if only the key towards the negative
/// side is down, one if only the key towards the positive side is, zero if
/// neither or both are.
pub open spec fn axis(negative: bool, positive: bool) -> Single {
    if negative == positive {
        Single::spec_zero()
    } else if positive {
        Single::spec_one()
    } else {
        Single::spec_minus_one()
    }
}

/// The predicted player after one event from the authority. The death of
/// this very player overrides the prediction with the player as the
/// authority respawned it; nothing else touches the prediction.
pub open spec fn correct(player: Player, event: Event) -> Player {
    match event {
        Event::PlayerDied(dead) => if dead.id == player.id {
            dead
        } else {
            player
        },
        _ => player,
    }
}

/// The predicted player after the events in order.
pub open spec fn corrected(player: Player, events: Seq<Event>) -> Player
    decreases events.len(),
{
    if events.len() == 0 {
        player
    } else {
        correct(corrected(player, events.drop_last()), events.last())
    }
}

/// Whether at least one of the batches holds an event.
pub open spec fn any_event(batches: Seq<Seq<Event>>) -> bool {
    exists|i: int| 0 <= i < batches.len() && (#[trigger] batches[i]).len() > 0
}

/// The connection after the messages have been submitted in order.
pub open spec fn submitted_all(connection: ConnectionView, messages: Seq<ClientMessage>) -> ConnectionView
    decreases messages.len(),
{
    if messages.len() == 0 {
        connection
    } else {
        submitted_all(connection, messages.drop_last()).submitted(messages.last())
    }
}

/// No correction changes whose player is predicted.
pub proof fn lemma_corrected_keeps_id(player: Player, events: Seq<Event>)
    ensures
        corrected(player, events).id == player.id,
    decreases events.len(),
{
    if events.len() > 0 {
        lemma_corrected_keeps_id(player, events.drop_last());
    }
}

/// A client's session as contracts see it.
pub struct SessionView {
    /// The client's copy of the world.
    pub model: ModelView,
    /// The client's own player, as the client predicts it.
    pub player: Player,
    /// The messages queued for the authority, oldest first.
    pub to_send: Seq<ClientMessage>,
}

/// The state of a client that the authority has welcomed.
#[derive(Debug)]
pub struct Session {
    model: Model,
    player: Player,
    to_send: Vec<ClientMessage>,
}

impl View for Session {
    type V = SessionView;

    closed spec fn view(&self) -> SessionView {
        SessionView { model: self.model@, player: self.player, to_send: self.to_send@ }
    }
}

impl Session {
    /// Starts a session from the authority's welcome. A client that comes
    /// with a player of its own keeps it, under the identifier that the
    /// authority gave; one that comes with none predicts the player that the
    /// welcome's world holds for it.
    pub fn new(player: Option<Player>, welcome: WelcomeMessage) -> (session: Session)
        requires
            player is None ==> welcome.model@.players.contains_key(welcome.player_id),
        ensures
            session@ == (SessionView {
                model: welcome.model@,
                player: match player {
                    Some(own) => Player { id: welcome.player_id, ..own },
                    None => welcome.model@.players[welcome.player_id],
                },
                to_send: Seq::<ClientMessage>::empty(),
            }),
    {
        let player = match player {
            Some(own) => {
                let mut own = own;
                own.id = welcome.player_id;
                own
            },
            None => welcome.model.player(welcome.player_id).unwrap(),
        };
        Session { model: welcome.model, player, to_send: Vec::new() }
    }

    /// The client's copy of the world.
    pub fn model(&self) -> (model: &Model)
        ensures
            model@ == self@.model,
    {
        &self.model
    }

    /// The client's own player, as the client predicts it.
    pub fn player(&self) -> (player: Player)
        ensures
            player == self@.player,
    {
        self.player
    }

    /// Turns the four direction keys into the predicted player's input. The
    /// axes are independent: a diagonal is one along each.
    pub fn steer(&mut self, left: bool, right: bool, up: bool, down: bool)
        ensures
            final(self)@ == (SessionView {
                player: Player {
                    target_velocity: Vec2 { x: axis(left, right), y: axis(down, up) },
                    ..old(self)@.player
                },
                ..old(self)@
            }),
    {
        self.player.target_velocity = Vec2 { x: axis_of(left, right), y: axis_of(down, up) };
    }

    /// Takes what the driver's integrator made of the predicted player: its
    /// oxygen, where it is and how fast it moves. Who it is and what it
    /// wants stay.
    pub fn integrated(&mut self, oxygen: Single, position: Vec2, velocity: Vec2)
        ensures
            final(self)@ == (SessionView {
                player: Player { oxygen, position, velocity, ..old(self)@.player },
                ..old(self)@
            }),
    {
        self.player.oxygen = oxygen;
        self.player.position = position;
        self.player.velocity = velocity;
    }

    /// Applies one event to the client's copy of the world.
    pub fn apply(&mut self, event: Event)
        ensures
            final(self)@ == (SessionView {
                model: ModelView {
                    players: event.apply(old(self)@.model.players),
                    ..old(self)@.model
                },
                ..old(self)@
            }),
    {
        self.model.handle(event);
    }

    /// Queues a message for the authority. `send` submits it.
    pub fn queue(&mut self, message: ClientMessage)
        ensures
            final(self)@ == (SessionView {
                to_send: old(self)@.to_send.push(message),
                ..old(self)@
            }),
    {
        self.to_send.push(message);
    }

    /// Applies the authority's batches, oldest first: every event goes into
    /// the client's copy of the world, and the death of the client's own
    /// player overrides the prediction. Says whether any batch held an
    /// event.
    pub fn reconcile(&mut self, messages: &Vec<ServerMessage>) -> (heard: bool)
        ensures
            final(self)@ == (SessionView {
                model: ModelView {
                    players: replay(old(self)@.model.players, batches(messages@).flatten()),
                    ..old(self)@.model
                },
                player: corrected(old(self)@.player, batches(messages@).flatten()),
                ..old(self)@
            }),
            heard == any_event(batches(messages@)),
            final(self)@.player.id == old(self)@.player.id,
            old(self)@.model.well_keyed() ==> final(self)@.model.well_keyed(),
    {
        let ghost all = batches(messages@);
        let ghost start = self.model@.players;
        let ghost own = self.player;
        let mut heard = false;
        let mut i: usize = 0;
        proof {
            assert(all.take(0) =~= Seq::<Seq<Event>>::empty());
            assert(all.take(0).flatten() =~= Seq::<Event>::empty());
        }
        while i < messages.len()
            invariant
                0 <= i <= messages.len(),
                all == batches(messages@),
                start == old(self)@.model.players,
                own == old(self)@.player,
                self.to_send == old(self).to_send,
                self.model@ == (ModelView {
                    players: replay(start, all.take(i as int).flatten()),
                    ..old(self)@.model
                }),
                self.player == corrected(own, all.take(i as int).flatten()),
                heard == any_event(all.take(i as int)),
            decreases messages.len() - i,
        {
            let ghost done = all.take(i as int).flatten();
            match &messages[i] {
                ServerMessage::Update(events) => {
                    let ghost batch = events@;
                    assert(batch == all[i as int]);
                    let mut j: usize = 0;
                    proof {
                        assert(batch.take(0) =~= Seq::<Event>::empty());
                        assert(done + batch.take(0) =~= done);
                    }
                    while j < events.len()
                        invariant
                            0 <= j <= events.len(),
                            batch == events@,
                            self.to_send == old(self).to_send,
                            self.model@ == (ModelView {
                                players: replay(start, done + batch.take(j as int)),
                                ..old(self)@.model
                            }),
                            self.player == corrected(own, done + batch.take(j as int)),
                        decreases events.len() - j,
                    {
                        let event = events[j];
                        proof {
                            let seen = done + batch.take(j as int);
                            assert(seen.push(event) =~= done + batch.take(j + 1));
                            assert(seen.push(event).drop_last() =~= seen);
                            lemma_replay_push(start, seen, event);
                        }
                        match event {
                            Event::PlayerDied(dead) => {
                                if dead.id.raw() == self.player.id.raw() {
                                    proof {
                                        Id::lemma_raw_roundtrip(dead.id, dead.id.spec_raw());
                                        Id::lemma_raw_roundtrip(
                                            self.player.id,
                                            dead.id.spec_raw(),
                                        );
                                    }
                                    self.player = dead;
                                }
                            },
                            _ => {},
                        }
                        self.model.handle(event);
                        j += 1;
                    }
                    proof {
                        assert(batch.take(events.len() as int) =~= batch);
                        assert(all.take(i as int).push(batch) =~= all.take(i + 1));
                        assert(all.take(i + 1).flatten() =~= done + batch);
                        if batch.len() > 0 {
                            assert(all.take(i + 1)[i as int].len() > 0);
                        }
                        if any_event(all.take(i as int)) {
                            let k = choose|k: int|
                                0 <= k < all.take(i as int).len() && (#[trigger] all.take(
                                    i as int,
                                )[k]).len() > 0;
                            assert(all.take(i + 1)[k].len() > 0);
                        }
                        if any_event(all.take(i + 1)) {
                            let k = choose|k: int|
                                0 <= k < all.take(i + 1).len() && (#[trigger] all.take(
                                    i + 1,
                                )[k]).len() > 0;
                            if k < i {
                                assert(all.take(i as int)[k].len() > 0);
                            }
                        }
                    }
                    if events.len() > 0 {
                        heard = true;
                    }
                },
            }
            i += 1;
        }
        proof {
            assert(all.take(messages.len() as int) =~= all);
            lemma_corrected_keeps_id(own, all.flatten());
            if old(self)@.model.well_keyed() {
                lemma_replay_keeps_keys(start, all.flatten());
            }
        }
        heard
    }

    /// Polls the connection and applies what it hands out, as `reconcile`
    /// does. Says whether any batch held an event.
    pub fn receive(&mut self, connection: &mut Connection) -> (heard: bool)
        ensures
            final(connection)@ == old(connection)@.polled(),
            final(self)@ == (SessionView {
                model: ModelView {
                    players: replay(
                        old(self)@.model.players,
                        old(connection)@.pending().flatten(),
                    ),
                    ..old(self)@.model
                },
                player: corrected(old(self)@.player, old(connection)@.pending().flatten()),
                ..old(self)@
            }),
            heard == any_event(old(connection)@.pending()),
            final(self)@.player.id == old(self)@.player.id,
            old(self)@.model.well_keyed() ==> final(self)@.model.well_keyed(),
    {
        let messages = connection.poll();
        self.reconcile(&messages)
    }

    /// Ends a frame's exchange. If the authority was heard from in this
    /// frame, the predicted player is queued as an update, behind what was
    /// queued before. Then the queue is submitted, oldest first, and left
    /// empty.
    pub fn send(&mut self, connection: &mut Connection, heard: bool)
        ensures
            final(self)@ == (SessionView {
                to_send: Seq::<ClientMessage>::empty(),
                ..old(self)@
            }),
            final(connection)@ == submitted_all(
                old(connection)@,
                if heard {
                    old(self)@.to_send.push(
                        ClientMessage::Event(Event::PlayerUpdated(old(self)@.player)),
                    )
                } else {
                    old(self)@.to_send
                },
            ),
    {
        if heard {
            self.to_send.push(ClientMessage::Event(Event::PlayerUpdated(self.player)));
        }
        let mut queued: Vec<ClientMessage> = Vec::new();
        std::mem::swap(&mut self.to_send, &mut queued);
        let mut i: usize = 0;
        proof {
            assert(queued@.take(0) =~= Seq::<ClientMessage>::empty());
        }
        while i < queued.len()
            invariant
                0 <= i <= queued.len(),
                connection@ == submitted_all(old(connection)@, queued@.take(i as int)),
            decreases queued.len() - i,
        {
            proof {
                assert(queued@.take(i + 1).drop_last() =~= queued@.take(i as int));
            }
            connection.submit(self.player.id, queued[i]);
            i += 1;
        }
        proof {
            assert(queued@.take(queued.len() as int) =~= queued@);
        }
    }

    /// Ends the session. An authority behind a transport is told that the
    /// player has left; no answer is waited for. A local world ends with
    /// the session and is told nothing.
    pub fn disconnect(&self, connection: &mut Connection)
        ensures
            final(connection)@ == if old(connection)@ is Remote {
                old(connection)@.submitted(
                    ClientMessage::Event(Event::PlayerLeft(self@.player.id)),
                )
            } else {
                old(connection)@
            },
    {
        if connection.is_remote() {
            connection.submit(
                self.player.id,
                ClientMessage::Event(Event::PlayerLeft(self.player.id)),
            );
        }
    }
}

/// Computes the input along one axis from its two keys.
fn axis_of(negative: bool, positive: bool) -> (input: Single)
    ensures
        input == axis(negative, positive),
{
    if negative == positive {
        Single::zero()
    } else if positive {
        Single::one()
    } else {
        Single::minus_one()
    }
}

} // verus!
