//! The authoritative world: its players, its counter of identifiers, and the
//! rules by which events and ticks change it.

use std::collections::HashMap;
use vstd::prelude::*;
use vstd::std_specs::iter::IteratorSpec;
use crate::event::{
    lemma_apply_keeps_keys, lemma_replay_push, replay, well_keyed, ClientMessage, Event,
};
use crate::id::{Id, IdGen};
use crate::player::Player;
use crate::scalar::Double;

verus! {

broadcast use vstd::std_specs::hash::group_hash_axioms;

/// Bit pattern of the double-precision number `20.0`, the tick rate of a new
/// world.
pub const DEFAULT_TICKS_PER_SECOND: u64 = 0x4034_0000_0000_0000;

/// A world as contracts see it.
pub struct ModelView {
    /// Number of the identifier that the world issues next.
    pub next_id: usize,
    /// Ticks per second that the world asks of whoever drives it.
    pub ticks_per_second: Double,
    /// The players, each under its identifier.
    pub players: Map<Id, Player>,
}

/// The players of a table that is keyed by the numbers of their identifiers.
spec fn players_of(table: Map<usize, Player>) -> Map<Id, Player> {
    Map::new(|id: Id| table.contains_key(id.spec_raw()), |id: Id| table[id.spec_raw()])
}

impl ModelView {
    /// Whether every player stands under its own identifier. A new world is
    /// so, and no operation of the library ends this.
    pub open spec fn well_keyed(self) -> bool {
        well_keyed(self.players)
    }

    /// The world after it has welcomed one more player: the player stands in
    /// it as spawned, under the identifier that was next, and the counter
    /// has moved on.
    pub open spec fn welcomed(self) -> ModelView {
        let id = Id::spec_from_raw(self.next_id);
        ModelView {
            next_id: (self.next_id + 1) as usize,
            ticks_per_second: self.ticks_per_second,
            players: self.players.insert(id, Player::spawned(id)),
        }
    }
}

/// The players of a world after a tick, given those before it: whoever had
/// run out of oxygen is respawned, nobody else changes, nobody comes or goes.
pub open spec fn ticked(players: Map<Id, Player>) -> Map<Id, Player> {
    Map::new(|id: Id| players.contains_key(id), |id: Id| players[id].ticked())
}

/// Whether `event` is the death of a player that `players` holds out of
/// oxygen, with the player as it respawns.
pub open spec fn is_death_among(event: Event, players: Map<Id, Player>) -> bool {
    &&& event is PlayerDied
    &&& players.contains_key(event->PlayerDied_0.id)
    &&& players[event->PlayerDied_0.id].is_out_of_oxygen()
    &&& event->PlayerDied_0 == players[event->PlayerDied_0.id].respawned()
}

/// Whether `events` lists the deaths that a tick finds among `players`: the
/// death of every player that is out of oxygen, each once, and nothing else.
/// The order is not fixed.
pub open spec fn lists_deaths(events: Seq<Event>, players: Map<Id, Player>) -> bool {
    &&& events.no_duplicates()
    &&& forall|event: Event| #[trigger] events.contains(event) <==> is_death_among(event, players)
}

/// A tick keeps every player under its own identifier.
pub proof fn lemma_tick_keeps_keys(players: Map<Id, Player>)
    requires
        well_keyed(players),
    ensures
        well_keyed(ticked(players)),
{
    let after = ticked(players);
    assert forall|id: Id| #[trigger] after.contains_key(id) implies after[id].id == id by {
        assert(players.contains_key(id));
    }
}

proof fn lemma_players_of_empty()
    ensures
        players_of(Map::<usize, Player>::empty()) == Map::<Id, Player>::empty(),
{
    assert(players_of(Map::<usize, Player>::empty()) =~= Map::<Id, Player>::empty());
}

proof fn lemma_players_of_insert(table: Map<usize, Player>, player: Player)
    ensures
        players_of(table.insert(player.id.spec_raw(), player)) == players_of(table).insert(
            player.id,
            player,
        ),
{
    let k = player.id.spec_raw();
    assert forall|id: Id| id.spec_raw() == k implies id == player.id by {
        Id::lemma_raw_roundtrip(id, k);
        Id::lemma_raw_roundtrip(player.id, k);
    }
    assert(players_of(table.insert(k, player)) =~= players_of(table).insert(player.id, player));
}

proof fn lemma_players_of_remove(table: Map<usize, Player>, id: Id)
    ensures
        players_of(table.remove(id.spec_raw())) == players_of(table).remove(id),
{
    let k = id.spec_raw();
    assert forall|other: Id| other.spec_raw() == k implies other == id by {
        Id::lemma_raw_roundtrip(other, k);
        Id::lemma_raw_roundtrip(id, k);
    }
    assert(players_of(table.remove(k)) =~= players_of(table).remove(id));
}

/// The authoritative state of a world.
#[derive(Debug)]
pub struct Model {
    id_gen: IdGen,
    ticks_per_second: Double,
    players: HashMap<usize, Player>,
}

impl Clone for Model {
    /// A snapshot of the world.
    fn clone(&self) -> (copy: Model)
        ensures
            copy@ == self@,
    {
        Model {
            id_gen: self.id_gen.clone(),
            ticks_per_second: self.ticks_per_second,
            players: self.players.clone(),
        }
    }
}

/// What the authority sends to a client that has just connected: the
/// client's own identifier and the world as it then stands.
#[derive(Debug)]
pub struct WelcomeMessage {
    pub player_id: Id,
    pub model: Model,
}

impl View for Model {
    type V = ModelView;

    closed spec fn view(&self) -> ModelView {
        ModelView {
            next_id: self.id_gen.next(),
            ticks_per_second: self.ticks_per_second,
            players: players_of(self.players@),
        }
    }
}

impl Model {
    /// An empty world that asks for twenty ticks per second.
    pub fn new() -> (model: Model)
        ensures
            model@.next_id == 0,
            model@.ticks_per_second.bits == DEFAULT_TICKS_PER_SECOND,
            model@.players == Map::<Id, Player>::empty(),
            model@.well_keyed(),
    {
        proof {
            lemma_players_of_empty();
        }
        Model {
            id_gen: IdGen::new(),
            ticks_per_second: Double::from_bits(DEFAULT_TICKS_PER_SECOND),
            players: HashMap::new(),
        }
    }

    /// The world that holds `players`, each put in as by a join, in order;
    /// it issues identifiers as `id_gen` does.
    pub fn from_parts(id_gen: IdGen, ticks_per_second: Double, players: &Vec<Player>) -> (model:
        Model)
        ensures
            model@.next_id == id_gen.next(),
            model@.ticks_per_second == ticks_per_second,
            model@.players == replay(
                Map::<Id, Player>::empty(),
                players@.map_values(|player: Player| Event::PlayerJoined(player)),
            ),
            model@.well_keyed(),
    {
        let ghost joins = players@.map_values(|player: Player| Event::PlayerJoined(player));
        let mut model = Model { id_gen, ticks_per_second, players: HashMap::new() };
        proof {
            lemma_players_of_empty();
            assert(joins.take(0) =~= Seq::<Event>::empty());
        }
        let mut i: usize = 0;
        while i < players.len()
            invariant
                0 <= i <= players.len(),
                joins == players@.map_values(|player: Player| Event::PlayerJoined(player)),
                model@.next_id == id_gen.next(),
                model@.ticks_per_second == ticks_per_second,
                model@.players == replay(Map::<Id, Player>::empty(), joins.take(i as int)),
                model@.well_keyed(),
            decreases players.len() - i,
        {
            proof {
                lemma_replay_push(Map::<Id, Player>::empty(), joins.take(i as int), joins[i as int]);
                assert(joins.take(i as int).push(joins[i as int]) =~= joins.take(i + 1));
            }
            model.handle(Event::PlayerJoined(players[i]));
            i += 1;
        }
        proof {
            assert(joins.take(players.len() as int) =~= joins);
        }
        model
    }

    /// Number of the identifier that the world issues next.
    pub fn next_id(&self) -> (next: usize)
        ensures
            next == self@.next_id,
    {
        self.id_gen.peek()
    }

    /// Tests whether the world has issued every identifier there is, so that
    /// nobody can be welcomed any more.
    pub fn is_full(&self) -> (full: bool)
        ensures
            full == (self@.next_id == usize::MAX),
    {
        self.id_gen.exhausted()
    }

    /// Number of players in the world.
    pub fn len(&self) -> (n: usize)
        ensures
            n == self@.players.dom().len(),
            self@.players.dom().finite(),
    {
        proof {
            Self::lemma_same_size(self.players@);
        }
        self.players.len()
    }

    /// The identifiers of the players in the world, each once, in no stated
    /// order.
    pub fn ids(&self) -> (ids: Vec<Id>)
        ensures
            ids@.no_duplicates(),
            forall|id: Id| ids@.contains(id) <==> self@.players.contains_key(id),
    {
        let keys = self.keys();
        let mut ids: Vec<Id> = Vec::new();
        let mut i: usize = 0;
        while i < keys.len()
            invariant
                0 <= i <= keys.len(),
                ids@.len() == i,
                forall|j: int| 0 <= j < i ==> ids@[j] == Id::spec_from_raw(keys@[j]),
            decreases keys.len() - i,
        {
            ids.push(Id::from_raw(keys[i]));
            i += 1;
        }
        proof {
            assert forall|a: int, b: int| 0 <= a < ids@.len() && 0 <= b < ids@.len() && a != b implies ids@[a]
                != ids@[b] by {
                Id::lemma_raw_roundtrip(ids@[a], keys@[a]);
                Id::lemma_raw_roundtrip(ids@[b], keys@[b]);
            }
            assert forall|id: Id| ids@.contains(id) implies self@.players.contains_key(id) by {
                let j = choose|j: int| 0 <= j < ids@.len() && ids@[j] == id;
                Id::lemma_raw_roundtrip(id, keys@[j]);
                assert(keys@.contains(keys@[j]));
            }
            assert forall|id: Id| self@.players.contains_key(id) implies ids@.contains(id) by {
                assert(keys@.contains(id.spec_raw()));
                let j = choose|j: int| 0 <= j < keys@.len() && keys@[j] == id.spec_raw();
                Id::lemma_raw_roundtrip(id, keys@[j]);
                assert(ids@[j] == id);
            }
        }
        ids
    }

    /// A table holds as many players as it has numbers.
    proof fn lemma_same_size(table: Map<usize, Player>)
        requires
            table.dom().finite(),
        ensures
            players_of(table).dom().finite(),
            players_of(table).dom().len() == table.dom().len(),
    {
        let ids = players_of(table).dom();
        let image = table.dom().map(|k: usize| Id::spec_from_raw(k));
        assert forall|id: Id| ids.contains(id) == image.contains(id) by {
            if ids.contains(id) {
                Id::lemma_raw_roundtrip(id, id.spec_raw());
                assert(table.dom().contains(id.spec_raw()));
            }
            if image.contains(id) {
                let k = choose|k: usize| table.dom().contains(k) && Id::spec_from_raw(k) == id;
                Id::lemma_raw_roundtrip(id, k);
            }
        }
        assert(ids =~= image);
        assert(vstd::relations::injective(|k: usize| Id::spec_from_raw(k))) by {
            assert forall|a: usize, b: usize| Id::spec_from_raw(a) == Id::spec_from_raw(b) implies a
                == b by {
                Id::lemma_raw_roundtrip(Id::spec_from_raw(a), a);
                Id::lemma_raw_roundtrip(Id::spec_from_raw(b), b);
            }
        }
        vstd::set_lib::lemma_map_size(table.dom(), image, |k: usize| Id::spec_from_raw(k));
        table.dom().lemma_map_finite(|k: usize| Id::spec_from_raw(k));
    }

    /// Puts a new player into the world, under a fresh identifier, and
    /// returns the identifier with the event that tells the clients.
    #[must_use]
    fn spawn_player(&mut self) -> (spawned: (Id, Vec<Event>))
        requires
            old(self)@.next_id < usize::MAX,
        ensures
            spawned.0 == Id::spec_from_raw(old(self)@.next_id),
            final(self)@ == old(self)@.welcomed(),
            spawned.1@ == seq![Event::PlayerJoined(Player::spawned(spawned.0))],
    {
        let player = Player::new(&mut self.id_gen);
        let mut events = Vec::new();
        events.push(Event::PlayerJoined(player));
        let player_id = player.id;
        proof {
            Id::lemma_raw_roundtrip(player_id, old(self)@.next_id);
            lemma_players_of_insert(self.players@, player);
        }
        self.players.insert(player_id.raw(), player);
        (player_id, events)
    }

    /// Welcomes a client: puts a new player for it into the world, under a
    /// fresh identifier, and returns what to tell the client (its identifier
    /// and a snapshot of the world, the new player included) and the event
    /// that tells the clients already connected.
    #[must_use]
    pub fn welcome(&mut self) -> (reply: (WelcomeMessage, Vec<Event>))
        requires
            old(self)@.next_id < usize::MAX,
        ensures
            final(self)@ == old(self)@.welcomed(),
            old(self)@.well_keyed() ==> final(self)@.well_keyed(),
            reply.0.player_id == Id::spec_from_raw(old(self)@.next_id),
            reply.0.player_id.spec_raw() == old(self)@.next_id,
            reply.0.model@ == final(self)@,
            reply.1@ == seq![Event::PlayerJoined(Player::spawned(reply.0.player_id))],
    {
        let (player_id, events) = self.spawn_player();
        proof {
            Id::lemma_raw_roundtrip(player_id, old(self)@.next_id);
            if old(self)@.well_keyed() {
                lemma_apply_keeps_keys(
                    old(self)@.players,
                    Event::PlayerJoined(Player::spawned(player_id)),
                );
            }
        }
        (WelcomeMessage { player_id, model: self.clone() }, events)
    }

    /// Ticks per second that the world asks of whoever drives it.
    pub fn ticks_per_second(&self) -> (rate: Double)
        ensures
            rate == self@.ticks_per_second,
    {
        self.ticks_per_second
    }

    /// Sets the ticks per second that the world asks for.
    pub fn set_ticks_per_second(&mut self, rate: Double)
        ensures
            final(self)@ == (ModelView { ticks_per_second: rate, ..old(self)@ }),
    {
        self.ticks_per_second = rate;
    }

    /// The player under `id`, if the world holds one.
    pub fn player(&self, id: Id) -> (found: Option<Player>)
        ensures
            found == if self@.players.contains_key(id) {
                Some(self@.players[id])
            } else {
                None
            },
    {
        let key = id.raw();
        match self.players.get(&key) {
            Some(player) => Some(*player),
            None => None,
        }
    }

    /// The numbers under which the table holds players, each once, in the
    /// order in which the table hands them out.
    fn keys(&self) -> (keys: Vec<usize>)
        ensures
            keys@.no_duplicates(),
            forall|k: usize| keys@.contains(k) <==> self.players@.contains_key(k),
    {
        let mut keys: Vec<usize> = Vec::new();
        let ghost all = self.players.keys().remaining();
        for k in it: self.players.keys()
            invariant
                it.seq() == all,
                keys@.len() == it.index(),
                forall|j: int| 0 <= j < it.index() ==> keys@[j] == *all[j],
        {
            keys.push(*k);
        }
        assert(keys@ =~= all.unref());
        keys
    }

    /// Lets the authority's rule of death act once: every player that has run
    /// out of oxygen is respawned where it stands in the world, and its death
    /// is listed with the player as respawned. A tick moves nobody and uses
    /// no oxygen.
    #[must_use]
    pub fn tick(&mut self) -> (events: Vec<Event>)
        ensures
            final(self)@ == (ModelView { players: ticked(old(self)@.players), ..old(self)@ }),
            old(self)@.well_keyed() ==> final(self)@.well_keyed(),
            old(self)@.well_keyed() ==> lists_deaths(events@, old(self)@.players),
    {
        let keys = self.keys();
        let ghost before = self.players@;
        let ghost mut died: Seq<usize> = Seq::empty();
        let mut events: Vec<Event> = Vec::new();
        let mut i: usize = 0;
        while i < keys.len()
            invariant
                0 <= i <= keys.len(),
                keys@.no_duplicates(),
                forall|k: usize| keys@.contains(k) <==> before.contains_key(k),
                self.id_gen == old(self).id_gen,
                self.ticks_per_second == old(self).ticks_per_second,
                before == old(self).players@,
                self.players@.dom() == before.dom(),
                forall|j: int| 0 <= j < i ==> self.players@[keys@[j]] == before[keys@[j]].ticked(),
                forall|j: int| i <= j < keys.len() ==> self.players@[keys@[j]] == before[keys@[j]],
                events@.len() == died.len(),
                forall|n: int|
                    0 <= n < died.len() ==> {
                        &&& exists|j: int| 0 <= j < i && keys@[j] == #[trigger] died[n]
                        &&& before[died[n]].is_out_of_oxygen()
                        &&& events@[n] == Event::PlayerDied(before[died[n]].respawned())
                    },
                forall|j: int|
                    0 <= j < i && before[#[trigger] keys@[j]].is_out_of_oxygen() ==> died.contains(
                        keys@[j],
                    ),
                died.no_duplicates(),
            decreases keys.len() - i,
        {
            let key = keys[i];
            assert(keys@.contains(key));
            let found = self.players.get(&key);
            assert(found is Some);
            let mut player = *found.unwrap();
            if player.out_of_oxygen() {
                player.reset();
                self.players.insert(key, player);
                events.push(Event::PlayerDied(player));
                proof {
                    assert(!died.contains(key)) by {
                        if died.contains(key) {
                            let n = choose|n: int| 0 <= n < died.len() && died[n] == key;
                            let j = choose|j: int| 0 <= j < i && keys@[j] == died[n];
                        }
                    }
                    let longer = died.push(key);
                    assert forall|n: int| 0 <= n < longer.len() implies exists|j: int|
                        0 <= j < i + 1 && keys@[j] == #[trigger] longer[n] by {
                        if n < died.len() {
                            let j = choose|j: int| 0 <= j < i && keys@[j] == died[n];
                            assert(keys@[j] == longer[n]);
                        } else {
                            assert(keys@[i as int] == longer[n]);
                        }
                    }
                    assert forall|j: int|
                        0 <= j < i + 1 && before[#[trigger] keys@[j]].is_out_of_oxygen() implies longer.contains(
                        keys@[j],
                    ) by {
                        if j < i {
                            let n = choose|n: int| 0 <= n < died.len() && died[n] == keys@[j];
                            assert(longer[n] == keys@[j]);
                        } else {
                            assert(longer[died.len() as int] == key);
                        }
                    }
                    died = longer;
                }
            }
            assert(self.players@.dom() =~= before.dom());
            i += 1;
        }
        proof {
            Self::lemma_ticked_table(before, self.players@, keys@);
            if old(self)@.well_keyed() {
                lemma_tick_keeps_keys(old(self)@.players);
                assert forall|n: int| 0 <= n < died.len() implies keys@.contains(
                    #[trigger] died[n],
                ) by {
                    let j = choose|j: int| 0 <= j < i && keys@[j] == died[n];
                }
                Self::lemma_deaths_listed(before, keys@, died, events@);
            }
        }
        events
    }

    /// A table whose every player has been through the tick holds the
    /// players of the old table after a tick.
    proof fn lemma_ticked_table(before: Map<usize, Player>, after: Map<usize, Player>, keys: Seq<usize>)
        requires
            forall|k: usize| keys.contains(k) <==> before.contains_key(k),
            after.dom() == before.dom(),
            forall|j: int| 0 <= j < keys.len() ==> after[keys[j]] == before[keys[j]].ticked(),
        ensures
            players_of(after) == ticked(players_of(before)),
    {
        assert forall|k: usize| before.contains_key(k) implies after[k] == before[k].ticked() by {
            assert(keys.contains(k));
            let j = choose|j: int| 0 <= j < keys.len() && keys[j] == k;
        }
        assert forall|id: Id| #[trigger] players_of(after).contains_key(id) implies players_of(
            after,
        )[id] == players_of(before)[id].ticked() by {
            assert(after.dom().contains(id.spec_raw()));
            assert(before.contains_key(id.spec_raw()));
        }
        assert forall|id: Id| players_of(after).contains_key(id) == players_of(before).contains_key(
            id,
        ) by {
            assert(after.dom().contains(id.spec_raw()) == before.dom().contains(id.spec_raw()));
        }
        assert(players_of(after) =~= ticked(players_of(before)));
    }

    /// The events pushed for the numbers in `died` list the deaths among the
    /// players of the table.
    proof fn lemma_deaths_listed(
        before: Map<usize, Player>,
        keys: Seq<usize>,
        died: Seq<usize>,
        events: Seq<Event>,
    )
        requires
            well_keyed(players_of(before)),
            forall|k: usize| keys.contains(k) <==> before.contains_key(k),
            events.len() == died.len(),
            died.no_duplicates(),
            forall|n: int|
                0 <= n < died.len() ==> {
                    &&& keys.contains(#[trigger] died[n])
                    &&& before[died[n]].is_out_of_oxygen()
                    &&& events[n] == Event::PlayerDied(before[died[n]].respawned())
                },
            forall|j: int|
                0 <= j < keys.len() && before[#[trigger] keys[j]].is_out_of_oxygen() ==> died.contains(
                    keys[j],
                ),
        ensures
            lists_deaths(events, players_of(before)),
    {
        let players = players_of(before);
        assert forall|k: usize| before.contains_key(k) implies #[trigger] before[k].id
            == Id::spec_from_raw(k) by {
            let id = Id::spec_from_raw(k);
            Id::lemma_raw_roundtrip(id, k);
            assert(players.contains_key(id));
        }
        assert forall|a: int, b: int| 0 <= a < events.len() && 0 <= b < events.len() && a != b implies events[a]
            != events[b] by {
            Id::lemma_raw_roundtrip(before[died[a]].id, died[a]);
            Id::lemma_raw_roundtrip(before[died[b]].id, died[b]);
            assert(keys.contains(died[a]) && keys.contains(died[b]));
        }
        assert forall|event: Event| #[trigger] events.contains(event) implies is_death_among(
            event,
            players,
        ) by {
            let n = choose|n: int| 0 <= n < events.len() && events[n] == event;
            let k = died[n];
            assert(keys.contains(k));
            Id::lemma_raw_roundtrip(before[k].id, k);
        }
        assert forall|event: Event| is_death_among(event, players) implies #[trigger] events.contains(
            event,
        ) by {
            let id = event->PlayerDied_0.id;
            let k = id.spec_raw();
            assert(keys.contains(k));
            let j = choose|j: int| 0 <= j < keys.len() && keys[j] == k;
            assert(died.contains(keys[j]));
            let n = choose|n: int| 0 <= n < died.len() && died[n] == k;
            assert(events[n] == event);
        }
    }

    /// Applies one event to the world. See [`Event::apply`].
    pub fn handle(&mut self, event: Event)
        ensures
            final(self)@ == (ModelView {
                players: event.apply(old(self)@.players),
                ..old(self)@
            }),
            old(self)@.well_keyed() ==> final(self)@.well_keyed(),
    {
        self.handle_impl(event, None);
    }

    /// Applies one event to the world, as `handle` does. Nothing is written
    /// to `events`.
    pub fn handle_impl(&mut self, event: Event, events: Option<&mut Vec<Event>>)
        ensures
            final(self)@ == (ModelView {
                players: event.apply(old(self)@.players),
                ..old(self)@
            }),
            old(self)@.well_keyed() ==> final(self)@.well_keyed(),
            match events {
                Some(out) => final(out)@ == out@,
                None => true,
            },
    {
        match event {
            Event::PlayerJoined(player) | Event::PlayerUpdated(player) => {
                let player_id = player.id;
                proof {
                    lemma_players_of_insert(self.players@, player);
                }
                self.players.insert(player_id.raw(), player);
            },
            Event::PlayerLeft(player_id) => {
                proof {
                    lemma_players_of_remove(self.players@, player_id);
                }
                let key = player_id.raw();
                self.players.remove(&key);
            },
            Event::PlayerDied(_) => {},
        }
        proof {
            if old(self)@.well_keyed() {
                lemma_apply_keeps_keys(old(self)@.players, event);
            }
        }
    }

    /// Applies the event that a client sent, and hands it back for the
    /// authority to send to every client. The authority takes a client's
    /// word for what the client reports.
    #[must_use]
    pub fn handle_message(&mut self, player_id: Id, message: ClientMessage) -> (events: Vec<Event>)
        ensures
            final(self)@ == (ModelView {
                players: message->Event_0.apply(old(self)@.players),
                ..old(self)@
            }),
            old(self)@.well_keyed() ==> final(self)@.well_keyed(),
            events@ == seq![message->Event_0],
    {
        let mut events = Vec::new();
        match message {
            ClientMessage::Event(event) => {
                self.handle_impl(event, Some(&mut events));
                events.push(event);
            },
        }
        events
    }

    /// Takes the player `player_id` out of the world, if it is in, and
    /// returns the event that tells the clients so.
    #[must_use]
    pub fn drop_player(&mut self, player_id: Id) -> (events: Vec<Event>)
        ensures
            final(self)@ == (ModelView {
                players: old(self)@.players.remove(player_id),
                ..old(self)@
            }),
            old(self)@.well_keyed() ==> final(self)@.well_keyed(),
            events@ == seq![Event::PlayerLeft(player_id)],
    {
        proof {
            lemma_players_of_remove(self.players@, player_id);
        }
        let key = player_id.raw();
        self.players.remove(&key);
        proof {
            if old(self)@.well_keyed() {
                lemma_apply_keeps_keys(old(self)@.players, Event::PlayerLeft(player_id));
            }
        }
        let mut events = Vec::new();
        events.push(Event::PlayerLeft(player_id));
        events
    }
}

} // verus!
