//! The events that replicate a world, and the messages that carry them.

use vstd::prelude::*;
use crate::id::Id;
use crate::player::Player;

verus! {

/// One change of the world, as every replica applies it.
#[derive(Clone, Copy, Debug, PartialEq, Eq, Structural)]
pub enum Event {
    PlayerJoined(Player),
    PlayerUpdated(Player),
    PlayerLeft(Id),
    PlayerDied(Player),
}

impl Event {
    /// The players of a world after the event, given those before it.
    ///
    /// A join and an update put the player under its identifier, over what
    /// was there; a leave takes the identifier out, if it was in. A death
    /// changes nothing: the authority has reset the player already, and a
    /// replica that only hears of the death keeps its copy as it was.
    pub open spec fn apply(self, players: Map<Id, Player>) -> Map<Id, Player> {
        match self {
            Event::PlayerJoined(player) => players.insert(player.id, player),
            Event::PlayerUpdated(player) => players.insert(player.id, player),
            Event::PlayerLeft(id) => players.remove(id),
            Event::PlayerDied(_) => players,
        }
    }
}

/// Whether every player stands under its own identifier. An empty world is
/// so, and neither an event nor a tick ends this.
pub open spec fn well_keyed(players: Map<Id, Player>) -> bool {
    forall|id: Id| #[trigger] players.contains_key(id) ==> players[id].id == id
}

/// The players of a world after the events in order, given those before.
pub open spec fn replay(players: Map<Id, Player>, events: Seq<Event>) -> Map<Id, Player>
    decreases events.len(),
{
    if events.len() == 0 {
        players
    } else {
        replay(events[0].apply(players), events.skip(1))
    }
}

/// What a client sends to the authority.
#[derive(Clone, Copy, Debug, PartialEq, Eq, Structural)]
pub enum ClientMessage {
    Event(Event),
}

/// What the authority sends to its clients.
#[derive(Clone, Debug, PartialEq, Eq)]
pub enum ServerMessage {
    Update(Vec<Event>),
}

impl ServerMessage {
    /// The events of the batch, in order.
    pub open spec fn events(self) -> Seq<Event> {
        match self {
            ServerMessage::Update(events) => events@,
        }
    }
}

/// An event keeps every player under its own identifier.
pub proof fn lemma_apply_keeps_keys(players: Map<Id, Player>, event: Event)
    requires
        well_keyed(players),
    ensures
        well_keyed(event.apply(players)),
{
    let after = event.apply(players);
    assert forall|id: Id| #[trigger] after.contains_key(id) implies after[id].id == id by {
        match event {
            Event::PlayerJoined(player) | Event::PlayerUpdated(player) => {
                if id != player.id {
                    assert(players.contains_key(id));
                }
            },
            Event::PlayerLeft(left) => {
                assert(players.contains_key(id));
            },
            Event::PlayerDied(_) => {},
        }
    }
}

/// A list of events keeps every player under its own identifier.
pub proof fn lemma_replay_keeps_keys(players: Map<Id, Player>, events: Seq<Event>)
    requires
        well_keyed(players),
    ensures
        well_keyed(replay(players, events)),
    decreases events.len(),
{
    if events.len() > 0 {
        lemma_apply_keeps_keys(players, events[0]);
        lemma_replay_keeps_keys(events[0].apply(players), events.skip(1));
    }
}

/// A join followed by the leave of the same player leaves the world without
/// that player, whatever it held before.
pub proof fn lemma_join_then_leave(players: Map<Id, Player>, player: Player)
    ensures
        !Event::PlayerLeft(player.id).apply(Event::PlayerJoined(player).apply(players)).contains_key(
            player.id,
        ),
        replay(players, seq![Event::PlayerJoined(player), Event::PlayerLeft(player.id)])
            == players.remove(player.id),
{
    let events = seq![Event::PlayerJoined(player), Event::PlayerLeft(player.id)];
    let joined = Event::PlayerJoined(player).apply(players);
    assert(events.skip(1) =~= seq![Event::PlayerLeft(player.id)]);
    assert(events.skip(1).skip(1) =~= Seq::<Event>::empty());
    assert(replay(players, events) == replay(joined, events.skip(1)));
    assert(replay(joined, events.skip(1)) == replay(
        Event::PlayerLeft(player.id).apply(joined),
        events.skip(1).skip(1),
    ));
    assert(players.insert(player.id, player).remove(player.id) =~= players.remove(player.id));
}

/// The leave of a player that the world does not hold changes nothing.
pub proof fn lemma_leave_of_absent(players: Map<Id, Player>, id: Id)
    requires
        !players.contains_key(id),
    ensures
        Event::PlayerLeft(id).apply(players) == players,
{
    assert(players.remove(id) =~= players);
}

/// A death leaves every replica's players as they were.
pub proof fn lemma_death_changes_nothing(players: Map<Id, Player>, player: Player)
    ensures
        Event::PlayerDied(player).apply(players) == players,
{
}

/// Replicas that hold the same players and replay the same events, in the
/// same order, hold the same players afterwards. What else two worlds hold,
/// their counters of identifiers and their tick rates, has no part in it.
pub proof fn lemma_replicas_agree(
    first: Map<Id, Player>,
    second: Map<Id, Player>,
    events: Seq<Event>,
)
    requires
        first == second,
    ensures
        replay(first, events) == replay(second, events),
{
}

/// A replica that holds a player out of oxygen and hears of its death does
/// not hold the player as the death reports it: the replica stays behind the
/// authority until an update of that player follows.
pub proof fn lemma_death_leaves_replica_behind(players: Map<Id, Player>, player: Player)
    requires
        players.contains_key(player.id),
        players[player.id].is_out_of_oxygen(),
    ensures
        Event::PlayerDied(players[player.id].respawned()).apply(players)[player.id]
            != players[player.id].respawned(),
        Event::PlayerUpdated(players[player.id].respawned()).apply(
            Event::PlayerDied(players[player.id].respawned()).apply(players),
        )[players[player.id].respawned().id] == players[player.id].respawned(),
{
    let held = players[player.id];
    assert(held.oxygen.bits != Player::MAX_OXYGEN);
}

/// Replaying one list after another is replaying the two in a row.
pub proof fn lemma_replay_concat(players: Map<Id, Player>, first: Seq<Event>, second: Seq<Event>)
    ensures
        replay(players, first + second) == replay(replay(players, first), second),
    decreases first.len(),
{
    if first.len() == 0 {
        assert(first + second =~= second);
    } else {
        assert((first + second)[0] == first[0]);
        assert((first + second).skip(1) =~= first.skip(1) + second);
        lemma_replay_concat(first[0].apply(players), first.skip(1), second);
    }
}

/// Replaying a list and then one more event is replaying the longer list.
pub proof fn lemma_replay_push(players: Map<Id, Player>, events: Seq<Event>, event: Event)
    ensures
        replay(players, events.push(event)) == event.apply(replay(players, events)),
{
    lemma_replay_concat(players, events, seq![event]);
    assert(events.push(event) =~= events + seq![event]);
    let mid = replay(players, events);
    assert(seq![event].skip(1) =~= Seq::<Event>::empty());
    assert(replay(mid, seq![event]) == replay(event.apply(mid), seq![event].skip(1)));
}

} // verus!
