use rusty_jam::event::{ClientMessage, Event};
use rusty_jam::id::{Id, IdGen};
use rusty_jam::model::Model;
use rusty_jam::player::Player;
use rusty_jam::scalar::{Double, Single, Vec2};

fn single(value: f32) -> Single {
    Single::from_bits(value.to_bits())
}

fn at(x: f32, y: f32) -> Vec2 {
    Vec2 { x: single(x), y: single(y) }
}

fn player_with(id: usize, oxygen: f32, x: f32, y: f32) -> Player {
    Player {
        id: Id::from_raw(id),
        oxygen: single(oxygen),
        position: at(x, y),
        velocity: at(0.0, 0.0),
        target_velocity: at(0.0, 0.0),
    }
}

fn sorted_players(model: &Model) -> Vec<Player> {
    let mut ids: Vec<usize> = model.ids().iter().map(|id| id.raw()).collect();
    ids.sort();
    ids.iter().map(|raw| model.player(Id::from_raw(*raw)).unwrap()).collect()
}

#[test]
fn new_world_is_empty_and_ticks_twenty_times_a_second() {
    let model = Model::new();
    assert_eq!(model.len(), 0);
    assert!(model.ids().is_empty());
    assert_eq!(model.next_id(), 0);
    assert!(!model.is_full());
    assert_eq!(f64::from_bits(model.ticks_per_second().to_bits()), 20.0);
}

#[test]
fn welcome_twice_then_tick_and_death() {
    let mut model = Model::new();
    let (first, joined_first) = model.welcome();
    let (second, joined_second) = model.welcome();
    assert_eq!(first.player_id.raw(), 0);
    assert_eq!(second.player_id.raw(), 1);
    assert_eq!(model.len(), 2);
    for id in [first.player_id, second.player_id] {
        let player = model.player(id).unwrap();
        assert_eq!(player.id, id);
        assert_eq!(f32::from_bits(player.position.x.to_bits()), 0.0);
        assert_eq!(f32::from_bits(player.position.y.to_bits()), 0.0);
        assert_eq!(f32::from_bits(player.oxygen.to_bits()), 10.0);
    }
    assert_eq!(joined_first, vec![Event::PlayerJoined(model.player(first.player_id).unwrap())]);
    assert_eq!(joined_second, vec![Event::PlayerJoined(model.player(second.player_id).unwrap())]);

    assert_eq!(model.tick(), vec![]);

    let mut suffocating = model.player(first.player_id).unwrap();
    suffocating.oxygen = single(-0.1);
    suffocating.position = at(4.0, -3.0);
    model.handle(Event::PlayerUpdated(suffocating));
    let events = model.tick();
    assert_eq!(events.len(), 1);
    match events[0] {
        Event::PlayerDied(dead) => {
            assert_eq!(dead.id.raw(), 0);
            assert_eq!(f32::from_bits(dead.oxygen.to_bits()), 10.0);
            assert_eq!(dead.position, at(0.0, 0.0));
            assert_eq!(dead.velocity, at(0.0, 0.0));
            assert_eq!(dead.target_velocity, at(0.0, 0.0));
            assert_eq!(model.player(first.player_id), Some(dead));
        }
        other => panic!("{:?}", other),
    }
    assert_eq!(model.len(), 2);
    assert_eq!(model.tick(), vec![]);
}

#[test]
fn welcome_snapshots_the_world_with_the_new_player() {
    let mut model = Model::new();
    let (first, _) = model.welcome();
    assert_eq!(first.model.len(), 1);
    assert_eq!(first.model.next_id(), 1);
    let (second, _) = model.welcome();
    assert_eq!(second.model.len(), 2);
    assert_eq!(second.model.next_id(), 2);
    assert_eq!(sorted_players(&second.model), sorted_players(&model));
    assert_eq!(first.model.len(), 1);
    assert_eq!(first.model.player(second.player_id), None);
}

#[test]
fn tick_neither_moves_anybody_nor_uses_oxygen() {
    let mut model = Model::new();
    let moving = Player {
        velocity: at(1.0, 2.0),
        target_velocity: at(1.0, 0.0),
        ..player_with(3, 4.5, 2.0, 2.0)
    };
    model.handle(Event::PlayerJoined(moving));
    assert_eq!(model.tick(), vec![]);
    assert_eq!(model.player(Id::from_raw(3)), Some(moving));
}

#[test]
fn tick_respawns_everybody_who_is_out_of_oxygen() {
    let mut model = Model::new();
    for id in 0..6 {
        let oxygen = if id % 2 == 0 { -1.0 - id as f32 } else { 1.0 + id as f32 };
        model.handle(Event::PlayerJoined(player_with(id, oxygen, id as f32, 1.0)));
    }
    let mut events = model.tick();
    events.sort_by_key(|event| match event {
        Event::PlayerDied(dead) => dead.id.raw(),
        other => panic!("{:?}", other),
    });
    assert_eq!(
        events,
        vec![
            Event::PlayerDied(player_with(0, 10.0, 0.0, 0.0)),
            Event::PlayerDied(player_with(2, 10.0, 0.0, 0.0)),
            Event::PlayerDied(player_with(4, 10.0, 0.0, 0.0)),
        ]
    );
    assert_eq!(
        sorted_players(&model),
        vec![
            player_with(0, 10.0, 0.0, 0.0),
            player_with(1, 2.0, 1.0, 1.0),
            player_with(2, 10.0, 0.0, 0.0),
            player_with(3, 4.0, 3.0, 1.0),
            player_with(4, 10.0, 0.0, 0.0),
            player_with(5, 6.0, 5.0, 1.0),
        ]
    );
    assert_eq!(model.next_id(), 0);
}

#[test]
fn tick_spares_a_player_at_exactly_zero_oxygen() {
    let mut model = Model::new();
    model.handle(Event::PlayerJoined(player_with(0, 0.0, 5.0, 5.0)));
    model.handle(Event::PlayerJoined(player_with(1, -0.0, 5.0, 5.0)));
    model.handle(Event::PlayerJoined(player_with(2, f32::NAN, 5.0, 5.0)));
    assert_eq!(model.tick(), vec![]);
    assert_eq!(model.player(Id::from_raw(0)), Some(player_with(0, 0.0, 5.0, 5.0)));
}

#[test]
fn join_then_leave_removes_the_player() {
    let mut model = Model::new();
    let player = player_with(9, 10.0, 0.0, 0.0);
    model.handle(Event::PlayerJoined(player));
    assert_eq!(model.player(player.id), Some(player));
    model.handle(Event::PlayerLeft(player.id));
    assert_eq!(model.player(player.id), None);
    assert_eq!(model.len(), 0);
}

#[test]
fn leave_of_an_absent_player_changes_nothing() {
    let mut model = Model::new();
    let (_, _) = model.welcome();
    let before = sorted_players(&model);
    model.handle(Event::PlayerLeft(Id::from_raw(77)));
    assert_eq!(sorted_players(&model), before);
    assert_eq!(model.next_id(), 1);
}

#[test]
fn update_puts_the_player_over_the_old_one() {
    let mut model = Model::new();
    model.handle(Event::PlayerJoined(player_with(2, 10.0, 0.0, 0.0)));
    model.handle(Event::PlayerUpdated(player_with(2, 7.5, 1.0, -1.0)));
    assert_eq!(model.len(), 1);
    assert_eq!(model.player(Id::from_raw(2)), Some(player_with(2, 7.5, 1.0, -1.0)));
    model.handle(Event::PlayerJoined(player_with(2, 3.0, 0.5, 0.5)));
    assert_eq!(model.player(Id::from_raw(2)), Some(player_with(2, 3.0, 0.5, 0.5)));
}

#[test]
fn update_of_an_unknown_player_puts_it_in() {
    let mut model = Model::new();
    model.handle(Event::PlayerUpdated(player_with(4, 1.0, 1.0, 1.0)));
    assert_eq!(model.player(Id::from_raw(4)), Some(player_with(4, 1.0, 1.0, 1.0)));
    assert_eq!(model.next_id(), 0);
}

#[test]
fn death_event_leaves_the_map_as_it_was() {
    let mut model = Model::new();
    let stale = player_with(1, -2.0, 6.0, 6.0);
    model.handle(Event::PlayerJoined(stale));
    model.handle(Event::PlayerDied(player_with(1, 10.0, 0.0, 0.0)));
    assert_eq!(model.player(Id::from_raw(1)), Some(stale));
    model.handle(Event::PlayerDied(player_with(8, 10.0, 0.0, 0.0)));
    assert_eq!(model.player(Id::from_raw(8)), None);
    assert_eq!(model.len(), 1);
}

#[test]
fn handle_impl_writes_nothing_to_the_list_it_is_given() {
    let mut model = Model::new();
    let mut events = vec![Event::PlayerLeft(Id::from_raw(0))];
    model.handle_impl(Event::PlayerJoined(player_with(1, 10.0, 0.0, 0.0)), Some(&mut events));
    assert_eq!(events, vec![Event::PlayerLeft(Id::from_raw(0))]);
    assert_eq!(model.len(), 1);
    model.handle_impl(Event::PlayerLeft(Id::from_raw(1)), None);
    assert_eq!(model.len(), 0);
}

#[test]
fn handle_message_echoes_the_update() {
    let mut server = Model::new();
    let (welcome, _) = server.welcome();
    let mut moved = server.player(welcome.player_id).unwrap();
    moved.position = at(2.5, -1.25);
    moved.velocity = at(0.5, 0.0);
    let update = Event::PlayerUpdated(moved);
    let events = server.handle_message(welcome.player_id, ClientMessage::Event(update));
    assert_eq!(events, vec![update]);
    assert_eq!(server.player(welcome.player_id), Some(moved));
    assert_eq!(
        f32::from_bits(server.player(welcome.player_id).unwrap().position.x.to_bits()),
        2.5
    );
}

#[test]
fn handle_message_echoes_joins_and_leaves_too() {
    let mut server = Model::new();
    let joined = Event::PlayerJoined(player_with(3, 10.0, 0.0, 0.0));
    assert_eq!(server.handle_message(Id::from_raw(3), ClientMessage::Event(joined)), vec![joined]);
    assert_eq!(server.len(), 1);
    let left = Event::PlayerLeft(Id::from_raw(3));
    assert_eq!(server.handle_message(Id::from_raw(3), ClientMessage::Event(left)), vec![left]);
    assert_eq!(server.len(), 0);
    let died = Event::PlayerDied(player_with(3, 10.0, 0.0, 0.0));
    assert_eq!(server.handle_message(Id::from_raw(3), ClientMessage::Event(died)), vec![died]);
    assert_eq!(server.len(), 0);
}

#[test]
fn drop_player_removes_and_reports() {
    let mut model = Model::new();
    let (first, _) = model.welcome();
    let (second, _) = model.welcome();
    assert_eq!(model.drop_player(first.player_id), vec![Event::PlayerLeft(first.player_id)]);
    assert_eq!(model.player(first.player_id), None);
    assert!(model.player(second.player_id).is_some());
    assert_eq!(model.drop_player(first.player_id), vec![Event::PlayerLeft(first.player_id)]);
    assert_eq!(model.len(), 1);
    assert_eq!(model.next_id(), 2);
}

#[test]
fn ids_are_never_reused_after_a_player_leaves() {
    let mut model = Model::new();
    let (first, _) = model.welcome();
    let _ = model.drop_player(first.player_id);
    let (second, _) = model.welcome();
    assert_eq!(second.player_id.raw(), 1);
}

#[test]
fn replicas_replaying_the_same_events_agree() {
    let mut server = Model::new();
    let (_, _) = server.welcome();
    let (welcome, _) = server.welcome();
    let mut first = welcome.model.clone();
    let mut second = welcome.model;
    second.set_ticks_per_second(Double::from_bits(60.0f64.to_bits()));
    let events = vec![
        Event::PlayerJoined(player_with(2, 10.0, 0.0, 0.0)),
        Event::PlayerUpdated(player_with(0, 6.0, 1.0, 1.0)),
        Event::PlayerDied(player_with(1, 10.0, 0.0, 0.0)),
        Event::PlayerLeft(Id::from_raw(2)),
        Event::PlayerUpdated(player_with(5, 3.0, -1.0, 4.0)),
        Event::PlayerLeft(Id::from_raw(9)),
    ];
    for event in &events {
        first.handle(*event);
    }
    for event in &events {
        second.handle(*event);
    }
    assert_eq!(sorted_players(&first), sorted_players(&second));
    assert_eq!(
        sorted_players(&first),
        vec![
            player_with(0, 6.0, 1.0, 1.0),
            player_with(1, 10.0, 0.0, 0.0),
            player_with(5, 3.0, -1.0, 4.0),
        ]
    );
}

#[test]
fn replica_that_only_hears_of_a_death_stays_behind() {
    let mut server = Model::new();
    let (welcome, _) = server.welcome();
    let mut replica = welcome.model;
    let mut suffocating = server.player(welcome.player_id).unwrap();
    suffocating.oxygen = single(-0.5);
    let update = Event::PlayerUpdated(suffocating);
    for event in server.handle_message(welcome.player_id, ClientMessage::Event(update)) {
        replica.handle(event);
    }
    for event in server.tick() {
        replica.handle(event);
    }
    assert_eq!(
        f32::from_bits(server.player(welcome.player_id).unwrap().oxygen.to_bits()),
        10.0
    );
    assert_eq!(replica.player(welcome.player_id), Some(suffocating));
}

#[test]
fn from_parts_rebuilds_a_snapshot() {
    let players = vec![
        player_with(4, 2.0, 1.0, 1.0),
        player_with(1, 10.0, 0.0, 0.0),
        player_with(4, 3.0, 2.0, 2.0),
    ];
    let model = Model::from_parts(IdGen::resume(5), Double::from_bits(30.0f64.to_bits()), &players);
    assert_eq!(model.next_id(), 5);
    assert_eq!(f64::from_bits(model.ticks_per_second().to_bits()), 30.0);
    assert_eq!(
        sorted_players(&model),
        vec![player_with(1, 10.0, 0.0, 0.0), player_with(4, 3.0, 2.0, 2.0)]
    );
}

#[test]
fn ids_lists_every_player_once() {
    let mut model = Model::new();
    for _ in 0..5 {
        let _ = model.welcome();
    }
    let _ = model.drop_player(Id::from_raw(2));
    let mut ids: Vec<usize> = model.ids().iter().map(|id| id.raw()).collect();
    ids.sort();
    assert_eq!(ids, vec![0, 1, 3, 4]);
    assert_eq!(model.len(), 4);
}

#[test]
fn clone_is_a_snapshot_that_later_changes_do_not_reach() {
    let mut model = Model::new();
    let _ = model.welcome();
    let snapshot = model.clone();
    let _ = model.welcome();
    model.set_ticks_per_second(Double::from_bits(5.0f64.to_bits()));
    assert_eq!(snapshot.len(), 1);
    assert_eq!(snapshot.next_id(), 1);
    assert_eq!(f64::from_bits(snapshot.ticks_per_second().to_bits()), 20.0);
    assert_eq!(model.len(), 2);
}

#[test]
fn world_that_has_issued_every_identifier_is_full() {
    let model = Model::from_parts(
        IdGen::resume(usize::MAX),
        Double::from_bits(20.0f64.to_bits()),
        &Vec::new(),
    );
    assert!(model.is_full());
    let mut nearly = Model::from_parts(
        IdGen::resume(usize::MAX - 1),
        Double::from_bits(20.0f64.to_bits()),
        &Vec::new(),
    );
    assert!(!nearly.is_full());
    let (welcome, _) = nearly.welcome();
    assert_eq!(welcome.player_id.raw(), usize::MAX - 1);
    assert!(nearly.is_full());
}
