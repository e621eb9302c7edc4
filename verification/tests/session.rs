use gridgame::session::{entity_report, Clients, Delivery, DeliveryKind, EntityReport};

#[test]
fn new_client_needs_inits() {
    let mut clients: Clients<&str> = Clients::new();
    clients.connect(7, "tx7");
    assert_eq!(clients.len(), 1);
    assert_eq!(clients.get(0).pawn_id, 7);
    assert_eq!(clients.get(0).tx, "tx7");
    assert!(clients.get(0).needs_inits);
    assert_eq!(clients.entity_reports(false), vec![EntityReport::Init]);
    clients.mark_inits_sent();
    assert!(!clients.get(0).needs_inits);
    assert_eq!(clients.entity_reports(true), vec![EntityReport::Update]);
    assert_eq!(clients.entity_reports(false), vec![EntityReport::Nothing]);
}

#[test]
fn disconnect_removes_every_client_of_the_pawn() {
    let mut clients: Clients<u8> = Clients::new();
    clients.connect(1, 10);
    clients.connect(2, 20);
    clients.connect(1, 11);
    clients.connect(3, 30);
    clients.disconnect(1);
    assert_eq!(clients.len(), 2);
    assert_eq!(clients.get(0).tx, 20);
    assert_eq!(clients.get(1).tx, 30);
    clients.disconnect(99);
    assert_eq!(clients.len(), 2);
}

#[test]
fn reports_mix_inits_and_updates() {
    let mut clients: Clients<()> = Clients::new();
    clients.connect(1, ());
    clients.mark_inits_sent();
    clients.connect(2, ());
    assert_eq!(clients.entity_reports(true), vec![EntityReport::Update, EntityReport::Init]);
}

#[test]
fn entity_report_table() {
    assert_eq!(entity_report(true, true), EntityReport::Init);
    assert_eq!(entity_report(true, false), EntityReport::Init);
    assert_eq!(entity_report(false, true), EntityReport::Update);
    assert_eq!(entity_report(false, false), EntityReport::Nothing);
}

use gridgame::session::GameRoster;

#[test]
fn roster_connects_and_spawns_players() {
    let mut roster: GameRoster<&str, &str> = GameRoster::new();
    assert_eq!(roster.peek_id(), 1);
    let id = roster.allocate_id();
    assert_eq!(id, 1);
    roster.add_player(id, "tx1", "pawn1");
    assert_eq!(roster.clients().len(), 1);
    assert_eq!(roster.clients().get(0).pawn_id, 1);
    assert!(roster.clients().get(0).needs_inits);
    assert_eq!(roster.pop_spawn(), Some((1, "pawn1")));
    assert_eq!(roster.pop_spawn(), None);
}

#[test]
fn roster_spawns_get_fresh_ids() {
    let mut roster: GameRoster<(), char> = GameRoster::new();
    let a = roster.allocate_id();
    let b = roster.spawn('b');
    let c = roster.spawn('c');
    assert_eq!((a, b, c), (1, 2, 3));
    assert_eq!(roster.peek_id(), 4);
    assert_eq!(roster.pop_spawn(), Some((2, 'b')));
    assert_eq!(roster.pop_spawn(), Some((3, 'c')));
    assert_eq!(roster.pop_spawn(), None);
}

#[test]
fn roster_drop_player_queues_despawn() {
    let mut roster: GameRoster<u8, ()> = GameRoster::new();
    let a = roster.allocate_id();
    roster.add_player(a, 1, ());
    let b = roster.allocate_id();
    roster.add_player(b, 2, ());
    roster.despawn(77);
    roster.drop_player(a);
    assert_eq!(roster.clients().len(), 1);
    assert_eq!(roster.clients().get(0).pawn_id, b);
    assert_eq!(roster.pop_despawn(), Some(77));
    assert_eq!(roster.pop_despawn(), Some(a));
    assert_eq!(roster.pop_despawn(), None);
}

#[test]
fn roster_marks_inits_sent() {
    let mut roster: GameRoster<(), ()> = GameRoster::new();
    let a = roster.allocate_id();
    roster.add_player(a, (), ());
    assert_eq!(roster.clients().entity_reports(true), vec![EntityReport::Init]);
    roster.mark_inits_sent();
    assert_eq!(roster.clients().entity_reports(true), vec![EntityReport::Update]);
}

fn delivery(client: usize, kind: DeliveryKind, entity: u64) -> Delivery {
    Delivery { client, kind, entity }
}

#[test]
fn tick_sends_despawns_then_ticks_then_spawns() {
    let mut clients: Clients<()> = Clients::new();
    clients.connect(1, ());
    clients.connect(2, ());
    clients.mark_inits_sent();
    clients.connect(3, ());
    let plan = clients.tick_deliveries(&vec![9], &vec![(1, true), (2, false)], &vec![4]);
    assert_eq!(
        plan,
        vec![
            delivery(0, DeliveryKind::Despawn, 9),
            delivery(1, DeliveryKind::Despawn, 9),
            delivery(2, DeliveryKind::Despawn, 9),
            delivery(0, DeliveryKind::Update, 1),
            delivery(1, DeliveryKind::Update, 1),
            delivery(2, DeliveryKind::Init, 1),
            delivery(2, DeliveryKind::Init, 2),
            delivery(0, DeliveryKind::Spawn, 4),
            delivery(1, DeliveryKind::Spawn, 4),
            delivery(2, DeliveryKind::Spawn, 4),
        ]
    );
}

#[test]
fn tick_with_no_players_sends_nothing() {
    let clients: Clients<()> = Clients::new();
    assert_eq!(clients.tick_deliveries(&vec![1, 2], &vec![(3, true)], &vec![4]), vec![]);
}

#[test]
fn quiet_tick_sends_nothing_to_players_with_inits() {
    let mut clients: Clients<()> = Clients::new();
    clients.connect(1, ());
    clients.mark_inits_sent();
    assert_eq!(clients.tick_deliveries(&vec![], &vec![(1, false)], &vec![]), vec![]);
}

use gridgame::world::GameWorld;

#[test]
fn world_spawns_and_despawns_from_the_roster() {
    let mut world: GameWorld<char> = GameWorld::new();
    let mut roster: GameRoster<(), char> = GameRoster::new();
    let a = roster.spawn('a');
    let b = roster.spawn('b');
    assert_eq!(world.spawn_pending(&mut roster), vec![a, b]);
    assert_eq!(roster.pop_spawn(), None);
    assert_eq!(world.actors().get(&a), Some(&'a'));
    assert_eq!(world.entity_ids().iter().cloned().collect::<Vec<_>>(), vec![a, b]);
    roster.despawn(b);
    roster.despawn(99);
    assert_eq!(world.despawn_pending(&mut roster), vec![b, 99]);
    assert_eq!(roster.pop_despawn(), None);
    assert_eq!(world.entity_ids().iter().cloned().collect::<Vec<_>>(), vec![a]);
    assert_eq!(world.actors().len(), 1);
    assert_eq!(world.actors().get(&b), None);
}

#[test]
fn world_walks_ids_in_increasing_order() {
    let mut world: GameWorld<u8> = GameWorld::new();
    let mut roster: GameRoster<(), u8> = GameRoster::new();
    for k in 0..5u8 {
        roster.spawn(k);
    }
    let spawned = world.spawn_pending(&mut roster);
    assert_eq!(spawned, vec![1, 2, 3, 4, 5]);
    roster.despawn(3);
    world.despawn_pending(&mut roster);
    assert_eq!(world.entity_ids().iter().cloned().collect::<Vec<_>>(), vec![1, 2, 4, 5]);
    assert_eq!(world.actors().keys().cloned().collect::<Vec<_>>(), vec![1, 2, 4, 5]);
}
