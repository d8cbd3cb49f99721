use feather_view::entity::{
    self, send_entity_movement, send_entity_sneak_metadata, send_entity_sprint_metadata, Client,
    Packet, Pose, Server, TrackedEntity, CROUCHED, SPRINTING,
};
use feather_view::game::{
    self, update_player_views, update_view_on_join, EntityDead, Game, Player, Position,
    ViewUpdateEvent,
};
use feather_view::mob::{Ghast, Horse};
use feather_view::systems::{SystemExecutor, SystemId};
use feather_view::view::{ChunkPosition, EntityDimension, EntityWorld, View};

const W: EntityWorld = EntityWorld(1);
const D: EntityDimension = EntityDimension(0);
const D2: EntityDimension = EntityDimension(1);

fn at_chunk(cx: i32, cz: i32) -> Position {
    Position { x: cx * 512 + 100, y: 64 * 32, z: cz * 512 + 7 }
}

fn player(entity: u64, position: Position, view: View, joined: bool) -> Player {
    Player {
        entity,
        position,
        world: W,
        dimension: D,
        view,
        joined,
        view_events: Vec::new(),
    }
}

fn chunks(v: &[ChunkPosition]) -> Vec<(i32, i32)> {
    let mut r: Vec<(i32, i32)> = v.iter().map(|c| (c.x, c.z)).collect();
    r.sort();
    r
}

#[test]
fn chunk_of_position_floors() {
    let p = |x: i32, z: i32| Position { x, y: 0, z }.chunk();
    assert_eq!(p(0, 0), ChunkPosition::new(0, 0));
    assert_eq!(p(511, 512), ChunkPosition::new(0, 1));
    assert_eq!(p(-1, -512), ChunkPosition::new(-1, -1));
    assert_eq!(p(-513, 1024), ChunkPosition::new(-2, 2));
}

#[test]
fn crossing_a_chunk_boundary_recenters_the_view() {
    let view = View::new(ChunkPosition::new(5, 5), 2, W, D);
    let mut game = Game {
        players: vec![
            player(10, at_chunk(6, 5), view, false),
            player(11, at_chunk(0, 0), View::new(ChunkPosition::new(0, 0), 2, W, D), false),
        ],
        entities: Vec::new(),
    };
    assert_eq!(update_player_views(&mut game), Ok(()));
    let moved = &game.players[0];
    assert_eq!(moved.view.center(), ChunkPosition::new(6, 5));
    assert_eq!(moved.view_events.len(), 1);
    let ViewUpdateEvent { old_view, new_view } = moved.view_events[0];
    assert_eq!(old_view.center(), ChunkPosition::new(5, 5));
    assert_eq!(new_view.center(), ChunkPosition::new(6, 5));
    let added = chunks(&new_view.difference(&old_view));
    let expected_added: Vec<(i32, i32)> = (2..=8).map(|z| (new_view.max_x(), z)).collect();
    assert_eq!(added, expected_added);
    let removed = chunks(&old_view.difference(&new_view));
    let expected_removed: Vec<(i32, i32)> = (2..=8).map(|z| (old_view.min_x(), z)).collect();
    assert_eq!(removed, expected_removed);
    assert!(game.players[1].view_events.is_empty());
    assert_eq!(game.players[1].view.center(), ChunkPosition::new(0, 0));
}

#[test]
fn recentered_view_keeps_world_and_dimension_of_old_view() {
    let view = View::new(ChunkPosition::new(0, 0), 2, EntityWorld(40), D2);
    let mut game = Game {
        players: vec![player(12, at_chunk(1, -1), view, false)],
        entities: Vec::new(),
    };
    assert_eq!(update_player_views(&mut game), Ok(()));
    let new_view = game.players[0].view;
    assert_eq!(new_view.center(), ChunkPosition::new(1, -1));
    assert_eq!(new_view.view_distance(), 2);
    assert_eq!(new_view.world(), EntityWorld(40));
    assert_eq!(*new_view.dimension(), D2);
    assert_eq!(game.players[0].world, W);
    assert_eq!(game.players[0].dimension, D);
    assert_eq!(game.players[0].view_events[0].new_view, new_view);
    assert_eq!(game.players[0].view_events[0].old_view, view);
}

#[test]
fn joining_loads_the_whole_view() {
    let view = View::new(ChunkPosition::new(-4, 9), 3, W, D);
    let mut game = Game {
        players: vec![
            player(1, at_chunk(-4, 9), view, true),
            player(2, at_chunk(0, 0), View::new(ChunkPosition::new(0, 0), 3, W, D), false),
        ],
        entities: Vec::new(),
    };
    assert_eq!(update_view_on_join(&mut game), Ok(()));
    let events = &game.players[0].view_events;
    assert_eq!(events.len(), 1);
    assert_eq!(events[0].old_view, View::empty(W, D));
    assert_eq!(events[0].new_view, view);
    assert_eq!(
        chunks(&events[0].new_view.difference(&events[0].old_view)),
        chunks(&view.iter())
    );
    assert!(game.players[1].view_events.is_empty());
}

#[test]
fn teleport_to_other_dimension_reloads_everything() {
    let old_view = View::new(ChunkPosition::new(3, 3), 2, W, D);
    let new_view = View::new(ChunkPosition::new(3, 3), 2, W, D2);
    assert_eq!(new_view.difference(&old_view), new_view.iter());
    assert_eq!(new_view.difference(&old_view).len(), 49);
}

#[test]
fn event_for_missing_entity_fails() {
    let view = View::new(ChunkPosition::new(0, 0), 1, W, D);
    let mut game = Game {
        players: vec![player(3, at_chunk(0, 0), view, false)],
        entities: Vec::new(),
    };
    let event = ViewUpdateEvent::new(&view, &view);
    assert_eq!(game.insert_entity_event(4, event), Err(EntityDead));
    assert!(game.players[0].view_events.is_empty());
    assert_eq!(game.insert_entity_event(3, event), Ok(()));
    assert_eq!(game.players[0].view_events, vec![event]);
}

fn client(view: View) -> Client {
    Client { view, packets: Vec::new() }
}

#[test]
fn broadcast_reaches_exactly_the_covering_views() {
    let mut server = Server {
        clients: vec![
            client(View::new(ChunkPosition::new(0, 0), 2, W, D)),
            client(View::new(ChunkPosition::new(0, 0), 2, W, D2)),
            client(View::new(ChunkPosition::new(20, 0), 2, W, D)),
            client(View::new(ChunkPosition::new(3, 3), 1, W, D)),
            client(View::new(ChunkPosition::new(0, 0), 2, EntityWorld(2), D)),
        ],
    };
    let packet = Packet::EntityMetadata { network_id: 5, bit_mask: 0, pose: None };
    server.broadcast_nearby_with(W, &D, at_chunk(2, 2), packet);
    let counts: Vec<usize> = server.clients.iter().map(|c| c.packets.len()).collect();
    assert_eq!(counts, vec![1, 0, 0, 1, 0]);
    assert_eq!(server.clients[0].packets[0], packet);
    assert_eq!(server.nearby_clients(W, &D, at_chunk(2, 2)), vec![0, 3]);
    assert!(server.nearby_clients(W, &D2, at_chunk(40, 40)).is_empty());
}

#[test]
fn exclusive_broadcast_tailors_packet_per_recipient() {
    let mut server = Server {
        clients: vec![
            client(View::new(ChunkPosition::new(0, 0), 2, W, D)),
            client(View::new(ChunkPosition::new(1, 1), 3, W, D)),
            client(View::new(ChunkPosition::new(0, 0), 2, W, D2)),
        ],
    };
    server.broadcast_nearby_with_mut(W, &D, at_chunk(1, 0), |c: &Client| {
        Packet::EntityMetadata {
            network_id: c.view.view_distance() as i32,
            bit_mask: c.packets.len() as u8,
            pose: None,
        }
    });
    assert_eq!(
        server.clients[0].packets,
        vec![Packet::EntityMetadata { network_id: 2, bit_mask: 0, pose: None }]
    );
    assert_eq!(
        server.clients[1].packets,
        vec![Packet::EntityMetadata { network_id: 3, bit_mask: 0, pose: None }]
    );
    assert!(server.clients[2].packets.is_empty());
}

fn entity_at(network_id: i32, position: Position) -> TrackedEntity {
    TrackedEntity {
        network_id,
        world: W,
        dimension: D,
        position,
        prev_position: position,
        on_ground: true,
        prev_on_ground: true,
        sneaking: false,
        prev_sneaking: false,
        sprinting: false,
        prev_sprinting: false,
    }
}

#[test]
fn movement_is_sent_to_viewers_and_recorded() {
    let start = at_chunk(1, 1);
    let mut mover = entity_at(9, start);
    mover.position = Position { x: start.x + 40, y: start.y - 3, z: start.z };
    mover.on_ground = false;
    let mut still = entity_at(8, at_chunk(1, 1));
    still.on_ground = false;
    let mut game = Game { players: Vec::new(), entities: vec![mover, still] };
    let mut server = Server {
        clients: vec![
            client(View::new(ChunkPosition::new(0, 0), 1, W, D)),
            client(View::new(ChunkPosition::new(30, 30), 1, W, D)),
        ],
    };
    send_entity_movement(&mut game, &mut server);
    assert_eq!(
        server.clients[0].packets,
        vec![Packet::EntityMovement { network_id: 9, dx: 40, dy: -3, dz: 0, on_ground: false }]
    );
    assert!(server.clients[1].packets.is_empty());
    assert_eq!(game.entities[0].prev_position, game.entities[0].position);
    assert!(!game.entities[0].prev_on_ground);
    assert!(!game.entities[1].prev_on_ground);
    send_entity_movement(&mut game, &mut server);
    assert_eq!(server.clients[0].packets.len(), 1);
}

#[test]
fn sneaking_sends_crouch_and_sprint_bits_with_pose() {
    let mut e = entity_at(4, at_chunk(0, 0));
    e.sneaking = true;
    e.sprinting = true;
    e.prev_sprinting = true;
    let mut game = Game { players: Vec::new(), entities: vec![e] };
    let mut server = Server { clients: vec![client(View::new(ChunkPosition::new(0, 0), 1, W, D))] };
    send_entity_sneak_metadata(&mut game, &mut server);
    assert_eq!(CROUCHED | SPRINTING, 0x0A);
    assert_eq!(
        server.clients[0].packets,
        vec![Packet::EntityMetadata {
            network_id: 4,
            bit_mask: 0x0A,
            pose: Some(Pose::Sneaking)
        }]
    );
    assert!(game.entities[0].prev_sneaking);
    game.entities[0].sneaking = false;
    send_entity_sneak_metadata(&mut game, &mut server);
    assert_eq!(
        server.clients[0].packets[1],
        Packet::EntityMetadata { network_id: 4, bit_mask: 0x08, pose: Some(Pose::Standing) }
    );
    send_entity_sneak_metadata(&mut game, &mut server);
    assert_eq!(server.clients[0].packets.len(), 2);
}

#[test]
fn sprinting_sends_sprint_bit_only() {
    let mut e = entity_at(6, at_chunk(0, 0));
    e.sprinting = true;
    e.sneaking = true;
    e.prev_sneaking = true;
    let mut game = Game { players: Vec::new(), entities: vec![e] };
    let mut server = Server { clients: vec![client(View::new(ChunkPosition::new(0, 0), 1, W, D))] };
    send_entity_sprint_metadata(&mut game, &mut server);
    assert_eq!(
        server.clients[0].packets,
        vec![Packet::EntityMetadata { network_id: 6, bit_mask: SPRINTING, pose: None }]
    );
    assert!(game.entities[0].prev_sprinting);
    send_entity_sprint_metadata(&mut game, &mut server);
    assert_eq!(server.clients[0].packets.len(), 1);
}

#[test]
fn registering_adds_systems_in_order() {
    let mut game = Game { players: Vec::new(), entities: Vec::new() };
    let mut systems = SystemExecutor::new();
    game::register(&mut game, &mut systems);
    entity::register(&mut game, &mut systems);
    assert!(game.players.is_empty() && game.entities.is_empty());
    assert_eq!(
        *systems.systems(),
        vec![
            SystemId::UpdatePlayerViews,
            SystemId::UpdateViewOnJoin,
            SystemId::SendEntityMovement,
            SystemId::SendEntitySneakMetadata,
            SystemId::SendEntitySprintMetadata,
        ]
    );
}

#[test]
fn mob_markers_compare_equal() {
    assert_eq!(Ghast, Ghast);
    assert_eq!(Horse, Horse);
}
