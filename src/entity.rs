//! Sends entity state changes to the players that can see them.
use crate::game::{Game, Position};
use crate::systems::{SystemExecutor, SystemId};
use crate::view::{ChunkPosition, EntityDimension, EntityWorld, View};
use vstd::prelude::*;
use vstd::view::View as ModelOf;

verus! {

/// Entity bit mask flag: the entity is crouching.
pub const CROUCHED: u8 = 0x02;

/// Entity bit mask flag: the entity is sprinting.
pub const SPRINTING: u8 = 0x08;

#[derive(Clone, Copy, Debug, PartialEq, Eq, Structural)]
pub enum Pose {
    Standing,
    Sneaking,
}

/// What is sent to a player about an entity.
#[derive(Clone, Copy, Debug, PartialEq, Eq, Structural)]
pub enum Packet {
    /// The entity moved by the given delta, in units of 1/32 of a block.
    EntityMovement { network_id: i32, dx: i64, dy: i64, dz: i64, on_ground: bool },
    /// A patch of the entity's metadata: its bit mask, and its pose if set.
    EntityMetadata { network_id: i32, bit_mask: u8, pose: Option<Pose> },
}

/// An entity whose state changes are sent to nearby players, with the values
/// last sent kept beside the live ones.
#[derive(Clone, Copy, Debug, PartialEq, Eq, Structural)]
pub struct TrackedEntity {
    pub network_id: i32,
    pub world: EntityWorld,
    pub dimension: EntityDimension,
    pub position: Position,
    pub prev_position: Position,
    pub on_ground: bool,
    pub prev_on_ground: bool,
    pub sneaking: bool,
    pub prev_sneaking: bool,
    pub sprinting: bool,
    pub prev_sprinting: bool,
}

/// A connected player: its view and the packets queued for it.
pub struct Client {
    pub view: View,
    pub packets: Vec<Packet>,
}

/// The connected players.
pub struct Server {
    pub clients: Vec<Client>,
}

/// The player with `view` is to hear about what happens in `chunk` of the
/// given world and dimension.
pub open spec fn is_recipient(
    view: View,
    world: EntityWorld,
    dimension: EntityDimension,
    chunk: ChunkPosition,
) -> bool {
    &&& view.spec_world() == world
    &&& view.spec_dimension() == dimension
    &&& view.in_box(chunk)
}

impl Server {
    pub open spec fn wf(self) -> bool {
        forall|i: int| 0 <= i < self.clients.len() ==> (#[trigger] self.clients[i]).view.wf()
    }

    /// The indices of the players whose view holds the chunk of `position`
    /// in the given world and dimension, in ascending order, each once.
    pub fn nearby_clients(
        &self,
        world: EntityWorld,
        dimension: &EntityDimension,
        position: Position,
    ) -> (r: Vec<usize>)
        requires
            self.wf(),
        ensures
            forall|j: int, k: int| 0 <= j < k < r@.len() ==> #[trigger] r@[j] < #[trigger] r@[k],
            forall|j: int| 0 <= j < r@.len() ==> #[trigger] r@[j] < self.clients.len(),
            forall|i: int|
                0 <= i < self.clients.len() ==> (r@.contains(i as usize) <==> is_recipient(
                    #[trigger] self.clients[i].view,
                    world,
                    *dimension,
                    position.spec_chunk(),
                )),
    {
        let chunk = position.chunk();
        let mut r: Vec<usize> = Vec::new();
        for i in 0..self.clients.len()
            invariant
                chunk == position.spec_chunk(),
                self.wf(),
                forall|j: int, k: int|
                    0 <= j < k < r@.len() ==> #[trigger] r@[j] < #[trigger] r@[k],
                forall|j: int| 0 <= j < r@.len() ==> #[trigger] r@[j] < i,
                forall|l: int|
                    0 <= l < i ==> (r@.contains(l as usize) <==> is_recipient(
                        #[trigger] self.clients[l].view,
                        world,
                        *dimension,
                        chunk,
                    )),
        {
            let ghost prev = r@;
            let view = self.clients[i].view;
            if view.world() == world && *view.dimension() == *dimension && view.contains(chunk) {
                r.push(i);
                proof {
                    assert(r@[r@.len() - 1] == i);
                }
            }
            proof {
                assert forall|l: int| 0 <= l < i + 1 implies (r@.contains(l as usize) <==> is_recipient(
                    #[trigger] self.clients[l].view,
                    world,
                    *dimension,
                    chunk,
                )) by {
                    if r@.contains(l as usize) {
                        let j = choose|j: int| 0 <= j < r@.len() && r@[j] == l as usize;
                        if j < prev.len() {
                            assert(prev[j] == l as usize);
                            assert(prev.contains(l as usize));
                        }
                    }
                    if l < i && prev.contains(l as usize) {
                        let j = choose|j: int| 0 <= j < prev.len() && prev[j] == l as usize;
                        assert(r@[j] == l as usize);
                    }
                }
            }
        }
        r
    }

    /// Hands each player whose view holds the chunk of `position` in the
    /// given world and dimension to `handler`, once, and queues the packet
    /// it makes for that player; other players are left as they are.
    pub fn broadcast_nearby_with_mut<F: Fn(&Client) -> Packet>(
        &mut self,
        world: EntityWorld,
        dimension: &EntityDimension,
        position: Position,
        handler: F,
    )
        requires
            old(self).wf(),
            forall|c: &Client| #[trigger] handler.requires((c,)),
        ensures
            final(self).wf(),
            final(self).clients.len() == old(self).clients.len(),
            forall|i: int|
                #![trigger final(self).clients[i]]
                0 <= i < old(self).clients.len() ==> {
                    let c = old(self).clients[i];
                    let q = final(self).clients[i];
                    &&& q.view == c.view
                    &&& if is_recipient(c.view, world, *dimension, position.spec_chunk()) {
                        &&& q.packets@.len() == c.packets@.len() + 1
                        &&& q.packets@.drop_last() == c.packets@
                        &&& handler.ensures((&c,), q.packets@.last())
                    } else {
                        q.packets@ == c.packets@
                    }
                },
    {
        let ghost s0 = *self;
        let chunk = position.chunk();
        let n = self.clients.len();
        for i in 0..n
            invariant
                n == s0.clients.len(),
                self.clients.len() == s0.clients.len(),
                chunk == position.spec_chunk(),
                s0.wf(),
                forall|c: &Client| #[trigger] handler.requires((c,)),
                forall|l: int| i <= l < n ==> #[trigger] self.clients[l] == s0.clients[l],
                forall|l: int|
                    #![trigger self.clients[l]]
                    0 <= l < s0.clients.len() ==> {
                        let c = s0.clients[l];
                        let q = self.clients[l];
                        &&& q.view == c.view
                        &&& if l < i && is_recipient(c.view, world, *dimension, chunk) {
                            &&& q.packets@.len() == c.packets@.len() + 1
                            &&& q.packets@.drop_last() == c.packets@
                            &&& handler.ensures((&c,), q.packets@.last())
                        } else {
                            q.packets@ == c.packets@
                        }
                    },
        {
            let view = self.clients[i].view;
            if view.world() == world && *view.dimension() == *dimension && view.contains(chunk) {
                let packet = handler(&self.clients[i]);
                let c: &mut Client = &mut self.clients[i];
                c.packets.push(packet);
                proof {
                    let c0 = s0.clients[i as int];
                    assert(self.clients[i as int].packets@.drop_last() =~= c0.packets@);
                }
            }
        }
    }

    /// Queues `packet`, once, for every player whose view holds the chunk of
    /// `position` in the given world and dimension, and for no other.
    pub fn broadcast_nearby_with(
        &mut self,
        world: EntityWorld,
        dimension: &EntityDimension,
        position: Position,
        packet: Packet,
    )
        requires
            old(self).wf(),
        ensures
            final(self).wf(),
            final(self).clients.len() == old(self).clients.len(),
            forall|i: int|
                #![trigger final(self).clients[i]]
                0 <= i < old(self).clients.len() ==> {
                    let c = old(self).clients[i];
                    &&& final(self).clients[i].view == c.view
                    &&& final(self).clients[i].packets@ == if is_recipient(
                        c.view,
                        world,
                        *dimension,
                        position.spec_chunk(),
                    ) {
                        c.packets@.push(packet)
                    } else {
                        c.packets@
                    }
                },
    {
        let ghost s0 = *self;
        let chunk = position.chunk();
        let n = self.clients.len();
        for i in 0..n
            invariant
                n == s0.clients.len(),
                self.clients.len() == s0.clients.len(),
                chunk == position.spec_chunk(),
                s0.wf(),
                forall|l: int|
                    #![trigger self.clients[l]]
                    0 <= l < s0.clients.len() ==> {
                        let c = s0.clients[l];
                        &&& self.clients[l].view == c.view
                        &&& self.clients[l].packets@ == if l < i && is_recipient(
                            c.view,
                            world,
                            *dimension,
                            chunk,
                        ) {
                            c.packets@.push(packet)
                        } else {
                            c.packets@
                        }
                    },
        {
            let view = self.clients[i].view;
            if view.world() == world && *view.dimension() == *dimension && view.contains(chunk) {
                let c: &mut Client = &mut self.clients[i];
                c.packets.push(packet);
            }
        }
    }
}

/// The attribute a propagation system watches.
#[derive(Clone, Copy, Debug, PartialEq, Eq, Structural)]
pub enum Attribute {
    Movement,
    Sneaking,
    Sprinting,
}

/// The packet that reports a change of the watched attribute, if it changed.
pub open spec fn change_packet(kind: Attribute, e: TrackedEntity) -> Option<Packet> {
    match kind {
        Attribute::Movement => if e.position != e.prev_position {
            Some(
                Packet::EntityMovement {
                    network_id: e.network_id,
                    dx: (e.position.x - e.prev_position.x) as i64,
                    dy: (e.position.y - e.prev_position.y) as i64,
                    dz: (e.position.z - e.prev_position.z) as i64,
                    on_ground: e.on_ground,
                },
            )
        } else {
            None
        },
        Attribute::Sneaking => if e.sneaking != e.prev_sneaking {
            Some(
                Packet::EntityMetadata {
                    network_id: e.network_id,
                    bit_mask: (if e.sneaking {
                        CROUCHED
                    } else {
                        0u8
                    }) | (if e.sprinting {
                        SPRINTING
                    } else {
                        0u8
                    }),
                    pose: Some(
                        if e.sneaking {
                            Pose::Sneaking
                        } else {
                            Pose::Standing
                        },
                    ),
                },
            )
        } else {
            None
        },
        Attribute::Sprinting => if e.sprinting != e.prev_sprinting {
            Some(
                Packet::EntityMetadata {
                    network_id: e.network_id,
                    bit_mask: if e.sprinting {
                        SPRINTING
                    } else {
                        0u8
                    },
                    pose: None,
                },
            )
        } else {
            None
        },
    }
}

/// The entity once the value last sent is brought up to date.
pub open spec fn after_tick(kind: Attribute, e: TrackedEntity) -> TrackedEntity {
    match kind {
        Attribute::Movement => TrackedEntity {
            prev_position: e.position,
            prev_on_ground: e.on_ground,
            ..e
        },
        Attribute::Sneaking => TrackedEntity { prev_sneaking: e.sneaking, ..e },
        Attribute::Sprinting => TrackedEntity { prev_sprinting: e.sprinting, ..e },
    }
}

/// The packets that a player with `view` receives when the changes of
/// `es` are sent, in order.
pub open spec fn packets_for(kind: Attribute, view: View, es: Seq<TrackedEntity>) -> Seq<Packet>
    decreases es.len(),
{
    if es.len() == 0 {
        Seq::empty()
    } else {
        let before = packets_for(kind, view, es.drop_last());
        let e = es.last();
        match change_packet(kind, e) {
            Some(p) => if is_recipient(view, e.world, e.dimension, e.position.spec_chunk()) {
                before.push(p)
            } else {
                before
            },
            None => before,
        }
    }
}

fn compute_change(kind: Attribute, e: &TrackedEntity) -> (r: Option<Packet>)
    ensures
        r == change_packet(kind, *e),
{
    match kind {
        Attribute::Movement => if e.position != e.prev_position {
            Some(
                Packet::EntityMovement {
                    network_id: e.network_id,
                    dx: e.position.x as i64 - e.prev_position.x as i64,
                    dy: e.position.y as i64 - e.prev_position.y as i64,
                    dz: e.position.z as i64 - e.prev_position.z as i64,
                    on_ground: e.on_ground,
                },
            )
        } else {
            None
        },
        Attribute::Sneaking => if e.sneaking != e.prev_sneaking {
            // An entity can sneak and sprint at once; both flags are sent.
            let crouched: u8 = if e.sneaking {
                CROUCHED
            } else {
                0
            };
            let sprinting: u8 = if e.sprinting {
                SPRINTING
            } else {
                0
            };
            let bit_mask: u8 = crouched | sprinting;
            let pose = if e.sneaking {
                Pose::Sneaking
            } else {
                Pose::Standing
            };
            Some(Packet::EntityMetadata { network_id: e.network_id, bit_mask, pose: Some(pose) })
        } else {
            None
        },
        Attribute::Sprinting => if e.sprinting != e.prev_sprinting {
            let bit_mask: u8 = if e.sprinting {
                SPRINTING
            } else {
                0
            };
            Some(Packet::EntityMetadata { network_id: e.network_id, bit_mask, pose: None })
        } else {
            None
        },
    }
}

/// One pass over the tracked entities: each change of the watched attribute
/// is sent to the players that see the entity, and the value last sent is
/// brought up to date whether or not anything was sent.
fn propagate(kind: Attribute, game: &mut Game, server: &mut Server)
    requires
        old(server).wf(),
    ensures
        final(server).wf(),
        final(game).players == old(game).players,
        final(game).entities@ == old(game).entities@.map_values(|e| after_tick(kind, e)),
        final(server).clients.len() == old(server).clients.len(),
        forall|i: int|
            #![trigger final(server).clients[i]]
            0 <= i < old(server).clients.len() ==> {
                let c = old(server).clients[i];
                &&& final(server).clients[i].view == c.view
                &&& final(server).clients[i].packets@ == c.packets@ + packets_for(
                    kind,
                    c.view,
                    old(game).entities@,
                )
            },
{
    let ghost g0 = *game;
    let ghost s0 = *server;
    let n = game.entities.len();
    for k in 0..n
        invariant
            n == g0.entities.len(),
            game.entities.len() == n,
            game.players == g0.players,
            server.wf(),
            server.clients.len() == s0.clients.len(),
            forall|j: int|
                0 <= j < n ==> #[trigger] game.entities@[j] == if j < k {
                    after_tick(kind, g0.entities@[j])
                } else {
                    g0.entities@[j]
                },
            forall|i: int|
                #![trigger server.clients[i]]
                0 <= i < s0.clients.len() ==> {
                    let c = s0.clients[i];
                    &&& server.clients[i].view == c.view
                    &&& server.clients[i].packets@ == c.packets@ + packets_for(
                        kind,
                        c.view,
                        g0.entities@.take(k as int),
                    )
                },
    {
        let e = game.entities[k];
        let ghost sb = *server;
        proof {
            assert(g0.entities@.take(k + 1).drop_last() =~= g0.entities@.take(k as int));
            assert(g0.entities@.take(k + 1).last() == e);
        }
        match compute_change(kind, &e) {
            Some(packet) => {
                server.broadcast_nearby_with(e.world, &e.dimension, e.position, packet);
                proof {
                    assert forall|i: int| 0 <= i < s0.clients.len() implies server.clients[i].packets@
                        == s0.clients[i].packets@ + packets_for(
                        kind,
                        s0.clients[i].view,
                        g0.entities@.take(k + 1),
                    ) by {
                        let c = s0.clients[i];
                        let before = packets_for(kind, c.view, g0.entities@.take(k as int));
                        assert(sb.clients[i].packets@ == c.packets@ + before);
                        if is_recipient(c.view, e.world, e.dimension, e.position.spec_chunk()) {
                            assert(c.packets@ + before.push(packet) =~= (c.packets@ + before).push(packet));
                        }
                    }
                }
            },
            None => {},
        }
        let updated = match kind {
            Attribute::Movement => TrackedEntity {
                prev_position: e.position,
                prev_on_ground: e.on_ground,
                ..e
            },
            Attribute::Sneaking => TrackedEntity { prev_sneaking: e.sneaking, ..e },
            Attribute::Sprinting => TrackedEntity { prev_sprinting: e.sprinting, ..e },
        };
        game.entities.set(k, updated);
    }
    proof {
        assert(g0.entities@.take(n as int) =~= g0.entities@);
        assert(game.entities@ =~= g0.entities@.map_values(|e| after_tick(kind, e)));
    }
}

/// Sends the movement of every entity that moved since the last tick to the
/// players that see it, then records the position and on-ground flag as sent.
pub fn send_entity_movement(game: &mut Game, server: &mut Server)
    requires
        old(server).wf(),
    ensures
        final(server).wf(),
        final(game).players == old(game).players,
        final(game).entities@ == old(game).entities@.map_values(
            |e| after_tick(Attribute::Movement, e),
        ),
        final(server).clients.len() == old(server).clients.len(),
        forall|i: int|
            #![trigger final(server).clients[i]]
            0 <= i < old(server).clients.len() ==> {
                let c = old(server).clients[i];
                &&& final(server).clients[i].view == c.view
                &&& final(server).clients[i].packets@ == c.packets@ + packets_for(
                    Attribute::Movement,
                    c.view,
                    old(game).entities@,
                )
            },
{
    propagate(Attribute::Movement, game, server)
}

/// Sends a metadata patch for every entity whose sneaking flag changed since
/// the last tick: the crouching and sprinting bits and the matching pose.
pub fn send_entity_sneak_metadata(game: &mut Game, server: &mut Server)
    requires
        old(server).wf(),
    ensures
        final(server).wf(),
        final(game).players == old(game).players,
        final(game).entities@ == old(game).entities@.map_values(
            |e| after_tick(Attribute::Sneaking, e),
        ),
        final(server).clients.len() == old(server).clients.len(),
        forall|i: int|
            #![trigger final(server).clients[i]]
            0 <= i < old(server).clients.len() ==> {
                let c = old(server).clients[i];
                &&& final(server).clients[i].view == c.view
                &&& final(server).clients[i].packets@ == c.packets@ + packets_for(
                    Attribute::Sneaking,
                    c.view,
                    old(game).entities@,
                )
            },
{
    propagate(Attribute::Sneaking, game, server)
}

/// Sends a metadata patch for every entity whose sprinting flag changed since
/// the last tick: the sprinting bit alone.
pub fn send_entity_sprint_metadata(game: &mut Game, server: &mut Server)
    requires
        old(server).wf(),
    ensures
        final(server).wf(),
        final(game).players == old(game).players,
        final(game).entities@ == old(game).entities@.map_values(
            |e| after_tick(Attribute::Sprinting, e),
        ),
        final(server).clients.len() == old(server).clients.len(),
        forall|i: int|
            #![trigger final(server).clients[i]]
            0 <= i < old(server).clients.len() ==> {
                let c = old(server).clients[i];
                &&& final(server).clients[i].view == c.view
                &&& final(server).clients[i].packets@ == c.packets@ + packets_for(
                    Attribute::Sprinting,
                    c.view,
                    old(game).entities@,
                )
            },
{
    propagate(Attribute::Sprinting, game, server)
}

/// Registers the systems that send entity state to nearby players: movement,
/// then sneaking, then sprinting. The game itself is left as it is.
pub fn register(_game: &mut Game, systems: &mut SystemExecutor)
    ensures
        *final(_game) == *old(_game),
        final(systems).spec_systems() == old(systems).spec_systems().push(
            SystemId::SendEntityMovement,
        ).push(SystemId::SendEntitySneakMetadata).push(SystemId::SendEntitySprintMetadata),
{
    systems.add_system(SystemId::SendEntityMovement);
    systems.add_system(SystemId::SendEntitySneakMetadata);
    systems.add_system(SystemId::SendEntitySprintMetadata);
}

} // verus!
