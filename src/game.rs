use crate::systems::{SystemExecutor, SystemId};
use crate::view::{box_fits, ChunkPosition, EntityDimension, EntityWorld, View};
use vstd::prelude::*;
use vstd::view::View as ModelOf;

verus! {

/// Number of position units in one chunk: a position counts in 1/32 of a
/// block and a chunk is 16 blocks wide.
pub const UNITS_PER_CHUNK: i32 = 512;

/// A position in the world, in fixed-point units of 1/32 of a block.
#[derive(Clone, Copy, Debug, PartialEq, Eq, Structural)]
pub struct Position {
    pub x: i32,
    pub y: i32,
    pub z: i32,
}

/// The chunk coordinate of a position coordinate: floor division by the
/// chunk size.
pub open spec fn chunk_coord_spec(v: i32) -> i32 {
    (v as int / UNITS_PER_CHUNK as int) as i32
}

fn chunk_coord(v: i32) -> (r: i32)
    ensures
        r == chunk_coord_spec(v),
        r as int == v as int / 512,
{
    if v >= 0 {
        ((v as u32) / 512) as i32
    } else {
        let n: u32 = (-(v + 1)) as u32;
        let q: u32 = n / 512;
        proof {
            let m = n as int;
            vstd::arithmetic::div_mod::lemma_fundamental_div_mod(m, 512);
            vstd::arithmetic::div_mod::lemma_mod_bound(m, 512);
            vstd::arithmetic::div_mod::lemma_fundamental_div_mod_converse(
                v as int,
                512,
                -(q as int) - 1,
                511 - m % 512,
            );
        }
        -(q as i32) - 1
    }
}

impl Position {
    pub open spec fn spec_chunk(self) -> ChunkPosition {
        ChunkPosition { x: chunk_coord_spec(self.x), z: chunk_coord_spec(self.z) }
    }

    /// The chunk that holds this position.
    pub fn chunk(&self) -> (r: ChunkPosition)
        ensures
            r == self.spec_chunk(),
    {
        ChunkPosition { x: chunk_coord(self.x), z: chunk_coord(self.z) }
    }
}

/// Emitted when the view of a player changes.
#[derive(Clone, Copy, Debug, PartialEq, Eq, Structural)]
pub struct ViewUpdateEvent {
    pub old_view: View,
    pub new_view: View,
}

impl ViewUpdateEvent {
    pub fn new(old_view: &View, new_view: &View) -> (r: ViewUpdateEvent)
        ensures
            r.old_view == *old_view,
            r.new_view == *new_view,
    {
        ViewUpdateEvent { old_view: *old_view, new_view: *new_view }
    }
}

/// The entity an operation was aimed at no longer exists.
#[derive(Clone, Copy, Debug, PartialEq, Eq, Structural)]
pub struct EntityDead;

/// Outcome of one run of a system.
pub type SysResult = Result<(), EntityDead>;

/// The components of a player entity that view management reads and writes.
pub struct Player {
    pub entity: u64,
    pub position: Position,
    pub world: EntityWorld,
    pub dimension: EntityDimension,
    pub view: View,
    /// The player joined during this tick.
    pub joined: bool,
    /// View changes attached to this player during this tick.
    pub view_events: Vec<ViewUpdateEvent>,
}

/// The parts of the game state that this crate's systems work on.
pub struct Game {
    pub players: Vec<Player>,
    /// Entities whose movement and posture are sent to nearby players.
    pub entities: Vec<crate::entity::TrackedEntity>,
}

/// Two players that agree on everything but their attached events.
pub open spec fn same_but_events(p: Player, q: Player) -> bool {
    &&& p.entity == q.entity
    &&& p.position == q.position
    &&& p.world == q.world
    &&& p.dimension == q.dimension
    &&& p.view == q.view
    &&& p.joined == q.joined
}

/// The player has left the chunk its view is centered on.
pub open spec fn moved(p: Player) -> bool {
    p.position.spec_chunk() != p.view.spec_center()
}

impl Game {
    /// Entity handles are unique and every view is well formed.
    pub open spec fn wf(self) -> bool {
        &&& forall|i: int, j: int|
            0 <= i < self.players.len() && 0 <= j < self.players.len() && i != j
                ==> #[trigger] self.players[i].entity != #[trigger] self.players[j].entity
        &&& forall|i: int| 0 <= i < self.players.len() ==> (#[trigger] self.players[i]).view.wf()
    }

    /// A view of each player's distance fits around the chunk it stands in.
    pub open spec fn views_fit(self) -> bool {
        forall|i: int|
            0 <= i < self.players.len() ==> box_fits(
                (#[trigger] self.players[i]).position.spec_chunk(),
                self.players[i].view.spec_view_distance(),
            )
    }

    pub open spec fn has_entity(self, entity: u64) -> bool {
        exists|i: int| 0 <= i < self.players.len() && #[trigger] self.players[i].entity == entity
    }

    /// Attaches `event` to the player `entity`; fails when no such player
    /// exists, and then changes nothing.
    pub fn insert_entity_event(&mut self, entity: u64, event: ViewUpdateEvent) -> (r: SysResult)
        requires
            old(self).wf(),
        ensures
            final(self).wf(),
            r is Ok <==> old(self).has_entity(entity),
            final(self).players.len() == old(self).players.len(),
            final(self).entities == old(self).entities,
            forall|i: int|
                0 <= i < old(self).players.len() ==> same_but_events(
                    #[trigger] final(self).players[i],
                    old(self).players[i],
                ),
            forall|i: int|
                0 <= i < old(self).players.len() ==> (#[trigger] final(self).players[i]).view_events@
                    == if old(self).players[i].entity == entity {
                    old(self).players[i].view_events@.push(event)
                } else {
                    old(self).players[i].view_events@
                },
    {
        let mut i: usize = 0;
        while i < self.players.len()
            invariant
                0 <= i <= self.players.len(),
                *self == *old(self),
                self.wf(),
                forall|j: int| 0 <= j < i ==> #[trigger] self.players[j].entity != entity,
            decreases self.players.len() - i,
        {
            if self.players[i].entity == entity {
                let ghost g0 = *self;
                let p: &mut Player = &mut self.players[i];
                p.view_events.push(event);
                proof {
                    assert forall|j: int| 0 <= j < g0.players.len() && j != i implies #[trigger]
                        g0.players[j].entity != entity by {
                        assert(g0.players[i as int].entity != g0.players[j].entity);
                    }
                }
                return Ok(());
            }
            i = i + 1;
        }
        Err(EntityDead)
    }
}

/// Attaches each buffered event to its player, in order; stops at the first
/// player that no longer exists.
fn emit_events(
    game: &mut Game,
    pending: &Vec<(u64, ViewUpdateEvent)>,
    Ghost(owners): Ghost<Seq<int>>,
) -> (r: SysResult)
    requires
        old(game).wf(),
        owners.len() == pending@.len(),
        forall|j: int|
            0 <= j < owners.len() ==> 0 <= #[trigger] owners[j] < old(game).players.len()
                && old(game).players[owners[j]].entity == pending@[j].0,
        forall|j: int, k: int| 0 <= j < k < owners.len() ==> #[trigger] owners[j] < #[trigger] owners[k],
    ensures
        r is Ok,
        final(game).wf(),
        final(game).players.len() == old(game).players.len(),
        final(game).entities == old(game).entities,
        forall|i: int|
            0 <= i < old(game).players.len() ==> same_but_events(
                #[trigger] final(game).players[i],
                old(game).players[i],
            ),
        forall|j: int|
            0 <= j < owners.len() ==> (#[trigger] final(game).players[owners[j]]).view_events@
                == old(game).players[owners[j]].view_events@.push(pending@[j].1),
        forall|i: int|
            0 <= i < old(game).players.len() && (forall|j: int|
                0 <= j < owners.len() ==> owners[j] != i) ==> (#[trigger] final(game).players[i]).view_events@ == old(game).players[i].view_events@,
{
    let ghost g0 = *game;
    for k in 0..pending.len()
        invariant
            game.wf(),
            game.players.len() == g0.players.len(),
            game.entities == g0.entities,
            g0.wf(),
            owners.len() == pending@.len(),
            forall|j: int|
                0 <= j < owners.len() ==> 0 <= #[trigger] owners[j] < g0.players.len()
                    && g0.players[owners[j]].entity == pending@[j].0,
            forall|j: int, l: int|
                0 <= j < l < owners.len() ==> #[trigger] owners[j] < #[trigger] owners[l],
            forall|i: int|
                0 <= i < g0.players.len() ==> same_but_events(
                    #[trigger] game.players[i],
                    g0.players[i],
                ),
            forall|j: int|
                0 <= j < k ==> (#[trigger] game.players[owners[j]]).view_events@
                    == g0.players[owners[j]].view_events@.push(pending@[j].1),
            forall|i: int|
                0 <= i < g0.players.len() && (forall|j: int| 0 <= j < k ==> owners[j] != i)
                    ==> (#[trigger] game.players[i]).view_events@ == g0.players[i].view_events@,
    {
        let (entity, event) = pending[k];
        let ghost before = *game;
        let ghost o = owners[k as int];
        assert(before.players[o].entity == entity);
        match game.insert_entity_event(entity, event) {
            Ok(()) => {},
            Err(e) => {
                return Err(e);
            },
        }
        proof {
            assert forall|i: int| 0 <= i < g0.players.len() && i != o implies
                #[trigger] game.players[i].view_events@ == before.players[i].view_events@ by {
                assert(before.players[i].entity != before.players[o].entity);
            }
            assert forall|i: int|
                0 <= i < g0.players.len() && (forall|j: int| 0 <= j < k + 1 ==> owners[j] != i)
                    implies (#[trigger] game.players[i]).view_events@ == g0.players[i].view_events@ by {
                assert(owners[k as int] != i);
            }
            assert forall|j: int| 0 <= j < k + 1 implies (#[trigger] game.players[owners[j]]).view_events@
                == g0.players[owners[j]].view_events@.push(pending@[j].1) by {
                if j < k {
                    assert(owners[j] < owners[k as int]);
                }
            }
        }
    }
    Ok(())
}

/// Re-centers the view of every player that changed chunks, then attaches
/// to each of them a `ViewUpdateEvent` from the old view to the new one.
/// The views are all replaced before any event is attached.
pub fn update_player_views(game: &mut Game) -> (r: SysResult)
    requires
        old(game).wf(),
        old(game).views_fit(),
    ensures
        r is Ok,
        final(game).wf(),
        final(game).players.len() == old(game).players.len(),
        final(game).entities == old(game).entities,
        forall|i: int|
            #![trigger final(game).players[i]]
            0 <= i < old(game).players.len() ==> {
                let p = old(game).players[i];
                let q = final(game).players[i];
                &&& q.entity == p.entity
                &&& q.position == p.position
                &&& q.world == p.world
                &&& q.dimension == p.dimension
                &&& q.joined == p.joined
                &&& if moved(p) {
                    &&& q.view.spec_center() == p.position.spec_chunk()
                    &&& q.view.spec_view_distance() == p.view.spec_view_distance()
                    &&& q.view.spec_world() == p.view.spec_world()
                    &&& q.view.spec_dimension() == p.view.spec_dimension()
                    &&& q.view_events@ == p.view_events@.push(
                        ViewUpdateEvent { old_view: p.view, new_view: q.view },
                    )
                } else {
                    &&& q.view == p.view
                    &&& q.view_events@ == p.view_events@
                }
            },
{
    let ghost g0 = *game;
    let mut pending: Vec<(u64, ViewUpdateEvent)> = Vec::new();
    let ghost mut owners: Seq<int> = Seq::empty();
    let n = game.players.len();
    for i in 0..n
        invariant
            n == g0.players.len(),
            game.players.len() == n,
            game.entities == g0.entities,
            g0.wf(),
            g0.views_fit(),
            owners.len() == pending@.len(),
            forall|j: int| 0 <= j < owners.len() ==> 0 <= #[trigger] owners[j] < i,
            forall|j: int, l: int|
                0 <= j < l < owners.len() ==> #[trigger] owners[j] < #[trigger] owners[l],
            forall|j: int|
                #![trigger owners[j]]
                0 <= j < owners.len() ==> {
                    let p = g0.players[owners[j]];
                    &&& moved(p)
                    &&& pending@[j].0 == p.entity
                    &&& pending@[j].1 == ViewUpdateEvent {
                        old_view: p.view,
                        new_view: game.players[owners[j]].view,
                    }
                },
            forall|l: int|
                0 <= l < i && moved(#[trigger] g0.players[l]) ==> exists|j: int|
                    0 <= j < owners.len() && #[trigger] owners[j] == l,
            forall|l: int|
                #![trigger game.players[l]]
                0 <= l < n ==> {
                    let p = g0.players[l];
                    let q = game.players[l];
                    &&& q.entity == p.entity
                    &&& q.position == p.position
                    &&& q.world == p.world
                    &&& q.dimension == p.dimension
                    &&& q.joined == p.joined
                    &&& q.view_events@ == p.view_events@
                    &&& q.view.wf()
                    &&& if l < i && moved(p) {
                        &&& q.view.spec_center() == p.position.spec_chunk()
                        &&& q.view.spec_view_distance() == p.view.spec_view_distance()
                        &&& q.view.spec_world() == p.view.spec_world()
                        &&& q.view.spec_dimension() == p.view.spec_dimension()
                    } else {
                        q.view == p.view
                    }
                },
    {
        let chunk = game.players[i].position.chunk();
        if chunk != game.players[i].view.center() {
            let old_view = game.players[i].view;
            let new_view = View::new(
                chunk,
                old_view.view_distance(),
                old_view.world(),
                *old_view.dimension(),
            );
            let event = ViewUpdateEvent::new(&old_view, &new_view);
            pending.push((game.players[i].entity, event));
            proof {
                let prev = owners;
                owners = owners.push(i as int);
                assert forall|l: int| 0 <= l < i && moved(#[trigger] g0.players[l]) implies exists|j: int|
                    0 <= j < owners.len() && #[trigger] owners[j] == l by {
                    let j = choose|j: int| 0 <= j < prev.len() && #[trigger] prev[j] == l;
                    assert(owners[j] == l);
                }
            }
            let p: &mut Player = &mut game.players[i];
            p.view = new_view;
            proof {
                assert(owners[owners.len() - 1] == i);
            }
        }
    }
    proof {
        assert forall|a: int, b: int|
            0 <= a < game.players.len() && 0 <= b < game.players.len() && a != b implies
            #[trigger] game.players[a].entity != #[trigger] game.players[b].entity by {
            assert(g0.players[a].entity != g0.players[b].entity);
        }
    }
    let ghost g1 = *game;
    let r = emit_events(game, &pending, Ghost(owners));
    proof {
        assert forall|l: int| 0 <= l < n && moved(#[trigger] g0.players[l]) implies
            game.players[l].view_events@ == g1.players[l].view_events@.push(pending@[choose|j: int| 0 <= j < owners.len() && owners[j] == l].1) by {
            let j = choose|j: int| 0 <= j < owners.len() && owners[j] == l;
        }
        assert forall|l: int| 0 <= l < n && !moved(#[trigger] g0.players[l]) implies
            game.players[l].view_events@ == g1.players[l].view_events@ by {
            assert forall|j: int| 0 <= j < owners.len() implies owners[j] != l by {
                if owners[j] == l {
                    assert(moved(g0.players[owners[j]]));
                }
            }
        }
    }
    r
}

/// Attaches to every player that joined this tick a `ViewUpdateEvent` from
/// the empty view of its world and dimension to its current view, so that its
/// whole view gets loaded.
pub fn update_view_on_join(game: &mut Game) -> (r: SysResult)
    requires
        old(game).wf(),
    ensures
        r is Ok,
        final(game).wf(),
        final(game).players.len() == old(game).players.len(),
        final(game).entities == old(game).entities,
        forall|i: int|
            #![trigger final(game).players[i]]
            0 <= i < old(game).players.len() ==> {
                let p = old(game).players[i];
                let q = final(game).players[i];
                &&& same_but_events(q, p)
                &&& q.view_events@ == if p.joined {
                    p.view_events@.push(
                        ViewUpdateEvent {
                            old_view: View::spec_empty(p.world, p.dimension),
                            new_view: p.view,
                        },
                    )
                } else {
                    p.view_events@
                }
            },
{
    let ghost g0 = *game;
    let mut pending: Vec<(u64, ViewUpdateEvent)> = Vec::new();
    let ghost mut owners: Seq<int> = Seq::empty();
    let n = game.players.len();
    for i in 0..n
        invariant
            n == game.players.len(),
            *game == g0,
            owners.len() == pending@.len(),
            forall|j: int| 0 <= j < owners.len() ==> 0 <= #[trigger] owners[j] < i,
            forall|j: int, l: int|
                0 <= j < l < owners.len() ==> #[trigger] owners[j] < #[trigger] owners[l],
            forall|j: int|
                #![trigger owners[j]]
                0 <= j < owners.len() ==> {
                    let p = game.players[owners[j]];
                    &&& p.joined
                    &&& pending@[j].0 == p.entity
                    &&& pending@[j].1 == ViewUpdateEvent {
                        old_view: View::spec_empty(p.world, p.dimension),
                        new_view: p.view,
                    }
                },
            forall|l: int|
                0 <= l < i && (#[trigger] game.players[l]).joined ==> exists|j: int|
                    0 <= j < owners.len() && #[trigger] owners[j] == l,
    {
        if game.players[i].joined {
            let empty = View::empty(game.players[i].world, game.players[i].dimension);
            let event = ViewUpdateEvent::new(&empty, &game.players[i].view);
            pending.push((game.players[i].entity, event));
            proof {
                let prev = owners;
                owners = owners.push(i as int);
                assert(owners[owners.len() - 1] == i);
                assert forall|l: int| 0 <= l < i && (#[trigger] game.players[l]).joined implies exists|j: int|
                    0 <= j < owners.len() && #[trigger] owners[j] == l by {
                    let j = choose|j: int| 0 <= j < prev.len() && #[trigger] prev[j] == l;
                    assert(owners[j] == l);
                }
            }
        }
    }
    let ghost g1 = *game;
    let r = emit_events(game, &pending, Ghost(owners));
    proof {
        assert forall|l: int| 0 <= l < n && (#[trigger] g1.players[l]).joined implies
            game.players[l].view_events@ == g1.players[l].view_events@.push(pending@[choose|j: int| 0 <= j < owners.len() && owners[j] == l].1) by {
            let j = choose|j: int| 0 <= j < owners.len() && owners[j] == l;
        }
        assert forall|l: int| 0 <= l < n && !(#[trigger] g1.players[l]).joined implies
            game.players[l].view_events@ == g1.players[l].view_events@ by {
            assert forall|j: int| 0 <= j < owners.len() implies owners[j] != l by {
                if owners[j] == l {
                    assert(g1.players[owners[j]].joined);
                }
            }
        }
    }
    r
}

/// Registers the systems that keep the players' views up to date: the
/// detector, then the join initializer. The game itself is left as it is.
pub fn register(_game: &mut Game, systems: &mut SystemExecutor)
    ensures
        *final(_game) == *old(_game),
        final(systems).spec_systems() == old(systems).spec_systems().push(
            SystemId::UpdatePlayerViews,
        ).push(SystemId::UpdateViewOnJoin),
{
    systems.add_system(SystemId::UpdatePlayerViews);
    systems.add_system(SystemId::UpdateViewOnJoin);
}

} // verus!
