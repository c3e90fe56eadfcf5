use vstd::prelude::*;
use crate::map::idx_of;
use crate::world::{EntityData, LogEntry, Position, Viewshed, WantsToPickupItem, World};

verus! {

/// The turn scheduler's states.
#[derive(Clone, Copy, Debug, PartialEq, Eq, Structural)]
pub enum RunState {
    AwaitingInput,
    PreRun,
    PlayerTurn,
    MonsterTurn,
    ShowInventory,
    ShowDropItem,
    SaveGame,
    GameOver,
}

/// The abstract commands that input is mapped to.
#[derive(Clone, Copy, Debug, PartialEq, Eq, Structural)]
pub enum Command {
    Move { dx: i32, dy: i32 },
    PickUp,
    OpenInventory,
    OpenDropMenu,
    /// Chooses an entity from the open menu.
    Select { item: usize },
    Cancel,
    Quit,
}

/// The first entity of `l` that has combat stats.
pub open spec fn first_fighter(ents: Seq<EntityData>, l: Seq<usize>) -> Option<usize>
    decreases l.len(),
{
    if l.len() == 0 {
        None
    } else if l[0] < ents.len() && ents[l[0] as int].stats.is_some() {
        Some(l[0])
    } else {
        first_fighter(ents, l.drop_first())
    }
}

/// The player's entities and position after trying to step by `(dx, dy)`: an attack on the
/// first fighter on the destination, else a move there unless it is blocked. A destination
/// off the map's inner area, or a player without a position or viewshed, changes nothing.
pub open spec fn move_result(w: World, dx: int, dy: int) -> (Seq<EntityData>, Position) {
    let p = w.player as int;
    let ent = w.entities@[p];
    let unchanged = (w.entities@, w.player_pos);
    match (ent.position, ent.viewshed) {
        (Some(pos), Some(vs)) => {
            let nx = pos.x + dx;
            let ny = pos.y + dy;
            if nx < 1 || nx > w.map.width - 1 || ny < 1 || ny > w.map.height - 1 {
                unchanged
            } else {
                let idx = idx_of(w.map.width as int, nx, ny);
                match first_fighter(w.entities@, w.map.tile_content@[idx]@) {
                    Some(t) => (
                        w.entities@.update(p, EntityData { wants_to_melee: Some(t), ..ent }),
                        w.player_pos,
                    ),
                    None => if w.map.blocked@[idx] {
                        unchanged
                    } else {
                        let dest = Position { x: nx as i32, y: ny as i32 };
                        (
                            w.entities@.update(
                                p,
                                EntityData {
                                    position: Some(dest),
                                    viewshed: Some(Viewshed { dirty: true, ..vs }),
                                    ..ent
                                },
                            ),
                            dest,
                        )
                    },
                }
            }
        },
        _ => unchanged,
    }
}

/// The last living item, in creation order below `n`, that lies at `pos`.
pub open spec fn item_at(ents: Seq<EntityData>, pos: Position, n: int) -> Option<usize>
    decreases n,
{
    if n <= 0 {
        None
    } else if ents[n - 1].alive && ents[n - 1].item && ents[n - 1].position == Some(pos) {
        Some((n - 1) as usize)
    } else {
        item_at(ents, pos, n - 1)
    }
}

/// The entities and log after the player asks to pick up what lies at their feet.
pub open spec fn pickup_request(w: World) -> (Seq<EntityData>, Seq<LogEntry>) {
    match item_at(w.entities@, w.player_pos, w.entities@.len() as int) {
        None => (w.entities@, w.log@.push(LogEntry::NothingToPickUp)),
        Some(item) => (
            w.entities@.update(
                w.player as int,
                EntityData {
                    wants_to_pickup: Some(WantsToPickupItem { collected_by: w.player, item }),
                    ..w.entities@[w.player as int]
                },
            ),
            w.log@,
        ),
    }
}

/// The world is the same but for the entity records and the player's position.
pub open spec fn same_but_player_move(a: World, b: World) -> bool {
    &&& a.entities@.len() == b.entities@.len()
    &&& a.visible_sets@ == b.visible_sets@
    &&& a.names@ == b.names@
    &&& a.map == b.map
    &&& a.player == b.player
    &&& a.log@ == b.log@
}

fn first_fighter_in(ents: &Vec<EntityData>, l: &Vec<usize>) -> (r: Option<usize>)
    ensures
        r == first_fighter(ents@, l@),
{
    let mut k: usize = 0;
    proof {
        assert(l@.subrange(0, l@.len() as int) =~= l@);
    }
    while k < l.len()
        invariant
            k <= l@.len(),
            first_fighter(ents@, l@) == first_fighter(ents@, l@.subrange(k as int, l@.len() as int)),
        decreases l@.len() - k,
    {
        let e = l[k];
        proof {
            assert(l@.subrange(k as int, l@.len() as int).drop_first() =~= l@.subrange(
                k + 1,
                l@.len() as int,
            ));
        }
        if e < ents.len() && ents[e].stats.is_some() {
            return Some(e);
        }
        k += 1;
    }
    proof {
        assert(l@.subrange(k as int, l@.len() as int).len() == 0);
    }
    None
}

/// Steps the player by `(delta_x, delta_y)`, or attacks what stands in the way.
pub fn try_move_player(delta_x: i32, delta_y: i32, ecs: &mut World)
    requires
        old(ecs).wf(),
        old(ecs).entities@[old(ecs).player as int].wants_to_melee is None,
        -1 <= delta_x <= 1,
        -1 <= delta_y <= 1,
    ensures
        final(ecs).wf(),
        same_but_player_move(*old(ecs), *final(ecs)),
        (final(ecs).entities@, final(ecs).player_pos) == move_result(
            *old(ecs),
            delta_x as int,
            delta_y as int,
        ),
{
    let p = ecs.player;
    let ent = ecs.entities[p];
    if let (Some(pos), Some(vs)) = (ent.position, ent.viewshed) {
        let nx = pos.x as i64 + delta_x as i64;
        let ny = pos.y as i64 + delta_y as i64;
        if nx < 1 || nx > ecs.map.width as i64 - 1 || ny < 1 || ny > ecs.map.height as i64 - 1 {
            return ;
        }
        let destination_idx = ecs.map.xy_idx(nx as i32, ny as i32);
        let target = first_fighter_in(&ecs.entities, &ecs.map.tile_content[destination_idx]);
        match target {
            Some(t) => {
                ecs.entities.set(p, EntityData { wants_to_melee: Some(t), ..ent });
            },
            None => {
                if !ecs.map.blocked[destination_idx] {
                    let dest = Position { x: nx as i32, y: ny as i32 };
                    ecs.entities.set(
                        p,
                        EntityData {
                            position: Some(dest),
                            viewshed: Some(Viewshed { dirty: true, ..vs }),
                            ..ent
                        },
                    );
                    ecs.player_pos = dest;
                }
            },
        }
    }
}

/// Marks the last item lying at the player's position for pickup, or logs that there is none.
pub fn get_item(ecs: &mut World)
    requires
        old(ecs).wf(),
        old(ecs).entities@[old(ecs).player as int].wants_to_pickup is None,
    ensures
        final(ecs).wf(),
        final(ecs).same_but_entities(*old(ecs)),
        (final(ecs).entities@, final(ecs).log@) == pickup_request(*old(ecs)),
{
    let pos = ecs.player_pos;
    let mut target_item: Option<usize> = None;
    let mut i: usize = 0;
    while i < ecs.entities.len()
        invariant
            i <= ecs.entities@.len(),
            target_item == item_at(ecs.entities@, pos, i as int),
        decreases ecs.entities@.len() - i,
    {
        let e = ecs.entities[i];
        if e.alive && e.item && e.position == Some(pos) {
            target_item = Some(i);
        }
        i += 1;
    }
    match target_item {
        None => ecs.log.push(LogEntry::NothingToPickUp),
        Some(item) => {
            let p = ecs.player;
            let pe = ecs.entities[p];
            ecs.entities.set(
                p,
                EntityData {
                    wants_to_pickup: Some(WantsToPickupItem { collected_by: p, item }),
                    ..pe
                },
            );
        },
    }
}

} // verus!
