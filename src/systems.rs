use vstd::prelude::*;
use crate::map::{idx_of, GameMap};
use crate::visibility::{field_of_view, fov, lemma_fov_same_tiles, sgn};
use crate::world::{tile_of, tile_index_of, EntityData, Position, Viewshed, World};

verus! {

/// The entity's visible set is due for recomputation.
pub open spec fn needs_view(m: GameMap, ent: EntityData) -> bool {
    &&& ent.viewshed.is_some()
    &&& ent.viewshed.unwrap().dirty
    &&& tile_of(m, ent).is_some()
}

/// The visible set of an entity that stands on the map.
pub open spec fn view_of(m: GameMap, ent: EntityData) -> Seq<bool> {
    fov(m, ent.position.unwrap().x as int, ent.position.unwrap().y as int, ent.viewshed.unwrap().range as int)
}

pub open spec fn clean(ent: EntityData) -> EntityData {
    EntityData { viewshed: Some(Viewshed { dirty: false, ..ent.viewshed.unwrap() }), ..ent }
}

/// The state the monster AI reads and changes: entity records and blocked flags.
pub type AiState = (Seq<EntityData>, Seq<bool>);

/// Monster `e` sees the player standing at `ppos`.
pub open spec fn sees_player(m: GameMap, vis: Seq<Vec<bool>>, ppos: Position, e: int) -> bool {
    &&& m.in_bounds(ppos.x as int, ppos.y as int)
    &&& idx_of(m.width as int, ppos.x as int, ppos.y as int) < vis[e]@.len()
    &&& vis[e]@[idx_of(m.width as int, ppos.x as int, ppos.y as int)]
}

/// Monster `e` acts: next to a visible player it attacks, else it steps one cell toward a
/// visible player unless that cell is blocked. A monster that does not see the player waits.
pub open spec fn ai_one(
    s: AiState,
    m: GameMap,
    vis: Seq<Vec<bool>>,
    player: usize,
    ppos: Position,
    e: int,
) -> AiState {
    let ent = s.0[e];
    if ent.monster && ent.viewshed.is_some() && tile_of(m, ent).is_some() && sees_player(m, vis, ppos, e) {
        let pos = ent.position.unwrap();
        let dx = ppos.x - pos.x;
        let dy = ppos.y - pos.y;
        if -1 <= dx <= 1 && -1 <= dy <= 1 {
            (s.0.update(e, EntityData { wants_to_melee: Some(player), ..ent }), s.1)
        } else {
            let step = Position { x: (pos.x + sgn(dx)) as i32, y: (pos.y + sgn(dy)) as i32 };
            let from = idx_of(m.width as int, pos.x as int, pos.y as int);
            let to = idx_of(m.width as int, step.x as int, step.y as int);
            if s.1[to] {
                s
            } else {
                (
                    s.0.update(
                        e,
                        EntityData {
                            position: Some(step),
                            viewshed: Some(Viewshed { dirty: true, ..ent.viewshed.unwrap() }),
                            ..ent
                        },
                    ),
                    s.1.update(from, false).update(to, true),
                )
            }
        }
    } else {
        s
    }
}

/// The monsters numbered below `n` act in creation order.
pub open spec fn ai_all(
    s: AiState,
    m: GameMap,
    vis: Seq<Vec<bool>>,
    player: usize,
    ppos: Position,
    n: int,
) -> AiState
    decreases n,
{
    if n <= 0 {
        s
    } else {
        ai_one(ai_all(s, m, vis, player, ppos, n - 1), m, vis, player, ppos, n - 1)
    }
}

impl GameMap {
    /// Replaces the visible tiles by `mask` and adds them to the revealed tiles.
    fn show_tiles(&mut self, mask: &Vec<bool>)
        requires
            old(self).wf(),
            mask@.len() == old(self).n_tiles(),
        ensures
            final(self).wf(),
            final(self).visible_tiles@ == mask@,
            forall|i: int|
                0 <= i < final(self).n_tiles() ==> #[trigger] final(self).revealed_tiles@[i]
                    == (old(self).revealed_tiles@[i] || mask@[i]),
            final(self).tiles@ == old(self).tiles@,
            final(self).rooms@ == old(self).rooms@,
            final(self).width == old(self).width,
            final(self).height == old(self).height,
            final(self).blocked@ == old(self).blocked@,
            final(self).tile_content@ == old(self).tile_content@,
    {
        let n = mask.len();
        let mut visible: Vec<bool> = Vec::new();
        let mut i: usize = 0;
        while i < n
            invariant
                self.wf(),
                self.tiles@ == old(self).tiles@,
                self.rooms@ == old(self).rooms@,
                self.width == old(self).width,
                self.height == old(self).height,
                self.blocked@ == old(self).blocked@,
                self.tile_content@ == old(self).tile_content@,
                self.visible_tiles@ == old(self).visible_tiles@,
                n == mask@.len(),
                n == self.n_tiles(),
                i <= n,
                visible@ == mask@.subrange(0, i as int),
                forall|j: int|
                    0 <= j < n ==> #[trigger] self.revealed_tiles@[j] == if j < i {
                        old(self).revealed_tiles@[j] || mask@[j]
                    } else {
                        old(self).revealed_tiles@[j]
                    },
            decreases n - i,
        {
            let b = mask[i];
            visible.push(b);
            if b {
                self.revealed_tiles.set(i, true);
            }
            proof {
                assert(visible@ =~= mask@.subrange(0, i + 1));
            }
            i += 1;
        }
        proof {
            assert(visible@ =~= mask@);
        }
        self.visible_tiles = visible;
    }
}

/// The visibility system's effect: dirty sets recomputed, the player's shown and revealed.
pub open spec fn visibility_post(a: World, b: World) -> bool {
    &&& b.wf()
    &&& b.map.rooms@ == a.map.rooms@
    &&& b.names@ == a.names@
    &&& b.player == a.player
    &&& b.player_pos == a.player_pos
    &&& b.log@ == a.log@
    &&& b.map.tiles@ == a.map.tiles@
    &&& b.map.width == a.map.width
    &&& b.map.height == a.map.height
    &&& b.map.blocked@ == a.map.blocked@
    &&& b.map.tile_content@ == a.map.tile_content@
    &&& b.entities@.len() == a.entities@.len()
    &&& forall|e: int|
            #![trigger b.entities@[e]]
            0 <= e < b.entities@.len() ==> if needs_view(
                a.map,
                a.entities@[e],
            ) {
                b.entities@[e] == clean(a.entities@[e])
                    && b.visible_sets@[e]@ == view_of(a.map, a.entities@[e])
            } else {
                b.entities@[e] == a.entities@[e]
                    && b.visible_sets@[e] == a.visible_sets@[e]
            }
    &&& needs_view(a.map, a.entities@[a.player as int]) ==> {
            let v = view_of(a.map, a.entities@[a.player as int]);
            &&& b.map.visible_tiles@ == v
            &&& forall|i: int|
                0 <= i < b.map.n_tiles() ==> #[trigger] b.map.revealed_tiles@[i]
                    == (a.map.revealed_tiles@[i] || v[i])
        }
    &&& !needs_view(a.map, a.entities@[a.player as int])
            ==> b.map == a.map
}

/// The monster AI's effect: each monster acts in creation order.
pub open spec fn ai_post(a: World, b: World) -> bool {
    &&& b.wf()
    &&& b.names@ == a.names@
    &&& b.visible_sets@ == a.visible_sets@
    &&& b.player == a.player
    &&& b.player_pos == a.player_pos
    &&& b.log@ == a.log@
    &&& b.map.tiles@ == a.map.tiles@
    &&& b.map.rooms@ == a.map.rooms@
    &&& b.map.width == a.map.width
    &&& b.map.height == a.map.height
    &&& b.map.revealed_tiles@ == a.map.revealed_tiles@
    &&& b.map.visible_tiles@ == a.map.visible_tiles@
    &&& b.map.tile_content@ == a.map.tile_content@
    &&& (b.entities@, b.map.blocked@) == ai_all(
            (a.entities@, a.map.blocked@),
            a.map,
            a.visible_sets@,
            a.player,
            a.player_pos,
            a.entities@.len() as int,
        )
}

impl World {
    /// Recomputes every dirty visible set and clears its flag; the player's set also
    /// replaces the map's visible tiles and is added to the revealed tiles.
    pub fn visibility_system(&mut self)
        requires
            old(self).wf(),
        ensures
            visibility_post(*old(self), *final(self)),

    {
        let len = self.entities.len();
        let ghost m0 = self.map;
        let mut i: usize = 0;
        while i < len
            invariant
                self.wf(),
                self.names@ == old(self).names@,
                self.player == old(self).player,
                self.player_pos == old(self).player_pos,
                self.log@ == old(self).log@,
                m0 == old(self).map,
                self.map.tiles@ == m0.tiles@,
                self.map.width == m0.width,
                self.map.height == m0.height,
                self.map.blocked@ == m0.blocked@,
                self.map.tile_content@ == m0.tile_content@,
                self.map.rooms@ == m0.rooms@,
                len == self.entities@.len(),
                len == old(self).entities@.len(),
                i <= len,
                forall|e: int|
                    #![trigger self.entities@[e]]
                    0 <= e < len ==> if e < i && needs_view(m0, old(self).entities@[e]) {
                        self.entities@[e] == clean(old(self).entities@[e])
                            && self.visible_sets@[e]@ == view_of(m0, old(self).entities@[e])
                    } else {
                        self.entities@[e] == old(self).entities@[e]
                            && self.visible_sets@[e] == old(self).visible_sets@[e]
                    },
                (self.player < i && needs_view(m0, old(self).entities@[self.player as int])) ==> {
                    let v = view_of(m0, old(self).entities@[self.player as int]);
                    &&& self.map.visible_tiles@ == v
                    &&& forall|j: int|
                        0 <= j < self.map.n_tiles() ==> #[trigger] self.map.revealed_tiles@[j] == (
                        m0.revealed_tiles@[j] || v[j])
                },
                !(self.player < i && needs_view(m0, old(self).entities@[self.player as int]))
                    ==> self.map == m0,
            decreases len - i,
        {
            let ent = self.entities[i];
            let t = tile_index_of(&self.map, &ent);
            if let (Some(vs), Some(_)) = (ent.viewshed, t) {
                if vs.dirty {
                    let pos = ent.position.unwrap();
                    proof {
                        assert(self.map.in_bounds(pos.x as int, pos.y as int));
                    }
                    let mask = field_of_view(&self.map, pos.x, pos.y, vs.range);
                    proof {
                        lemma_fov_same_tiles(self.map, m0, pos.x as int, pos.y as int, vs.range as int);
                        assert(ent == old(self).entities@[i as int]);
                    }
                    if i == self.player {
                        self.map.show_tiles(&mask);
                    }
                    self.visible_sets.set(i, mask);
                    self.entities.set(i, EntityData { viewshed: Some(Viewshed { dirty: false, ..vs }), ..ent });
                }
            }
            i += 1;
        }
    }
    fn monster_step(&mut self, e: usize)
        requires
            old(self).wf(),
            e < old(self).entities@.len(),
        ensures
            final(self).wf(),
            final(self).names@ == old(self).names@,
            final(self).visible_sets@ == old(self).visible_sets@,
            final(self).player == old(self).player,
            final(self).player_pos == old(self).player_pos,
            final(self).log@ == old(self).log@,
            final(self).map.tiles@ == old(self).map.tiles@,
            final(self).map.rooms@ == old(self).map.rooms@,
            final(self).map.width == old(self).map.width,
            final(self).map.height == old(self).map.height,
            final(self).map.revealed_tiles@ == old(self).map.revealed_tiles@,
            final(self).map.visible_tiles@ == old(self).map.visible_tiles@,
            final(self).map.tile_content@ == old(self).map.tile_content@,
            (final(self).entities@, final(self).map.blocked@) == ai_one(
                (old(self).entities@, old(self).map.blocked@),
                old(self).map,
                old(self).visible_sets@,
                old(self).player,
                old(self).player_pos,
                e as int,
            ),
    {
        let ent = self.entities[e];
        let t = tile_index_of(&self.map, &ent);
        let pp = self.player_pos;
        if !ent.monster || ent.viewshed.is_none() || t.is_none() {
            return ;
        }
        if !(pp.x >= 0 && pp.x < self.map.width && pp.y >= 0 && pp.y < self.map.height) {
            return ;
        }
        let pidx = self.map.xy_idx(pp.x, pp.y);
        if pidx >= self.visible_sets[e].len() || !self.visible_sets[e][pidx] {
            return ;
        }
        let pos = ent.position.unwrap();
        let dx = pp.x - pos.x;
        let dy = pp.y - pos.y;
        if -1 <= dx && dx <= 1 && -1 <= dy && dy <= 1 {
            let p = self.player;
            self.entities.set(e, EntityData { wants_to_melee: Some(p), ..ent });
        } else {
            let sx = if dx < 0 {
                pos.x - 1
            } else if dx > 0 {
                pos.x + 1
            } else {
                pos.x
            };
            let sy = if dy < 0 {
                pos.y - 1
            } else if dy > 0 {
                pos.y + 1
            } else {
                pos.y
            };
            let from = t.unwrap();
            let to = self.map.xy_idx(sx, sy);
            if !self.map.blocked[to] {
                let step = Position { x: sx, y: sy };
                self.map.blocked.set(from, false);
                self.map.blocked.set(to, true);
                let vs = ent.viewshed.unwrap();
                self.entities.set(
                    e,
                    EntityData {
                        position: Some(step),
                        viewshed: Some(Viewshed { dirty: true, ..vs }),
                        ..ent
                    },
                );
            }
        }
    }

    /// Lets each monster act, in creation order.
    pub fn monster_ai_system(&mut self)
        requires
            old(self).wf(),
        ensures
            ai_post(*old(self), *final(self)),

    {
        let len = self.entities.len();
        let ghost m0 = self.map;
        let mut i: usize = 0;
        while i < len
            invariant
                self.wf(),
                self.names@ == old(self).names@,
                self.visible_sets@ == old(self).visible_sets@,
                self.player == old(self).player,
                self.player_pos == old(self).player_pos,
                self.log@ == old(self).log@,
                m0 == old(self).map,
                self.map.tiles@ == m0.tiles@,
                self.map.rooms@ == m0.rooms@,
                self.map.width == m0.width,
                self.map.height == m0.height,
                self.map.revealed_tiles@ == m0.revealed_tiles@,
                self.map.visible_tiles@ == m0.visible_tiles@,
                self.map.tile_content@ == m0.tile_content@,
                len == self.entities@.len(),
                len == old(self).entities@.len(),
                i <= len,
                (self.entities@, self.map.blocked@) == ai_all(
                    (old(self).entities@, m0.blocked@),
                    m0,
                    old(self).visible_sets@,
                    old(self).player,
                    old(self).player_pos,
                    i as int,
                ),
            decreases len - i,
        {
            let ghost before = self.map;
            self.monster_step(i);
            proof {
                lemma_ai_one_map(
                    (old(self).entities@, m0.blocked@),
                    before,
                    m0,
                    old(self).visible_sets@,
                    old(self).player,
                    old(self).player_pos,
                    i as int,
                );
            }
            i += 1;
        }
    }
}

/// A step of the AI reads only the map's tiles and dimensions from the map it is given.
proof fn lemma_ai_one_map(
    s0: AiState,
    a: GameMap,
    b: GameMap,
    vis: Seq<Vec<bool>>,
    player: usize,
    ppos: Position,
    n: int,
)
    requires
        a.width == b.width,
        a.height == b.height,
    ensures
        forall|s: AiState|
            #[trigger] ai_one(s, a, vis, player, ppos, n) == ai_one(s, b, vis, player, ppos, n),
{
}

} // verus!
