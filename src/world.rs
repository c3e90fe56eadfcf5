use vstd::prelude::*;
use crate::map::{idx_of, GameMap, TileType};

verus! {

#[derive(Clone, Copy, Debug, PartialEq, Eq, Structural)]
pub struct Position {
    pub x: i32,
    pub y: i32,
}

#[derive(Clone, Copy, Debug, PartialEq, Eq, Structural)]
pub struct CombatStats {
    pub max_hp: i32,
    pub hp: i32,
    pub defense: i32,
    pub power: i32,
}

/// How far an entity sees, and whether its visible set must be recomputed.
#[derive(Clone, Copy, Debug, PartialEq, Eq, Structural)]
pub struct Viewshed {
    pub range: i32,
    pub dirty: bool,
}

#[derive(Clone, Copy, Debug, PartialEq, Eq, Structural)]
pub struct WantsToPickupItem {
    pub collected_by: usize,
    pub item: usize,
}

/// The components of one entity. Entities are numbered in creation order and numbers are
/// never reused; a destroyed entity keeps its slot with `alive` false and no components.
#[derive(Clone, Copy, Debug, PartialEq, Eq, Structural)]
pub struct EntityData {
    pub alive: bool,
    pub position: Option<Position>,
    pub monster: bool,
    pub blocks_tile: bool,
    pub viewshed: Option<Viewshed>,
    pub item: bool,
    /// The heal amount of a potion.
    pub potion: Option<i32>,
    pub stats: Option<CombatStats>,
    pub wants_to_melee: Option<usize>,
    /// Damage waiting to be applied; zero when there is none.
    pub suffer_damage: i64,
    pub wants_to_pickup: Option<WantsToPickupItem>,
    pub in_backpack: Option<usize>,
    pub wants_to_drink: Option<usize>,
    pub wants_to_drop: Option<usize>,
}

/// An entry of the game log, turned into text by whoever shows it.
#[derive(Clone, Copy, Debug, PartialEq, Eq, Structural)]
pub enum LogEntry {
    Hit { attacker: usize, target: usize, amount: i64 },
    Dies { entity: usize },
    NothingToPickUp,
    PickedUp { item: usize },
    Drank { potion: usize, healed: i32 },
    Dropped { item: usize },
}


/// The entity-component store with the map and the shared resources.
pub struct World {
    pub entities: Vec<EntityData>,
    /// For each entity, the tiles it sees, by tile index.
    pub visible_sets: Vec<Vec<bool>>,
    pub names: Vec<String>,
    pub map: GameMap,
    pub player: usize,
    pub player_pos: Position,
    pub log: Vec<LogEntry>,
}

/// `b` is `a` with entries appended.
pub open spec fn log_extends(a: Seq<LogEntry>, b: Seq<LogEntry>) -> bool {
    a.len() <= b.len() && forall|i: int| 0 <= i < a.len() ==> #[trigger] b[i] == a[i]
}

pub proof fn lemma_log_extends_push(a: Seq<LogEntry>, b: Seq<LogEntry>, x: LogEntry)
    requires
        log_extends(a, b),
    ensures
        log_extends(a, b.push(x)),
{
    assert forall|i: int| 0 <= i < a.len() implies #[trigger] b.push(x)[i] == a[i] by {
        assert(b.push(x)[i] == b[i]);
    }
}

pub proof fn lemma_log_extends_trans(a: Seq<LogEntry>, b: Seq<LogEntry>, c: Seq<LogEntry>)
    requires
        log_extends(a, b),
        log_extends(b, c),
    ensures
        log_extends(a, c),
{
    assert forall|i: int| 0 <= i < a.len() implies #[trigger] c[i] == a[i] by {
        assert(c[i] == b[i]);
    }
}

/// The record of a destroyed entity.
pub open spec fn dead_entity() -> EntityData {
    EntityData {
        alive: false,
        position: None,
        monster: false,
        blocks_tile: false,
        viewshed: None,
        item: false,
        potion: None,
        stats: None,
        wants_to_melee: None,
        suffer_damage: 0,
        wants_to_pickup: None,
        in_backpack: None,
        wants_to_drink: None,
        wants_to_drop: None,
    }
}

pub fn make_dead_record() -> (r: EntityData)
    ensures
        r == dead_entity(),
{
    EntityData {
        alive: false,
        position: None,
        monster: false,
        blocks_tile: false,
        viewshed: None,
        item: false,
        potion: None,
        stats: None,
        wants_to_melee: None,
        suffer_damage: 0,
        wants_to_pickup: None,
        in_backpack: None,
        wants_to_drink: None,
        wants_to_drop: None,
    }
}

/// Melee damage: attacker's power less target's defense, and never below one.
pub open spec fn damage_spec(power: int, defense: int) -> int {
    if power - defense >= 1 {
        power - defense
    } else {
        1
    }
}

pub fn melee_damage(power: i32, defense: i32) -> (r: i64)
    ensures
        r as int == damage_spec(power as int, defense as int),
        r >= 1,
{
    let d = power as i64 - defense as i64;
    if d >= 1 {
        d
    } else {
        1
    }
}

/// `a + b`, held at the largest `i64`.
pub open spec fn capped_sum(a: int, b: int) -> int {
    if a + b > i64::MAX {
        i64::MAX as int
    } else {
        a + b
    }
}

/// `a - b`, held at the smallest `i32`.
pub open spec fn floored_diff(a: int, b: int) -> int {
    if a - b < i32::MIN {
        i32::MIN as int
    } else {
        a - b
    }
}

/// Entity `a` lands a blow on entity `t`: both alive with combat stats, and `a` means to.
pub open spec fn attacks(ents: Seq<EntityData>, a: int, t: int) -> bool {
    &&& 0 <= a < ents.len()
    &&& 0 <= t < ents.len()
    &&& ents[a].alive
    &&& ents[a].wants_to_melee == Some(t as usize)
    &&& ents[a].stats.is_some()
    &&& ents[t].alive
    &&& ents[t].stats.is_some()
}

/// Pending damage of `t` once the attackers numbered below `n` have struck, in order.
pub open spec fn incoming(ents: Seq<EntityData>, t: int, n: int) -> int
    decreases n,
{
    if n <= 0 {
        ents[t].suffer_damage as int
    } else if attacks(ents, n - 1, t) {
        capped_sum(
            incoming(ents, t, n - 1),
            damage_spec(
                ents[n - 1].stats.unwrap().power as int,
                ents[t].stats.unwrap().defense as int,
            ),
        )
    } else {
        incoming(ents, t, n - 1)
    }
}

pub proof fn lemma_incoming_bounds(ents: Seq<EntityData>, t: int, n: int)
    requires
        0 <= t < ents.len(),
        ents[t].suffer_damage >= 0,
    ensures
        ents[t].suffer_damage <= incoming(ents, t, n) <= i64::MAX,
    decreases n,
{
    if n > 0 {
        lemma_incoming_bounds(ents, t, n - 1);
    }
}

/// The death sweep's effect; `dead` tells whether the player is dying.
pub open spec fn sweep_post(a: World, b: World, dead: bool) -> bool {
    &&& b.wf()
    &&& b.same_but_entities(a)
    &&& dead == is_dying(a.entities@[a.player as int])
    &&& log_extends(a.log@, b.log@)
    &&& (forall|e: int|
            0 <= e < a.entities@.len() ==> !is_dying(#[trigger] a.entities@[e]))
            ==> b.log@ == a.log@
    &&& forall|e: int|
            #![trigger b.entities@[e]]
            0 <= e < b.entities@.len() ==> b.entities@[e] == if e
                != a.player && is_dying(a.entities@[e]) {
                dead_entity()
            } else {
                a.entities@[e]
            }
    &&& forall|e: int|
            0 <= e < b.entities@.len() && e != a.player && is_dying(
                a.entities@[e],
            ) ==> b.log@.contains(LogEntry::Dies { entity: e as usize })
}

/// The entity after its pending damage is applied.
pub open spec fn damaged(e: EntityData) -> EntityData {
    if e.suffer_damage > 0 {
        EntityData {
            stats: match e.stats {
                Some(s) => Some(
                    CombatStats { hp: floored_diff(s.hp as int, e.suffer_damage as int) as i32, ..s },
                ),
                None => None,
            },
            suffer_damage: 0,
            ..e
        }
    } else {
        e
    }
}

/// A living entity with combat stats whose hit points are zero or below.
pub open spec fn is_dying(e: EntityData) -> bool {
    e.alive && e.stats.is_some() && e.stats.unwrap().hp <= 0
}

/// The tile index an entity stands on, when it is alive and placed on the map.
pub open spec fn tile_of(m: GameMap, ent: EntityData) -> Option<int> {
    match ent.position {
        Some(p) => if ent.alive && m.in_bounds(p.x as int, p.y as int) {
            Some(idx_of(m.width as int, p.x as int, p.y as int))
        } else {
            None
        },
        None => None,
    }
}

/// A tile is blocked when it is a wall or a living tile-blocking entity stands on it.
pub open spec fn tile_blocked(m: GameMap, ents: Seq<EntityData>, i: int) -> bool {
    m.tiles@[i] == TileType::Wall || exists|e: int|
        0 <= e < ents.len() && (#[trigger] ents[e]).blocks_tile && tile_of(m, ents[e]) == Some(i)
}

pub fn tile_index_of(m: &GameMap, ent: &EntityData) -> (r: Option<usize>)
    requires
        m.wf(),
    ensures
        r matches Some(i) ==> i < m.n_tiles(),
        match r {
            Some(i) => tile_of(*m, *ent) == Some(i as int),
            None => tile_of(*m, *ent).is_none(),
        },
{
    match ent.position {
        Some(p) => if ent.alive && p.x >= 0 && p.x < m.width && p.y >= 0 && p.y < m.height {
            Some(m.xy_idx(p.x, p.y))
        } else {
            None
        },
        None => None,
    }
}

/// The map indexing system's effect: blocked flags and tile lists rebuilt.
pub open spec fn index_post(a: World, b: World) -> bool {
    &&& b.wf()
    &&& b.entities@ == a.entities@
    &&& b.visible_sets@ == a.visible_sets@
    &&& b.names@ == a.names@
    &&& b.player == a.player
    &&& b.player_pos == a.player_pos
    &&& b.log@ == a.log@
    &&& b.map.tiles@ == a.map.tiles@
    &&& b.map.rooms@ == a.map.rooms@
    &&& b.map.width == a.map.width
    &&& b.map.height == a.map.height
    &&& b.map.revealed_tiles@ == a.map.revealed_tiles@
    &&& b.map.visible_tiles@ == a.map.visible_tiles@
    &&& forall|i: int|
            0 <= i < b.map.n_tiles() ==> #[trigger] b.map.blocked@[i]
                == tile_blocked(a.map, a.entities@, i)
    &&& forall|i: int, e: usize|
            0 <= i < b.map.n_tiles() ==> (#[trigger] b.map.tile_content@[i]@.contains(e)
                <==> e < a.entities@.len() && tile_of(
                a.map,
                a.entities@[e as int],
            ) == Some(i))
}

/// The melee system's effect: intents become pending damage.
pub open spec fn melee_post(a: World, b: World) -> bool {
    &&& b.wf()
    &&& forall|x: int, t: int|
            attacks(a.entities@, x, t) ==> #[trigger] b.log@.contains(
                LogEntry::Hit {
                    attacker: x as usize,
                    target: t as usize,
                    amount: damage_spec(
                        a.entities@[x].stats.unwrap().power as int,
                        a.entities@[t].stats.unwrap().defense as int,
                    ) as i64,
                },
            )
    &&& b.same_but_entities(a)
    &&& log_extends(a.log@, b.log@)
    &&& forall|e: int|
            #![trigger b.entities@[e]]
            0 <= e < b.entities@.len() ==> {
                let o = a.entities@[e];
                let n = b.entities@[e];
                &&& n.suffer_damage == incoming(
                    a.entities@,
                    e,
                    a.entities@.len() as int,
                )
                &&& n.wants_to_melee.is_none()
                &&& n == (EntityData {
                    suffer_damage: n.suffer_damage,
                    wants_to_melee: None,
                    ..o
                })
            }
}

/// The damage system's effect: pending damage subtracted from hit points.
pub open spec fn damage_post(a: World, b: World) -> bool {
    &&& b.wf()
    &&& b.same_but_entities(a)
    &&& b.log@ == a.log@
    &&& forall|e: int|
            #![trigger b.entities@[e]]
            0 <= e < b.entities@.len() ==> b.entities@[e] == damaged(
                a.entities@[e],
            )
}

impl World {
    pub open spec fn wf(self) -> bool {
        &&& self.map.wf()
        &&& self.visible_sets@.len() == self.entities@.len()
        &&& self.names@.len() == self.entities@.len()
        &&& self.player < self.entities@.len()
        &&& forall|e: int|
            0 <= e < self.entities@.len() ==> (#[trigger] self.entities@[e]).suffer_damage >= 0
    }

    /// Everything but the entity records is as in `w`.
    pub open spec fn same_but_entities(self, w: World) -> bool {
        &&& self.entities@.len() == w.entities@.len()
        &&& self.visible_sets@ == w.visible_sets@
        &&& self.names@ == w.names@
        &&& self.map == w.map
        &&& self.player == w.player
        &&& self.player_pos == w.player_pos
    }

    /// Turns each melee intent into pending damage on its target and removes the intent.
    pub fn melee_combat_system(&mut self)
        requires
            old(self).wf(),
        ensures
            melee_post(*old(self), *final(self)),

    {
        let ghost ents0 = self.entities@;
        let len = self.entities.len();
        let mut i: usize = 0;
        while i < len
            invariant
                self.wf(),
                self.same_but_entities(*old(self)),
                ents0 == old(self).entities@,
                len == ents0.len(),
                i <= len,
                log_extends(old(self).log@, self.log@),
                forall|x: int, t: int|
                    x < i && attacks(ents0, x, t) ==> #[trigger] self.log@.contains(
                        LogEntry::Hit {
                            attacker: x as usize,
                            target: t as usize,
                            amount: damage_spec(
                                ents0[x].stats.unwrap().power as int,
                                ents0[t].stats.unwrap().defense as int,
                            ) as i64,
                        },
                    ),
                forall|e: int|
                    #![trigger self.entities@[e]]
                    0 <= e < len ==> {
                        let o = ents0[e];
                        let n = self.entities@[e];
                        &&& n.suffer_damage == incoming(ents0, e, i as int)
                        &&& n.wants_to_melee == (if e < i {
                            None
                        } else {
                            o.wants_to_melee
                        })
                        &&& n == (EntityData {
                            suffer_damage: n.suffer_damage,
                            wants_to_melee: n.wants_to_melee,
                            ..o
                        })
                    },
            decreases len - i,
        {
            let a = self.entities[i];
            proof {
                assert(a.wants_to_melee == ents0[i as int].wants_to_melee);
            }
            if a.alive && a.stats.is_some() {
                if let Some(t) = a.wants_to_melee {
                    if t < len && self.entities[t].alive && self.entities[t].stats.is_some() {
                        let target = self.entities[t];
                        let dmg = melee_damage(a.stats.unwrap().power, target.stats.unwrap().defense);
                        let prev = target.suffer_damage;
                        let total = if prev > i64::MAX - dmg {
                            i64::MAX
                        } else {
                            prev + dmg
                        };
                        self.entities.set(t, EntityData { suffer_damage: total, ..target });
                        let ghost l0 = self.log@;
                        self.log.push(LogEntry::Hit { attacker: i, target: t, amount: dmg });
                        proof {
                            lemma_log_extends_push(old(self).log@, l0, LogEntry::Hit { attacker: i, target: t, amount: dmg });
                            assert(self.log@[self.log@.len() - 1] == LogEntry::Hit { attacker: i, target: t, amount: dmg });
                            assert forall|h: LogEntry| l0.contains(h) implies #[trigger] self.log@.contains(h) by {
                                let k = choose|k: int| 0 <= k < l0.len() && l0[k] == h;
                                assert(self.log@[k] == l0[k]);
                            }
                        }
                    }
                }
            }
            let cur = self.entities[i];
            self.entities.set(i, EntityData { wants_to_melee: None, ..cur });
            proof {
                assert forall|x: int, t: int| x < i + 1 && attacks(ents0, x, t) implies #[trigger] self.log@.contains(
                    LogEntry::Hit {
                        attacker: x as usize,
                        target: t as usize,
                        amount: damage_spec(
                            ents0[x].stats.unwrap().power as int,
                            ents0[t].stats.unwrap().defense as int,
                        ) as i64,
                    },
                ) by {
                    if x == i {
                        assert(t == a.wants_to_melee.unwrap());
                    }
                }
                assert forall|e: int| 0 <= e < len implies #[trigger] self.entities@[e].suffer_damage
                    == incoming(ents0, e, i + 1) by {
                    assert(attacks(ents0, i as int, e) ==> e == a.wants_to_melee.unwrap());
                }
            }
            i += 1;
        }
    }
    /// Subtracts each entity's pending damage from its hit points and clears it.
    pub fn damage_system(&mut self)
        requires
            old(self).wf(),
        ensures
            damage_post(*old(self), *final(self)),

    {
        let len = self.entities.len();
        let mut i: usize = 0;
        while i < len
            invariant
                self.wf(),
                self.same_but_entities(*old(self)),
                self.log@ == old(self).log@,
                len == self.entities@.len(),
                i <= len,
                forall|e: int|
                    #![trigger self.entities@[e]]
                    0 <= e < len ==> self.entities@[e] == if e < i {
                        damaged(old(self).entities@[e])
                    } else {
                        old(self).entities@[e]
                    },
            decreases len - i,
        {
            let ent = self.entities[i];
            proof {
                assert(ent.suffer_damage >= 0);
            }
            if ent.suffer_damage > 0 {
                let stats = match ent.stats {
                    Some(s) => {
                        let room = s.hp as i64 - i32::MIN as i64;
                        let hp = if ent.suffer_damage > room {
                            i32::MIN
                        } else {
                            (s.hp as i64 - ent.suffer_damage) as i32
                        };
                        Some(CombatStats { hp, ..s })
                    },
                    None => None,
                };
                self.entities.set(i, EntityData { stats, suffer_damage: 0, ..ent });
            }
            i += 1;
        }
    }

    /// Removes every non-player entity whose hit points are zero or below and logs its
    /// death; returns whether the player's are.
    pub fn delete_the_dead(&mut self) -> (player_dead: bool)
        requires
            old(self).wf(),
        ensures
            sweep_post(*old(self), *final(self), player_dead),

    {
        let len = self.entities.len();
        let mut i: usize = 0;
        while i < len
            invariant
                self.wf(),
                self.same_but_entities(*old(self)),
                len == self.entities@.len(),
                i <= len,
                log_extends(old(self).log@, self.log@),
                (forall|e: int| 0 <= e < len ==> !is_dying(#[trigger] old(self).entities@[e]))
                    ==> self.log@ == old(self).log@,
                forall|e: int|
                    #![trigger self.entities@[e]]
                    0 <= e < len ==> self.entities@[e] == if e < i && e != old(self).player
                        && is_dying(old(self).entities@[e]) {
                        dead_entity()
                    } else {
                        old(self).entities@[e]
                    },
                forall|e: int|
                    0 <= e < i && e != old(self).player && is_dying(old(self).entities@[e])
                        ==> self.log@.contains(LogEntry::Dies { entity: e as usize }),
            decreases len - i,
        {
            let ent = self.entities[i];
            let dying = match ent.stats {
                Some(s) => ent.alive && s.hp <= 0,
                None => false,
            };
            if dying && i != self.player {
                let ghost log0 = self.log@;
                self.entities.set(i, make_dead_record());
                self.log.push(LogEntry::Dies { entity: i });
                proof {
                    lemma_log_extends_push(old(self).log@, log0, LogEntry::Dies { entity: i });
                    assert(self.log@[self.log@.len() - 1] == LogEntry::Dies { entity: i });
                    assert forall|e: int|
                        0 <= e < i && e != old(self).player && is_dying(old(self).entities@[e])
                            implies self.log@.contains(LogEntry::Dies { entity: e as usize }) by {
                        let k = choose|k: int|
                            0 <= k < log0.len() && log0[k] == LogEntry::Dies { entity: e as usize };
                        assert(self.log@[k] == log0[k]);
                    }
                }
            }
            i += 1;
        }
        let p = self.entities[self.player];
        match p.stats {
            Some(s) => p.alive && s.hp <= 0,
            None => false,
        }
    }
    /// Rebuilds the blocked flags and the per-tile entity lists from the entities' positions.
    pub fn map_indexing_system(&mut self)
        requires
            old(self).wf(),
        ensures
            index_post(*old(self), *final(self)),

    {
        let n = self.map.tiles.len();
        let len = self.entities.len();
        let mut blocked: Vec<bool> = Vec::new();
        let mut content: Vec<Vec<usize>> = Vec::new();
        let mut i: usize = 0;
        while i < n
            invariant
                self.wf(),
                self.entities@ == old(self).entities@,
                self.map == old(self).map,
                n == self.map.n_tiles(),
                len == self.entities@.len(),
                i <= n,
                blocked@.len() == i,
                content@.len() == i,
                forall|k: int|
                    0 <= k < i ==> #[trigger] blocked@[k] == tile_blocked(self.map, self.entities@, k),
                forall|k: int, e: usize|
                    0 <= k < i ==> (#[trigger] content@[k]@.contains(e) <==> e < len && tile_of(
                        self.map,
                        self.entities@[e as int],
                    ) == Some(k)),
            decreases n - i,
        {
            let mut b = self.map.tiles[i] == TileType::Wall;
            let mut here: Vec<usize> = Vec::new();
            let mut j: usize = 0;
            while j < len
                invariant
                    self.wf(),
                    self.entities@ == old(self).entities@,
                    self.map == old(self).map,
                    n == self.map.n_tiles(),
                    len == self.entities@.len(),
                    i < n,
                    j <= len,
                    b == (self.map.tiles@[i as int] == TileType::Wall || exists|e: int|
                        0 <= e < j && (#[trigger] self.entities@[e]).blocks_tile && tile_of(
                            self.map,
                            self.entities@[e],
                        ) == Some(i as int)),
                    forall|e: usize|
                        #[trigger] here@.contains(e) <==> (e < j && tile_of(
                            self.map,
                            self.entities@[e as int],
                        ) == Some(i as int)),
                    forall|k: int| 0 <= k < here@.len() ==> here@[k] < j,
                decreases len - j,
            {
                let ent = self.entities[j];
                let ghost h0 = here@;
                let t = tile_index_of(&self.map, &ent);
                if t == Some(i) {
                    if ent.blocks_tile {
                        b = true;
                    }
                    here.push(j);
                }
                proof {
                    assert forall|e: usize|
                        #[trigger] here@.contains(e) <==> (e < j + 1 && tile_of(
                            self.map,
                            self.entities@[e as int],
                        ) == Some(i as int)) by {
                        if t == Some(i) {
                            assert(here@ == h0.push(j));
                            if h0.contains(e) {
                                let k = choose|k: int| 0 <= k < h0.len() && h0[k] == e;
                                assert(here@[k] == e);
                            }
                            if e == j {
                                assert(here@[h0.len() as int] == j);
                            }
                            if here@.contains(e) && e != j {
                                let k = choose|k: int| 0 <= k < here@.len() && here@[k] == e;
                                assert(h0[k] == e);
                            }
                        } else {
                            assert(here@ == h0);
                            if e == j && h0.contains(e) {
                                let k = choose|k: int| 0 <= k < h0.len() && h0[k] == e;
                            }
                        }
                    }
                }
                j += 1;
            }
            blocked.push(b);
            content.push(here);
            i += 1;
        }
        self.map.blocked = blocked;
        self.map.tile_content = content;
    }
    /// A world holding only the player, who becomes entity 0.
    pub fn new(map: GameMap, player: EntityData, name: String) -> (r: World)
        requires
            map.wf(),
            player.suffer_damage >= 0,
        ensures
            r.wf(),
            r.map == map,
            r.entities@ == seq![player],
            r.names@ == seq![name],
            r.player == 0,
            r.player_pos == (match player.position {
                Some(p) => p,
                None => Position { x: 0, y: 0 },
            }),
            r.log@.len() == 0,
    {
        let pos = match player.position {
            Some(p) => p,
            None => Position { x: 0, y: 0 },
        };
        let mut entities: Vec<EntityData> = Vec::new();
        entities.push(player);
        let mut names: Vec<String> = Vec::new();
        names.push(name);
        let mut visible_sets: Vec<Vec<bool>> = Vec::new();
        visible_sets.push(Vec::new());
        let r = World { entities, visible_sets, names, map, player: 0, player_pos: pos, log: Vec::new() };
        proof {
            assert(r.entities@ =~= seq![player]);
            assert(r.names@ =~= seq![name]);
        }
        r
    }

    /// Adds an entity and returns its number, the next in creation order.
    pub fn spawn(&mut self, ent: EntityData, name: String) -> (r: usize)
        requires
            old(self).wf(),
            ent.suffer_damage >= 0,
            old(self).entities@.len() < usize::MAX,
        ensures
            final(self).wf(),
            r == old(self).entities@.len(),
            final(self).entities@ == old(self).entities@.push(ent),
            final(self).names@ == old(self).names@.push(name),
            final(self).map == old(self).map,
            final(self).player == old(self).player,
            final(self).player_pos == old(self).player_pos,
            final(self).log@ == old(self).log@,
    {
        let r = self.entities.len();
        self.entities.push(ent);
        self.names.push(name);
        self.visible_sets.push(Vec::new());
        r
    }
}

} // verus!
