use vstd::prelude::*;
use crate::world::{lemma_log_extends_push, lemma_log_extends_trans, log_extends, dead_entity, make_dead_record, CombatStats, EntityData, LogEntry, World};

verus! {

/// Entity `e`'s pickup intent, if any, resolved: the item leaves the map for the collector's
/// backpack, and the intent is removed.
pub open spec fn pickup_one(s: Seq<EntityData>, e: int) -> Seq<EntityData> {
    match s[e].wants_to_pickup {
        Some(w) => {
            let s1 = if w.item < s.len() && s[w.item as int].alive {
                s.update(
                    w.item as int,
                    EntityData {
                        position: None,
                        in_backpack: Some(w.collected_by),
                        ..s[w.item as int]
                    },
                )
            } else {
                s
            };
            s1.update(e, EntityData { wants_to_pickup: None, ..s1[e] })
        },
        None => s,
    }
}

/// The pickup intents of entities numbered below `n` resolved in creation order.
pub open spec fn pickup_all(s: Seq<EntityData>, n: int) -> Seq<EntityData>
    decreases n,
{
    if n <= 0 {
        s
    } else {
        pickup_one(pickup_all(s, n - 1), n - 1)
    }
}

/// Hit points after a potion heals `heal`: never above `max_hp`.
pub open spec fn healed(hp: int, heal: int, max_hp: int) -> int {
    if hp + heal > max_hp {
        max_hp
    } else if hp + heal < i32::MIN {
        i32::MIN as int
    } else {
        hp + heal
    }
}

/// Entity `e`'s drink intent, if any, resolved: a living potion heals the drinker and is
/// destroyed, and the intent is removed.
pub open spec fn drink_one(s: Seq<EntityData>, e: int) -> Seq<EntityData> {
    match s[e].wants_to_drink {
        Some(p) => {
            let s1 = if p < s.len() && s[p as int].alive && s[p as int].potion.is_some()
                && s[e].stats.is_some() {
                let st = s[e].stats.unwrap();
                let hp = healed(st.hp as int, s[p as int].potion.unwrap() as int, st.max_hp as int);
                s.update(
                    e,
                    EntityData { stats: Some(CombatStats { hp: hp as i32, ..st }), ..s[e] },
                ).update(p as int, dead_entity())
            } else {
                s
            };
            s1.update(e, EntityData { wants_to_drink: None, ..s1[e] })
        },
        None => s,
    }
}

pub open spec fn drink_all(s: Seq<EntityData>, n: int) -> Seq<EntityData>
    decreases n,
{
    if n <= 0 {
        s
    } else {
        drink_one(drink_all(s, n - 1), n - 1)
    }
}

/// Entity `e`'s drop intent, if any, resolved: the item leaves the backpack and lies at the
/// dropper's position, and the intent is removed.
pub open spec fn drop_one(s: Seq<EntityData>, e: int) -> Seq<EntityData> {
    match s[e].wants_to_drop {
        Some(it) => {
            let s1 = if it < s.len() && s[it as int].alive && s[e].position.is_some() {
                s.update(
                    it as int,
                    EntityData { position: s[e].position, in_backpack: None, ..s[it as int] },
                )
            } else {
                s
            };
            s1.update(e, EntityData { wants_to_drop: None, ..s1[e] })
        },
        None => s,
    }
}

pub open spec fn drop_all(s: Seq<EntityData>, n: int) -> Seq<EntityData>
    decreases n,
{
    if n <= 0 {
        s
    } else {
        drop_one(drop_all(s, n - 1), n - 1)
    }
}

pub proof fn lemma_pickup_all_len(s: Seq<EntityData>, n: int)
    requires
        n <= s.len(),
    ensures
        pickup_all(s, n).len() == s.len(),
    decreases n,
{
    if n > 0 {
        lemma_pickup_all_len(s, n - 1);
    }
}

pub proof fn lemma_pickup_all_clears(s: Seq<EntityData>, n: int)
    requires
        n <= s.len(),
    ensures
        forall|e: int| 0 <= e < n ==> (#[trigger] pickup_all(s, n)[e]).wants_to_pickup.is_none(),
    decreases n,
{
    if n > 0 {
        lemma_pickup_all_clears(s, n - 1);
        lemma_pickup_all_len(s, n - 1);
    }
}

pub proof fn lemma_pickup_all_noop(s: Seq<EntityData>, n: int)
    requires
        n <= s.len(),
        forall|e: int| 0 <= e < n ==> (#[trigger] s[e]).wants_to_pickup.is_none(),
    ensures
        pickup_all(s, n) == s,
    decreases n,
{
    if n > 0 {
        lemma_pickup_all_noop(s, n - 1);
    }
}

/// Once the entities from `m` on hold no pickup intent, later steps change nothing.
proof fn lemma_pickup_tail_noop(s: Seq<EntityData>, m: int, n: int)
    requires
        0 <= m <= n <= s.len(),
        forall|k: int| m <= k < s.len() ==> (#[trigger] pickup_all(s, m)[k]).wants_to_pickup.is_none(),
    ensures
        pickup_all(s, n) == pickup_all(s, m),
    decreases n,
{
    if n > m {
        lemma_pickup_tail_noop(s, m, n - 1);
    }
}

/// A single pickup intent, resolved once, takes its living item off the map into the
/// collector's backpack, and no intent is left.
pub proof fn lemma_pickup_single(s: Seq<EntityData>, e: int)
    requires
        0 <= e < s.len(),
        s[e].wants_to_pickup is Some,
        s[e].wants_to_pickup.unwrap().item < s.len(),
        s[s[e].wants_to_pickup.unwrap().item as int].alive,
        forall|k: int| 0 <= k < s.len() && k != e ==> (#[trigger] s[k]).wants_to_pickup.is_none(),
    ensures
        ({
            let w = s[e].wants_to_pickup.unwrap();
            let r = pickup_all(s, s.len() as int);
            &&& r[w.item as int].position.is_none()
            &&& r[w.item as int].in_backpack == Some(w.collected_by)
            &&& forall|k: int| 0 <= k < s.len() ==> (#[trigger] r[k]).wants_to_pickup.is_none()
        }),
{
    let w = s[e].wants_to_pickup.unwrap();
    lemma_pickup_all_noop(s, e);
    let s1 = pickup_all(s, e + 1);
    assert(s1 == pickup_one(s, e));
    assert forall|k: int| e + 1 <= k < s.len() implies (#[trigger] s1[k]).wants_to_pickup.is_none() by {
        assert(s[k].wants_to_pickup.is_none());
    }
    lemma_pickup_tail_noop(s, e + 1, s.len() as int);
    lemma_pickup_all_clears(s, s.len() as int);
}

/// Resolving pickups a second time changes nothing: the first pass consumed every intent.
pub proof fn lemma_pickup_idempotent(s: Seq<EntityData>)
    ensures
        pickup_all(pickup_all(s, s.len() as int), s.len() as int) == pickup_all(
            s,
            s.len() as int,
        ),
{
    let n = s.len() as int;
    lemma_pickup_all_len(s, n);
    lemma_pickup_all_clears(s, n);
    lemma_pickup_all_noop(pickup_all(s, n), n);
}

/// No melee intent and no pending damage.
pub open spec fn no_melee_or_damage(s: Seq<EntityData>) -> bool {
    forall|e: int|
        0 <= e < s.len() ==> (#[trigger] s[e]).wants_to_melee.is_none() && s[e].suffer_damage == 0
}

pub open spec fn no_pickup(s: Seq<EntityData>) -> bool {
    forall|e: int| 0 <= e < s.len() ==> (#[trigger] s[e]).wants_to_pickup.is_none()
}

pub open spec fn no_drink(s: Seq<EntityData>) -> bool {
    forall|e: int| 0 <= e < s.len() ==> (#[trigger] s[e]).wants_to_drink.is_none()
}

pub open spec fn no_drop(s: Seq<EntityData>) -> bool {
    forall|e: int| 0 <= e < s.len() ==> (#[trigger] s[e]).wants_to_drop.is_none()
}

pub proof fn lemma_pickup_all_quiet(s: Seq<EntityData>, n: int)
    requires
        0 <= n <= s.len(),
        no_melee_or_damage(s),
    ensures
        pickup_all(s, n).len() == s.len(),
        no_melee_or_damage(pickup_all(s, n)),
    decreases n,
{
    if n > 0 {
        lemma_pickup_all_quiet(s, n - 1);
        let t = pickup_all(s, n - 1);
        assert forall|e: int| 0 <= e < s.len() implies (#[trigger] pickup_all(s, n)[e]).wants_to_melee.is_none()
            && pickup_all(s, n)[e].suffer_damage == 0 by {
            assert(t[e].wants_to_melee.is_none() && t[e].suffer_damage == 0);
        }
    }
}

pub proof fn lemma_drink_all_quiet(s: Seq<EntityData>, n: int)
    requires
        0 <= n <= s.len(),
        no_melee_or_damage(s),
        no_pickup(s),
    ensures
        drink_all(s, n).len() == s.len(),
        no_melee_or_damage(drink_all(s, n)),
        no_pickup(drink_all(s, n)),
        forall|e: int| 0 <= e < n ==> (#[trigger] drink_all(s, n)[e]).wants_to_drink.is_none(),
    decreases n,
{
    if n > 0 {
        lemma_drink_all_quiet(s, n - 1);
        let t = drink_all(s, n - 1);
        assert forall|e: int| 0 <= e < s.len() implies (#[trigger] drink_all(s, n)[e]).wants_to_melee.is_none()
            && drink_all(s, n)[e].suffer_damage == 0 && drink_all(s, n)[e].wants_to_pickup.is_none()
            && (e < n ==> drink_all(s, n)[e].wants_to_drink.is_none()) by {
            assert(t[e].wants_to_melee.is_none() && t[e].suffer_damage == 0);
            assert(t[e].wants_to_pickup.is_none());
        }
    }
}

pub proof fn lemma_drop_all_quiet(s: Seq<EntityData>, n: int)
    requires
        0 <= n <= s.len(),
        no_melee_or_damage(s),
        no_pickup(s),
        no_drink(s),
    ensures
        drop_all(s, n).len() == s.len(),
        no_melee_or_damage(drop_all(s, n)),
        no_pickup(drop_all(s, n)),
        no_drink(drop_all(s, n)),
        forall|e: int| 0 <= e < n ==> (#[trigger] drop_all(s, n)[e]).wants_to_drop.is_none(),
    decreases n,
{
    if n > 0 {
        lemma_drop_all_quiet(s, n - 1);
        let t = drop_all(s, n - 1);
        assert forall|e: int| 0 <= e < s.len() implies (#[trigger] drop_all(s, n)[e]).wants_to_melee.is_none()
            && drop_all(s, n)[e].suffer_damage == 0 && drop_all(s, n)[e].wants_to_pickup.is_none()
            && drop_all(s, n)[e].wants_to_drink.is_none()
            && (e < n ==> drop_all(s, n)[e].wants_to_drop.is_none()) by {
            assert(t[e].wants_to_melee.is_none() && t[e].suffer_damage == 0);
            assert(t[e].wants_to_pickup.is_none() && t[e].wants_to_drink.is_none());
        }
    }
}

/// The pickup system's effect.
pub open spec fn pickup_post(a: World, b: World) -> bool {
    &&& b.wf()
    &&& log_extends(a.log@, b.log@)
    &&& b.same_but_entities(a)
    &&& b.entities@ == pickup_all(
            a.entities@,
            a.entities@.len() as int,
        )
}

/// The potion system's effect.
pub open spec fn drink_post(a: World, b: World) -> bool {
    &&& b.wf()
    &&& log_extends(a.log@, b.log@)
    &&& b.same_but_entities(a)
    &&& b.entities@ == drink_all(
            a.entities@,
            a.entities@.len() as int,
        )
}

/// The drop system's effect.
pub open spec fn drop_post(a: World, b: World) -> bool {
    &&& b.wf()
    &&& log_extends(a.log@, b.log@)
    &&& b.same_but_entities(a)
    &&& b.entities@ == drop_all(
            a.entities@,
            a.entities@.len() as int,
        )
}

impl World {
    fn pickup_step(&mut self, e: usize)
        requires
            old(self).wf(),
            e < old(self).entities@.len(),
        ensures
            final(self).wf(),
            log_extends(old(self).log@, final(self).log@),
            final(self).same_but_entities(*old(self)),
            final(self).entities@ == pickup_one(old(self).entities@, e as int),
    {
        let ent = self.entities[e];
        if let Some(w) = ent.wants_to_pickup {
            if w.item < self.entities.len() && self.entities[w.item].alive {
                let it = self.entities[w.item];
                self.entities.set(
                    w.item,
                    EntityData { position: None, in_backpack: Some(w.collected_by), ..it },
                );
                self.log.push(LogEntry::PickedUp { item: w.item });
                proof {
                    lemma_log_extends_push(old(self).log@, old(self).log@, LogEntry::PickedUp { item: w.item });
                }
            }
            let cur = self.entities[e];
            self.entities.set(e, EntityData { wants_to_pickup: None, ..cur });
        }
    }

    /// Resolves every pickup intent in creation order.
    pub fn item_collection_system(&mut self)
        requires
            old(self).wf(),
        ensures
            pickup_post(*old(self), *final(self)),

    {
        let len = self.entities.len();
        let mut i: usize = 0;
        while i < len
            invariant
                self.wf(),
                self.same_but_entities(*old(self)),
                log_extends(old(self).log@, self.log@),
                len == old(self).entities@.len(),
                i <= len,
                self.entities@ == pickup_all(old(self).entities@, i as int),
            decreases len - i,
        {
            let ghost l0 = self.log@;
            self.pickup_step(i);
            proof {
                lemma_log_extends_trans(old(self).log@, l0, self.log@);
            }
            i += 1;
        }
    }

    fn drink_step(&mut self, e: usize)
        requires
            old(self).wf(),
            e < old(self).entities@.len(),
        ensures
            final(self).wf(),
            log_extends(old(self).log@, final(self).log@),
            final(self).same_but_entities(*old(self)),
            final(self).entities@ == drink_one(old(self).entities@, e as int),
    {
        let ent = self.entities[e];
        if let Some(p) = ent.wants_to_drink {
            if p < self.entities.len() && self.entities[p].alive && self.entities[p].potion.is_some()
                && ent.stats.is_some() {
                let heal = self.entities[p].potion.unwrap();
                let st = ent.stats.unwrap();
                let sum = st.hp as i64 + heal as i64;
                let hp: i32 = if sum > st.max_hp as i64 {
                    st.max_hp
                } else if sum < i32::MIN as i64 {
                    i32::MIN
                } else {
                    sum as i32
                };
                self.entities.set(e, EntityData { stats: Some(CombatStats { hp, ..st }), ..ent });
                self.entities.set(p, make_dead_record());
                self.log.push(LogEntry::Drank { potion: p, healed: heal });
                proof {
                    lemma_log_extends_push(old(self).log@, old(self).log@, LogEntry::Drank { potion: p, healed: heal });
                }
            }
            let cur = self.entities[e];
            self.entities.set(e, EntityData { wants_to_drink: None, ..cur });
        }
    }

    /// Resolves every potion intent in creation order.
    pub fn potion_use_system(&mut self)
        requires
            old(self).wf(),
        ensures
            drink_post(*old(self), *final(self)),

    {
        let len = self.entities.len();
        let mut i: usize = 0;
        while i < len
            invariant
                self.wf(),
                self.same_but_entities(*old(self)),
                log_extends(old(self).log@, self.log@),
                len == old(self).entities@.len(),
                i <= len,
                self.entities@ == drink_all(old(self).entities@, i as int),
            decreases len - i,
        {
            let ghost l0 = self.log@;
            self.drink_step(i);
            proof {
                lemma_log_extends_trans(old(self).log@, l0, self.log@);
            }
            i += 1;
        }
    }

    fn drop_step(&mut self, e: usize)
        requires
            old(self).wf(),
            e < old(self).entities@.len(),
        ensures
            final(self).wf(),
            log_extends(old(self).log@, final(self).log@),
            final(self).same_but_entities(*old(self)),
            final(self).entities@ == drop_one(old(self).entities@, e as int),
    {
        let ent = self.entities[e];
        if let Some(it) = ent.wants_to_drop {
            if it < self.entities.len() && self.entities[it].alive && ent.position.is_some() {
                let item = self.entities[it];
                self.entities.set(
                    it,
                    EntityData { position: ent.position, in_backpack: None, ..item },
                );
                self.log.push(LogEntry::Dropped { item: it });
                proof {
                    lemma_log_extends_push(old(self).log@, old(self).log@, LogEntry::Dropped { item: it });
                }
            }
            let cur = self.entities[e];
            self.entities.set(e, EntityData { wants_to_drop: None, ..cur });
        }
    }

    /// Resolves every drop intent in creation order.
    pub fn item_drop_system(&mut self)
        requires
            old(self).wf(),
        ensures
            drop_post(*old(self), *final(self)),

    {
        let len = self.entities.len();
        let mut i: usize = 0;
        while i < len
            invariant
                self.wf(),
                self.same_but_entities(*old(self)),
                log_extends(old(self).log@, self.log@),
                len == old(self).entities@.len(),
                i <= len,
                self.entities@ == drop_all(old(self).entities@, i as int),
            decreases len - i,
        {
            let ghost l0 = self.log@;
            self.drop_step(i);
            proof {
                lemma_log_extends_trans(old(self).log@, l0, self.log@);
            }
            i += 1;
        }
    }
}

} // verus!
