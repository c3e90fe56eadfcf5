use vstd::prelude::*;
use crate::player::{get_item, move_result, pickup_request, try_move_player, Command, RunState};
use crate::inventory::{
    lemma_drink_all_quiet, lemma_drop_all_quiet, lemma_pickup_all_clears, lemma_pickup_all_quiet,
    no_drink, no_drop, no_melee_or_damage, no_pickup,
};
use crate::inventory::{drink_post, drop_post, pickup_post};
use crate::systems::{ai_post, visibility_post};
use crate::world::{damage_post, index_post, is_dying, melee_post, sweep_post, EntityData, World};

verus! {

/// The state the scheduler moves to from `state` on `cmd`, before the death sweep.
pub open spec fn next_state(state: RunState, cmd: Option<Command>) -> RunState {
    match state {
        RunState::PreRun => RunState::AwaitingInput,
        RunState::AwaitingInput => match cmd {
            None => RunState::AwaitingInput,
            Some(Command::Move { dx, dy }) => if -1 <= dx <= 1 && -1 <= dy <= 1 {
                RunState::PlayerTurn
            } else {
                RunState::AwaitingInput
            },
            Some(Command::PickUp) => RunState::PlayerTurn,
            Some(Command::OpenInventory) => RunState::ShowInventory,
            Some(Command::OpenDropMenu) => RunState::ShowDropItem,
            Some(Command::Quit) => RunState::SaveGame,
            Some(_) => RunState::AwaitingInput,
        },
        RunState::PlayerTurn => RunState::MonsterTurn,
        RunState::MonsterTurn => RunState::AwaitingInput,
        RunState::ShowInventory | RunState::ShowDropItem => match cmd {
            Some(Command::Select { item }) => RunState::PlayerTurn,
            Some(Command::Cancel) => RunState::AwaitingInput,
            _ => state,
        },
        RunState::SaveGame => RunState::SaveGame,
        RunState::GameOver => RunState::GameOver,
    }
}

/// No entity is waiting for the death sweep.
pub open spec fn none_dying(w: World) -> bool {
    forall|e: int| 0 <= e < w.entities@.len() ==> !is_dying(#[trigger] w.entities@[e])
}

/// Every part of `b` is as in `a`.
pub open spec fn unchanged(a: World, b: World) -> bool {
    &&& a.entities@ == b.entities@
    &&& a.visible_sets@ == b.visible_sets@
    &&& a.names@ == b.names@
    &&& a.map == b.map
    &&& a.player == b.player
    &&& a.player_pos == b.player_pos
    &&& a.log@ == b.log@
}

/// The eight systems in order, through the intermediate worlds `w1` to `w7`.
pub open spec fn pipeline_via(
    a: World,
    w1: World,
    w2: World,
    w3: World,
    w4: World,
    w5: World,
    w6: World,
    w7: World,
    b: World,
) -> bool {
    &&& visibility_post(a, w1)
    &&& ai_post(w1, w2)
    &&& index_post(w2, w3)
    &&& melee_post(w3, w4)
    &&& damage_post(w4, w5)
    &&& pickup_post(w5, w6)
    &&& drink_post(w6, w7)
    &&& drop_post(w7, b)
}

/// `b` is what one run of the pipeline makes of `a`.
pub open spec fn pipeline(a: World, b: World) -> bool {
    exists|w1: World, w2: World, w3: World, w4: World, w5: World, w6: World, w7: World|
        #[trigger] pipeline_via(a, w1, w2, w3, w4, w5, w6, w7, b)
}

/// The player holds no intent of its own.
pub open spec fn player_intents_clear(w: World) -> bool {
    let e = w.entities@[w.player as int];
    &&& e.wants_to_melee is None
    &&& e.wants_to_pickup is None
    &&& e.wants_to_drink is None
    &&& e.wants_to_drop is None
}

/// What one command given while waiting for input makes of `a`, returning `r`.
pub open spec fn input_post(a: World, b: World, cmd: Option<Command>, r: RunState) -> bool {
    &&& b.wf()
    &&& b.player == a.player
    &&& b.entities@.len() == a.entities@.len()
    &&& r == next_state(RunState::AwaitingInput, cmd)
    &&& match cmd {
        Some(Command::Move { dx, dy }) => if -1 <= dx <= 1 && -1 <= dy <= 1 {
            &&& (b.entities@, b.player_pos) == move_result(a, dx as int, dy as int)
            &&& b.map == a.map
            &&& b.log@ == a.log@
            &&& b.visible_sets@ == a.visible_sets@
            &&& b.names@ == a.names@
        } else {
            unchanged(a, b)
        },
        Some(Command::PickUp) => b.same_but_entities(a) && (b.entities@, b.log@) == pickup_request(a),
        _ => unchanged(a, b),
    }
}

/// What a menu state makes of `a` on `cmd`: a selection becomes the player's intent.
pub open spec fn menu_post(state: RunState, cmd: Option<Command>, a: World, b: World) -> bool {
    match cmd {
        Some(Command::Select { item }) => {
            let p = a.player as int;
            &&& b.same_but_entities(a)
            &&& b.log@ == a.log@
            &&& b.entities@ == a.entities@.update(
                p,
                if state == RunState::ShowInventory {
                    EntityData { wants_to_drink: Some(item), ..a.entities@[p] }
                } else {
                    EntityData { wants_to_drop: Some(item), ..a.entities@[p] }
                },
            )
        },
        _ => unchanged(a, b),
    }
}

/// The work of one frame in `state`, before the death sweep.
pub open spec fn stage(state: RunState, cmd: Option<Command>, a: World, b: World) -> bool {
    match state {
        RunState::PreRun | RunState::PlayerTurn | RunState::MonsterTurn => pipeline(a, b),
        RunState::AwaitingInput => input_post(a, b, cmd, next_state(RunState::AwaitingInput, cmd)),
        RunState::ShowInventory | RunState::ShowDropItem => menu_post(state, cmd, a, b),
        _ => unchanged(a, b),
    }
}

impl World {
    /// Runs the simulation pipeline once: visibility, monster AI, map indexing, melee,
    /// damage, pickup, potions, drops.
    pub fn run_systems(&mut self)
        requires
            old(self).wf(),
        ensures
            pipeline(*old(self), *final(self)),
            final(self).wf(),
            final(self).player == old(self).player,
            final(self).names@ == old(self).names@,
            final(self).map.tiles@ == old(self).map.tiles@,
            final(self).map.rooms@ == old(self).map.rooms@,
            final(self).map.width == old(self).map.width,
            final(self).map.height == old(self).map.height,
            final(self).entities@.len() == old(self).entities@.len(),
            no_melee_or_damage(final(self).entities@),
            no_pickup(final(self).entities@),
            no_drink(final(self).entities@),
            no_drop(final(self).entities@),
    {
        let ghost w0 = *self;
        self.visibility_system();
        let ghost w1 = *self;
        self.monster_ai_system();
        let ghost w2 = *self;
        self.map_indexing_system();
        let ghost w3 = *self;
        self.melee_combat_system();
        let ghost w4 = *self;
        self.damage_system();
        let ghost s0 = self.entities@;
        proof {
            assert forall|e: int| 0 <= e < s0.len() implies (#[trigger] s0[e]).wants_to_melee.is_none()
                && s0[e].suffer_damage == 0 by {
                assert(w4.entities@[e].suffer_damage >= 0);
            }
            lemma_pickup_all_quiet(s0, s0.len() as int);
            lemma_pickup_all_clears(s0, s0.len() as int);
        }
        let ghost w5 = *self;
        self.item_collection_system();
        let ghost s1 = self.entities@;
        proof {
            lemma_drink_all_quiet(s1, s1.len() as int);
        }
        let ghost w6 = *self;
        self.potion_use_system();
        let ghost s2 = self.entities@;
        proof {
            lemma_drop_all_quiet(s2, s2.len() as int);
        }
        let ghost w7 = *self;
        self.item_drop_system();
        proof {
            assert(pipeline_via(w0, w1, w2, w3, w4, w5, w6, w7, *self));
        }
    }
}

/// Acts on one command given while waiting for input, and returns the next state.
pub fn player_input(gs: &mut World, cmd: Option<Command>) -> (r: RunState)
    requires
        old(gs).wf(),
        player_intents_clear(*old(gs)),
    ensures
        input_post(*old(gs), *final(gs), cmd, r),
{
    match cmd {
        None => RunState::AwaitingInput,
        Some(c) => match c {
            Command::Move { dx, dy } => {
                if -1 <= dx && dx <= 1 && -1 <= dy && dy <= 1 {
                    try_move_player(dx, dy, gs);
                    RunState::PlayerTurn
                } else {
                    RunState::AwaitingInput
                }
            },
            Command::PickUp => {
                get_item(gs);
                RunState::PlayerTurn
            },
            Command::OpenInventory => RunState::ShowInventory,
            Command::OpenDropMenu => RunState::ShowDropItem,
            Command::Quit => RunState::SaveGame,
            _ => RunState::AwaitingInput,
        },
    }
}

/// Runs one frame of the scheduler from `state` with the frame's command, then sweeps the
/// dead; returns the next state, which is `GameOver` once the player is dying.
///
/// A player may hold no intent of its own while input is awaited or a menu is open: a
/// second intent of the same kind would be a fault.
pub fn tick(gs: &mut World, state: RunState, cmd: Option<Command>) -> (r: RunState)
    requires
        old(gs).wf(),
        state == RunState::AwaitingInput || state == RunState::ShowInventory || state
            == RunState::ShowDropItem ==> player_intents_clear(*old(gs)),
    ensures
        final(gs).wf(),
        final(gs).player == old(gs).player,
        final(gs).entities@.len() == old(gs).entities@.len(),
        final(gs).map.tiles@ == old(gs).map.tiles@,
        final(gs).map.rooms@ == old(gs).map.rooms@,
        final(gs).map.width == old(gs).map.width,
        final(gs).map.height == old(gs).map.height,
        state == RunState::GameOver ==> r == RunState::GameOver && unchanged(*old(gs), *final(gs)),
        state != RunState::GameOver ==> exists|m: World|
            #[trigger] stage(state, cmd, *old(gs), m) && sweep_post(
                m,
                *final(gs),
                is_dying(m.entities@[m.player as int]),
            ) && r == (if is_dying(m.entities@[m.player as int]) {
                RunState::GameOver
            } else {
                next_state(state, cmd)
            }),
        r == RunState::AwaitingInput || r == RunState::ShowInventory || r == RunState::ShowDropItem
            ==> player_intents_clear(*final(gs)),
        (state == RunState::AwaitingInput || state == RunState::ShowInventory || state
            == RunState::ShowDropItem || state == RunState::SaveGame) && next_state(state, cmd)
            == state && none_dying(*old(gs)) ==> r == state && unchanged(*old(gs), *final(gs)),
{
    if state == RunState::GameOver {
        return RunState::GameOver;
    }
    let mut newrunstate = state;
    match state {
        RunState::PreRun => {
            gs.run_systems();
            newrunstate = RunState::AwaitingInput;
        },
        RunState::AwaitingInput => {
            newrunstate = player_input(gs, cmd);
        },
        RunState::PlayerTurn => {
            gs.run_systems();
            newrunstate = RunState::MonsterTurn;
        },
        RunState::MonsterTurn => {
            gs.run_systems();
            newrunstate = RunState::AwaitingInput;
        },
        RunState::ShowInventory | RunState::ShowDropItem => {
            match cmd {
                Some(Command::Select { item }) => {
                    let p = gs.player;
                    let pe = gs.entities[p];
                    if state == RunState::ShowInventory {
                        gs.entities.set(p, EntityData { wants_to_drink: Some(item), ..pe });
                    } else {
                        gs.entities.set(p, EntityData { wants_to_drop: Some(item), ..pe });
                    }
                    newrunstate = RunState::PlayerTurn;
                },
                Some(Command::Cancel) => {
                    newrunstate = RunState::AwaitingInput;
                },
                _ => {},
            }
        },
        _ => {},
    }
    let ghost mid = *gs;
    proof {
        assert(stage(state, cmd, *old(gs), mid));
        assert(newrunstate == next_state(state, cmd));
    }
    let player_dead = gs.delete_the_dead();
    proof {
        let p = mid.player as int;
        assert(gs.entities@[p] == mid.entities@[p]);
        if none_dying(*old(gs)) && (newrunstate == state || state == RunState::ShowInventory
            || state == RunState::ShowDropItem) && state != RunState::PreRun && state
            != RunState::PlayerTurn && state != RunState::MonsterTurn {
            assert forall|e: int| 0 <= e < mid.entities@.len() implies !is_dying(
                #[trigger] mid.entities@[e],
            ) by {
                assert(!is_dying(old(gs).entities@[e]));
            }
            assert(gs.entities@ =~= mid.entities@);
        }
    }
    if player_dead {
        RunState::GameOver
    } else {
        newrunstate
    }
}

} // verus!
