//! Game-flow state machine: which systems run is gated on
//! {Splash, Game, End}; leaving Game tears the whole world down, and a
//! restart from End begins a fresh round. `game_tick` strings the
//! per-tick systems together in the required order.

use vstd::prelude::*;

use crate::collision::{
    enemy_laser_hit_player_system, hit_laser_from, laser_enemy_pass, lemma_resolve_bounds,
    player_index_from, player_laser_hit_enemy_system, requests_at, survivors_from,
};
use crate::explosion::{
    anim_step_from, anims_from, explosion_animation_system, explosion_to_spawn_system,
    without_requests_from,
};
use crate::movement::{movable_system, move_and_cull, move_and_cull_from, movement_fits};
use crate::world::{
    at_most_one_player, spec_explosion_request_at, Entity, GameState, PlayerState, WinSize,
    World, PLAYER_MAX_LIFE,
};

verus! {

/// Ghost snapshot of a session: the entity list and the counters as
/// mathematical values. The per-tick systems are specified as
/// functions from snapshot to snapshot.
#[verifier::ext_equal]
pub struct WorldView {
    pub ents: Seq<Entity>,
    pub state: GameState,
    pub score: int,
    pub life: int,
    pub enemy_count: int,
    pub player: PlayerState,
    pub last_fire: int,
}

impl World {
    /// The snapshot this session denotes.
    pub open spec fn model(self) -> WorldView {
        WorldView {
            ents: self.ents@,
            state: self.state,
            score: self.score.0 as int,
            life: self.player_life.0 as int,
            enemy_count: self.enemy_count.0 as int,
            player: self.player,
            last_fire: self.last_fire as int,
        }
    }
}

/// One movement tick (see `movable_system`).
pub open spec fn spec_move(v: WorldView, ws: WinSize, step: int) -> WorldView {
    WorldView { ents: move_and_cull(v.ents, step, ws), ..v }
}

/// One laser-vs-enemy pass (see `player_laser_hit_enemy_system`).
pub open spec fn spec_laser_enemy(v: WorldView) -> WorldView {
    let pass = laser_enemy_pass(v.ents);
    WorldView {
        ents: survivors_from(v.ents, 0, pass.handled) + requests_at(pass.explosions),
        score: v.score + pass.hits,
        enemy_count: if pass.hits >= v.enemy_count {
            0
        } else {
            v.enemy_count - pass.hits
        },
        ..v
    }
}

/// One laser-vs-player pass (see `enemy_laser_hit_player_system`).
pub open spec fn spec_laser_player(v: WorldView, now: i64) -> WorldView {
    match player_index_from(v.ents, 0) {
        None => v,
        Some(pi) => match hit_laser_from(v.ents, pi, 0) {
            None => v,
            Some(lj) => {
                let life2 = if v.life > 0 {
                    v.life - 1
                } else {
                    0int
                };
                WorldView {
                    ents: survivors_from(v.ents, 0, set![pi, lj]) + seq![
                        spec_explosion_request_at(v.ents[pi].pos),
                    ],
                    state: if life2 == 0 {
                        GameState::End
                    } else {
                        v.state
                    },
                    life: life2,
                    player: PlayerState { on: false, last_shot: now },
                    ..v
                }
            },
        },
    }
}

/// Explosion phase one (see `explosion_to_spawn_system`).
pub open spec fn spec_explosion_spawn(v: WorldView) -> WorldView {
    WorldView { ents: without_requests_from(v.ents, 0) + anims_from(v.ents, 0), ..v }
}

/// Explosion phase two (see `explosion_animation_system`).
pub open spec fn spec_explosion_anim(v: WorldView) -> WorldView {
    WorldView { ents: anim_step_from(v.ents, 0), ..v }
}

/// The hard wipe on leaving the Game state: every gameplay entity is
/// destroyed unconditionally; counters stay for the End screen.
pub open spec fn spec_exit_wipe(v: WorldView) -> WorldView {
    if v.state is End {
        WorldView { ents: Seq::empty(), ..v }
    } else {
        v
    }
}

/// One whole Game-state tick: movement, then the two collision
/// passes, then the explosion lifecycle, then — if the round ended —
/// the teardown on exiting Game.
pub open spec fn spec_tick(v: WorldView, ws: WinSize, step: int, now: i64) -> WorldView {
    spec_exit_wipe(
        spec_explosion_anim(
            spec_explosion_spawn(spec_laser_player(spec_laser_enemy(spec_move(v, ws, step)), now)),
        ),
    )
}

/// Culling never lengthens the entity list.
pub proof fn lemma_move_cull_len(ents: Seq<Entity>, i: int, step: int, ws: WinSize)
    requires
        0 <= i <= ents.len(),
    ensures
        move_and_cull_from(ents, i, step, ws).len() <= ents.len() - i,
    decreases ents.len() - i,
{
    if i < ents.len() {
        lemma_move_cull_len(ents, i + 1, step, ws);
    }
}

/// The teardown on any exit from the Game state: all Player, Enemy,
/// Laser and Explosion entities are destroyed unconditionally — a
/// hard wipe, not a graceful wait for animations. Counters, flow
/// state and player bookkeeping survive the wipe.
pub fn despawn_all(w: &mut World)
    requires
        old(w).wf(),
    ensures
        final(w).wf(),
        final(w).ents@ == Seq::<Entity>::empty(),
        at_most_one_player(final(w).ents@),
        final(w).state == old(w).state,
        final(w).score == old(w).score,
        final(w).player_life == old(w).player_life,
        final(w).enemy_count == old(w).enemy_count,
        final(w).player == old(w).player,
        final(w).last_fire == old(w).last_fire,
{
    w.ents = Vec::new();
}

/// What a restart request does to a session.
pub open spec fn spec_restart(v: WorldView, restart: bool) -> WorldView {
    if restart && v.state is End {
        WorldView {
            score: 0,
            enemy_count: 0,
            life: PLAYER_MAX_LIFE as int,
            state: GameState::Game,
            ..v
        }
    } else {
        v
    }
}

/// The restart rule, run while the flow state is End.
///
/// On the restart input, the score and the enemy count return to
/// zero, the player's life to its starting value, and the flow state
/// to Game; without the input nothing changes. Entities are not
/// touched here: the wipe on exiting Game already emptied the world.
pub fn restart_game(w: &mut World, restart: bool)
    requires
        old(w).wf(),
    ensures
        final(w).wf(),
        final(w).model() == spec_restart(old(w).model(), restart),
        final(w).ents@ == old(w).ents@,
        final(w).player == old(w).player,
        final(w).last_fire == old(w).last_fire,
{
    let is_end = match w.state {
        GameState::End => true,
        _ => false,
    };
    if restart && is_end {
        w.score = crate::world::GameScore(0);
        w.enemy_count = crate::world::EnemyCount(0);
        w.player_life = crate::world::PlayerLife(PLAYER_MAX_LIFE);
        w.state = GameState::Game;
        proof {
            assert(final(w).model() =~= spec_restart(old(w).model(), restart));
        }
    } else {
        proof {
            assert(final(w).model() =~= spec_restart(old(w).model(), restart));
        }
    }
}

/// Restart law: once a round has ended (the exit from Game wiped the
/// world empty) a restart starts a fresh round — score and enemy
/// count zero, full life, state Game, and no leftover Player, Enemy,
/// Laser or Explosion entities.
pub proof fn lemma_restart_fresh(v: WorldView)
    requires
        v.state is End,
        v.ents.len() == 0,
    ensures
        spec_restart(v, true).score == 0,
        spec_restart(v, true).enemy_count == 0,
        spec_restart(v, true).life == PLAYER_MAX_LIFE,
        spec_restart(v, true).state is Game,
        spec_restart(v, true).ents.len() == 0,
{
}

/// One full simulation tick while the flow state is Game, in the
/// required order: movement, collision resolution (lasers against
/// enemies, then enemy lasers against the player), the explosion
/// lifecycle, and — if the player's last life was taken this tick —
/// the unconditional teardown on leaving the Game state. The
/// spawning controllers run before this, at the host's own timing
/// policy. The score never goes down during a tick, and whenever the
/// tick ends in the End state the world holds no entities.
pub fn game_tick(w: &mut World, ws: &WinSize, step: i64, now: i64)
    requires
        old(w).wf(),
        ws.wf(),
        now >= 0,
        old(w).state == GameState::Game,
        movement_fits(old(w).ents@, step as int),
        old(w).score.0 + old(w).ents@.len() <= u32::MAX,
    ensures
        final(w).wf(),
        final(w).model() == spec_tick(old(w).model(), *ws, step as int, now),
        final(w).score.0 >= old(w).score.0,
        final(w).state is End ==> final(w).ents@.len() == 0,
        at_most_one_player(old(w).ents@) ==> at_most_one_player(final(w).ents@),
{
    let ghost v0 = old(w).model();
    let ghost v1 = spec_move(v0, *ws, step as int);
    let ghost v2 = spec_laser_enemy(v1);
    let ghost v3 = spec_laser_player(v2, now);
    let ghost v4 = spec_explosion_spawn(v3);
    let ghost v5 = spec_explosion_anim(v4);

    movable_system(w, ws, step);
    proof {
        lemma_move_cull_len(old(w).ents@, 0, step as int, *ws);
        assert(w.model() =~= v1);
        lemma_resolve_bounds(v1.ents, 0, Set::empty());
    }
    player_laser_hit_enemy_system(w);
    proof {
        assert(w.model() =~= v2);
    }
    enemy_laser_hit_player_system(w, now);
    proof {
        assert(w.model() =~= v3);
    }
    explosion_to_spawn_system(w);
    proof {
        assert(w.model() =~= v4);
    }
    explosion_animation_system(w);
    proof {
        assert(w.model() =~= v5);
    }
    let ended = match w.state {
        GameState::End => true,
        _ => false,
    };
    if ended {
        despawn_all(w);
    }
    proof {
        assert(w.model() =~= spec_exit_wipe(v5));
    }
}

} // verus!
