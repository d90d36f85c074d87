//! Spawning controllers: when and where the player, the enemies and
//! their lasers come into the world. Timing inputs (the clock, the
//! fire key, each enemy's random fire roll) are sampled by the host
//! and passed in as plain values; the rules that act on them live
//! here, with their contracts.

use vstd::prelude::*;

use crate::collision::player_index_from;
use crate::geom::{Size2i, Vec2i};
use crate::world::{
    at_most_one_player, ent_is_enemy, ents_ok, is_enemy, is_player, Entity, EnemyCount, Kind, LaserOrigin,
    World, ENEMY_MAX, FORMATION_MEMBERS_MAX, PLAYER_RESPAWN_DELAY,
};

verus! {

/// Hands out formation membership: a formation accepts members until
/// it is full, then a fresh formation is started.
#[derive(Clone, Copy, PartialEq, Eq, Structural, Debug)]
pub struct FormationMaker {
    /// Formation currently being filled.
    pub current_id: u32,
    /// Members the current formation already has.
    pub members: u32,
}

impl FormationMaker {
    /// A formation never holds more members than the cap.
    pub open spec fn wf(self) -> bool {
        self.members <= FORMATION_MEMBERS_MAX
    }

    /// Start with an empty first formation.
    pub fn new() -> (f: FormationMaker)
        ensures
            f.wf(),
            f.current_id == 0,
            f.members == 0,
    {
        FormationMaker { current_id: 0, members: 0 }
    }

    /// Enrol one new enemy: into the current formation while it has
    /// room, otherwise into a fresh formation of one; the formation
    /// the enemy joined is returned and never exceeds the cap.
    pub fn assign(&mut self) -> (id: u32)
        requires
            old(self).wf(),
            old(self).current_id < u32::MAX,
        ensures
            final(self).wf(),
            final(self).members >= 1,
            (if old(self).members < FORMATION_MEMBERS_MAX {
                final(self).current_id == old(self).current_id && final(self).members == old(
                    self,
                ).members + 1
            } else {
                final(self).current_id == old(self).current_id + 1 && final(self).members == 1
            }),
            id == final(self).current_id,
    {
        if self.members < FORMATION_MEMBERS_MAX {
            self.members = self.members + 1;
        } else {
            self.current_id = self.current_id + 1;
            self.members = 1;
        }
        self.current_id
    }
}

/// The player ship entity: moved by input-driven velocity, never
/// auto-despawned at the playfield bounds.
pub open spec fn spec_player_at(pos: Vec2i, size: Size2i) -> Entity {
    Entity {
        kind: Kind::Player,
        pos,
        size,
        vel: Vec2i { x: 0, y: 0 },
        movable: true,
        auto_despawn: false,
    }
}

/// An enemy ship entity in formation `formation`: holds its spot; the
/// movement integrator does not drive it.
pub open spec fn spec_enemy_at(pos: Vec2i, size: Size2i, formation: u32) -> Entity {
    Entity {
        kind: Kind::Enemy { formation },
        pos,
        size,
        vel: Vec2i { x: 0, y: 0 },
        movable: false,
        auto_despawn: false,
    }
}

/// A player-origin laser: flies straight up, auto-despawns at the
/// bounds.
pub open spec fn spec_player_laser_at(pos: Vec2i, size: Size2i) -> Entity {
    Entity {
        kind: Kind::Laser(LaserOrigin::FromPlayer),
        pos,
        size,
        vel: Vec2i { x: 0, y: 1 },
        movable: true,
        auto_despawn: true,
    }
}

/// An enemy-origin laser: flies straight down, auto-despawns at the
/// bounds.
pub open spec fn spec_enemy_laser_at(pos: Vec2i, size: Size2i) -> Entity {
    Entity {
        kind: Kind::Laser(LaserOrigin::FromEnemy),
        pos,
        size,
        vel: Vec2i { x: 0, y: -1i64 },
        movable: true,
        auto_despawn: true,
    }
}

/// The respawn policy: the player is due when not alive and either
/// never shot down (game start) or shot down at least the respawn
/// delay ago.
pub open spec fn player_spawn_due(ps: crate::world::PlayerState, now: int) -> bool {
    &&& !ps.on
    &&& (ps.last_shot == -1 || now - ps.last_shot >= PLAYER_RESPAWN_DELAY)
}

/// When the scan finds no player, there is none anywhere.
proof fn lemma_no_player(ents: Seq<Entity>, j: int)
    requires
        0 <= j <= ents.len(),
        player_index_from(ents, j) == None::<int>,
    ensures
        forall|i: int| j <= i < ents.len() ==> !is_player(#[trigger] ents[i]),
    decreases ents.len() - j,
{
    if j < ents.len() {
        lemma_no_player(ents, j + 1);
    }
}

/// The player controller's spawn rule, run once per tick.
///
/// When no player ship exists and the respawn policy is due, one
/// player entity is appended at the given position (the fixed screen
/// position chosen by the caller) and the player is recorded alive;
/// otherwise nothing changes. Spawning only into a player-free world
/// keeps "at most one player alive" an invariant.
pub fn player_spawn_system(w: &mut World, now: i64, pos: Vec2i, size: Size2i)
    requires
        old(w).wf(),
        now >= 0,
        size.w >= 0,
        size.h >= 0,
    ensures
        final(w).wf(),
        (if player_spawn_due(old(w).player, now as int) && player_index_from(old(w).ents@, 0)
            == None::<int> {
            final(w).ents@ == old(w).ents@ + seq![spec_player_at(pos, size)] && final(w).player.on
                == true && final(w).player.last_shot == -1
        } else {
            final(w).ents@ == old(w).ents@ && final(w).player == old(w).player
        }),
        at_most_one_player(old(w).ents@) ==> at_most_one_player(final(w).ents@),
        final(w).state == old(w).state,
        final(w).score == old(w).score,
        final(w).player_life == old(w).player_life,
        final(w).enemy_count == old(w).enemy_count,
        final(w).last_fire == old(w).last_fire,
{
    let ghost ents0 = w.ents@;
    let due = !w.player.on && (w.player.last_shot == -1 || now - w.player.last_shot
        >= PLAYER_RESPAWN_DELAY);
    if due {
        let found = crate::collision::find_player(&w.ents);
        if found.is_none() {
            let e = Entity {
                kind: Kind::Player,
                pos,
                size,
                vel: Vec2i { x: 0, y: 0 },
                movable: true,
                auto_despawn: false,
            };
            w.ents.push(e);
            w.player.spawned();
            proof {
                assert(w.ents@ =~= ents0 + seq![spec_player_at(pos, size)]);
                lemma_no_player(ents0, 0);
                assert forall|i: int, j: int|
                    0 <= i < w.ents@.len() && 0 <= j < w.ents@.len() && is_player(
                        #[trigger] w.ents@[i],
                    ) && is_player(#[trigger] w.ents@[j]) implies i == j by {
                    assert(i == ents0.len() && j == ents0.len());
                }
            }
        }
    }
}

/// The player controller's fire rule, run once per tick.
///
/// When the fire input is active, a player ship exists, and at least
/// `fire_interval` time units have passed since the last shot (or no
/// shot was fired yet), one player-origin laser of the given size is
/// appended at the player's position and the shot time is recorded;
/// otherwise nothing changes.
pub fn player_fire_system(w: &mut World, fire: bool, now: i64, fire_interval: i64, laser_size: Size2i)
    requires
        old(w).wf(),
        now >= 0,
        fire_interval >= 0,
        laser_size.w >= 0,
        laser_size.h >= 0,
    ensures
        final(w).wf(),
        (match player_index_from(old(w).ents@, 0) {
            Some(pi) => {
                if fire && (old(w).last_fire == -1 || now - old(w).last_fire >= fire_interval) {
                    final(w).ents@ == old(w).ents@ + seq![
                        spec_player_laser_at(old(w).ents@[pi].pos, laser_size),
                    ] && final(w).last_fire == now
                } else {
                    final(w).ents@ == old(w).ents@ && final(w).last_fire == old(w).last_fire
                }
            },
            None => final(w).ents@ == old(w).ents@ && final(w).last_fire == old(w).last_fire,
        }),
        at_most_one_player(old(w).ents@) ==> at_most_one_player(final(w).ents@),
        final(w).state == old(w).state,
        final(w).score == old(w).score,
        final(w).player_life == old(w).player_life,
        final(w).enemy_count == old(w).enemy_count,
        final(w).player == old(w).player,
{
    let ghost ents0 = w.ents@;
    let found = crate::collision::find_player(&w.ents);
    match found {
        None => {
        },
        Some(pi) => {
            if fire && (w.last_fire == -1 || now - w.last_fire >= fire_interval) {
                let ppos = w.ents[pi].pos;
                let e = Entity {
                    kind: Kind::Laser(LaserOrigin::FromPlayer),
                    pos: ppos,
                    size: laser_size,
                    vel: Vec2i { x: 0, y: 1 },
                    movable: true,
                    auto_despawn: true,
                };
                w.ents.push(e);
                w.last_fire = now;
                proof {
                    assert(w.ents@ =~= ents0 + seq![
                        spec_player_laser_at(ents0[pi as int].pos, laser_size),
                    ]);
                    assert forall|i: int, j: int|
                        at_most_one_player(ents0) && 0 <= i < w.ents@.len() && 0 <= j
                            < w.ents@.len() && is_player(#[trigger] w.ents@[i]) && is_player(
                            #[trigger] w.ents@[j],
                        ) implies i == j by {
                        assert(i < ents0.len() && j < ents0.len());
                    }
                }
            }
        },
    }
}

/// The formation controller's spawn rule.
///
/// Below the enemy cap, one enemy of the given size is appended at
/// the given position, enrolled in a formation by `fm`, and the enemy
/// count goes up by one; at the cap (or above), nothing is created
/// and nothing changes — the cap is never exceeded.
pub fn enemy_spawn_system(w: &mut World, fm: &mut FormationMaker, pos: Vec2i, size: Size2i)
    requires
        old(w).wf(),
        old(fm).wf(),
        old(fm).current_id < u32::MAX,
        size.w >= 0,
        size.h >= 0,
    ensures
        final(w).wf(),
        final(fm).wf(),
        (if old(w).enemy_count.0 < ENEMY_MAX {
            final(w).ents@ == old(w).ents@ + seq![
                spec_enemy_at(pos, size, final(fm).current_id),
            ] && final(w).enemy_count.0 == old(w).enemy_count.0 + 1
        } else {
            final(w).ents@ == old(w).ents@ && final(w).enemy_count.0 == old(w).enemy_count.0
                && *final(fm) == *old(fm)
        }),
        old(w).enemy_count.0 <= ENEMY_MAX ==> final(w).enemy_count.0 <= ENEMY_MAX,
        old(w).enemy_count.0 == ENEMY_MAX ==> final(w).ents@ == old(w).ents@,
        at_most_one_player(old(w).ents@) ==> at_most_one_player(final(w).ents@),
        final(w).state == old(w).state,
        final(w).score == old(w).score,
        final(w).player_life == old(w).player_life,
        final(w).player == old(w).player,
        final(w).last_fire == old(w).last_fire,
{
    let ghost ents0 = w.ents@;
    if w.enemy_count.0 < ENEMY_MAX {
        let id = fm.assign();
        let e = Entity {
            kind: Kind::Enemy { formation: id },
            pos,
            size,
            vel: Vec2i { x: 0, y: 0 },
            movable: false,
            auto_despawn: false,
        };
        w.ents.push(e);
        w.enemy_count = EnemyCount(w.enemy_count.0 + 1);
        proof {
            assert(w.ents@ =~= ents0 + seq![spec_enemy_at(pos, size, fm.current_id)]);
            assert forall|i: int, j: int|
                at_most_one_player(ents0) && 0 <= i < w.ents@.len() && 0 <= j < w.ents@.len()
                    && is_player(#[trigger] w.ents@[i]) && is_player(
                    #[trigger] w.ents@[j],
                ) implies i == j by {
                assert(i < ents0.len() && j < ents0.len());
            }
        }
    }
}

/// The enemy lasers fired this tick: one per enemy whose fire roll
/// came up, at that enemy's position, in enemy order.
pub open spec fn enemy_lasers_from(
    ents: Seq<Entity>,
    rolls: Seq<bool>,
    size: Size2i,
    i: int,
) -> Seq<Entity>
    decreases ents.len() - i,
{
    if i < 0 || i >= ents.len() {
        Seq::empty()
    } else {
        let rest = enemy_lasers_from(ents, rolls, size, i + 1);
        if is_enemy(ents[i]) && rolls[i] {
            seq![spec_enemy_laser_at(ents[i].pos, size)] + rest
        } else {
            rest
        }
    }
}

/// The enemy controller's fire rule, run once per tick.
///
/// `rolls[i]` is the host-sampled random outcome for entity `i`; a
/// roll for anything but an enemy is ignored. Each enemy whose roll
/// came up fires one laser of the given size downward from its
/// position; the lasers are appended after the existing entities in
/// enemy order. This holds whatever the rolls are: the rule is
/// verified for every outcome of the randomness.
pub fn enemy_fire_system(w: &mut World, rolls: &Vec<bool>, laser_size: Size2i)
    requires
        old(w).wf(),
        rolls@.len() == old(w).ents@.len(),
        laser_size.w >= 0,
        laser_size.h >= 0,
    ensures
        final(w).wf(),
        final(w).ents@ == old(w).ents@ + enemy_lasers_from(
            old(w).ents@,
            rolls@,
            laser_size,
            0,
        ),
        at_most_one_player(old(w).ents@) ==> at_most_one_player(final(w).ents@),
        final(w).state == old(w).state,
        final(w).score == old(w).score,
        final(w).player_life == old(w).player_life,
        final(w).enemy_count == old(w).enemy_count,
        final(w).player == old(w).player,
        final(w).last_fire == old(w).last_fire,
{
    let ghost ents0 = w.ents@;
    let n = w.ents.len();
    let mut shots: Vec<Entity> = Vec::new();
    let mut i: usize = 0;
    while i < n
        invariant
            i <= n,
            n == ents0.len(),
            w.ents@ == ents0,
            ents_ok(ents0),
            rolls@.len() == n,
            laser_size.w >= 0,
            laser_size.h >= 0,
            enemy_lasers_from(ents0, rolls@, laser_size, 0) == shots@ + enemy_lasers_from(
                ents0,
                rolls@,
                laser_size,
                i as int,
            ),
            ents_ok(shots@),
            forall|k: int| 0 <= k < shots@.len() ==> !is_player(#[trigger] shots@[k]),
        decreases n - i,
    {
        let e = w.ents[i];
        let ghost shots_pre = shots@;
        if ent_is_enemy(&e) && rolls[i] {
            shots.push(
                Entity {
                    kind: Kind::Laser(LaserOrigin::FromEnemy),
                    pos: e.pos,
                    size: laser_size,
                    vel: Vec2i { x: 0, y: -1 },
                    movable: true,
                    auto_despawn: true,
                },
            );
            proof {
                assert(shots@ =~= shots_pre + seq![
                    spec_enemy_laser_at(ents0[i as int].pos, laser_size),
                ]);
                assert(shots_pre + (seq![spec_enemy_laser_at(ents0[i as int].pos, laser_size)]
                    + enemy_lasers_from(ents0, rolls@, laser_size, i as int + 1)) =~= (shots_pre
                    + seq![spec_enemy_laser_at(ents0[i as int].pos, laser_size)])
                    + enemy_lasers_from(ents0, rolls@, laser_size, i as int + 1));
            }
        }
        i += 1;
    }
    proof {
        assert(enemy_lasers_from(ents0, rolls@, laser_size, n as int) == Seq::<Entity>::empty());
        assert(shots@ + Seq::<Entity>::empty() =~= shots@);
    }
    let ghost all_shots = shots@;
    let m = shots.len();
    let mut q: usize = 0;
    while q < m
        invariant
            q <= m,
            m == all_shots.len(),
            shots@ == all_shots,
            w.ents@ == ents0 + all_shots.take(q as int),
            ents_ok(ents0),
            ents_ok(all_shots),
            ents_ok(w.ents@),
            w.state == old(w).state,
            w.score == old(w).score,
            w.player_life == old(w).player_life,
            w.enemy_count == old(w).enemy_count,
            w.player == old(w).player,
            w.last_fire == old(w).last_fire,
            old(w).wf(),
        decreases m - q,
    {
        let s = shots[q];
        w.ents.push(s);
        proof {
            assert(crate::world::ent_ok(all_shots[q as int]));
            assert(w.ents@ =~= ents0 + all_shots.take(q as int + 1));
        }
        q += 1;
    }
    proof {
        assert(all_shots.take(m as int) =~= all_shots);
        assert(w.ents@ =~= ents0 + all_shots);
        assert forall|i2: int, j2: int|
            at_most_one_player(ents0) && 0 <= i2 < w.ents@.len() && 0 <= j2 < w.ents@.len()
                && is_player(#[trigger] w.ents@[i2]) && is_player(
                #[trigger] w.ents@[j2],
            ) implies i2 == j2 by {
            assert(i2 < ents0.len() && j2 < ents0.len());
        }
    }
}

} // verus!
