use invaders::flow::{despawn_all, game_tick, restart_game};
use invaders::geom::{Size2i, Vec2i};
use invaders::world::{
    Entity, EnemyCount, GameState, Kind, LaserOrigin, PlayerLife, WinSize, World,
    PLAYER_MAX_LIFE,
};

fn ent(kind: Kind, x: i64, y: i64, w: i64, h: i64) -> Entity {
    Entity {
        kind,
        pos: Vec2i { x, y },
        size: Size2i { w, h },
        vel: Vec2i { x: 0, y: 0 },
        movable: false,
        auto_despawn: false,
    }
}

fn ws() -> WinSize {
    WinSize { w: 598, h: 676 }
}

#[test]
fn despawn_all_wipes_every_entity_kind() {
    let mut w = World::new();
    w.ents.push(ent(Kind::Player, 0, 0, 10, 10));
    w.ents.push(ent(Kind::Enemy { formation: 0 }, 1, 1, 10, 10));
    w.ents.push(ent(Kind::Laser(LaserOrigin::FromPlayer), 2, 2, 2, 2));
    w.ents.push(ent(Kind::Laser(LaserOrigin::FromEnemy), 3, 3, 2, 2));
    w.ents.push(ent(Kind::ExplosionToSpawn, 4, 4, 0, 0));
    w.ents.push(ent(Kind::Explosion { frame: 3, elapsed: 1 }, 5, 5, 0, 0));
    w.score = invaders::world::GameScore(9);
    despawn_all(&mut w);
    assert_eq!(w.ents.len(), 0);
    // The wipe destroys entities, not counters.
    assert_eq!(w.score.0, 9);
}

#[test]
fn restart_resets_counters_and_returns_to_game() {
    let mut w = World::new();
    w.state = GameState::End;
    w.score = invaders::world::GameScore(42);
    w.enemy_count = EnemyCount(7);
    w.player_life = PlayerLife(0);
    restart_game(&mut w, true);
    assert_eq!(w.score.0, 0);
    assert_eq!(w.enemy_count.0, 0);
    assert_eq!(w.player_life.0, PLAYER_MAX_LIFE);
    assert_eq!(w.state, GameState::Game);
    assert_eq!(w.ents.len(), 0);
}

#[test]
fn restart_needs_the_input_and_the_end_state() {
    let mut w = World::new();
    w.state = GameState::End;
    w.score = invaders::world::GameScore(42);
    restart_game(&mut w, false);
    assert_eq!(w.score.0, 42);
    assert_eq!(w.state, GameState::End);
    // In Game the restart input does nothing.
    let mut g = World::new();
    g.score = invaders::world::GameScore(5);
    restart_game(&mut g, true);
    assert_eq!(g.score.0, 5);
    assert_eq!(g.state, GameState::Game);
}

#[test]
fn tick_runs_movement_collision_and_explosions_in_order() {
    let mut w = World::new();
    // A player laser sitting on an enemy: this tick destroys both,
    // and phase one converts the request into an animation at once.
    w.ents.push(ent(Kind::Laser(LaserOrigin::FromPlayer), 0, 50, 2, 10));
    w.ents.push(ent(Kind::Enemy { formation: 0 }, 0, 50, 10, 10));
    w.enemy_count = EnemyCount(1);
    game_tick(&mut w, &ws(), 0, 0);
    assert_eq!(w.score.0, 1);
    assert_eq!(w.enemy_count.0, 0);
    assert_eq!(w.ents.len(), 1);
    assert!(matches!(w.ents[0].kind, Kind::Explosion { .. }));
    assert_eq!(w.ents[0].pos, Vec2i { x: 0, y: 50 });
    assert_eq!(w.state, GameState::Game);
}

#[test]
fn tick_moves_lasers_before_resolving_hits() {
    let mut w = World::new();
    // The laser starts out of range and closes the gap this tick:
    // movement runs first, so the hit lands.
    let mut laser = ent(Kind::Laser(LaserOrigin::FromPlayer), 0, 34, 2, 10);
    laser.movable = true;
    laser.auto_despawn = true;
    laser.vel = Vec2i { x: 0, y: 2 };
    w.ents.push(laser);
    w.ents.push(ent(Kind::Enemy { formation: 0 }, 0, 55, 10, 10));
    w.enemy_count = EnemyCount(1);
    game_tick(&mut w, &ws(), 8, 0);
    assert_eq!(w.score.0, 1);
    assert_eq!(w.enemy_count.0, 0);
}

#[test]
fn losing_the_last_life_ends_and_wipes_the_round() {
    let mut w = World::new();
    w.ents.push(ent(Kind::Player, 0, -50, 10, 10));
    w.ents.push(ent(Kind::Enemy { formation: 0 }, 0, 100, 10, 10));
    w.ents.push(ent(Kind::Laser(LaserOrigin::FromEnemy), 0, -50, 2, 2));
    w.enemy_count = EnemyCount(1);
    w.player_life = PlayerLife(1);
    w.player.spawned();
    game_tick(&mut w, &ws(), 0, 30);
    // Game over: life at zero, End state, and the exit from Game
    // wiped every entity — enemies and explosions included.
    assert_eq!(w.player_life.0, 0);
    assert_eq!(w.state, GameState::End);
    assert_eq!(w.ents.len(), 0);
    assert!(!w.player.on);
    assert_eq!(w.player.last_shot, 30);
}

#[test]
fn full_round_then_restart_gives_a_fresh_game() {
    let mut w = World::new();
    w.ents.push(ent(Kind::Player, 0, -50, 10, 10));
    w.ents.push(ent(Kind::Laser(LaserOrigin::FromEnemy), 0, -50, 2, 2));
    w.player_life = PlayerLife(1);
    w.player.spawned();
    w.score = invaders::world::GameScore(13);
    w.enemy_count = EnemyCount(4);
    game_tick(&mut w, &ws(), 0, 99);
    assert_eq!(w.state, GameState::End);
    restart_game(&mut w, true);
    // A fresh round: initial counters, Game state, no leftover
    // Player, Enemy, Laser or Explosion entities.
    assert_eq!(w.score.0, 0);
    assert_eq!(w.enemy_count.0, 0);
    assert_eq!(w.player_life.0, PLAYER_MAX_LIFE);
    assert_eq!(w.state, GameState::Game);
    assert_eq!(w.ents.len(), 0);
}
