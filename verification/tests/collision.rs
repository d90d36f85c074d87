use invaders::collision::{enemy_laser_hit_player_system, player_laser_hit_enemy_system};
use invaders::geom::{Size2i, Vec2i};
use invaders::world::{
    Entity, EnemyCount, GameState, Kind, LaserOrigin, PlayerLife, World,
};

fn ent(kind: Kind, x: i64, y: i64, w: i64, h: i64) -> Entity {
    Entity {
        kind,
        pos: Vec2i { x, y },
        size: Size2i { w, h },
        vel: Vec2i { x: 0, y: 0 },
        movable: false,
        auto_despawn: false,
    }
}

#[test]
fn one_laser_two_enemies_destroys_exactly_one() {
    let mut w = World::new();
    w.ents.push(ent(Kind::Laser(LaserOrigin::FromPlayer), 0, 0, 2, 10));
    w.ents.push(ent(Kind::Enemy { formation: 0 }, 0, 0, 10, 10));
    w.ents.push(ent(Kind::Enemy { formation: 0 }, 1, 1, 10, 10));
    w.enemy_count = EnemyCount(2);
    player_laser_hit_enemy_system(&mut w);
    // The laser and the first enemy are gone; the second enemy
    // survives; one explosion request sits at the destroyed enemy.
    assert_eq!(w.ents.len(), 2);
    assert!(matches!(w.ents[0].kind, Kind::Enemy { .. }));
    assert_eq!(w.ents[0].pos, Vec2i { x: 1, y: 1 });
    assert!(matches!(w.ents[1].kind, Kind::ExplosionToSpawn));
    assert_eq!(w.ents[1].pos, Vec2i { x: 0, y: 0 });
    // Exactly one hit: score +1, enemy count -1.
    assert_eq!(w.score.0, 1);
    assert_eq!(w.enemy_count.0, 1);
}

#[test]
fn two_lasers_two_enemies_destroy_both() {
    let mut w = World::new();
    w.ents.push(ent(Kind::Laser(LaserOrigin::FromPlayer), 0, 0, 2, 10));
    w.ents.push(ent(Kind::Laser(LaserOrigin::FromPlayer), 50, 0, 2, 10));
    w.ents.push(ent(Kind::Enemy { formation: 0 }, 0, 0, 10, 10));
    w.ents.push(ent(Kind::Enemy { formation: 1 }, 50, 0, 10, 10));
    w.enemy_count = EnemyCount(2);
    player_laser_hit_enemy_system(&mut w);
    assert_eq!(w.score.0, 2);
    assert_eq!(w.enemy_count.0, 0);
    assert_eq!(w.ents.len(), 2);
    assert!(matches!(w.ents[0].kind, Kind::ExplosionToSpawn));
    assert!(matches!(w.ents[1].kind, Kind::ExplosionToSpawn));
}

#[test]
fn missed_laser_hits_nothing() {
    let mut w = World::new();
    w.ents.push(ent(Kind::Laser(LaserOrigin::FromPlayer), 100, 100, 2, 10));
    w.ents.push(ent(Kind::Enemy { formation: 0 }, 0, 0, 10, 10));
    w.enemy_count = EnemyCount(1);
    player_laser_hit_enemy_system(&mut w);
    assert_eq!(w.ents.len(), 2);
    assert_eq!(w.score.0, 0);
    assert_eq!(w.enemy_count.0, 1);
}

#[test]
fn enemy_count_floors_at_zero() {
    let mut w = World::new();
    w.ents.push(ent(Kind::Laser(LaserOrigin::FromPlayer), 0, 0, 2, 10));
    w.ents.push(ent(Kind::Enemy { formation: 0 }, 0, 0, 10, 10));
    // Counter already desynchronized at zero: the decrement clamps.
    w.enemy_count = EnemyCount(0);
    player_laser_hit_enemy_system(&mut w);
    assert_eq!(w.score.0, 1);
    assert_eq!(w.enemy_count.0, 0);
}

#[test]
fn last_life_hit_moves_to_end_and_floors_at_zero() {
    let mut w = World::new();
    w.ents.push(ent(Kind::Player, 0, 0, 10, 10));
    w.ents.push(ent(Kind::Laser(LaserOrigin::FromEnemy), 0, 0, 2, 2));
    w.player_life = PlayerLife(1);
    w.player.spawned();
    enemy_laser_hit_player_system(&mut w, 7);
    // Life reads zero, never negative, and the round is over.
    assert_eq!(w.player_life.0, 0);
    assert_eq!(w.state, GameState::End);
    // Player and laser destroyed; the explosion marks the player.
    assert_eq!(w.ents.len(), 1);
    assert!(matches!(w.ents[0].kind, Kind::ExplosionToSpawn));
    assert_eq!(w.ents[0].pos, Vec2i { x: 0, y: 0 });
    // The death is recorded.
    assert!(!w.player.on);
    assert_eq!(w.player.last_shot, 7);
}

#[test]
fn hit_with_lives_left_stays_in_game() {
    let mut w = World::new();
    w.ents.push(ent(Kind::Player, 0, 0, 10, 10));
    w.ents.push(ent(Kind::Laser(LaserOrigin::FromEnemy), 0, 0, 2, 2));
    w.player.spawned();
    enemy_laser_hit_player_system(&mut w, 3);
    assert_eq!(w.player_life.0, 2);
    assert_eq!(w.state, GameState::Game);
    assert_eq!(w.ents.len(), 1);
}

#[test]
fn only_first_enemy_laser_hit_is_processed() {
    let mut w = World::new();
    w.ents.push(ent(Kind::Player, 0, 0, 10, 10));
    w.ents.push(ent(Kind::Laser(LaserOrigin::FromEnemy), 0, 0, 2, 2));
    w.ents.push(ent(Kind::Laser(LaserOrigin::FromEnemy), 1, 1, 2, 2));
    w.player.spawned();
    enemy_laser_hit_player_system(&mut w, 1);
    // One hit only: the second overlapping laser is left alone.
    assert_eq!(w.player_life.0, 2);
    assert_eq!(w.ents.len(), 2);
    assert!(matches!(w.ents[0].kind, Kind::Laser(LaserOrigin::FromEnemy)));
    assert_eq!(w.ents[0].pos, Vec2i { x: 1, y: 1 });
    assert!(matches!(w.ents[1].kind, Kind::ExplosionToSpawn));
}

#[test]
fn no_player_means_no_work() {
    let mut w = World::new();
    w.ents.push(ent(Kind::Laser(LaserOrigin::FromEnemy), 0, 0, 2, 2));
    enemy_laser_hit_player_system(&mut w, 1);
    assert_eq!(w.ents.len(), 1);
    assert_eq!(w.player_life.0, 3);
    assert_eq!(w.state, GameState::Game);
}
