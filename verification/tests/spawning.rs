use invaders::geom::{Size2i, Vec2i};
use invaders::spawn::{
    enemy_fire_system, enemy_spawn_system, player_fire_system, player_spawn_system,
    FormationMaker,
};
use invaders::world::{Entity, EnemyCount, Kind, LaserOrigin, World, ENEMY_MAX};

fn sz(w: i64, h: i64) -> Size2i {
    Size2i { w, h }
}

fn v(x: i64, y: i64) -> Vec2i {
    Vec2i { x, y }
}

#[test]
fn player_spawns_immediately_at_game_start() {
    let mut w = World::new();
    player_spawn_system(&mut w, 0, v(0, -100), sz(72, 37));
    assert_eq!(w.ents.len(), 1);
    assert!(matches!(w.ents[0].kind, Kind::Player));
    assert_eq!(w.ents[0].pos, v(0, -100));
    assert!(w.player.on);
}

#[test]
fn player_respawns_only_after_the_delay() {
    let mut w = World::new();
    w.player.shot(10);
    // One time unit after the death: too early.
    player_spawn_system(&mut w, 11, v(0, -100), sz(72, 37));
    assert_eq!(w.ents.len(), 0);
    assert!(!w.player.on);
    // Exactly the respawn delay later: due.
    player_spawn_system(&mut w, 12, v(0, -100), sz(72, 37));
    assert_eq!(w.ents.len(), 1);
    assert!(w.player.on);
}

#[test]
fn no_second_player_is_ever_spawned() {
    let mut w = World::new();
    player_spawn_system(&mut w, 0, v(0, 0), sz(10, 10));
    assert_eq!(w.ents.len(), 1);
    // The flag says dead, but a ship still exists: no spawn.
    w.player.shot(0);
    player_spawn_system(&mut w, 50, v(0, 0), sz(10, 10));
    assert_eq!(w.ents.len(), 1);
}

#[test]
fn fire_needs_input_ship_and_cooldown() {
    let mut w = World::new();
    player_spawn_system(&mut w, 0, v(3, -50), sz(10, 10));
    // First shot goes out at once and is recorded.
    player_fire_system(&mut w, true, 0, 5, sz(2, 10));
    assert_eq!(w.ents.len(), 2);
    assert!(matches!(w.ents[1].kind, Kind::Laser(LaserOrigin::FromPlayer)));
    assert_eq!(w.ents[1].pos, v(3, -50));
    assert_eq!(w.last_fire, 0);
    // Within the interval: no shot, even with the input held.
    player_fire_system(&mut w, true, 3, 5, sz(2, 10));
    assert_eq!(w.ents.len(), 2);
    // At the interval: the next shot goes out.
    player_fire_system(&mut w, true, 5, 5, sz(2, 10));
    assert_eq!(w.ents.len(), 3);
    // No input: nothing, whatever the clock says.
    player_fire_system(&mut w, false, 100, 5, sz(2, 10));
    assert_eq!(w.ents.len(), 3);
}

#[test]
fn enemies_spawn_up_to_the_cap_and_never_past_it() {
    let mut w = World::new();
    let mut fm = FormationMaker::new();
    for _ in 0..ENEMY_MAX {
        enemy_spawn_system(&mut w, &mut fm, v(0, 50), sz(72, 37));
    }
    assert_eq!(w.ents.len(), ENEMY_MAX as usize);
    assert_eq!(w.enemy_count.0, ENEMY_MAX);
    // At the cap: the controller creates nothing.
    enemy_spawn_system(&mut w, &mut fm, v(0, 50), sz(72, 37));
    assert_eq!(w.ents.len(), ENEMY_MAX as usize);
    assert_eq!(w.enemy_count.0, ENEMY_MAX);
}

#[test]
fn formations_hold_at_most_two_members() {
    let mut w = World::new();
    let mut fm = FormationMaker::new();
    for _ in 0..5 {
        enemy_spawn_system(&mut w, &mut fm, v(0, 50), sz(72, 37));
    }
    let mut formations: Vec<u32> = Vec::new();
    for e in &w.ents {
        match e.kind {
            Kind::Enemy { formation } => formations.push(formation),
            _ => panic!("expected only enemies"),
        }
    }
    // Two members join each formation before the next one starts.
    assert_eq!(formations, vec![0, 0, 1, 1, 2]);
}

#[test]
fn desynchronized_count_above_cap_still_blocks_spawning() {
    let mut w = World::new();
    let mut fm = FormationMaker::new();
    w.enemy_count = EnemyCount(ENEMY_MAX);
    enemy_spawn_system(&mut w, &mut fm, v(0, 0), sz(10, 10));
    assert_eq!(w.ents.len(), 0);
    assert_eq!(w.enemy_count.0, ENEMY_MAX);
}

#[test]
fn each_rolled_enemy_fires_one_laser_downward() {
    let mut w = World::new();
    let mut fm = FormationMaker::new();
    enemy_spawn_system(&mut w, &mut fm, v(-20, 50), sz(10, 10));
    enemy_spawn_system(&mut w, &mut fm, v(20, 50), sz(10, 10));
    player_spawn_system(&mut w, 0, v(0, -50), sz(10, 10));
    // Rolls per entity index: first enemy yes, second no; the roll
    // aligned with the player is ignored.
    let rolls = vec![true, false, true];
    enemy_fire_system(&mut w, &rolls, sz(2, 10));
    assert_eq!(w.ents.len(), 4);
    let laser = w.ents[3];
    assert!(matches!(laser.kind, Kind::Laser(LaserOrigin::FromEnemy)));
    assert_eq!(laser.pos, v(-20, 50));
    assert_eq!(laser.vel, v(0, -1));
    assert!(laser.auto_despawn);
}

#[test]
fn no_rolls_no_lasers() {
    let mut w = World::new();
    let mut fm = FormationMaker::new();
    enemy_spawn_system(&mut w, &mut fm, v(0, 50), sz(10, 10));
    let rolls = vec![false];
    enemy_fire_system(&mut w, &rolls, sz(2, 10));
    assert_eq!(w.ents.len(), 1);
}

#[test]
fn player_entity_is_movable_without_auto_despawn() {
    let mut w = World::new();
    player_spawn_system(&mut w, 0, v(0, 0), sz(10, 10));
    let p = w.ents[0];
    assert!(p.movable);
    assert!(!p.auto_despawn);
    // A fired laser auto-despawns and flies up.
    player_fire_system(&mut w, true, 0, 1, sz(2, 10));
    let l = w.ents[1];
    assert!(l.movable);
    assert!(l.auto_despawn);
    assert_eq!(l.vel, v(0, 1));
}
