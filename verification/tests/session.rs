use invaders::world::{GameState, PlayerState, World, PLAYER_MAX_LIFE};

#[test]
fn a_new_session_starts_clean_in_game() {
    let w = World::new();
    assert_eq!(w.ents.len(), 0);
    assert_eq!(w.state, GameState::Game);
    assert_eq!(w.score.0, 0);
    assert_eq!(w.player_life.0, PLAYER_MAX_LIFE);
    assert_eq!(w.enemy_count.0, 0);
    assert!(!w.player.on);
    assert_eq!(w.player.last_shot, -1);
    assert_eq!(w.last_fire, -1);
}

#[test]
fn default_player_state_was_never_shot() {
    let ps = PlayerState::default();
    assert!(!ps.on);
    assert_eq!(ps.last_shot, -1);
}

#[test]
fn shot_records_the_death_time() {
    let mut ps = PlayerState::default();
    ps.spawned();
    assert!(ps.on);
    assert_eq!(ps.last_shot, -1);
    ps.shot(17);
    assert!(!ps.on);
    assert_eq!(ps.last_shot, 17);
}

#[test]
fn spawned_clears_the_death_mark() {
    let mut ps = PlayerState::default();
    ps.shot(5);
    ps.spawned();
    assert!(ps.on);
    assert_eq!(ps.last_shot, -1);
}
