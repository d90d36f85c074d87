use invaders::explosion::{explosion_animation_system, explosion_to_spawn_system};
use invaders::geom::{Size2i, Vec2i};
use invaders::world::{
    explosion_request_at, Entity, Kind, World, EXPLOSION_FRAME_TICKS, EXPLOSION_LEN,
};

#[test]
fn request_becomes_one_animation_at_same_position() {
    let mut w = World::new();
    w.ents.push(explosion_request_at(Vec2i { x: 7, y: 9 }));
    explosion_to_spawn_system(&mut w);
    assert_eq!(w.ents.len(), 1);
    match w.ents[0].kind {
        Kind::Explosion { frame, elapsed } => {
            assert_eq!(frame, 0);
            assert_eq!(elapsed, 0);
        }
        _ => panic!("expected an explosion animation"),
    }
    assert_eq!(w.ents[0].pos, Vec2i { x: 7, y: 9 });
}

#[test]
fn other_entities_pass_phase_one_untouched() {
    let mut w = World::new();
    w.ents.push(Entity {
        kind: Kind::Player,
        pos: Vec2i { x: 1, y: 2 },
        size: Size2i { w: 4, h: 4 },
        vel: Vec2i { x: 0, y: 0 },
        movable: true,
        auto_despawn: false,
    });
    w.ents.push(explosion_request_at(Vec2i { x: -3, y: 0 }));
    explosion_to_spawn_system(&mut w);
    assert_eq!(w.ents.len(), 2);
    assert!(matches!(w.ents[0].kind, Kind::Player));
    assert!(matches!(w.ents[1].kind, Kind::Explosion { .. }));
}

#[test]
fn animation_lives_through_all_frames_then_vanishes() {
    let mut w = World::new();
    w.ents.push(explosion_request_at(Vec2i { x: 0, y: 0 }));
    explosion_to_spawn_system(&mut w);
    // Sixteen frame-advance events, each after the fixed frame
    // period: alive until the last one, gone at it.
    let lifetime = EXPLOSION_FRAME_TICKS * EXPLOSION_LEN;
    for _ in 0..lifetime - 1 {
        explosion_animation_system(&mut w);
        assert_eq!(w.ents.len(), 1, "animation ended early");
    }
    explosion_animation_system(&mut w);
    assert_eq!(w.ents.len(), 0, "animation outlived its sprite sheet");
}

#[test]
fn frame_advances_only_when_the_timer_completes() {
    let mut w = World::new();
    w.ents.push(explosion_request_at(Vec2i { x: 0, y: 0 }));
    explosion_to_spawn_system(&mut w);
    for tick in 1..=EXPLOSION_FRAME_TICKS {
        explosion_animation_system(&mut w);
        match w.ents[0].kind {
            Kind::Explosion { frame, elapsed } => {
                if tick < EXPLOSION_FRAME_TICKS {
                    assert_eq!(frame, 0);
                    assert_eq!(elapsed, tick);
                } else {
                    assert_eq!(frame, 1);
                    assert_eq!(elapsed, 0);
                }
            }
            _ => panic!("expected an explosion animation"),
        }
    }
}
