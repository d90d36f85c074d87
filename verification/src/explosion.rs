//! Explosion sub-system: turns "destroyed here" markers into timed
//! sprite-cell animations, advances them, and removes finished ones.

use vstd::prelude::*;

use crate::geom::{Size2i, Vec2i};
use crate::world::{
    at_most_one_player, ent_is_explosion_request, ent_ok, ents_ok, is_explosion_request,
    is_player, lemma_at_most_one_player_count, lemma_player_count_concat,
    lemma_player_count_cons, player_count, Entity, Kind, World, EXPLOSION_FRAME_TICKS,
    EXPLOSION_LEN,
};

verus! {

/// A just-started explosion animation at `p`: frame zero, fresh timer.
pub open spec fn spec_explosion_anim_at(p: Vec2i) -> Entity {
    Entity {
        kind: Kind::Explosion { frame: 0, elapsed: 0 },
        pos: p,
        size: Size2i { w: 0, h: 0 },
        vel: Vec2i { x: 0, y: 0 },
        movable: false,
        auto_despawn: false,
    }
}

/// Build the animation entity for an explosion at `p`.
pub fn explosion_anim_at(p: Vec2i) -> (e: Entity)
    ensures
        e == spec_explosion_anim_at(p),
{
    Entity {
        kind: Kind::Explosion { frame: 0, elapsed: 0 },
        pos: p,
        size: Size2i { w: 0, h: 0 },
        vel: Vec2i { x: 0, y: 0 },
        movable: false,
        auto_despawn: false,
    }
}

/// The entities from index `i` on that are not explosion requests, in
/// their original order.
pub open spec fn without_requests_from(ents: Seq<Entity>, i: int) -> Seq<Entity>
    decreases ents.len() - i,
{
    if i < 0 || i >= ents.len() {
        Seq::empty()
    } else {
        let rest = without_requests_from(ents, i + 1);
        if is_explosion_request(ents[i]) {
            rest
        } else {
            seq![ents[i]] + rest
        }
    }
}

/// One fresh animation per explosion request from index `i` on, each
/// at its request's position, in request order.
pub open spec fn anims_from(ents: Seq<Entity>, i: int) -> Seq<Entity>
    decreases ents.len() - i,
{
    if i < 0 || i >= ents.len() {
        Seq::empty()
    } else {
        let rest = anims_from(ents, i + 1);
        if is_explosion_request(ents[i]) {
            seq![spec_explosion_anim_at(ents[i].pos)] + rest
        } else {
            rest
        }
    }
}

/// Keeping the non-requests never adds a player.
pub proof fn lemma_without_requests_player_count(ents: Seq<Entity>, i: int)
    requires
        0 <= i <= ents.len(),
    ensures
        player_count(without_requests_from(ents, i)) <= player_count(ents.skip(i)),
    decreases ents.len() - i,
{
    if i < ents.len() {
        lemma_without_requests_player_count(ents, i + 1);
        assert(ents.skip(i) =~= seq![ents[i]] + ents.skip(i + 1));
        lemma_player_count_cons(ents[i], ents.skip(i + 1));
        if !is_explosion_request(ents[i]) {
            lemma_player_count_cons(ents[i], without_requests_from(ents, i + 1));
        }
    } else {
        assert(ents.skip(i) =~= Seq::<Entity>::empty());
    }
}

/// Fresh explosion animations are not players.
pub proof fn lemma_anims_no_player(ents: Seq<Entity>, i: int)
    requires
        0 <= i <= ents.len(),
    ensures
        player_count(anims_from(ents, i)) == 0,
    decreases ents.len() - i,
{
    if i < ents.len() {
        lemma_anims_no_player(ents, i + 1);
        if is_explosion_request(ents[i]) {
            lemma_player_count_cons(spec_explosion_anim_at(ents[i].pos), anims_from(ents, i + 1));
        }
    }
}

/// The animation tick keeps every entity's role or removes it, so it
/// never adds a player.
pub proof fn lemma_anim_step_player_count(ents: Seq<Entity>, i: int)
    requires
        0 <= i <= ents.len(),
    ensures
        player_count(anim_step_from(ents, i)) <= player_count(ents.skip(i)),
    decreases ents.len() - i,
{
    if i < ents.len() {
        lemma_anim_step_player_count(ents, i + 1);
        assert(ents.skip(i) =~= seq![ents[i]] + ents.skip(i + 1));
        lemma_player_count_cons(ents[i], ents.skip(i + 1));
        match step_explosion(ents[i]) {
            None => {
            },
            Some(e2) => {
                lemma_player_count_cons(e2, anim_step_from(ents, i + 1));
                assert(is_player(e2) ==> is_player(ents[i]));
            },
        }
    } else {
        assert(ents.skip(i) =~= Seq::<Entity>::empty());
    }
}

/// Phase one of the explosion lifecycle, run once per tick.
///
/// Every pending explosion request is consumed: for each one, exactly
/// one animation entity appears at the stored position with frame
/// index zero and a fresh frame timer, and the request itself is
/// deleted. All other entities, the counters, the flow state and the
/// player bookkeeping are untouched.
pub fn explosion_to_spawn_system(w: &mut World)
    requires
        old(w).wf(),
    ensures
        final(w).wf(),
        final(w).ents@ == without_requests_from(old(w).ents@, 0) + anims_from(old(w).ents@, 0),
        at_most_one_player(old(w).ents@) ==> at_most_one_player(final(w).ents@),
        final(w).state == old(w).state,
        final(w).score == old(w).score,
        final(w).player_life == old(w).player_life,
        final(w).enemy_count == old(w).enemy_count,
        final(w).player == old(w).player,
        final(w).last_fire == old(w).last_fire,
{
    let ghost ents0 = w.ents@;
    let n = w.ents.len();
    let mut keep: Vec<Entity> = Vec::new();
    let mut anims: Vec<Entity> = Vec::new();
    let mut i: usize = 0;
    while i < n
        invariant
            i <= n,
            n == ents0.len(),
            w.ents@ == ents0,
            ents_ok(ents0),
            without_requests_from(ents0, 0) == keep@ + without_requests_from(ents0, i as int),
            anims_from(ents0, 0) == anims@ + anims_from(ents0, i as int),
            ents_ok(keep@),
            ents_ok(anims@),
        decreases n - i,
    {
        let e = w.ents[i];
        let ghost keep_pre = keep@;
        let ghost anims_pre = anims@;
        if ent_is_explosion_request(&e) {
            anims.push(explosion_anim_at(e.pos));
            proof {
                assert(anims@ =~= anims_pre + seq![spec_explosion_anim_at(ents0[i as int].pos)]);
                assert(anims_pre + (seq![spec_explosion_anim_at(ents0[i as int].pos)] + anims_from(
                    ents0,
                    i as int + 1,
                )) =~= (anims_pre + seq![spec_explosion_anim_at(ents0[i as int].pos)]) + anims_from(
                    ents0,
                    i as int + 1,
                ));
            }
        } else {
            keep.push(e);
            proof {
                assert(keep@ =~= keep_pre + seq![ents0[i as int]]);
                assert(keep_pre + (seq![ents0[i as int]] + without_requests_from(
                    ents0,
                    i as int + 1,
                )) =~= (keep_pre + seq![ents0[i as int]]) + without_requests_from(
                    ents0,
                    i as int + 1,
                ));
            }
        }
        i += 1;
    }
    proof {
        assert(without_requests_from(ents0, n as int) == Seq::<Entity>::empty());
        assert(anims_from(ents0, n as int) == Seq::<Entity>::empty());
        assert(keep@ + Seq::<Entity>::empty() =~= keep@);
        assert(anims@ + Seq::<Entity>::empty() =~= anims@);
    }
    let ghost kept = keep@;
    let m = anims.len();
    let mut q: usize = 0;
    while q < m
        invariant
            q <= m,
            m == anims@.len(),
            anims@ == anims_from(ents0, 0),
            keep@ == kept + anims@.take(q as int),
            ents_ok(keep@),
            ents_ok(anims@),
            ents_ok(kept),
        decreases m - q,
    {
        let a = anims[q];
        keep.push(a);
        proof {
            assert(ent_ok(anims@[q as int]));
            assert(keep@ =~= kept + anims@.take(q as int + 1));
        }
        q += 1;
    }
    proof {
        assert(anims@.take(m as int) =~= anims@);
    }
    w.ents = keep;
    proof {
        if at_most_one_player(ents0) {
            lemma_at_most_one_player_count(ents0);
            lemma_without_requests_player_count(ents0, 0);
            lemma_anims_no_player(ents0, 0);
            assert(ents0.skip(0) =~= ents0);
            lemma_player_count_concat(kept, anims@);
            lemma_at_most_one_player_count(w.ents@);
        }
    }
}

/// `e` after one animation tick: a running explosion advances its
/// frame timer; when the timer completes, the frame index moves on,
/// and an animation whose frame index would reach the sheet length is
/// destroyed (`None`). Anything that is not an explosion is untouched.
pub open spec fn step_explosion(e: Entity) -> Option<Entity> {
    match e.kind {
        Kind::Explosion { frame, elapsed } => {
            if elapsed + 1 >= EXPLOSION_FRAME_TICKS {
                if frame + 1 >= EXPLOSION_LEN {
                    None
                } else {
                    Some(
                        Entity {
                            kind: Kind::Explosion { frame: (frame + 1) as u32, elapsed: 0 },
                            ..e
                        },
                    )
                }
            } else {
                Some(Entity { kind: Kind::Explosion { frame, elapsed: (elapsed + 1) as u32 }, ..e })
            }
        },
        _ => Some(e),
    }
}

/// The entity list after one animation tick, from index `i` on.
pub open spec fn anim_step_from(ents: Seq<Entity>, i: int) -> Seq<Entity>
    decreases ents.len() - i,
{
    if i < 0 || i >= ents.len() {
        Seq::empty()
    } else {
        let rest = anim_step_from(ents, i + 1);
        match step_explosion(ents[i]) {
            None => rest,
            Some(e2) => seq![e2] + rest,
        }
    }
}

/// Phase two of the explosion lifecycle, run once per tick.
///
/// Every running explosion animation advances its per-frame timer by
/// one tick. On timer completion the frame index is incremented and
/// the timer restarts; an animation whose frame index reaches the
/// sprite-sheet length is destroyed. Every other entity, the
/// counters, the flow state and the player bookkeeping are untouched.
pub fn explosion_animation_system(w: &mut World)
    requires
        old(w).wf(),
    ensures
        final(w).wf(),
        final(w).ents@ == anim_step_from(old(w).ents@, 0),
        at_most_one_player(old(w).ents@) ==> at_most_one_player(final(w).ents@),
        final(w).state == old(w).state,
        final(w).score == old(w).score,
        final(w).player_life == old(w).player_life,
        final(w).enemy_count == old(w).enemy_count,
        final(w).player == old(w).player,
        final(w).last_fire == old(w).last_fire,
{
    let ghost ents0 = w.ents@;
    let n = w.ents.len();
    let mut out: Vec<Entity> = Vec::new();
    let mut i: usize = 0;
    while i < n
        invariant
            i <= n,
            n == ents0.len(),
            w.ents@ == ents0,
            ents_ok(ents0),
            anim_step_from(ents0, 0) == out@ + anim_step_from(ents0, i as int),
            ents_ok(out@),
        decreases n - i,
    {
        let e = w.ents[i];
        let ghost out_pre = out@;
        let mut stepped: Option<Entity> = Some(e);
        match e.kind {
            Kind::Explosion { frame, elapsed } => {
                assert(frame < EXPLOSION_LEN && elapsed < EXPLOSION_FRAME_TICKS);
                if elapsed + 1 >= EXPLOSION_FRAME_TICKS {
                    if frame + 1 >= EXPLOSION_LEN {
                        stepped = None;
                    } else {
                        stepped = Some(
                            Entity { kind: Kind::Explosion { frame: frame + 1, elapsed: 0 }, ..e },
                        );
                    }
                } else {
                    stepped = Some(
                        Entity { kind: Kind::Explosion { frame, elapsed: elapsed + 1 }, ..e },
                    );
                }
            },
            _ => {
            },
        }
        assert(stepped == step_explosion(ents0[i as int]));
        match stepped {
            None => {
            },
            Some(e2) => {
                out.push(e2);
                proof {
                    assert(out@ =~= out_pre + seq![e2]);
                    assert(out_pre + (seq![e2] + anim_step_from(ents0, i as int + 1)) =~= (out_pre
                        + seq![e2]) + anim_step_from(ents0, i as int + 1));
                }
            },
        }
        i += 1;
    }
    proof {
        assert(anim_step_from(ents0, n as int) == Seq::<Entity>::empty());
        assert(out@ + Seq::<Entity>::empty() =~= out@);
    }
    w.ents = out;
    proof {
        if at_most_one_player(ents0) {
            lemma_at_most_one_player_count(ents0);
            lemma_anim_step_player_count(ents0, 0);
            assert(ents0.skip(0) =~= ents0);
            lemma_at_most_one_player_count(w.ents@);
        }
    }
}

} // verus!
