//! Movement integrator: advances every movable entity by
//! `velocity * step` each tick and destroys auto-despawn movables that
//! leave the playfield bounds plus a fixed margin.

use vstd::prelude::*;

use crate::geom::Vec2i;
use crate::world::{
    at_most_one_player, ents_ok, is_player, lemma_at_most_one_player_count,
    lemma_player_count_cons, player_count, DESPAWN_MARGIN, Entity, WinSize, World,
};

verus! {

/// `v` fits in an `i64`.
pub open spec fn in_i64(v: int) -> bool {
    i64::MIN <= v <= i64::MAX
}

/// New x coordinate of `e` after one tick at speed step `step`:
/// explicit Euler integration, applied only to movables.
pub open spec fn moved_x(e: Entity, step: int) -> int {
    if e.movable {
        e.pos.x + e.vel.x * step
    } else {
        e.pos.x as int
    }
}

/// New y coordinate of `e` after one tick at speed step `step`.
pub open spec fn moved_y(e: Entity, step: int) -> int {
    if e.movable {
        e.pos.y + e.vel.y * step
    } else {
        e.pos.y as int
    }
}

/// `e` after one movement tick; only the position changes. The casts
/// are exact whenever the new coordinates fit in `i64`, which
/// `movement_fits` guarantees.
pub open spec fn move_entity(e: Entity, step: int) -> Entity {
    Entity { pos: Vec2i { x: moved_x(e, step) as i64, y: moved_y(e, step) as i64 }, ..e }
}

/// A point lies strictly outside the playfield half-extent plus the
/// despawn margin on at least one of the four sides. A point exactly
/// on the boundary is still inside.
pub open spec fn out_of_bounds(x: int, y: int, ws: WinSize) -> bool {
    ||| y > ws.h / 2 + DESPAWN_MARGIN
    ||| y < -(ws.h / 2) - DESPAWN_MARGIN
    ||| x > ws.w / 2 + DESPAWN_MARGIN
    ||| x < -(ws.w / 2) - DESPAWN_MARGIN
}

/// The movement tick destroys `e`: it is an auto-despawn movable whose
/// new position lies out of bounds.
pub open spec fn despawns(e: Entity, step: int, ws: WinSize) -> bool {
    e.movable && e.auto_despawn && out_of_bounds(moved_x(e, step), moved_y(e, step), ws)
}

/// Every movable's new position fits in `i64` coordinates.
pub open spec fn movement_fits(ents: Seq<Entity>, step: int) -> bool {
    forall|i: int|
        0 <= i < ents.len() ==> in_i64(moved_x(#[trigger] ents[i], step)) && in_i64(
            moved_y(ents[i], step),
        )
}

/// The entity list after one movement tick, from index `i` on: each
/// entity advances by `velocity * step`, auto-despawn movables that
/// end up out of bounds are dropped, and the order of the survivors
/// is kept.
pub open spec fn move_and_cull_from(ents: Seq<Entity>, i: int, step: int, ws: WinSize) -> Seq<
    Entity,
>
    decreases ents.len() - i,
{
    if i < 0 || i >= ents.len() {
        Seq::empty()
    } else {
        let rest = move_and_cull_from(ents, i + 1, step, ws);
        if despawns(ents[i], step, ws) {
            rest
        } else {
            seq![move_entity(ents[i], step)] + rest
        }
    }
}

/// The whole entity list after one movement tick.
pub open spec fn move_and_cull(ents: Seq<Entity>, step: int, ws: WinSize) -> Seq<Entity> {
    move_and_cull_from(ents, 0, step, ws)
}

/// One step of the movement recursion: the entity at `i` either
/// despawns and contributes nothing, or reappears moved, ahead of the
/// rest.
pub proof fn lemma_move_and_cull_unfold(ents: Seq<Entity>, i: int, step: int, ws: WinSize)
    requires
        0 <= i < ents.len(),
    ensures
        !despawns(ents[i], step, ws) ==> move_and_cull_from(ents, i, step, ws) == seq![
            move_entity(ents[i], step),
        ] + move_and_cull_from(ents, i + 1, step, ws),
        despawns(ents[i], step, ws) ==> move_and_cull_from(ents, i, step, ws)
            == move_and_cull_from(ents, i + 1, step, ws),
{
}

/// Every element of the moved list is some source entity moved; the
/// movement of one entity never depends on the others.
pub proof fn lemma_movement_pointwise(ents: Seq<Entity>, i: int, step: int, ws: WinSize)
    requires
        0 <= i <= ents.len(),
    ensures
        forall|k: int|
            0 <= k < move_and_cull_from(ents, i, step, ws).len() ==> exists|j: int|
                i <= j < ents.len() && !despawns(ents[j], step, ws) && #[trigger] move_and_cull_from(
                    ents,
                    i,
                    step,
                    ws,
                )[k] == move_entity(ents[j], step),
    decreases ents.len() - i,
{
    if i < ents.len() {
        lemma_movement_pointwise(ents, i + 1, step, ws);
        let r = move_and_cull_from(ents, i, step, ws);
        let rest = move_and_cull_from(ents, i + 1, step, ws);
        assert forall|k: int| 0 <= k < r.len() implies exists|j: int|
            i <= j < ents.len() && !despawns(ents[j], step, ws) && #[trigger] r[k] == move_entity(
                #[trigger] ents[j],
                step,
            ) by {
            if despawns(ents[i], step, ws) {
                assert(r[k] == rest[k]);
                let j = choose|j: int|
                    i + 1 <= j < ents.len() && !despawns(ents[j], step, ws) && rest[k]
                        == move_entity(ents[j], step);
                assert(i <= j < ents.len() && !despawns(ents[j], step, ws) && r[k] == move_entity(
                    ents[j],
                    step,
                ));
            } else if k == 0 {
                assert(r[k] == move_entity(ents[i], step));
                assert(i <= i < ents.len() && !despawns(ents[i], step, ws) && r[k] == move_entity(
                    ents[i],
                    step,
                ));
            } else {
                assert(r[k] == rest[k - 1]);
                let j = choose|j: int|
                    i + 1 <= j < ents.len() && !despawns(ents[j], step, ws) && rest[k - 1]
                        == move_entity(ents[j], step);
                assert(i <= j < ents.len() && !despawns(ents[j], step, ws) && r[k] == move_entity(
                    ents[j],
                    step,
                ));
            }
        }
    }
}

/// Movement never adds a player: moving keeps each entity's role and
/// culling only removes, so the player count cannot grow.
pub proof fn lemma_move_cull_player_count(ents: Seq<Entity>, i: int, step: int, ws: WinSize)
    requires
        0 <= i <= ents.len(),
    ensures
        player_count(move_and_cull_from(ents, i, step, ws)) <= player_count(ents.skip(i)),
    decreases ents.len() - i,
{
    if i < ents.len() {
        lemma_move_cull_player_count(ents, i + 1, step, ws);
        assert(ents.skip(i) =~= seq![ents[i]] + ents.skip(i + 1));
        lemma_player_count_cons(ents[i], ents.skip(i + 1));
        if !despawns(ents[i], step, ws) {
            lemma_player_count_cons(
                move_entity(ents[i], step),
                move_and_cull_from(ents, i + 1, step, ws),
            );
            assert(is_player(move_entity(ents[i], step)) == is_player(ents[i]));
        }
    } else {
        assert(ents.skip(i) =~= Seq::<Entity>::empty());
    }
}

/// One tick of the movement integrator over the whole world.
///
/// For every movable entity, `position_after == position_before +
/// velocity * step`, exactly; non-movables stay put. An auto-despawn
/// movable whose new position exceeds the playfield half-extent plus
/// the margin on any side is destroyed this same tick; entities
/// without auto-despawn are never removed here, wherever they are.
/// Counters, flow state and player bookkeeping are untouched.
pub fn movable_system(w: &mut World, ws: &WinSize, step: i64)
    requires
        old(w).wf(),
        ws.wf(),
        movement_fits(old(w).ents@, step as int),
    ensures
        final(w).wf(),
        final(w).ents@ == move_and_cull(old(w).ents@, step as int, *ws),
        at_most_one_player(old(w).ents@) ==> at_most_one_player(final(w).ents@),
        final(w).state == old(w).state,
        final(w).score == old(w).score,
        final(w).player_life == old(w).player_life,
        final(w).enemy_count == old(w).enemy_count,
        final(w).player == old(w).player,
        final(w).last_fire == old(w).last_fire,
{
    let ghost ents0 = w.ents@;
    let n = w.ents.len();
    let mut out: Vec<Entity> = Vec::new();
    let mut i: usize = 0;
    while i < n
        invariant
            n == ents0.len(),
            0 <= i <= n,
            w.ents@ == ents0,
            ents_ok(ents0),
            movement_fits(ents0, step as int),
            ws.wf(),
            move_and_cull_from(ents0, 0, step as int, *ws) == out@ + move_and_cull_from(
                ents0,
                i as int,
                step as int,
                *ws,
            ),
            ents_ok(out@),
        decreases n - i,
    {
        let e = w.ents[i];
        let ghost out_pre = out@;
        if e.movable {
            let nx: i128 = e.pos.x as i128 + (e.vel.x as i128) * (step as i128);
            let ny: i128 = e.pos.y as i128 + (e.vel.y as i128) * (step as i128);
            assert(nx == moved_x(ents0[i as int], step as int));
            assert(ny == moved_y(ents0[i as int], step as int));
            let px: i64 = nx as i64;
            let py: i64 = ny as i64;
            let moved = Entity { pos: Vec2i { x: px, y: py }, ..e };
            assert(moved == move_entity(ents0[i as int], step as int));
            let mut gone = false;
            if e.auto_despawn {
                let hb: i64 = ws.h / 2;
                let wb: i64 = ws.w / 2;
                if py > hb + DESPAWN_MARGIN || py < -hb - DESPAWN_MARGIN || px > wb
                    + DESPAWN_MARGIN || px < -wb - DESPAWN_MARGIN {
                    gone = true;
                }
            }
            assert(gone == despawns(ents0[i as int], step as int, *ws));
            if !gone {
                out.push(moved);
            }
        } else {
            assert(!despawns(ents0[i as int], step as int, *ws));
            assert(move_entity(ents0[i as int], step as int) == ents0[i as int]);
            out.push(e);
        }
        proof {
            lemma_move_and_cull_unfold(ents0, i as int, step as int, *ws);
            if !despawns(ents0[i as int], step as int, *ws) {
                assert(out@ =~= out_pre + seq![move_entity(ents0[i as int], step as int)]);
                assert(out_pre + (seq![move_entity(ents0[i as int], step as int)]
                    + move_and_cull_from(ents0, i as int + 1, step as int, *ws)) =~= (out_pre
                    + seq![move_entity(ents0[i as int], step as int)]) + move_and_cull_from(
                    ents0,
                    i as int + 1,
                    step as int,
                    *ws,
                ));
            }
        }
        i += 1;
    }
    proof {
        assert(move_and_cull_from(ents0, n as int, step as int, *ws) == Seq::<Entity>::empty());
        assert(out@ + Seq::<Entity>::empty() =~= out@);
    }
    w.ents = out;
    proof {
        if at_most_one_player(ents0) {
            lemma_at_most_one_player_count(ents0);
            lemma_move_cull_player_count(ents0, 0, step as int, *ws);
            assert(ents0.skip(0) =~= ents0);
            lemma_at_most_one_player_count(w.ents@);
        }
    }
}

} // verus!
