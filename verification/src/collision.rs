//! Collision resolver: laser-vs-enemy and laser-vs-player passes.
//!
//! Both passes run once per tick over the current entity list. A
//! per-pass "already handled" set of entity indices keeps every
//! destruction idempotent: a handled entity joins no further pairing
//! this tick, so a laser consumes at most one enemy and nothing is
//! despawned twice.

use vstd::prelude::*;

use crate::geom::{rects_overlap, Vec2i};
use crate::world::{
    at_most_one_player, ent_is_enemy, ent_is_enemy_laser, ent_is_player, ent_is_player_laser,
    ents_ok, explosion_request_at, is_enemy, is_enemy_laser, is_player, is_player_laser,
    lemma_at_most_one_player_count, lemma_player_count_concat, lemma_player_count_cons,
    lemma_player_count_zero, player_count, spec_explosion_request_at, Entity, GameScore,
    GameState, World,
};

verus! {

/// The collision boxes of `a` and `b` overlap with positive area.
pub open spec fn overlap(a: Entity, b: Entity) -> bool {
    rects_overlap(a.pos, a.size, b.pos, b.size)
}

/// Executable overlap test between two entities.
pub fn entity_overlap(a: &Entity, b: &Entity) -> (r: bool)
    ensures
        r == overlap(*a, *b),
{
    crate::geom::collide(a.pos, a.size, b.pos, b.size)
}

/// The set of indices whose flag is set.
pub open spec fn set_of(flags: Seq<bool>) -> Set<int> {
    Set::new(|i: int| 0 <= i < flags.len() && flags[i])
}

/// First enemy at index `j` or later that is not yet handled and
/// overlaps the laser at index `li`; `None` if there is none. This is
/// the tie-break rule: enumeration order, one enemy per laser.
pub open spec fn first_enemy_hit_from(ents: Seq<Entity>, li: int, j: int, taken: Set<int>) -> Option<
    int,
>
    decreases ents.len() - j,
{
    if j < 0 || j >= ents.len() {
        None
    } else if is_enemy(ents[j]) && !taken.contains(j) && overlap(ents[li], ents[j]) {
        Some(j)
    } else {
        first_enemy_hit_from(ents, li, j + 1, taken)
    }
}

/// Outcome of the laser-vs-enemy pass: the indices destroyed, how many
/// hits were scored, and where explosions were requested, in order.
pub struct HitPass {
    pub handled: Set<int>,
    pub hits: int,
    pub explosions: Seq<Vec2i>,
}

/// The laser-vs-enemy pass from laser index `li` on, with `taken`
/// already handled: each not-yet-handled player laser, in order,
/// destroys the first not-yet-handled enemy it overlaps (if any),
/// scores one hit, and requests an explosion at that enemy's position.
pub open spec fn resolve_from(ents: Seq<Entity>, li: int, taken: Set<int>) -> HitPass
    decreases ents.len() - li,
{
    if li < 0 || li >= ents.len() {
        HitPass { handled: taken, hits: 0, explosions: Seq::empty() }
    } else if is_player_laser(ents[li]) && !taken.contains(li) {
        match first_enemy_hit_from(ents, li, 0, taken) {
            Some(ei) => {
                let rest = resolve_from(ents, li + 1, taken.insert(li).insert(ei));
                HitPass {
                    handled: rest.handled,
                    hits: rest.hits + 1,
                    explosions: seq![ents[ei].pos] + rest.explosions,
                }
            },
            None => resolve_from(ents, li + 1, taken),
        }
    } else {
        resolve_from(ents, li + 1, taken)
    }
}

/// The whole laser-vs-enemy pass over the current entity list.
pub open spec fn laser_enemy_pass(ents: Seq<Entity>) -> HitPass {
    resolve_from(ents, 0, Set::empty())
}

/// Bounds of the pass: hits are counted once per destroyed pair, one
/// explosion per hit, and never more hits than lasers scanned.
pub proof fn lemma_resolve_bounds(ents: Seq<Entity>, li: int, taken: Set<int>)
    requires
        0 <= li <= ents.len(),
    ensures
        0 <= resolve_from(ents, li, taken).hits <= ents.len() - li,
        resolve_from(ents, li, taken).explosions.len() == resolve_from(ents, li, taken).hits,
    decreases ents.len() - li,
{
    if li < ents.len() {
        if is_player_laser(ents[li]) && !taken.contains(li) {
            match first_enemy_hit_from(ents, li, 0, taken) {
                Some(ei) => {
                    lemma_resolve_bounds(ents, li + 1, taken.insert(li).insert(ei));
                },
                None => {
                    lemma_resolve_bounds(ents, li + 1, taken);
                },
            }
        } else {
            lemma_resolve_bounds(ents, li + 1, taken);
        }
    }
}

/// Number of player-origin lasers from index `i` on.
pub open spec fn player_laser_count_from(ents: Seq<Entity>, i: int) -> int
    decreases ents.len() - i,
{
    if i < 0 || i >= ents.len() {
        0
    } else {
        (if is_player_laser(ents[i]) {
            1int
        } else {
            0int
        }) + player_laser_count_from(ents, i + 1)
    }
}

/// Collision idempotence law: once a laser is matched it is handled
/// and joins no further pairing, so a pass never scores more hits
/// than it has player lasers — in particular, one laser overlapping
/// several enemies destroys exactly one of them.
pub proof fn lemma_hits_le_lasers(ents: Seq<Entity>, li: int, taken: Set<int>)
    requires
        0 <= li <= ents.len(),
    ensures
        resolve_from(ents, li, taken).hits <= player_laser_count_from(ents, li),
    decreases ents.len() - li,
{
    if li < ents.len() {
        if is_player_laser(ents[li]) && !taken.contains(li) {
            match first_enemy_hit_from(ents, li, 0, taken) {
                Some(ei) => {
                    lemma_hits_le_lasers(ents, li + 1, taken.insert(li).insert(ei));
                },
                None => {
                    lemma_hits_le_lasers(ents, li + 1, taken);
                },
            }
        } else {
            lemma_hits_le_lasers(ents, li + 1, taken);
        }
    } else {
    }
}

/// The entities from index `i` on whose index is not in `handled`, in
/// their original order.
pub open spec fn survivors_from(ents: Seq<Entity>, i: int, handled: Set<int>) -> Seq<Entity>
    decreases ents.len() - i,
{
    if i < 0 || i >= ents.len() {
        Seq::empty()
    } else if handled.contains(i) {
        survivors_from(ents, i + 1, handled)
    } else {
        seq![ents[i]] + survivors_from(ents, i + 1, handled)
    }
}

/// One explosion-request marker per requested position, in order.
pub open spec fn requests_at(ps: Seq<Vec2i>) -> Seq<Entity> {
    ps.map_values(|p: Vec2i| spec_explosion_request_at(p))
}

/// Dropping handled entities never adds a player.
pub proof fn lemma_survivors_player_count(ents: Seq<Entity>, i: int, handled: Set<int>)
    requires
        0 <= i <= ents.len(),
    ensures
        player_count(survivors_from(ents, i, handled)) <= player_count(ents.skip(i)),
    decreases ents.len() - i,
{
    if i < ents.len() {
        lemma_survivors_player_count(ents, i + 1, handled);
        assert(ents.skip(i) =~= seq![ents[i]] + ents.skip(i + 1));
        lemma_player_count_cons(ents[i], ents.skip(i + 1));
        if !handled.contains(i) {
            lemma_player_count_cons(ents[i], survivors_from(ents, i + 1, handled));
        }
    } else {
        assert(ents.skip(i) =~= Seq::<Entity>::empty());
    }
}

/// Explosion-request markers are not players.
pub proof fn lemma_requests_no_player(ps: Seq<Vec2i>)
    ensures
        player_count(requests_at(ps)) == 0,
{
    lemma_player_count_zero(requests_at(ps));
    assert forall|i: int| 0 <= i < requests_at(ps).len() implies !is_player(
        #[trigger] requests_at(ps)[i],
    ) by {
        assert(requests_at(ps)[i] == spec_explosion_request_at(ps[i]));
    }
}

/// First enemy, scanning the whole list in order, that is not yet
/// handled and overlaps the laser at `li`.
fn find_enemy_hit(ents: &Vec<Entity>, li: usize, handled: &Vec<bool>) -> (r: Option<usize>)
    requires
        li < ents@.len(),
        handled@.len() == ents@.len(),
    ensures
        match r {
            Some(ei) => ei < ents@.len() && first_enemy_hit_from(
                ents@,
                li as int,
                0,
                set_of(handled@),
            ) == Some(ei as int),
            None => first_enemy_hit_from(ents@, li as int, 0, set_of(handled@)) == None::<int>,
        },
{
    let n = ents.len();
    let mut j: usize = 0;
    while j < n
        invariant
            j <= n,
            n == ents@.len(),
            handled@.len() == n,
            li < n,
            first_enemy_hit_from(ents@, li as int, 0, set_of(handled@)) == first_enemy_hit_from(
                ents@,
                li as int,
                j as int,
                set_of(handled@),
            ),
        decreases n - j,
    {
        let e = ents[j];
        if ent_is_enemy(&e) && !handled[j] && entity_overlap(&ents[li], &e) {
            return Some(j);
        }
        j += 1;
    }
    None
}

/// The laser-vs-enemy pass.
///
/// Every not-yet-handled player-origin laser, in order, is tested
/// against every not-yet-handled enemy, in order. On the first hit the
/// enemy and the laser are destroyed and handled, the enemy count goes
/// down by one (floored at zero), the score goes up by one, and an
/// explosion is requested at the enemy's position; the laser then
/// joins no further pairing, so it destroys at most one enemy per
/// tick. The surviving entities keep their order; the explosion
/// requests are appended after them in hit order. Flow state, player
/// life and player bookkeeping are untouched.
pub fn player_laser_hit_enemy_system(w: &mut World)
    requires
        old(w).wf(),
        old(w).score.0 + old(w).ents@.len() <= u32::MAX,
    ensures
        final(w).wf(),
        final(w).ents@ == survivors_from(old(w).ents@, 0, laser_enemy_pass(old(w).ents@).handled)
            + requests_at(laser_enemy_pass(old(w).ents@).explosions),
        final(w).score.0 == old(w).score.0 + laser_enemy_pass(old(w).ents@).hits,
        final(w).enemy_count.0 == (if laser_enemy_pass(old(w).ents@).hits >= old(
            w,
        ).enemy_count.0 {
            0int
        } else {
            old(w).enemy_count.0 - laser_enemy_pass(old(w).ents@).hits
        }),
        final(w).state == old(w).state,
        final(w).player_life == old(w).player_life,
        final(w).player == old(w).player,
        final(w).last_fire == old(w).last_fire,
        at_most_one_player(old(w).ents@) ==> at_most_one_player(final(w).ents@),
{
    let ghost ents0 = w.ents@;
    let ghost pass = laser_enemy_pass(ents0);
    let n = w.ents.len();

    let mut handled: Vec<bool> = Vec::new();
    let mut k: usize = 0;
    while k < n
        invariant
            k <= n,
            handled@.len() == k,
            forall|i: int| 0 <= i < k ==> !(#[trigger] handled@[i]),
        decreases n - k,
    {
        handled.push(false);
        k += 1;
    }
    proof {
        assert(set_of(handled@) =~= Set::<int>::empty());
    }

    let mut hits: u32 = 0;
    let mut expl: Vec<Entity> = Vec::new();
    let ghost mut eps: Seq<Vec2i> = Seq::empty();
    let mut li: usize = 0;
    while li < n
        invariant
            li <= n,
            n == ents0.len(),
            w.ents@ == ents0,
            ents_ok(ents0),
            handled@.len() == n,
            pass == laser_enemy_pass(ents0),
            pass.hits == hits + resolve_from(ents0, li as int, set_of(handled@)).hits,
            pass.explosions == eps + resolve_from(ents0, li as int, set_of(handled@)).explosions,
            pass.handled == resolve_from(ents0, li as int, set_of(handled@)).handled,
            hits == eps.len(),
            expl@ == requests_at(eps),
            ents0.len() + w.score.0 <= u32::MAX,
        decreases n - li,
    {
        let e = w.ents[li];
        let laser_here = ent_is_player_laser(&e) && !handled[li];
        if laser_here {
            let found = find_enemy_hit(&w.ents, li, &handled);
            match found {
                Some(ei) => {
                    let ghost taken0 = set_of(handled@);
                    let ghost taken1 = taken0.insert(li as int).insert(ei as int);
                    let ghost rest = resolve_from(ents0, li as int + 1, taken1);
                    proof {
                        // One more hit is scored here, so the count so far
                        // stays under the total, which stays under the list
                        // length: the increment below cannot overflow.
                        lemma_resolve_bounds(ents0, 0, Set::empty());
                        lemma_resolve_bounds(ents0, li as int + 1, taken1);
                        assert(resolve_from(ents0, li as int, taken0).hits == rest.hits + 1);
                        assert(hits + 1 <= pass.hits <= ents0.len());
                    }
                    handled.set(li, true);
                    handled.set(ei, true);
                    proof {
                        assert(set_of(handled@) =~= taken1);
                    }
                    hits = hits + 1;
                    let epos = w.ents[ei].pos;
                    expl.push(explosion_request_at(epos));
                    proof {
                        let eps0 = eps;
                        eps = eps + seq![epos];
                        assert(requests_at(eps) =~= requests_at(eps0).push(
                            spec_explosion_request_at(epos),
                        ));
                        assert(expl@ =~= requests_at(eps));
                        assert(resolve_from(ents0, li as int, taken0).explosions == seq![epos]
                            + rest.explosions);
                        assert(eps0 + (seq![epos] + rest.explosions) =~= eps + rest.explosions);
                    }
                },
                None => {
                },
            }
        }
        li += 1;
    }
    proof {
        assert(resolve_from(ents0, n as int, set_of(handled@)).hits == 0);
        assert(pass.hits == hits);
        assert(pass.explosions =~= eps);
        assert(pass.handled == set_of(handled@));
        lemma_resolve_bounds(ents0, 0, Set::empty());
        assert(hits + w.score.0 <= u32::MAX);
    }

    w.score = GameScore(w.score.0 + hits);
    let ec = w.enemy_count.0;
    w.enemy_count = crate::world::EnemyCount(
        if hits >= ec {
            0
        } else {
            ec - hits
        },
    );

    let ghost taken_end = set_of(handled@);
    let mut out: Vec<Entity> = Vec::new();
    let mut i: usize = 0;
    while i < n
        invariant
            i <= n,
            n == ents0.len(),
            w.ents@ == ents0,
            ents_ok(ents0),
            handled@.len() == n,
            taken_end == set_of(handled@),
            survivors_from(ents0, 0, taken_end) == out@ + survivors_from(
                ents0,
                i as int,
                taken_end,
            ),
            ents_ok(out@),
        decreases n - i,
    {
        let ghost out_pre = out@;
        if !handled[i] {
            out.push(w.ents[i]);
            proof {
                assert(out@ =~= out_pre + seq![ents0[i as int]]);
                assert(out_pre + (seq![ents0[i as int]] + survivors_from(
                    ents0,
                    i as int + 1,
                    taken_end,
                )) =~= (out_pre + seq![ents0[i as int]]) + survivors_from(
                    ents0,
                    i as int + 1,
                    taken_end,
                ));
            }
        }
        i += 1;
    }
    proof {
        assert(survivors_from(ents0, n as int, taken_end) == Seq::<Entity>::empty());
        assert(out@ + Seq::<Entity>::empty() =~= out@);
        assert(out@ == survivors_from(ents0, 0, taken_end));
    }

    let ghost surv = out@;
    let m = expl.len();
    let mut q: usize = 0;
    while q < m
        invariant
            q <= m,
            m == expl@.len(),
            expl@ == requests_at(eps),
            out@ == surv + expl@.take(q as int),
            ents_ok(out@),
            ents_ok(surv),
        decreases m - q,
    {
        let ghost out_pre = out@;
        let r = expl[q];
        assert(crate::world::ent_ok(r)) by {
            assert(expl@[q as int] == requests_at(eps)[q as int]);
        }
        out.push(r);
        proof {
            assert(out@ =~= surv + expl@.take(q as int + 1));
        }
        q += 1;
    }
    proof {
        assert(expl@.take(m as int) =~= expl@);
    }
    w.ents = out;
    proof {
        if at_most_one_player(ents0) {
            lemma_at_most_one_player_count(ents0);
            lemma_survivors_player_count(ents0, 0, taken_end);
            assert(ents0.skip(0) =~= ents0);
            lemma_requests_no_player(eps);
            lemma_player_count_concat(surv, requests_at(eps));
            lemma_at_most_one_player_count(w.ents@);
        }
    }
}

/// Index of the first (and, with at most one alive, the only) player
/// entity, `None` when the player is dead or respawning.
pub open spec fn player_index_from(ents: Seq<Entity>, j: int) -> Option<int>
    decreases ents.len() - j,
{
    if j < 0 || j >= ents.len() {
        None
    } else if is_player(ents[j]) {
        Some(j)
    } else {
        player_index_from(ents, j + 1)
    }
}

/// Index of the first enemy-origin laser that overlaps the player at
/// index `pi`; `None` if no enemy laser hits.
pub open spec fn hit_laser_from(ents: Seq<Entity>, pi: int, j: int) -> Option<int>
    decreases ents.len() - j,
{
    if j < 0 || j >= ents.len() {
        None
    } else if is_enemy_laser(ents[j]) && overlap(ents[j], ents[pi]) {
        Some(j)
    } else {
        hit_laser_from(ents, pi, j + 1)
    }
}

/// First player entity in enumeration order.
pub fn find_player(ents: &Vec<Entity>) -> (r: Option<usize>)
    ensures
        match r {
            Some(pi) => pi < ents@.len() && player_index_from(ents@, 0) == Some(pi as int),
            None => player_index_from(ents@, 0) == None::<int>,
        },
{
    let n = ents.len();
    let mut j: usize = 0;
    while j < n
        invariant
            j <= n,
            n == ents@.len(),
            player_index_from(ents@, 0) == player_index_from(ents@, j as int),
        decreases n - j,
    {
        let e = ents[j];
        if ent_is_player(&e) {
            return Some(j);
        }
        j += 1;
    }
    None
}

/// First enemy laser overlapping the player at index `pi`.
fn find_hit_laser(ents: &Vec<Entity>, pi: usize) -> (r: Option<usize>)
    requires
        pi < ents@.len(),
    ensures
        match r {
            Some(lj) => lj < ents@.len() && hit_laser_from(ents@, pi as int, 0) == Some(lj as int),
            None => hit_laser_from(ents@, pi as int, 0) == None::<int>,
        },
{
    let n = ents.len();
    let mut j: usize = 0;
    while j < n
        invariant
            j <= n,
            n == ents@.len(),
            pi < n,
            hit_laser_from(ents@, pi as int, 0) == hit_laser_from(ents@, pi as int, j as int),
        decreases n - j,
    {
        let e = ents[j];
        if ent_is_enemy_laser(&e) && entity_overlap(&e, &ents[pi]) {
            return Some(j);
        }
        j += 1;
    }
    None
}

/// The laser-vs-player pass.
///
/// If a player entity exists, the enemy-origin lasers are tested
/// against it in order, and only the first hit is processed this tick:
/// the player and that laser are destroyed, the death is recorded at
/// time `now`, a life is taken (floored at zero), an explosion is
/// requested at the player's position, and if the remaining life is
/// zero the flow state moves to `End`. With no player or no hit,
/// nothing changes. Score and enemy count are never touched here.
pub fn enemy_laser_hit_player_system(w: &mut World, now: i64)
    requires
        old(w).wf(),
        now >= 0,
    ensures
        final(w).wf(),
        final(w).score == old(w).score,
        final(w).enemy_count == old(w).enemy_count,
        final(w).last_fire == old(w).last_fire,
        at_most_one_player(old(w).ents@) ==> at_most_one_player(final(w).ents@),
        match player_index_from(old(w).ents@, 0) {
            None => final(w).ents@ == old(w).ents@ && final(w).player_life == old(w).player_life
                && final(w).state == old(w).state && final(w).player == old(w).player,
            Some(pi) => match hit_laser_from(old(w).ents@, pi, 0) {
                None => final(w).ents@ == old(w).ents@ && final(w).player_life == old(
                    w,
                ).player_life && final(w).state == old(w).state && final(w).player == old(
                    w,
                ).player,
                Some(lj) => {
                    &&& final(w).ents@ == survivors_from(old(w).ents@, 0, set![pi, lj]) + seq![
                        spec_explosion_request_at(old(w).ents@[pi].pos),
                    ]
                    &&& final(w).player.on == false
                    &&& final(w).player.last_shot == now
                    &&& final(w).player_life.0 == (if old(w).player_life.0 > 0 {
                        old(w).player_life.0 - 1
                    } else {
                        0int
                    })
                    &&& final(w).state == (if final(w).player_life.0 == 0 {
                        GameState::End
                    } else {
                        old(w).state
                    })
                },
            },
        },
{
    let ghost ents0 = w.ents@;
    let pidx = find_player(&w.ents);
    match pidx {
        None => {
        },
        Some(pi) => {
            let lidx = find_hit_laser(&w.ents, pi);
            match lidx {
                None => {
                },
                Some(lj) => {
                    let n = w.ents.len();
                    let ppos = w.ents[pi].pos;
                    w.player.shot(now);
                    let life = w.player_life.0;
                    let newlife = if life > 0 {
                        life - 1
                    } else {
                        0
                    };
                    w.player_life = crate::world::PlayerLife(newlife);
                    if newlife == 0 {
                        w.state = GameState::End;
                    }
                    let ghost taken = set![pi as int, lj as int];
                    let mut out: Vec<Entity> = Vec::new();
                    let mut i: usize = 0;
                    while i < n
                        invariant
                            i <= n,
                            n == ents0.len(),
                            w.ents@ == ents0,
                            ents_ok(ents0),
                            pi < n,
                            lj < n,
                            taken == set![pi as int, lj as int],
                            survivors_from(ents0, 0, taken) == out@ + survivors_from(
                                ents0,
                                i as int,
                                taken,
                            ),
                            ents_ok(out@),
                        decreases n - i,
                    {
                        let ghost out_pre = out@;
                        if i != pi && i != lj {
                            proof {
                                assert(!taken.contains(i as int));
                            }
                            out.push(w.ents[i]);
                            proof {
                                assert(out@ =~= out_pre + seq![ents0[i as int]]);
                                assert(out_pre + (seq![ents0[i as int]] + survivors_from(
                                    ents0,
                                    i as int + 1,
                                    taken,
                                )) =~= (out_pre + seq![ents0[i as int]]) + survivors_from(
                                    ents0,
                                    i as int + 1,
                                    taken,
                                ));
                            }
                        } else {
                            proof {
                                assert(taken.contains(i as int));
                            }
                        }
                        i += 1;
                    }
                    proof {
                        assert(survivors_from(ents0, n as int, taken) == Seq::<Entity>::empty());
                        assert(out@ + Seq::<Entity>::empty() =~= out@);
                    }
                    let ghost surv = out@;
                    out.push(explosion_request_at(ppos));
                    proof {
                        assert(out@ =~= surv + seq![spec_explosion_request_at(ents0[pi as int].pos)]);
                    }
                    w.ents = out;
                    proof {
                        if at_most_one_player(ents0) {
                            lemma_at_most_one_player_count(ents0);
                            lemma_survivors_player_count(ents0, 0, taken);
                            assert(ents0.skip(0) =~= ents0);
                            lemma_player_count_concat(
                                surv,
                                seq![spec_explosion_request_at(ents0[pi as int].pos)],
                            );
                            lemma_player_count_cons(
                                spec_explosion_request_at(ents0[pi as int].pos),
                                Seq::empty(),
                            );
                            assert(seq![spec_explosion_request_at(ents0[pi as int].pos)] =~= seq![
                                spec_explosion_request_at(ents0[pi as int].pos),
                            ] + Seq::<Entity>::empty());
                            lemma_at_most_one_player_count(w.ents@);
                        }
                    }
                },
            }
        },
    }
}

} // verus!
