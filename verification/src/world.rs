//! The game-session world: entity records, shared counters, the
//! game-flow state, and their well-formedness invariant.

use vstd::prelude::*;

use crate::geom::{Size2i, Vec2i};

verus! {

/// Largest number of enemies alive at once.
pub const ENEMY_MAX: u32 = 10;

/// Largest number of enemies sharing one formation.
pub const FORMATION_MEMBERS_MAX: u32 = 2;

/// Lives the player starts a round with.
pub const PLAYER_MAX_LIFE: u32 = 3;

/// Number of cells in the explosion sprite sheet; an explosion
/// animation is destroyed when its frame index reaches this.
pub const EXPLOSION_LEN: u32 = 16;

/// Ticks of the fixed timestep between two explosion frame advances
/// (the engine-driven, non-configurable frame timer period).
pub const EXPLOSION_FRAME_TICKS: u32 = 3;

/// Extra distance past the playfield half-extent that an auto-despawn
/// movable may travel before it is destroyed.
pub const DESPAWN_MARGIN: i64 = 200;

/// Time units that must elapse after the player's death before the
/// player is respawned.
pub const PLAYER_RESPAWN_DELAY: i64 = 2;

/// Playfield size in world units; the origin is the center, so each
/// side lies at half of these extents.
#[derive(Clone, Copy, PartialEq, Eq, Structural, Debug)]
pub struct WinSize {
    pub w: i64,
    pub h: i64,
}

impl WinSize {
    /// A playfield has non-negative extents.
    pub open spec fn wf(self) -> bool {
        self.w >= 0 && self.h >= 0
    }
}

/// Points scored in the current round; monotone while the round lasts,
/// reset on restart.
#[derive(Clone, Copy, PartialEq, Eq, Structural, Debug)]
pub struct GameScore(pub u32);

/// Lives the player has left; decremented with a floor at zero.
#[derive(Clone, Copy, PartialEq, Eq, Structural, Debug)]
pub struct PlayerLife(pub u32);

/// Number of enemies alive according to the formation controller;
/// decremented with a floor at zero.
#[derive(Clone, Copy, PartialEq, Eq, Structural, Debug)]
pub struct EnemyCount(pub u32);

/// Game-flow states. `Splash` is declared but never entered: the game
/// starts directly in `Game` and moves only between `Game` and `End`.
#[derive(Clone, Copy, PartialEq, Eq, Structural, Debug, Hash)]
pub enum GameState {
    Splash,
    End,
    Game,
}

/// Which side fired a laser; decides which collision pair it joins.
#[derive(Clone, Copy, PartialEq, Eq, Structural, Debug)]
pub enum LaserOrigin {
    FromPlayer,
    FromEnemy,
}

/// The role-specific component of an entity.
#[derive(Clone, Copy, PartialEq, Eq, Structural, Debug)]
pub enum Kind {
    /// The player ship; at most one is alive at a time.
    Player,
    /// An enemy ship, tagged with the formation it spawned into.
    Enemy { formation: u32 },
    /// A laser shot, tagged with its origin.
    Laser(LaserOrigin),
    /// Transient marker: "something was destroyed here"; consumed by
    /// the explosion spawner within a tick.
    ExplosionToSpawn,
    /// A running explosion animation: current sprite cell and ticks
    /// elapsed since the last frame advance.
    Explosion { frame: u32, elapsed: u32 },
}

/// One live entity: a role plus the components the simulation reads.
/// Entities are identified by their index in the world's entity list.
#[derive(Clone, Copy, PartialEq, Eq, Structural, Debug)]
pub struct Entity {
    pub kind: Kind,
    /// Center position, world units.
    pub pos: Vec2i,
    /// Full extent of the collision box, world units.
    pub size: Size2i,
    /// Displacement per time unit, world units; applied by the
    /// movement integrator scaled by the speed step.
    pub vel: Vec2i,
    /// Whether the movement integrator advances this entity.
    pub movable: bool,
    /// Whether leaving the playfield bounds destroys this entity.
    pub auto_despawn: bool,
}

/// Player-controller bookkeeping: whether the player ship is alive,
/// and when it was last shot down (`-1` for "never", i.e. game start).
#[derive(Clone, Copy, PartialEq, Eq, Structural, Debug)]
pub struct PlayerState {
    pub on: bool,
    pub last_shot: i64,
}

impl Default for PlayerState {
    /// At game start the player is not yet spawned and was never shot.
    fn default() -> (r: Self)
        ensures
            r.on == false,
            r.last_shot == -1,
    {
        PlayerState { on: false, last_shot: -1 }
    }
}

impl PlayerState {
    /// Record the player's death at the given time.
    pub fn shot(&mut self, time: i64)
        ensures
            final(self).on == false,
            final(self).last_shot == time,
    {
        self.on = false;
        self.last_shot = time;
    }

    /// Record that the player ship has been (re)spawned.
    pub fn spawned(&mut self)
        ensures
            final(self).on == true,
            final(self).last_shot == -1,
    {
        self.on = true;
        self.last_shot = -1;
    }
}

/// The explicit game-session state threaded through every system:
/// all live entities plus the shared counters and the flow state.
pub struct World {
    pub ents: Vec<Entity>,
    pub state: GameState,
    pub score: GameScore,
    pub player_life: PlayerLife,
    pub enemy_count: EnemyCount,
    pub player: PlayerState,
    /// When the player last fired, `-1` for "not yet"; drives the
    /// minimum fire interval.
    pub last_fire: i64,
}

/// Role predicates, usable in contracts.
pub open spec fn is_player(e: Entity) -> bool {
    e.kind is Player
}

pub open spec fn is_enemy(e: Entity) -> bool {
    e.kind is Enemy
}

pub open spec fn is_player_laser(e: Entity) -> bool {
    e.kind == Kind::Laser(LaserOrigin::FromPlayer)
}

pub open spec fn is_enemy_laser(e: Entity) -> bool {
    e.kind == Kind::Laser(LaserOrigin::FromEnemy)
}

pub open spec fn is_explosion_request(e: Entity) -> bool {
    e.kind is ExplosionToSpawn
}

/// Per-entity well-formedness: extents are non-negative, and a running
/// explosion animation is within its sprite sheet and frame period.
pub open spec fn ent_ok(e: Entity) -> bool {
    &&& e.size.w >= 0
    &&& e.size.h >= 0
    &&& (e.kind matches Kind::Explosion { frame, elapsed } ==> frame < EXPLOSION_LEN && elapsed
        < EXPLOSION_FRAME_TICKS)
}

/// All entities of a sequence are well-formed.
pub open spec fn ents_ok(ents: Seq<Entity>) -> bool {
    forall|i: int| 0 <= i < ents.len() ==> ent_ok(#[trigger] ents[i])
}

/// At most one player ship is alive: any two player entities are the
/// same entity. The player controller spawns only into a player-free
/// world and no other system creates a player, so every system
/// carries this as a preserved invariant in its contract.
pub open spec fn at_most_one_player(ents: Seq<Entity>) -> bool {
    forall|i: int, j: int|
        0 <= i < ents.len() && 0 <= j < ents.len() && is_player(#[trigger] ents[i]) && is_player(
            #[trigger] ents[j],
        ) ==> i == j
}

/// Number of player entities in `ents`.
pub open spec fn player_count(ents: Seq<Entity>) -> int
    decreases ents.len(),
{
    if ents.len() == 0 {
        0
    } else {
        (if is_player(ents[0]) {
            1int
        } else {
            0int
        }) + player_count(ents.drop_first())
    }
}

/// Prepending one entity adds its player flag to the count.
pub proof fn lemma_player_count_cons(e: Entity, rest: Seq<Entity>)
    ensures
        player_count(seq![e] + rest) == (if is_player(e) {
            1int
        } else {
            0int
        }) + player_count(rest),
{
    assert((seq![e] + rest).drop_first() =~= rest);
    assert((seq![e] + rest)[0] == e);
}

/// The count splits over concatenation.
pub proof fn lemma_player_count_concat(a: Seq<Entity>, b: Seq<Entity>)
    ensures
        player_count(a + b) == player_count(a) + player_count(b),
    decreases a.len(),
{
    if a.len() == 0 {
        assert(a + b =~= b);
    } else {
        lemma_player_count_concat(a.drop_first(), b);
        assert(a + b =~= seq![a[0]] + (a.drop_first() + b));
        lemma_player_count_cons(a[0], a.drop_first() + b);
        assert(a =~= seq![a[0]] + a.drop_first());
        lemma_player_count_cons(a[0], a.drop_first());
    }
}

/// The count is zero exactly when no entity is a player.
pub proof fn lemma_player_count_zero(ents: Seq<Entity>)
    ensures
        (player_count(ents) == 0) <==> (forall|i: int|
            0 <= i < ents.len() ==> !is_player(#[trigger] ents[i])),
    decreases ents.len(),
{
    if ents.len() > 0 {
        let rest = ents.drop_first();
        lemma_player_count_zero(rest);
        lemma_player_count_nonneg(rest);
        assert(forall|j: int| 0 <= j < rest.len() ==> #[trigger] rest[j] == ents[j + 1]);
        if player_count(ents) == 0 {
            assert forall|i: int| 0 <= i < ents.len() implies !is_player(#[trigger] ents[i]) by {
                if i > 0 {
                    assert(ents[i] == rest[i - 1]);
                }
            }
        } else {
            if forall|i: int| 0 <= i < ents.len() ==> !is_player(#[trigger] ents[i]) {
                assert(forall|j: int| 0 <= j < rest.len() ==> !is_player(#[trigger] rest[j]));
            }
        }
    }
}

/// The count is never negative.
pub proof fn lemma_player_count_nonneg(ents: Seq<Entity>)
    ensures
        player_count(ents) >= 0,
    decreases ents.len(),
{
    if ents.len() > 0 {
        lemma_player_count_nonneg(ents.drop_first());
    }
}

/// "At most one player" is the same as a player count of at most one.
pub proof fn lemma_at_most_one_player_count(ents: Seq<Entity>)
    ensures
        at_most_one_player(ents) <==> player_count(ents) <= 1,
    decreases ents.len(),
{
    if ents.len() == 0 {
    } else {
        let rest = ents.drop_first();
        lemma_at_most_one_player_count(rest);
        lemma_player_count_zero(rest);
        lemma_player_count_nonneg(rest);
        assert(forall|j: int| 0 <= j < rest.len() ==> #[trigger] rest[j] == ents[j + 1]);
        if at_most_one_player(ents) {
            assert(at_most_one_player(rest)) by {
                assert forall|i: int, j: int|
                    0 <= i < rest.len() && 0 <= j < rest.len() && is_player(#[trigger] rest[i])
                        && is_player(#[trigger] rest[j]) implies i == j by {
                    assert(is_player(ents[i + 1]) && is_player(ents[j + 1]));
                }
            }
            if is_player(ents[0]) {
                assert(player_count(rest) == 0) by {
                    assert forall|j: int| 0 <= j < rest.len() implies !is_player(
                        #[trigger] rest[j],
                    ) by {
                        assert(is_player(ents[0]));
                        if is_player(rest[j]) {
                            assert(is_player(ents[j + 1]));
                        }
                    }
                }
            }
        }
        if player_count(ents) <= 1 {
            assert forall|i: int, j: int|
                0 <= i < ents.len() && 0 <= j < ents.len() && is_player(#[trigger] ents[i])
                    && is_player(#[trigger] ents[j]) implies i == j by {
                if is_player(ents[0]) {
                    assert(player_count(rest) == 0);
                    if i > 0 {
                        assert(is_player(rest[i - 1]));
                    }
                    if j > 0 {
                        assert(is_player(rest[j - 1]));
                    }
                } else {
                    if i > 0 && j > 0 {
                        assert(is_player(rest[i - 1]) && is_player(rest[j - 1]));
                        assert(at_most_one_player(rest));
                    }
                }
            }
        }
    }
}

impl World {
    /// Session invariant: every entity is well-formed, and the two
    /// "time since last event" marks are a real time or `-1` for
    /// "never". Constructors establish it and every system preserves
    /// it.
    pub open spec fn wf(self) -> bool {
        &&& ents_ok(self.ents@)
        &&& self.player.last_shot >= -1
        &&& self.last_fire >= -1
    }

    /// A fresh session: no entities, initial counters, state `Game`.
    pub fn new() -> (w: World)
        ensures
            w.wf(),
            w.ents@.len() == 0,
            w.state == GameState::Game,
            w.score.0 == 0,
            w.player_life.0 == PLAYER_MAX_LIFE,
            w.enemy_count.0 == 0,
            w.player.on == false,
            w.player.last_shot == -1,
            w.last_fire == -1,
    {
        let w = World {
            ents: Vec::new(),
            state: GameState::Game,
            score: GameScore(0),
            player_life: PlayerLife(PLAYER_MAX_LIFE),
            enemy_count: EnemyCount(0),
            player: PlayerState::default(),
            last_fire: -1,
        };
        w
    }
}

/// Executable counterparts of the role predicates.
pub fn ent_is_player(e: &Entity) -> (r: bool)
    ensures
        r == is_player(*e),
{
    match e.kind {
        Kind::Player => true,
        _ => false,
    }
}

pub fn ent_is_enemy(e: &Entity) -> (r: bool)
    ensures
        r == is_enemy(*e),
{
    match e.kind {
        Kind::Enemy { .. } => true,
        _ => false,
    }
}

pub fn ent_is_player_laser(e: &Entity) -> (r: bool)
    ensures
        r == is_player_laser(*e),
{
    match e.kind {
        Kind::Laser(LaserOrigin::FromPlayer) => true,
        _ => false,
    }
}

pub fn ent_is_enemy_laser(e: &Entity) -> (r: bool)
    ensures
        r == is_enemy_laser(*e),
{
    match e.kind {
        Kind::Laser(LaserOrigin::FromEnemy) => true,
        _ => false,
    }
}

pub fn ent_is_explosion_request(e: &Entity) -> (r: bool)
    ensures
        r == is_explosion_request(*e),
{
    match e.kind {
        Kind::ExplosionToSpawn => true,
        _ => false,
    }
}

/// The transient "destroyed here" marker entity placed at `p`.
pub open spec fn spec_explosion_request_at(p: Vec2i) -> Entity {
    Entity {
        kind: Kind::ExplosionToSpawn,
        pos: p,
        size: Size2i { w: 0, h: 0 },
        vel: Vec2i { x: 0, y: 0 },
        movable: false,
        auto_despawn: false,
    }
}

/// Build the marker entity for an explosion requested at `p`.
pub fn explosion_request_at(p: Vec2i) -> (e: Entity)
    ensures
        e == spec_explosion_request_at(p),
{
    Entity {
        kind: Kind::ExplosionToSpawn,
        pos: p,
        size: Size2i { w: 0, h: 0 },
        vel: Vec2i { x: 0, y: 0 },
        movable: false,
        auto_despawn: false,
    }
}

} // verus!
