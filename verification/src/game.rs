//! The rules of the game around the simulation: how the player steers,
//! how the stages follow each other, where terrain appears, when it is
//! cleared away, how the score grows.

use vstd::prelude::*;
use rand::Rng;
use std::rc::Rc;
use crate::assets::{is_rock, is_wall_block, rock_entity, wall_entity};
use crate::collision::{Collider, Mobile, Projectile, Terrain, Wall};
use crate::entity::{all_synchronised, Entity};
use crate::geometry::{rects_overlap, Rect, Vec2i};
use crate::pool::{retain_survivors, Survivor};
use crate::texture::Texture;
use crate::tiles::{TileID, Tilemap, Tileset};
use crate::velocity::Velocity;

verus! {

/// Width of the screen, in pixels.
pub const SCREEN_WIDTH: usize = 320;

/// Height of the screen, in pixels.
pub const SCREEN_HEIGHT: usize = 576;

/// The bit pattern of three, the player's speed to the right.
pub const RIGHT_SPEED_BITS: u32 = 0x4040_0000;

/// The bit pattern of minus three, the player's speed to the left.
pub const LEFT_SPEED_BITS: u32 = 0xC040_0000;

/// The bit pattern of minus four, the player's speed upwards.
pub const UP_SPEED_BITS: u32 = 0xC080_0000;

/// The bit pattern of two, the player's speed downwards.
pub const DOWN_SPEED_BITS: u32 = 0x4000_0000;

/// Every so many ticks the player fires.
pub const FIRE_PERIOD: usize = 5;

/// Terrain that has left the screen is kept until it is this old.
pub const TERRAIN_GRACE_TICKS: usize = 300;

/// Every so many ticks of the rock stage a field of rocks appears, and
/// every so many ticks of the boulder stage a row of boulders.
pub const TERRAIN_PERIOD: usize = 180;

/// The tick of each period at which the field of rocks appears.
pub const ROCK_FIELD_PHASE: usize = 120;

/// Every so many ticks an enemy of the current wave appears.
pub const ENEMY_PERIOD: usize = 30;

/// A wave is complete when the pool holds this many mobiles, the player
/// among them.
pub const FULL_WAVE: usize = 5;

/// The stage roll has this many outcomes.
pub const STAGE_ROLL: usize = 4;

/// The rock stage ends when roll and wave number reach this.
pub const ROCK_STAGE_END: usize = 5;

/// The boulder stage ends when roll and wave number reach this.
pub const BOULDER_STAGE_END: usize = 7;

/// The arrow keys that are held down.
#[derive(Clone, Copy, Debug, PartialEq, Eq, Structural)]
pub struct Controls {
    pub left: bool,
    pub right: bool,
    pub up: bool,
    pub down: bool,
}

/// The velocity that the held keys give the player; right wins over left
/// and up over down. With no vertical key the player keeps pace with the
/// scrolling world.
pub open spec fn steered(controls: Controls) -> (Velocity, Velocity) {
    (
        Velocity {
            bits: if controls.right {
                RIGHT_SPEED_BITS
            } else if controls.left {
                LEFT_SPEED_BITS
            } else {
                crate::velocity::ZERO_BITS
            },
        },
        Velocity {
            bits: if controls.up {
                UP_SPEED_BITS
            } else if controls.down {
                DOWN_SPEED_BITS
            } else {
                crate::velocity::AMBIENT_SCROLL_BITS
            },
        },
    )
}

/// Computes [`steered`].
pub fn steer_player(controls: Controls) -> (velocity: (Velocity, Velocity))
    ensures
        velocity == steered(controls),
{
    let vx: Velocity = if controls.right {
        Velocity::from_bits(RIGHT_SPEED_BITS)
    } else if controls.left {
        Velocity::from_bits(LEFT_SPEED_BITS)
    } else {
        Velocity::at_rest()
    };
    let vy: Velocity = if controls.up {
        Velocity::from_bits(UP_SPEED_BITS)
    } else if controls.down {
        Velocity::from_bits(DOWN_SPEED_BITS)
    } else {
        Velocity::scrolling()
    };
    (vx, vy)
}

/// The stage of the game: waves of enemies among rocks (whether a wave is
/// still arriving, and its number), rows of boulders (the number of the
/// row), or the boss.
#[derive(Clone, Copy, Debug, PartialEq, Eq, Structural)]
pub enum GameStage {
    Rocks(bool, usize),
    Boulders(usize),
    Boss,
}

/// The kinds of terrain that a stage lets appear.
#[derive(Clone, Copy, Debug, PartialEq, Eq, Structural)]
pub enum TerrainKind {
    RockField,
    BoulderRow,
}

/// What a stage decides for one tick: the stage of the next tick, the
/// terrain to generate, and whether an enemy joins.
#[derive(Clone, Copy, Debug, PartialEq, Eq, Structural)]
pub struct StageStep {
    pub stage: GameStage,
    pub terrain: Option<TerrainKind>,
    pub spawn_enemy: bool,
}

/// Whether the decision of this tick depends on the stage roll.
pub open spec fn stage_rolls(stage: GameStage, frame_count: usize, mobiles: usize) -> bool {
    match stage {
        GameStage::Rocks(spawning, _) => !spawning && mobiles == 1,
        GameStage::Boulders(_) => frame_count % TERRAIN_PERIOD == 0,
        GameStage::Boss => false,
    }
}

/// The decision of a stage at tick `frame_count`, with `mobiles` mobiles
/// in the pool and `roll` as the stage roll.
///
/// - Rocks: a field of rocks appears at tick 120 of every 180. While a
///   wave arrives, an enemy joins every 30 ticks, and the wave is complete
///   when the pool, the newcomer counted, holds five mobiles. When a
///   complete wave is beaten and the player is alone, the roll decides:
///   the boulder stage begins if roll and wave number reach five, else
///   the next wave arrives.
/// - Boulders: at every 180th tick a row of boulders appears and the roll
///   decides: the rock stage begins again if roll and row number reach
///   seven, else the next row is awaited.
/// - Boss: nothing happens.
pub open spec fn stage_step(stage: GameStage, frame_count: usize, mobiles: usize, roll: usize) -> StageStep {
    match stage {
        GameStage::Rocks(spawning, waves) => {
            let terrain = if frame_count % TERRAIN_PERIOD == ROCK_FIELD_PHASE {
                Some(TerrainKind::RockField)
            } else {
                None
            };
            if spawning {
                let spawn_enemy = frame_count % ENEMY_PERIOD == 0;
                let arrived = if spawn_enemy {
                    mobiles + 1
                } else {
                    mobiles as int
                };
                StageStep {
                    stage: if arrived == FULL_WAVE {
                        GameStage::Rocks(false, waves)
                    } else {
                        stage
                    },
                    terrain,
                    spawn_enemy,
                }
            } else if mobiles == 1 {
                StageStep {
                    stage: if roll + waves >= ROCK_STAGE_END {
                        GameStage::Boulders(1)
                    } else {
                        GameStage::Rocks(true, (waves + 1) as usize)
                    },
                    terrain,
                    spawn_enemy: false,
                }
            } else {
                StageStep { stage, terrain, spawn_enemy: false }
            }
        },
        GameStage::Boulders(waves) => {
            if frame_count % TERRAIN_PERIOD == 0 {
                StageStep {
                    stage: if roll + waves >= BOULDER_STAGE_END {
                        GameStage::Rocks(true, 1)
                    } else {
                        GameStage::Boulders((waves + 1) as usize)
                    },
                    terrain: Some(TerrainKind::BoulderRow),
                    spawn_enemy: false,
                }
            } else {
                StageStep { stage, terrain: None, spawn_enemy: false }
            }
        },
        GameStage::Boss => StageStep { stage, terrain: None, spawn_enemy: false },
    }
}

/// Whether `roll` and `waves` together reach `end`.
fn reaches(roll: usize, waves: usize, end: usize) -> (reached: bool)
    ensures
        reached == (roll + waves >= end),
{
    roll >= end || waves >= end - roll
}

/// Computes [`stage_step`].
pub fn advance_stage(stage: GameStage, frame_count: usize, mobiles: usize, roll: usize) -> (step:
    StageStep)
    ensures
        step == stage_step(stage, frame_count, mobiles, roll),
{
    match stage {
        GameStage::Rocks(spawning, waves) => {
            let terrain: Option<TerrainKind> = if frame_count % TERRAIN_PERIOD == ROCK_FIELD_PHASE {
                Some(TerrainKind::RockField)
            } else {
                None
            };
            if spawning {
                let spawn_enemy: bool = frame_count % ENEMY_PERIOD == 0;
                let full: bool = if spawn_enemy {
                    mobiles == FULL_WAVE - 1
                } else {
                    mobiles == FULL_WAVE
                };
                StageStep {
                    stage: if full {
                        GameStage::Rocks(false, waves)
                    } else {
                        stage
                    },
                    terrain,
                    spawn_enemy,
                }
            } else if mobiles == 1 {
                StageStep {
                    stage: if reaches(roll, waves, ROCK_STAGE_END) {
                        GameStage::Boulders(1)
                    } else {
                        GameStage::Rocks(true, waves + 1)
                    },
                    terrain,
                    spawn_enemy: false,
                }
            } else {
                StageStep { stage, terrain, spawn_enemy: false }
            }
        },
        GameStage::Boulders(waves) => {
            if frame_count % TERRAIN_PERIOD == 0 {
                StageStep {
                    stage: if reaches(roll, waves, BOULDER_STAGE_END) {
                        GameStage::Rocks(true, 1)
                    } else {
                        GameStage::Boulders(waves + 1)
                    },
                    terrain: Some(TerrainKind::BoulderRow),
                    spawn_enemy: false,
                }
            } else {
                StageStep { stage, terrain: None, spawn_enemy: false }
            }
        },
        GameStage::Boss => StageStep { stage, terrain: None, spawn_enemy: false },
    }
}

/// A number below `bound`, by `rand::Rng::gen_range` on the generator of
/// the current thread (`rand::thread_rng`). `gen_range` panics on an empty
/// range, which `bound > 0` excludes; for a range of integers it returns
/// the lower bound plus an offset below the width of the range. Which
/// number comes is not said: two calls may differ. Nothing is claimed of
/// a machine whose source of randomness fails: the generator cannot be
/// made there.
#[verifier::external_body]
fn random_below(bound: usize) -> (roll: usize)
    requires
        bound > 0,
    ensures
        roll < bound,
{
    rand::thread_rng().gen_range(0..bound)
}

/// The decision of a stage for one tick, with the stage roll drawn at
/// random where the decision depends on it.
pub fn decide_stage(stage: GameStage, frame_count: usize, mobiles: usize) -> (step: StageStep)
    ensures
        exists|roll: usize| roll < STAGE_ROLL && step == stage_step(stage, frame_count, mobiles, roll),
        !stage_rolls(stage, frame_count, mobiles) ==> step == stage_step(
            stage,
            frame_count,
            mobiles,
            0,
        ),
{
    let rolls: bool = match stage {
        GameStage::Rocks(spawning, _) => !spawning && mobiles == 1,
        GameStage::Boulders(_) => frame_count % TERRAIN_PERIOD == 0,
        GameStage::Boss => false,
    };
    let roll: usize = if rolls {
        random_below(STAGE_ROLL)
    } else {
        0
    };
    advance_stage(stage, frame_count, mobiles, roll)
}

/// The score after a tick in which `scores_gained` mobiles were removed:
/// each counts one, less one where the player has died.
pub open spec fn score_after(score: usize, player_is_alive: bool, scores_gained: usize) -> int {
    if player_is_alive {
        score + scores_gained
    } else {
        score + scores_gained - 1
    }
}

/// Whether the score of a tick can be settled: a player that has died
/// has taken a mobile along, and the score stays within `usize`.
pub open spec fn score_settles(score: usize, player_is_alive: bool, scores_gained: usize) -> bool {
    &&& player_is_alive || scores_gained >= 1
    &&& score_after(score, player_is_alive, scores_gained) <= usize::MAX
}

/// Computes [`score_settles`].
pub fn can_settle_score(score: usize, player_is_alive: bool, scores_gained: usize) -> (settles: bool)
    ensures
        settles == score_settles(score, player_is_alive, scores_gained),
{
    if player_is_alive {
        scores_gained <= usize::MAX - score
    } else {
        scores_gained >= 1 && scores_gained - 1 <= usize::MAX - score
    }
}

/// Settles the score of a tick. Returns the new score, and whether the
/// game is over with this tick.
pub fn settle_score(score: usize, player_is_alive: bool, scores_gained: usize) -> (settled: (
    usize,
    bool,
))
    requires
        score_settles(score, player_is_alive, scores_gained),
    ensures
        settled.0 == score_after(score, player_is_alive, scores_gained),
        settled.1 == !player_is_alive,
{
    if !player_is_alive {
        (score + (scores_gained - 1), true)
    } else {
        (score + scores_gained, false)
    }
}

/// Whether the player fires at this tick.
pub open spec fn fires_at(frame_count: usize) -> bool {
    frame_count % FIRE_PERIOD == 0
}

/// Whether the player can fire where the tick is one at which it fires:
/// there is a player, and its muzzle point lies on the grid.
pub open spec fn fire_fits(mobiles: Seq<Entity<Mobile>>, frame_count: usize) -> bool {
    fires_at(frame_count) ==> mobiles.len() > 0 && Projectile::can_fire(*mobiles[0].collider())
}

/// Computes [`fire_fits`].
pub fn can_fire(mobiles: &[Entity<Mobile>], frame_count: usize) -> (fits: bool)
    ensures
        fits == fire_fits(mobiles@, frame_count),
{
    if frame_count % FIRE_PERIOD != 0 {
        return true;
    }
    if mobiles.len() == 0 {
        return false;
    }
    let rect: Rect = mobiles[0].collider().rect;
    rect.x as i64 + rect.w as i64 / 2 <= i32::MAX as i64 && rect.y as i64 - 10 >= i32::MIN as i64
}

/// Lets the player, the first mobile, fire where the tick is one at which
/// it fires: a new projectile joins the pool.
pub fn fire(mobiles: &[Entity<Mobile>], projs: &mut Vec<Projectile>, frame_count: usize)
    requires
        fire_fits(mobiles@, frame_count),
    ensures
        final(projs)@ == if fires_at(frame_count) {
            old(projs)@.push(Projectile::fired_from(*mobiles[0].collider()))
        } else {
            old(projs)@
        },
{
    if frame_count % FIRE_PERIOD == 0 {
        projs.push(Projectile::new(mobiles[0].collider()));
    }
}

/// Whether every wall has a row above it to move to.
pub open spec fn walls_can_scroll(walls: Seq<Wall>) -> bool {
    forall|i: int| 0 <= i < walls.len() ==> (#[trigger] walls[i]).rect.y > i32::MIN
}

/// Computes [`walls_can_scroll`].
pub fn can_scroll_walls(walls: &[Wall]) -> (fits: bool)
    ensures
        fits == walls_can_scroll(walls@),
{
    let mut i: usize = 0;
    while i < walls.len()
        invariant
            i <= walls.len(),
            forall|k: int| 0 <= k < i ==> (#[trigger] walls@[k]).rect.y > i32::MIN,
        decreases walls.len() - i,
    {
        if walls[i].rect.y == i32::MIN {
            return false;
        }
        i += 1;
    }
    true
}

/// Moves every wall one pixel up, with the camera.
pub fn scroll_walls(walls: &mut Vec<Wall>)
    requires
        walls_can_scroll(old(walls)@),
    ensures
        final(walls).len() == old(walls).len(),
        forall|i: int|
            0 <= i < old(walls).len() ==> #[trigger] final(walls)[i] == old(walls)[i].placed_at(
                old(walls)[i].rect.x,
                (old(walls)[i].rect.y - 1) as i32,
            ),
{
    let ghost given = walls@;
    let mut i: usize = 0;
    while i < walls.len()
        invariant
            i <= walls.len(),
            walls.len() == given.len(),
            walls_can_scroll(given),
            forall|k: int|
                0 <= k < i ==> #[trigger] walls[k] == given[k].placed_at(
                    given[k].rect.x,
                    (given[k].rect.y - 1) as i32,
                ),
            forall|k: int| i <= k < given.len() ==> #[trigger] walls[k] == given[k],
        decreases walls.len() - i,
    {
        walls[i].move_pos(0, -1);
        i += 1;
    }
}

/// Whether every mobile can make its stride without leaving the grid.
pub open spec fn mobiles_can_advance(mobiles: Seq<Entity<Mobile>>) -> bool {
    forall|i: int|
        0 <= i < mobiles.len() ==> (#[trigger] mobiles[i]).collider().rect.can_shift(
            mobiles[i].collider().vx.whole_pixels(),
            mobiles[i].collider().vy.whole_pixels(),
        )
}

/// Tells whether the mobiles are each in one place and can make their
/// strides.
pub fn can_advance_mobiles(mobiles: &[Entity<Mobile>]) -> (fits: bool)
    ensures
        fits == (all_synchronised(mobiles@) && mobiles_can_advance(mobiles@)),
{
    let mut i: usize = 0;
    while i < mobiles.len()
        invariant
            i <= mobiles.len(),
            forall|k: int| 0 <= k < i ==> (#[trigger] mobiles@[k]).synchronised(),
            forall|k: int|
                0 <= k < i ==> (#[trigger] mobiles@[k]).collider().rect.can_shift(
                    mobiles@[k].collider().vx.whole_pixels(),
                    mobiles@[k].collider().vy.whole_pixels(),
                ),
        decreases mobiles.len() - i,
    {
        let m: &Mobile = mobiles[i].collider();
        if !mobiles[i].is_synchronised() || !shift_fits(m.rect, m.vx.truncate(), m.vy.truncate()) {
            return false;
        }
        i += 1;
    }
    true
}

/// Tells whether a rectangle can be shifted without leaving the grid.
fn shift_fits(rect: Rect, dx: i32, dy: i32) -> (fits: bool)
    ensures
        fits == rect.can_shift(dx as int, dy as int),
{
    let x: i64 = rect.x as i64 + dx as i64;
    let y: i64 = rect.y as i64 + dy as i64;
    i32::MIN as i64 <= x && x <= i32::MAX as i64 && i32::MIN as i64 <= y && y <= i32::MAX as i64
}

/// Moves every mobile by its velocity, rounded towards zero.
pub fn advance_mobiles(mobiles: &mut Vec<Entity<Mobile>>)
    requires
        all_synchronised(old(mobiles)@),
        mobiles_can_advance(old(mobiles)@),
    ensures
        final(mobiles).len() == old(mobiles).len(),
        all_synchronised(final(mobiles)@),
        forall|i: int|
            0 <= i < old(mobiles).len() ==> #[trigger] final(mobiles)[i] == old(mobiles)[i].moved(
                old(mobiles)[i].collider().vx.whole_pixels(),
                old(mobiles)[i].collider().vy.whole_pixels(),
            ),
{
    let ghost given = mobiles@;
    let mut i: usize = 0;
    while i < mobiles.len()
        invariant
            i <= mobiles.len(),
            mobiles.len() == given.len(),
            all_synchronised(given),
            mobiles_can_advance(given),
            forall|k: int| 0 <= k < i ==> (#[trigger] mobiles[k]).synchronised(),
            forall|k: int|
                0 <= k < i ==> #[trigger] mobiles[k] == given[k].moved(
                    given[k].collider().vx.whole_pixels(),
                    given[k].collider().vy.whole_pixels(),
                ),
            forall|k: int| i <= k < given.len() ==> #[trigger] mobiles[k] == given[k],
        decreases mobiles.len() - i,
    {
        assert(given[i as int].synchronised());
        let dx: i32 = mobiles[i].collider().vx.truncate();
        let dy: i32 = mobiles[i].collider().vy.truncate();
        mobiles[i].move_pos(dx, dy);
        i += 1;
    }
}

/// Whether every projectile can make its stride without leaving the grid.
pub open spec fn projectiles_can_advance(projs: Seq<Projectile>) -> bool {
    forall|i: int|
        0 <= i < projs.len() ==> (#[trigger] projs[i]).rect.can_shift(
            projs[i].vx.whole_pixels(),
            projs[i].vy.whole_pixels(),
        )
}

/// Computes [`projectiles_can_advance`].
pub fn can_advance_projectiles(projs: &[Projectile]) -> (fits: bool)
    ensures
        fits == projectiles_can_advance(projs@),
{
    let mut i: usize = 0;
    while i < projs.len()
        invariant
            i <= projs.len(),
            forall|k: int|
                0 <= k < i ==> (#[trigger] projs@[k]).rect.can_shift(
                    projs@[k].vx.whole_pixels(),
                    projs@[k].vy.whole_pixels(),
                ),
        decreases projs.len() - i,
    {
        if !shift_fits(projs[i].rect, projs[i].vx.truncate(), projs[i].vy.truncate()) {
            return false;
        }
        i += 1;
    }
    true
}

/// Moves every projectile by its velocity, rounded towards zero.
pub fn advance_projectiles(projs: &mut Vec<Projectile>)
    requires
        projectiles_can_advance(old(projs)@),
    ensures
        final(projs).len() == old(projs).len(),
        forall|i: int|
            0 <= i < old(projs).len() ==> #[trigger] final(projs)[i] == old(projs)[i].placed_at(
                (old(projs)[i].rect.x + old(projs)[i].vx.whole_pixels()) as i32,
                (old(projs)[i].rect.y + old(projs)[i].vy.whole_pixels()) as i32,
            ),
{
    let ghost given = projs@;
    let mut i: usize = 0;
    while i < projs.len()
        invariant
            i <= projs.len(),
            projs.len() == given.len(),
            projectiles_can_advance(given),
            forall|k: int|
                0 <= k < i ==> #[trigger] projs[k] == given[k].placed_at(
                    (given[k].rect.x + given[k].vx.whole_pixels()) as i32,
                    (given[k].rect.y + given[k].vy.whole_pixels()) as i32,
                ),
            forall|k: int| i <= k < given.len() ==> #[trigger] projs[k] == given[k],
        decreases projs.len() - i,
    {
        let (vx, vy) = projs[i].get_velocity();
        let dx: i32 = vx.truncate();
        let dy: i32 = vy.truncate();
        projs[i].move_pos(dx, dy);
        i += 1;
    }
}

/// The screen and the tick by which terrain is cleared away.
pub struct Clearance {
    pub frame_count: usize,
    pub screen: Rect,
}

/// Terrain is kept while it shows on the screen, and in any case until it
/// is 300 ticks old.
pub open spec fn terrain_is_kept(t: Entity<Terrain>, frame_count: usize, screen: Rect) -> bool {
    t.collider().rect.overlaps(screen) || frame_count - t.collider().created_at < TERRAIN_GRACE_TICKS
}

/// Whether every block can be tested against the screen: its rectangle
/// is well formed, and it was not made after `frame_count`.
pub open spec fn clearable(terrains: Seq<Entity<Terrain>>, frame_count: usize, screen: Rect) -> bool {
    &&& screen.well_formed()
    &&& forall|i: int|
        0 <= i < terrains.len() ==> (#[trigger] terrains[i]).collider().rect.well_formed()
            && terrains[i].collider().created_at <= frame_count
}

impl Survivor<Clearance> for Entity<Terrain> {
    open spec fn testable(&self, context: &Clearance) -> bool {
        &&& context.screen.well_formed()
        &&& self.collider().rect.well_formed()
        &&& self.collider().created_at <= context.frame_count
    }

    open spec fn survives(&self, context: &Clearance) -> bool {
        terrain_is_kept(*self, context.frame_count, context.screen)
    }

    fn check_survives(&self, context: &Clearance) -> bool {
        rects_overlap(self.collider().rect, context.screen) || context.frame_count
            - self.collider().created_at < TERRAIN_GRACE_TICKS
    }
}

/// Computes [`clearable`].
pub fn can_cleanup_terrain(terrains: &[Entity<Terrain>], frame_count: usize, screen: Rect) -> (fits:
    bool)
    ensures
        fits == clearable(terrains@, frame_count, screen),
{
    if !screen.is_well_formed() {
        return false;
    }
    let mut i: usize = 0;
    while i < terrains.len()
        invariant
            i <= terrains.len(),
            forall|k: int|
                0 <= k < i ==> (#[trigger] terrains@[k]).collider().rect.well_formed()
                    && terrains@[k].collider().created_at <= frame_count,
        decreases terrains.len() - i,
    {
        let t: &Terrain = terrains[i].collider();
        if !t.rect.is_well_formed() || t.created_at > frame_count {
            return false;
        }
        i += 1;
    }
    true
}

/// Removes the terrain that has left the screen and is old enough to go.
pub fn cleanup_terrain(terrains: &mut Vec<Entity<Terrain>>, frame_count: usize, screen: Rect)
    requires
        clearable(old(terrains)@, frame_count, screen),
    ensures
        final(terrains)@ == old(terrains)@.filter(
            |t: Entity<Terrain>| terrain_is_kept(t, frame_count, screen),
        ),
{
    let context = Clearance { frame_count, screen };
    retain_survivors(
        terrains,
        &context,
        Ghost(|t: Entity<Terrain>| terrain_is_kept(t, frame_count, screen)),
    );
}

/// A field of rocks has this many columns, one rock wide each.
pub const ROCK_COLUMNS: usize = 20;

/// A field of rocks has this many rows above the screen.
pub const ROCK_ROWS: usize = 6;

/// A cell of a field of rocks holds a rock when its roll, out of this
/// many outcomes, is zero.
pub const ROCK_ODDS: usize = 6;

/// A row of boulders has this many slots, one boulder wide each.
pub const BOULDER_SLOTS: usize = 10;

/// The seed of a row of boulders is below this.
pub const SEED_RANGE: usize = 256;

/// A block of terrain to make: a rock, or else a boulder, and where.
#[derive(Clone, Copy, Debug, PartialEq, Eq, Structural)]
pub struct Placement {
    pub rock: bool,
    pub at: Vec2i,
}

/// The place of cell `k` of a field of rocks above a screen whose top is
/// at `scroll_y`. The cells are counted column by column, each column
/// from the screen upwards.
pub open spec fn rock_cell(k: int, scroll_y: int) -> Vec2i {
    Vec2i(((k / 6) * 16) as i32, (scroll_y - 16 * (k % 6 + 1)) as i32)
}

/// The rocks of the first `n` cells of a field: one in every cell whose
/// roll is zero.
pub open spec fn rock_field(rolls: Seq<usize>, scroll_y: int, n: int) -> Seq<Placement>
    decreases n,
{
    if n <= 0 {
        Seq::empty()
    } else {
        let rest = rock_field(rolls, scroll_y, n - 1);
        if rolls[n - 1] == 0 {
            rest.push(Placement { rock: true, at: rock_cell(n - 1, scroll_y) })
        } else {
            rest
        }
    }
}

/// Whether slot `i` of the row of boulders with this seed holds rocks in
/// place of a boulder: slots go in runs of three, and about every third
/// run holds rocks.
pub open spec fn slot_holds_rocks(seed: int, i: int) -> bool {
    ((seed + i) / 3) % 3 == 0
}

/// What stands in slot `i` of a row of boulders above a screen whose top
/// is at `scroll_y`: four rocks in a square, or one boulder.
pub open spec fn boulder_slot(seed: int, i: int, scroll_y: int) -> Seq<Placement> {
    let x = (i * 32) as i32;
    let y = (scroll_y - 32) as i32;
    if slot_holds_rocks(seed, i) {
        seq![
            Placement { rock: true, at: Vec2i(x, y) },
            Placement { rock: true, at: Vec2i((x + 16) as i32, y) },
            Placement { rock: true, at: Vec2i(x, (y + 16) as i32) },
            Placement { rock: true, at: Vec2i((x + 16) as i32, (y + 16) as i32) },
        ]
    } else {
        seq![Placement { rock: false, at: Vec2i(x, y) }]
    }
}

/// The first `n` slots of a row of boulders, from the left.
pub open spec fn boulder_row(seed: int, scroll_y: int, n: int) -> Seq<Placement>
    decreases n,
{
    if n <= 0 {
        Seq::empty()
    } else {
        boulder_row(seed, scroll_y, n - 1) + boulder_slot(seed, n - 1, scroll_y)
    }
}

/// Lays out a field of rocks from one roll per cell.
pub fn plan_rock_field(rolls: &[usize], scroll_y: i32) -> (plan: Vec<Placement>)
    requires
        rolls.len() == ROCK_COLUMNS * ROCK_ROWS,
        scroll_y - 16 * ROCK_ROWS >= i32::MIN,
    ensures
        plan@ == rock_field(rolls@, scroll_y as int, (ROCK_COLUMNS * ROCK_ROWS) as int),
{
    let mut plan: Vec<Placement> = Vec::new();
    let mut i: usize = 0;
    while i < ROCK_COLUMNS
        invariant
            i <= ROCK_COLUMNS,
            rolls.len() == 120,
            scroll_y - 96 >= i32::MIN,
            plan@ == rock_field(rolls@, scroll_y as int, i * 6),
        decreases ROCK_COLUMNS - i,
    {
        let mut j: usize = 0;
        while j < ROCK_ROWS
            invariant
                i < ROCK_COLUMNS,
                j <= ROCK_ROWS,
                rolls.len() == 120,
                scroll_y - 96 >= i32::MIN,
                plan@ == rock_field(rolls@, scroll_y as int, i * 6 + j),
            decreases ROCK_ROWS - j,
        {
            if rolls[i * ROCK_ROWS + j] == 0 {
                let pos = Vec2i((i * 16) as i32, scroll_y - (16 * (j + 1)) as i32);
                assert(pos == rock_cell(i * 6 + j, scroll_y as int));
                plan.push(Placement { rock: true, at: pos });
            }
            j += 1;
        }
        i += 1;
    }
    plan
}

/// Lays out a row of boulders from its seed.
pub fn plan_boulder_row(seed: usize, scroll_y: i32) -> (plan: Vec<Placement>)
    requires
        seed + BOULDER_SLOTS <= usize::MAX,
        scroll_y - 32 >= i32::MIN,
    ensures
        plan@ == boulder_row(seed as int, scroll_y as int, BOULDER_SLOTS as int),
{
    let mut plan: Vec<Placement> = Vec::new();
    let y: i32 = scroll_y - 32;
    let mut i: usize = 0;
    while i < BOULDER_SLOTS
        invariant
            i <= BOULDER_SLOTS,
            seed + 10 <= usize::MAX,
            y == scroll_y - 32,
            plan@ == boulder_row(seed as int, scroll_y as int, i as int),
        decreases BOULDER_SLOTS - i,
    {
        let x: i32 = (i * 32) as i32;
        let ghost before = plan@;
        if ((seed + i) / 3) % 3 == 0 {
            plan.push(Placement { rock: true, at: Vec2i(x, y) });
            plan.push(Placement { rock: true, at: Vec2i(x + 16, y) });
            plan.push(Placement { rock: true, at: Vec2i(x, y + 16) });
            plan.push(Placement { rock: true, at: Vec2i(x + 16, y + 16) });
        } else {
            plan.push(Placement { rock: false, at: Vec2i(x, y) });
        }
        assert(plan@ =~= before + boulder_slot(seed as int, i as int, scroll_y as int));
        i += 1;
    }
    plan
}

/// Whether `entity` is the block that `placement` asks for, made from
/// `sheet` at `frame_count`.
pub open spec fn is_placed(
    entity: Entity<Terrain>,
    sheet: Texture,
    frame_count: usize,
    placement: Placement,
) -> bool {
    if placement.rock {
        is_rock(entity, sheet, frame_count, placement.at)
    } else {
        is_wall_block(entity, sheet, frame_count, placement.at)
    }
}

/// Whether `after` is `before` with the blocks of `plan` behind it, in
/// the order of the plan.
pub open spec fn is_spawned(
    before: Seq<Entity<Terrain>>,
    after: Seq<Entity<Terrain>>,
    sheet: Texture,
    frame_count: usize,
    plan: Seq<Placement>,
) -> bool {
    &&& after.len() == before.len() + plan.len()
    &&& forall|i: int| 0 <= i < before.len() ==> #[trigger] after[i] == before[i]
    &&& forall|k: int|
        0 <= k < plan.len() ==> is_placed(
            #[trigger] after[before.len() + k],
            sheet,
            frame_count,
            plan[k],
        )
}

/// Makes the blocks of a plan and puts them into the pool.
pub fn spawn_terrain(
    terrains: &mut Vec<Entity<Terrain>>,
    tile_sheet: &Rc<Texture>,
    frame_count: usize,
    plan: &[Placement],
)
    ensures
        is_spawned(old(terrains)@, final(terrains)@, **tile_sheet, frame_count, plan@),
{
    let ghost before = terrains@;
    let mut k: usize = 0;
    while k < plan.len()
        invariant
            k <= plan.len(),
            is_spawned(before, terrains@, **tile_sheet, frame_count, plan@.take(k as int)),
        decreases plan.len() - k,
    {
        let placement: Placement = plan[k];
        let ghost earlier = terrains@;
        if placement.rock {
            terrains.push(rock_entity(tile_sheet, frame_count, placement.at));
        } else {
            terrains.push(wall_entity(tile_sheet, frame_count, placement.at));
        }
        proof {
            let done = plan@.take(k + 1);
            assert forall|i: int| 0 <= i < done.len() implies is_placed(
                #[trigger] terrains@[before.len() + i],
                **tile_sheet,
                frame_count,
                done[i],
            ) by {
                if i < k {
                    assert(earlier[before.len() + i] == terrains@[before.len() + i]);
                    assert(plan@.take(k as int)[i] == done[i]);
                }
            }
            assert forall|i: int| 0 <= i < before.len() implies #[trigger] terrains@[i]
                == before[i] by {
                assert(earlier[i] == before[i]);
            }
        }
        k += 1;
    }
    assert(plan@.take(k as int) =~= plan@);
}

/// Whether a plan is one that the rolls of the given kind of terrain can
/// produce above a screen whose top is at `scroll_y`.
pub open spec fn is_possible_plan(kind: TerrainKind, scroll_y: int, plan: Seq<Placement>) -> bool {
    match kind {
        TerrainKind::RockField => exists|rolls: Seq<usize>|
            {
                &&& rolls.len() == 120
                &&& forall|k: int| 0 <= k < 120 ==> #[trigger] rolls[k] < ROCK_ODDS
                &&& plan == #[trigger] rock_field(rolls, scroll_y, 120)
            },
        TerrainKind::BoulderRow => exists|seed: int|
            0 <= seed < SEED_RANGE && plan == #[trigger] boulder_row(seed, scroll_y, 10),
    }
}

/// Whether terrain of this kind can be laid out above a screen whose top
/// is at `scroll_y` without leaving the `i32` grid.
pub open spec fn can_generate(kind: TerrainKind, scroll_y: int) -> bool {
    match kind {
        TerrainKind::RockField => scroll_y - 96 >= i32::MIN,
        TerrainKind::BoulderRow => scroll_y - 32 >= i32::MIN,
    }
}

/// Computes [`can_generate`].
pub fn can_generate_terrain(kind: TerrainKind, scroll_y: i32) -> (fits: bool)
    ensures
        fits == can_generate(kind, scroll_y as int),
{
    match kind {
        TerrainKind::RockField => scroll_y as i64 - 96 >= i32::MIN as i64,
        TerrainKind::BoulderRow => scroll_y as i64 - 32 >= i32::MIN as i64,
    }
}

/// Generates terrain above the screen, laid out at random: a field of
/// rocks, each cell with a rock one time in six, or a row of boulders in
/// which some slots hold rocks.
pub fn generate_terrain(
    terrains: &mut Vec<Entity<Terrain>>,
    tile_sheet: &Rc<Texture>,
    frame_count: usize,
    scroll_y: i32,
    kind: TerrainKind,
)
    requires
        can_generate(kind, scroll_y as int),
    ensures
        exists|plan: Seq<Placement>|
            is_possible_plan(kind, scroll_y as int, plan) && #[trigger] is_spawned(
                old(terrains)@,
                final(terrains)@,
                **tile_sheet,
                frame_count,
                plan,
            ),
{
    match kind {
        TerrainKind::RockField => {
            let mut rolls: Vec<usize> = Vec::new();
            while rolls.len() < ROCK_COLUMNS * ROCK_ROWS
                invariant
                    rolls.len() <= 120,
                    forall|k: int| 0 <= k < rolls.len() ==> #[trigger] rolls[k] < ROCK_ODDS,
                decreases 120 - rolls.len(),
            {
                rolls.push(random_below(ROCK_ODDS));
            }
            let plan = plan_rock_field(rolls.as_slice(), scroll_y);
            spawn_terrain(terrains, tile_sheet, frame_count, plan.as_slice());
            assert(is_possible_plan(kind, scroll_y as int, plan@)) by {
                assert(plan@ == rock_field(rolls@, scroll_y as int, 120));
            }
        },
        TerrainKind::BoulderRow => {
            let seed: usize = random_below(SEED_RANGE);
            let plan = plan_boulder_row(seed, scroll_y);
            spawn_terrain(terrains, tile_sheet, frame_count, plan.as_slice());
            assert(is_possible_plan(kind, scroll_y as int, plan@)) by {
                assert(plan@ == boulder_row(seed as int, scroll_y as int, 10));
            }
        },
    }
}

/// Height of a page of the background, in pixels.
pub const TILEMAP_HT: usize = 128;

/// Columns of a page of the background, in tiles.
pub const PAGE_COLUMNS: usize = 20;

/// Rows of a page of the background, in tiles.
pub const PAGE_ROWS: usize = 8;

/// The screen as a place and a size in the world.
pub struct Viewport {
    pub position: Vec2i,
    pub size: Vec2i,
}

/// The screen when its top-left corner is at `scroll`.
pub open spec fn viewport_at(scroll: Vec2i) -> Viewport {
    Viewport { position: scroll, size: Vec2i(SCREEN_WIDTH as i32, SCREEN_HEIGHT as i32) }
}

/// Whether the size of the map in pixels can be told in `i32`.
pub open spec fn page_fits(map: Tilemap) -> bool {
    map.extent().0 * 16 <= i32::MAX && map.extent().1 * 16 <= i32::MAX
}

/// Whether the map begins more than a tile above the top of the screen,
/// so that the background ahead is covered.
pub open spec fn covers_ahead(map: Tilemap, scroll: Vec2i) -> bool {
    map.origin().1 + 16 < scroll.1
}

/// Whether a new page is due: no map covers the background ahead.
pub open spec fn needs_page(tilemaps: Seq<Tilemap>, scroll: Vec2i) -> bool {
    forall|i: int| 0 <= i < tilemaps.len() ==> !covers_ahead(#[trigger] tilemaps[i], scroll)
}

/// Whether `map` is the page that is loaded ahead of a screen at
/// `scroll`: it uses `tileset`, and every cell of it shows tile
/// `tile_id`.
pub open spec fn is_page(map: Tilemap, tileset: Tileset, scroll: Vec2i, tile_id: usize) -> bool {
    &&& map.origin() == Vec2i(scroll.0, (scroll.1 - 128 + 16) as i32)
    &&& map.extent() == (PAGE_COLUMNS, PAGE_ROWS)
    &&& map.tiles() == tileset
    &&& map.ids().len() == PAGE_COLUMNS * PAGE_ROWS
    &&& forall|i: int| 0 <= i < map.ids().len() ==> #[trigger] map.ids()[i] == TileID(tile_id)
}

/// Whether `id` stands in the group of `tileset` that is called "ground".
pub open spec fn is_ground_tile(tileset: Tileset, id: usize) -> bool {
    exists|g: int, k: int|
        #[trigger] tileset.is_group(g, "ground"@) && 0 <= k < tileset.groups()[g].1.len()
            && #[trigger] tileset.groups()[g].1[k] == id
}

/// Whether `tileset` has a tile that stands in a group called "ground".
pub open spec fn has_ground(tileset: Tileset) -> bool {
    exists|g: int| #[trigger] tileset.is_group(g, "ground"@) && tileset.groups()[g].1.len() > 0
}

impl Survivor<Viewport> for Tilemap {
    open spec fn testable(&self, context: &Viewport) -> bool {
        page_fits(*self)
    }

    open spec fn survives(&self, context: &Viewport) -> bool {
        self.shows_on(context.position, context.size)
    }

    fn check_survives(&self, context: &Viewport) -> bool {
        self.is_visible(context.position, context.size)
    }
}

/// Unloads the maps that are off the screen. Returns whether a new page
/// is due, judged by all the maps that there were.
pub fn page_out(tilemaps: &mut Vec<Tilemap>, scroll: Vec2i) -> (load: bool)
    requires
        forall|i: int| 0 <= i < old(tilemaps).len() ==> page_fits(#[trigger] old(tilemaps)[i]),
    ensures
        final(tilemaps)@ == old(tilemaps)@.filter(
            |m: Tilemap| m.shows_on(viewport_at(scroll).position, viewport_at(scroll).size),
        ),
        load == needs_page(old(tilemaps)@, scroll),
{
    let mut covered: bool = false;
    let mut i: usize = 0;
    while i < tilemaps.len()
        invariant
            i <= tilemaps.len(),
            covered == !needs_page(tilemaps@.take(i as int), scroll),
        decreases tilemaps.len() - i,
    {
        let top: i64 = tilemaps[i].position().1 as i64;
        proof {
            let before = tilemaps@.take(i as int);
            let now = tilemaps@.take(i + 1);
            assert(now[i as int] == tilemaps@[i as int]);
            if covers_ahead(tilemaps@[i as int], scroll) {
                assert(!needs_page(now, scroll));
            } else if needs_page(before, scroll) {
                assert forall|k: int| 0 <= k < now.len() implies !covers_ahead(
                    #[trigger] now[k],
                    scroll,
                ) by {
                    if k < i {
                        assert(before[k] == now[k]);
                    }
                }
            } else {
                let k = choose|k: int| 0 <= k < before.len() && covers_ahead(before[k], scroll);
                assert(now[k] == before[k]);
            }
        }
        covered = covered || top + 16 < scroll.1 as i64;
        i += 1;
    }
    assert(tilemaps@.take(i as int) =~= tilemaps@);
    let context = Viewport {
        position: scroll,
        size: Vec2i(SCREEN_WIDTH as i32, SCREEN_HEIGHT as i32),
    };
    retain_survivors(
        tilemaps,
        &context,
        Ghost(
            |m: Tilemap| m.shows_on(viewport_at(scroll).position, viewport_at(scroll).size),
        ),
    );
    !covered
}

/// Loads a page ahead of the screen: a map that uses the tile set of the
/// first map and shows tile `tile_id` everywhere.
pub fn page_in(tilemaps: &mut Vec<Tilemap>, scroll: Vec2i, tile_id: usize)
    requires
        old(tilemaps).len() > 0,
        tile_id < old(tilemaps)[0].tiles().tiles().len(),
        scroll.1 - 128 >= i32::MIN,
    ensures
        final(tilemaps).len() == old(tilemaps).len() + 1,
        forall|i: int| 0 <= i < old(tilemaps).len() ==> #[trigger] final(tilemaps)[i] == old(
            tilemaps,
        )[i],
        is_page(
            final(tilemaps)[old(tilemaps).len() as int],
            old(tilemaps)[0].tiles(),
            scroll,
            tile_id,
        ),
{
    let map: Vec<usize> = vec![tile_id; 160];
    let new_map = Tilemap::new(
        Vec2i(scroll.0, scroll.1 - TILEMAP_HT as i32 + 16),
        (PAGE_COLUMNS, PAGE_ROWS),
        tilemaps[0].tileset(),
        map,
    );
    tilemaps.push(new_map);
}

/// A tile of the group called "ground", picked at random; nothing where
/// the tile set has no such group or the group is empty.
pub fn pick_ground_tile(tileset: &Tileset) -> (picked: Option<usize>)
    ensures
        picked is Some <==> has_ground(*tileset),
        picked matches Some(id) ==> is_ground_tile(*tileset, id),
{
    match tileset.group("ground") {
        Some(ids) => {
            let ghost g = choose|g: int|
                {
                    &&& #[trigger] tileset.is_group(g, "ground"@)
                    &&& tileset.groups()[g].1 == *ids
                    &&& forall|j: int| #[trigger] tileset.is_group(j, "ground"@) ==> j == g
                };
            if ids.len() == 0 {
                None
            } else {
                let k: usize = random_below(ids.len());
                let id: usize = ids[k];
                assert(tileset.groups()[g].1[k as int] == id);
                Some(id)
            }
        },
        None => None,
    }
}

/// Whether the maps can be paged for a screen at `scroll`: the size of
/// every map can be told in pixels, and the place of a new page lies on
/// the grid.
pub open spec fn pageable(tilemaps: Seq<Tilemap>, scroll: Vec2i) -> bool {
    &&& forall|i: int| 0 <= i < tilemaps.len() ==> page_fits(#[trigger] tilemaps[i])
    &&& scroll.1 - 128 >= i32::MIN
}

/// Computes [`pageable`].
pub fn can_update_tilemaps(tilemaps: &[Tilemap], scroll: Vec2i) -> (fits: bool)
    ensures
        fits == pageable(tilemaps@, scroll),
{
    if (scroll.1 as i64) - 128 < i32::MIN as i64 {
        return false;
    }
    let limit: usize = 0x07FF_FFFF;
    let mut i: usize = 0;
    while i < tilemaps.len()
        invariant
            i <= tilemaps.len(),
            limit == 0x07FF_FFFF,
            forall|k: int| 0 <= k < i ==> page_fits(#[trigger] tilemaps@[k]),
        decreases tilemaps.len() - i,
    {
        let (columns, rows) = tilemaps[i].size();
        if columns > limit || rows > limit {
            return false;
        }
        i += 1;
    }
    true
}

/// Unloads the maps that are off the screen and, where a new page is due,
/// loads one that shows a ground tile picked at random. Returns whether
/// the background is in order: false where a page was due and could not
/// be loaded, because no map was left to take the tile set from, or the
/// tile set has no ground tiles, or the tile that was picked is not one
/// of its tiles.
pub fn update_tilemaps(tilemaps: &mut Vec<Tilemap>, scroll: Vec2i) -> (in_order: bool)
    requires
        pageable(old(tilemaps)@, scroll),
    ensures
        ({
            let kept = old(tilemaps)@.filter(
                |m: Tilemap| m.shows_on(viewport_at(scroll).position, viewport_at(scroll).size),
            );
            if !needs_page(old(tilemaps)@, scroll) {
                in_order && final(tilemaps)@ == kept
            } else if in_order {
                &&& kept.len() > 0
                &&& final(tilemaps).len() == kept.len() + 1
                &&& forall|i: int| 0 <= i < kept.len() ==> #[trigger] final(tilemaps)[i] == kept[i]
                &&& exists|tile_id: usize|
                    is_ground_tile(kept[0].tiles(), tile_id) && #[trigger] is_page(
                        final(tilemaps)[kept.len() as int],
                        kept[0].tiles(),
                        scroll,
                        tile_id,
                    )
            } else {
                &&& final(tilemaps)@ == kept
                &&& kept.len() == 0 || !has_ground(kept[0].tiles()) || exists|tile_id: usize|
                    #[trigger] is_ground_tile(kept[0].tiles(), tile_id) && tile_id
                        >= kept[0].tiles().tiles().len()
            }
        }),
{
    // Unload tilemaps that are off screen, and check if new tilemap needs to be loaded
    let load: bool = page_out(tilemaps, scroll);
    if !load {
        return true;
    }
    if tilemaps.len() == 0 {
        return false;
    }
    match pick_ground_tile(tilemaps[0].tileset()) {
        Some(tile_id) => {
            if tile_id < tilemaps[0].tileset().len() {
                page_in(tilemaps, scroll, tile_id);
                true
            } else {
                false
            }
        },
        None => false,
    }
}

} // verus!
