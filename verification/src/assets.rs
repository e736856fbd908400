//! The sprites and entities of the game, as they are made from the sprite
//! sheet.

use vstd::prelude::*;
use std::rc::Rc;
use crate::animation::{total_time, Animation, AnimationSM};
use crate::collision::{Mobile, Terrain, Wall};
use crate::entity::Entity;
use crate::geometry::{Rect, Vec2i};
use crate::sprite::Sprite;
use crate::texture::Texture;
use crate::velocity::Velocity;

verus! {

/// How long the single frame of a still animation is shown.
pub const STILL_FRAME_TICKS: usize = 60;

/// Where the player starts.
pub open spec fn player_start() -> Vec2i {
    Vec2i(180, 500)
}

/// The region of the sprite sheet that shows the player's ship.
pub open spec fn player_frame() -> Rect {
    Rect { x: 502, y: 991, w: 36, h: 25 }
}

/// The region of the sprite sheet that shows a wall block.
pub open spec fn wall_frame() -> Rect {
    Rect { x: 48, y: 320, w: 32, h: 32 }
}

/// The side of a wall block.
pub const WALL_SIZE: u16 = 32;

/// The hit points of a wall block, which nothing takes from it.
pub const WALL_HP: usize = 1;

/// The side of a rock.
pub const ROCK_SIZE: u16 = 16;

/// The hit points of a fresh rock.
pub const ROCK_HP: usize = 40;

/// The column of the sprite sheet that holds the four stages of a rock.
pub const ROCK_FRAME_X: i32 = 368;

/// The row of the sprite sheet at which the first stage of a rock begins;
/// each further stage lies one rock size below.
pub const ROCK_FRAME_Y: i32 = 128;

/// The region of the sprite sheet that shows a rock after `stage` hits.
pub open spec fn rock_frame(stage: int) -> Rect {
    Rect { x: ROCK_FRAME_X, y: (ROCK_FRAME_Y + 16 * stage) as i32, w: ROCK_SIZE, h: ROCK_SIZE }
}

/// Whether `animation` shows the one frame `frame`, over and over.
pub open spec fn is_still(animation: Animation, frame: Rect) -> bool {
    &&& animation.frames() == seq![frame]
    &&& animation.times() == seq![STILL_FRAME_TICKS]
    &&& animation.loops()
}

/// Whether `sprite` is cut from `sheet`, stands at `position`, and has an
/// animation machine that was started at `frame_count` in state 0.
pub open spec fn is_fresh_sprite(
    sprite: Sprite,
    sheet: Texture,
    frame_count: usize,
    position: Vec2i,
) -> bool {
    &&& *sprite.image == sheet
    &&& sprite.position == position
    &&& sprite.animation_sm.state() == 0
    &&& sprite.animation_sm.started() == frame_count
}

proof fn lemma_still_total()
    ensures
        total_time(seq![STILL_FRAME_TICKS]) == STILL_FRAME_TICKS,
{
    reveal_with_fuel(total_time, 2);
    assert(seq![STILL_FRAME_TICKS].drop_last() =~= Seq::<usize>::empty());
}

fn still_animation(frame: Rect) -> (animation: Animation)
    ensures
        is_still(animation, frame),
        animation.playable(),
{
    proof {
        lemma_still_total();
    }
    let frame_rects: Vec<Rect> = vec![frame];
    let frame_times: Vec<usize> = vec![STILL_FRAME_TICKS];
    assert(frame_rects@ =~= seq![frame]);
    assert(frame_times@ =~= seq![STILL_FRAME_TICKS]);
    Animation::new(frame_rects, frame_times, true)
}

/// The player's sprite: one still frame, no events, at the player's
/// starting place.
pub fn player_anim(sprite_sheet: &Rc<Texture>, frame_count: usize) -> (sprite: Sprite)
    ensures
        is_fresh_sprite(sprite, **sprite_sheet, frame_count, player_start()),
        sprite.animation_sm.animations().len() == 1,
        is_still(sprite.animation_sm.animations()[0], player_frame()),
        sprite.animation_sm.table().len() == 0,
{
    let animations: Vec<Animation> = vec![
        still_animation(Rect { x: 502, y: 991, w: 36, h: 25 }),
    ];
    let transitions: Vec<(usize, usize, String)> = Vec::new();
    Sprite::new(
        sprite_sheet,
        AnimationSM::new(animations, transitions, frame_count, 0),
        Vec2i(180, 500),
    )
}

/// The hit points of a fresh enemy.
pub const ENEMY_HP: usize = 50;

/// Width of an enemy ship.
pub const ENEMY_WIDTH: u16 = 93;

/// Height of an enemy ship.
pub const ENEMY_HEIGHT: u16 = 84;

/// How thick the walls around the screen are.
pub const WALL_DEPTH: u16 = 16;

/// The region of the sprite sheet that shows an enemy ship.
pub open spec fn enemy_frame() -> Rect {
    Rect { x: 423, y: 728, w: ENEMY_WIDTH, h: ENEMY_HEIGHT }
}

/// Whether `entity` is an enemy made at `frame_count` and standing at
/// `pos`: a mobile with full hit points that keeps pace with the scroll,
/// with one still frame.
pub open spec fn is_enemy(entity: Entity<Mobile>, sheet: Texture, frame_count: usize, pos: Vec2i) -> bool {
    &&& entity.synchronised()
    &&& entity.position() == pos
    &&& *entity.collider() == (Mobile {
        rect: Rect { x: pos.0, y: pos.1, w: ENEMY_WIDTH, h: ENEMY_HEIGHT },
        vx: Velocity::zero(),
        vy: Velocity::ambient_scroll(),
        hp: ENEMY_HP,
        is_player: false,
    })
    &&& is_fresh_sprite(*entity.sprite(), sheet, frame_count, pos)
    &&& entity.sprite().animation_sm.animations().len() == 1
    &&& is_still(entity.sprite().animation_sm.animations()[0], enemy_frame())
    &&& entity.sprite().animation_sm.table().len() == 0
}

/// An enemy ship at `pos`.
pub fn enemy_entity(sprite_sheet: &Rc<Texture>, frame_count: usize, pos: Vec2i) -> (entity: Entity<
    Mobile,
>)
    ensures
        is_enemy(entity, **sprite_sheet, frame_count, pos),
{
    let animations: Vec<Animation> = vec![
        still_animation(Rect { x: 423, y: 728, w: ENEMY_WIDTH, h: ENEMY_HEIGHT }),
    ];
    let transitions: Vec<(usize, usize, String)> = Vec::new();
    Entity::new(
        Sprite::new(sprite_sheet, AnimationSM::new(animations, transitions, frame_count, 0), pos),
        pos,
        Mobile::enemy(
            Rect { x: pos.0, y: pos.1, w: ENEMY_WIDTH, h: ENEMY_HEIGHT },
            Velocity::at_rest(),
            Velocity::scrolling(),
            ENEMY_HP,
        ),
    )
}

/// The four walls around a screen of the given size whose top-left corner
/// is the origin: left, right, top, bottom, each just outside the screen.
pub open spec fn walls_around(width: u16, height: u16) -> Seq<Wall> {
    let outside = -16i32;
    seq![
        Wall { rect: Rect { x: outside, y: 0, w: WALL_DEPTH, h: height } },
        Wall { rect: Rect { x: width as i32, y: 0, w: WALL_DEPTH, h: height } },
        Wall { rect: Rect { x: 0, y: outside, w: width, h: WALL_DEPTH } },
        Wall { rect: Rect { x: 0, y: height as i32, w: width, h: WALL_DEPTH } },
    ]
}

/// The walls that keep the mobiles on the screen.
pub fn walls_vec(width: u16, height: u16) -> (walls: Vec<Wall>)
    ensures
        walls@ == walls_around(width, height),
{
    let outside: i32 = -16;
    let walls: Vec<Wall> = vec![
        Wall::new(Rect { x: outside, y: 0, w: WALL_DEPTH, h: height }),
        Wall::new(Rect { x: width as i32, y: 0, w: WALL_DEPTH, h: height }),
        Wall::new(Rect { x: 0, y: outside, w: width, h: WALL_DEPTH }),
        Wall::new(Rect { x: 0, y: height as i32, w: width, h: WALL_DEPTH }),
    ];
    assert(walls@ =~= walls_around(width, height));
    walls
}

/// Whether `entity` is a wall block made at `frame_count` and standing at
/// `pos`: indestructible terrain with one still frame.
pub open spec fn is_wall_block(
    entity: Entity<Terrain>,
    sheet: Texture,
    frame_count: usize,
    pos: Vec2i,
) -> bool {
    &&& entity.synchronised()
    &&& entity.position() == pos
    &&& *entity.collider() == (Terrain {
        rect: Rect { x: pos.0, y: pos.1, w: WALL_SIZE, h: WALL_SIZE },
        created_at: frame_count,
        destructible: false,
        hp: WALL_HP,
    })
    &&& is_fresh_sprite(*entity.sprite(), sheet, frame_count, pos)
    &&& entity.sprite().animation_sm.animations().len() == 1
    &&& is_still(entity.sprite().animation_sm.animations()[0], wall_frame())
    &&& entity.sprite().animation_sm.table().len() == 0
}

/// A wall block at `pos`.
pub fn wall_entity(sprite_sheet: &Rc<Texture>, frame_count: usize, pos: Vec2i) -> (entity: Entity<
    Terrain,
>)
    ensures
        is_wall_block(entity, **sprite_sheet, frame_count, pos),
{
    let animations: Vec<Animation> = vec![
        still_animation(Rect { x: 48, y: 320, w: WALL_SIZE, h: WALL_SIZE }),
    ];
    let transitions: Vec<(usize, usize, String)> = Vec::new();
    Entity::new(
        Sprite::new(sprite_sheet, AnimationSM::new(animations, transitions, frame_count, 0), pos),
        pos,
        Terrain::new(
            Rect { x: pos.0, y: pos.1, w: WALL_SIZE, h: WALL_SIZE },
            frame_count,
            false,
            WALL_HP,
        ),
    )
}

/// Whether `table` holds the three arcs that lead a rock from each stage
/// to the next on "hit".
pub open spec fn is_rock_table(table: Seq<(usize, usize, String)>) -> bool {
    &&& table.len() == 3
    &&& forall|k: int|
        0 <= k < 3 ==> (#[trigger] table[k]).0 == k && table[k].1 == k + 1 && table[k].2@ == "hit"@
}

/// Whether `entity` is a rock made at `frame_count` and standing at `pos`:
/// destructible terrain that shows the first of four stages and goes to
/// the next stage with every "hit".
pub open spec fn is_rock(entity: Entity<Terrain>, sheet: Texture, frame_count: usize, pos: Vec2i) -> bool {
    &&& entity.synchronised()
    &&& entity.position() == pos
    &&& *entity.collider() == (Terrain {
        rect: Rect { x: pos.0, y: pos.1, w: ROCK_SIZE, h: ROCK_SIZE },
        created_at: frame_count,
        destructible: true,
        hp: ROCK_HP,
    })
    &&& is_fresh_sprite(*entity.sprite(), sheet, frame_count, pos)
    &&& entity.sprite().animation_sm.animations().len() == 4
    &&& forall|stage: int|
        0 <= stage < 4 ==> is_still(
            #[trigger] entity.sprite().animation_sm.animations()[stage],
            rock_frame(stage),
        )
    &&& is_rock_table(entity.sprite().animation_sm.table())
}

/// A rock at `pos`.
pub fn rock_entity(sprite_sheet: &Rc<Texture>, frame_count: usize, pos: Vec2i) -> (entity: Entity<
    Terrain,
>)
    ensures
        is_rock(entity, **sprite_sheet, frame_count, pos),
{
    let animations: Vec<Animation> = vec![
        still_animation(Rect { x: ROCK_FRAME_X, y: 128, w: ROCK_SIZE, h: ROCK_SIZE }),
        still_animation(Rect { x: ROCK_FRAME_X, y: 144, w: ROCK_SIZE, h: ROCK_SIZE }),
        still_animation(Rect { x: ROCK_FRAME_X, y: 160, w: ROCK_SIZE, h: ROCK_SIZE }),
        still_animation(Rect { x: ROCK_FRAME_X, y: 176, w: ROCK_SIZE, h: ROCK_SIZE }),
    ];
    let transitions: Vec<(usize, usize, String)> = vec![
        (0, 1, "hit".to_owned()),
        (1, 2, "hit".to_owned()),
        (2, 3, "hit".to_owned()),
    ];
    Entity::new(
        Sprite::new(sprite_sheet, AnimationSM::new(animations, transitions, frame_count, 0), pos),
        pos,
        Terrain::new(
            Rect { x: pos.0, y: pos.1, w: ROCK_SIZE, h: ROCK_SIZE },
            frame_count,
            true,
            ROCK_HP,
        ),
    )
}

} // verus!
