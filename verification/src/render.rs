//! The composition of a frame: what is drawn of the game, in which order
//! and where.

use vstd::prelude::*;
use crate::collision::{Collider, Mobile, Projectile, Terrain};
use crate::entity::Entity;
use crate::game::{can_cleanup_terrain, cleanup_terrain, clearable, terrain_is_kept};
use crate::geometry::{Rect, Vec2i};
use crate::screen::{draw_string, glyph_frame, glyph_place, Picture, Screen};
use crate::sprite::DrawSpriteExt;
use crate::texture::{Bitmap, Rgba, Texture};

verus! {

/// The hit points that fill the health bar.
pub const FULL_HP: usize = 100;

/// The left edge of the health bar, in the world.
pub const BAR_LEFT: i32 = 70;

/// The top edge of the health bar, below the top of the screen.
pub const BAR_TOP: i32 = 520;

/// The height of the health bar.
pub const BAR_HEIGHT: u16 = 18;

/// The colour behind everything.
pub open spec fn background() -> Rgba {
    Rgba(255, 197, 255, 255)
}

/// The colour of projectiles and of the hit points that are left.
pub open spec fn green() -> Rgba {
    Rgba(0, 128, 0, 255)
}

/// The colour of the hit points that are lost.
pub open spec fn red() -> Rgba {
    Rgba(128, 0, 0, 255)
}

/// The colour of the frame of the health bar.
pub open spec fn black() -> Rgba {
    Rgba(0, 0, 0, 255)
}

/// The character of the digit `d`.
pub open spec fn digit(d: int) -> char {
    (48 + d) as char
}

/// The digits of `n` in base ten, the highest first.
pub open spec fn decimal(n: nat) -> Seq<char>
    decreases n,
{
    if n < 10 {
        seq![digit(n as int)]
    } else {
        decimal(n / 10).push(digit((n % 10) as int))
    }
}

/// A number has at most twenty digits.
pub proof fn lemma_decimal_is_short(n: nat)
    requires
        n <= u64::MAX,
    ensures
        1 <= decimal(n).len() <= 20,
{
    reveal_with_fuel(decimal, 21);
}

/// The picture with the first `n` projectiles drawn, each as a rectangle.
pub open spec fn with_projectiles(picture: Picture, projs: Seq<Projectile>, n: int) -> Picture
    decreases n,
{
    if n <= 0 {
        picture
    } else {
        with_projectiles(picture, projs, n - 1).with_rect(projs[n - 1].rect, green())
    }
}

/// The picture with the sprites of the first `n` entities drawn as they
/// show at `now`.
pub open spec fn with_sprites<T: Collider>(
    picture: Picture,
    pool: Seq<Entity<T>>,
    now: usize,
    n: int,
) -> Picture
    decreases n,
{
    if n <= 0 {
        picture
    } else {
        let sprite = pool[n - 1].sprite();
        with_sprites(picture, pool, now, n - 1).blitted(
            sprite.image@,
            sprite.animation_sm.frame_at(now),
            sprite.position,
        )
    }
}

/// Whether the sprite of every entity shows a frame at `now`.
pub open spec fn sprites_show<T: Collider>(pool: Seq<Entity<T>>, now: usize) -> bool {
    forall|i: int| 0 <= i < pool.len() ==> (#[trigger] pool[i]).sprite().animation_sm.shows_at(now)
}

/// The health bar: its label, the hit points left in green and those lost
/// in red, and a black frame with a mark where the two meet.
pub open spec fn with_health_bar(picture: Picture, font: Bitmap, hp: usize, scroll: Vec2i) -> Picture {
    let top = (scroll.1 + BAR_TOP) as i32;
    let bottom = (top + BAR_HEIGHT) as i32;
    let mark = (BAR_LEFT + hp * 2) as i32;
    let right = (BAR_LEFT + FULL_HP * 2) as i32;
    picture.with_text(font, "HP"@, Vec2i((scroll.0 + 20) as i32, top), 2).with_rect(
        Rect { x: BAR_LEFT, y: top, w: (hp * 2) as u16, h: BAR_HEIGHT },
        green(),
    ).with_rect(
        Rect { x: mark, y: top, w: ((FULL_HP - hp) * 2) as u16, h: BAR_HEIGHT },
        red(),
    ).with_line(Vec2i(BAR_LEFT, top), Vec2i(right, top), black()).with_line(
        Vec2i(right, top),
        Vec2i(right, bottom),
        black(),
    ).with_line(Vec2i(BAR_LEFT, top), Vec2i(BAR_LEFT, bottom), black()).with_line(
        Vec2i(BAR_LEFT, bottom),
        Vec2i(right, bottom),
        black(),
    ).with_line(Vec2i(mark, top), Vec2i(mark, bottom), black())
}

/// The score: its label, and behind it the number.
pub open spec fn with_score(picture: Picture, font: Bitmap, score: usize, scroll: Vec2i) -> Picture {
    let at = Vec2i((scroll.0 + 20) as i32, (scroll.1 + 20) as i32);
    picture.with_text(font, "Score "@, at, 6).with_text(
        font,
        decimal(score as nat),
        glyph_place(at, 6),
        decimal(score as nat).len() as int,
    )
}

/// The words that tell that the game is over.
pub open spec fn with_game_over(picture: Picture, font: Bitmap, scroll: Vec2i) -> Picture {
    picture.with_text(
        font,
        "Game over"@,
        Vec2i((scroll.0 + 80) as i32, (scroll.1 + 200) as i32),
        9,
    ).with_text(font, "Restarting"@, Vec2i((scroll.0 + 80) as i32, (scroll.1 + 250) as i32), 10)
}

/// The frame of the game: the background, the words that the game is
/// over where it is, the projectiles, the mobiles, the terrain, the health
/// bar of the player, and the score, each drawn over what came before.
pub open spec fn game_picture(
    picture: Picture,
    font: Bitmap,
    terrains: Seq<Entity<Terrain>>,
    mobiles: Seq<Entity<Mobile>>,
    projs: Seq<Projectile>,
    scroll: Vec2i,
    score: usize,
    game_over: bool,
    now: usize,
) -> Picture {
    let ground = picture.cleared(background());
    let told = if game_over {
        with_game_over(ground, font, scroll)
    } else {
        ground
    };
    let shot = with_projectiles(told, projs, projs.len() as int);
    let manned = with_sprites(shot, mobiles, now, mobiles.len() as int);
    let built = with_sprites(manned, terrains, now, terrains.len() as int);
    with_score(with_health_bar(built, font, mobiles[0].collider().hp, scroll), font, score, scroll)
}

/// Whether the frame can be drawn within the limits of the integer types:
/// the texts and the health bar lie on the `i32` grid, there is a player
/// with no more than its full hit points, and every sprite shows a frame.
pub open spec fn can_draw_game(
    terrains: Seq<Entity<Terrain>>,
    mobiles: Seq<Entity<Mobile>>,
    scroll: Vec2i,
    score: usize,
    game_over: bool,
    now: usize,
) -> bool {
    &&& scroll.0 + 68 + 8 * decimal(score as nat).len() <= i32::MAX
    &&& game_over ==> scroll.0 + 160 <= i32::MAX
    &&& scroll.1 + 538 <= i32::MAX
    &&& mobiles.len() > 0
    &&& mobiles[0].collider().hp <= FULL_HP
    &&& sprites_show(mobiles, now)
    &&& sprites_show(terrains, now)
}

/// What is left of a pool whose sprites all show a frame shows a frame.
proof fn lemma_filter_keeps_showing<T: Collider>(
    pool: Seq<Entity<T>>,
    stays: spec_fn(Entity<T>) -> bool,
    now: usize,
)
    requires
        sprites_show(pool, now),
    ensures
        sprites_show(pool.filter(stays), now),
    decreases pool.len(),
{
    reveal(Seq::filter);
    if pool.len() > 0 {
        assert forall|i: int| 0 <= i < pool.drop_last().len() implies (#[trigger] pool.drop_last()[i]).sprite().animation_sm.shows_at(
            now,
        ) by {
            assert(pool[i].sprite().animation_sm.shows_at(now));
        }
        lemma_filter_keeps_showing(pool.drop_last(), stays, now);
    }
}

/// Computes [`sprites_show`].
fn pool_shows<T: Collider>(pool: &[Entity<T>], now: usize) -> (shows: bool)
    ensures
        shows == sprites_show(pool@, now),
{
    let mut i: usize = 0;
    while i < pool.len()
        invariant
            i <= pool.len(),
            forall|k: int| 0 <= k < i ==> (#[trigger] pool@[k]).sprite().animation_sm.shows_at(now),
        decreases pool.len() - i,
    {
        if !pool[i].sprite().animation_sm.can_show(now) {
            return false;
        }
        i += 1;
    }
    true
}

/// The number of digits of `n` in base ten.
fn count_digits(n: usize) -> (count: usize)
    ensures
        count == decimal(n as nat).len(),
        1 <= count <= 20,
{
    proof {
        lemma_decimal_is_short(n as nat);
    }
    let mut count: usize = 1;
    let mut rest: usize = n;
    while rest >= 10
        invariant
            1 <= count,
            decimal(n as nat).len() == decimal(rest as nat).len() + count - 1,
            decimal(n as nat).len() <= 20,
        decreases rest,
    {
        rest = rest / 10;
        count += 1;
    }
    count
}

/// Tells whether the frame of the game can be drawn: computes
/// [`can_draw_game`] and, for the terrain that is removed first,
/// [`clearable`].
pub fn can_draw(
    terrains: &[Entity<Terrain>],
    mobiles: &[Entity<Mobile>],
    tick: usize,
    scroll: Vec2i,
    score: usize,
    game_over: bool,
    screen: &Screen,
    frame_count: usize,
) -> (fits: bool)
    ensures
        fits == (can_draw_game(terrains@, mobiles@, scroll, score, game_over, frame_count)
            && clearable(terrains@, tick, screen@.bounds())),
{
    let digits: usize = count_digits(score);
    if scroll.0 as i64 + 68 + 8 * digits as i64 > i32::MAX as i64 {
        return false;
    }
    if game_over && scroll.0 as i64 + 160 > i32::MAX as i64 {
        return false;
    }
    if scroll.1 as i64 + 538 > i32::MAX as i64 {
        return false;
    }
    if mobiles.len() == 0 || mobiles[0].collider().hp > FULL_HP {
        return false;
    }
    pool_shows(mobiles, frame_count) && pool_shows(terrains, frame_count) && can_cleanup_terrain(
        terrains,
        tick,
        screen.bounds(),
    )
}

fn draw_sprites<T: Collider>(screen: &mut Screen, pool: &[Entity<T>], now: usize)
    requires
        sprites_show(pool@, now),
    ensures
        final(screen)@ == with_sprites(old(screen)@, pool@, now, pool@.len() as int),
{
    let ghost given = screen@;
    let mut i: usize = 0;
    while i < pool.len()
        invariant
            i <= pool.len(),
            sprites_show(pool@, now),
            screen@ == with_sprites(given, pool@, now, i as int),
        decreases pool.len() - i,
    {
        screen.draw_sprite(pool[i].sprite(), now);
        i += 1;
    }
}

/// Writes the digits of `n` from the place `at` of the world to the right.
fn draw_number(n: usize, screen: &mut Screen, font_sheet: &Texture, at: Vec2i)
    requires
        at.0 + 8 * decimal(n as nat).len() <= i32::MAX,
    ensures
        final(screen)@ == old(screen)@.with_text(
            font_sheet@,
            decimal(n as nat),
            at,
            decimal(n as nat).len() as int,
        ),
{
    proof {
        lemma_decimal_is_short(n as nat);
    }
    // The digits come lowest first; they are written highest first.
    let mut lowest_first: Vec<u8> = Vec::new();
    let mut rest: usize = n;
    while rest >= 10
        invariant
            lowest_first.len() <= 20,
            decimal(n as nat) == decimal(rest as nat) + Seq::new(
                lowest_first.len() as nat,
                |k: int| digit(lowest_first[lowest_first.len() - 1 - k] as int),
            ),
            decimal(n as nat).len() <= 20,
            forall|k: int| 0 <= k < lowest_first.len() ==> #[trigger] lowest_first[k] < 10,
        decreases rest,
    {
        let ghost before = lowest_first@;
        lowest_first.push((rest % 10) as u8);
        proof {
            assert(decimal(rest as nat) == decimal((rest / 10) as nat).push(
                digit((rest % 10) as int),
            ));
            assert(decimal((rest / 10) as nat).push(digit((rest % 10) as int)) + Seq::new(
                before.len() as nat,
                |k: int| digit(before[before.len() - 1 - k] as int),
            ) =~= decimal((rest / 10) as nat) + Seq::new(
                lowest_first.len() as nat,
                |k: int| digit(lowest_first[lowest_first.len() - 1 - k] as int),
            ));
        }
        rest = rest / 10;
    }
    lowest_first.push(rest as u8);
    let ghost digits = decimal(n as nat);
    assert(digits =~= Seq::new(
        lowest_first.len() as nat,
        |k: int| digit(lowest_first[lowest_first.len() - 1 - k] as int),
    ));
    let ghost given = screen@;
    let count: usize = lowest_first.len();
    let mut i: usize = 0;
    while i < count
        invariant
            i <= count == lowest_first.len() == digits.len(),
            count <= 21,
            at.0 + 8 * count <= i32::MAX,
            forall|k: int| 0 <= k < count ==> #[trigger] lowest_first[k] < 10,
            forall|k: int|
                0 <= k < count ==> #[trigger] digits[k] == digit(lowest_first[count - 1 - k] as int),
            screen@ == given.with_text(font_sheet@, digits, at, i as int),
        decreases count - i,
    {
        let d: u8 = lowest_first[count - 1 - i];
        let glyph: u32 = 16 + d as u32;
        let frame = Rect {
            x: ((glyph % 16) * 8) as i32,
            y: ((glyph / 16) * 8) as i32,
            w: 8,
            h: 8,
        };
        assert(frame == glyph_frame(digits[i as int]));
        let x: i64 = at.0 as i64 + 8 * i as i64;
        screen.bitblt(font_sheet, frame, Vec2i(x as i32, at.1));
        i += 1;
    }
}

/// Removes the terrain that has left the screen and is old enough to go,
/// then draws the frame of the game on the screen.
pub fn draw_game(
    terrains: &mut Vec<Entity<Terrain>>,
    mobiles: &[Entity<Mobile>],
    projs: &[Projectile],
    tick: usize,
    scroll: Vec2i,
    score: usize,
    game_over: bool,
    screen: &mut Screen,
    font_sheet: &Texture,
    frame_count: usize,
)
    requires
        can_draw_game(old(terrains)@, mobiles@, scroll, score, game_over, frame_count),
        clearable(old(terrains)@, tick, old(screen)@.bounds()),
    ensures
        final(terrains)@ == old(terrains)@.filter(
            |t: Entity<Terrain>| terrain_is_kept(t, tick, old(screen)@.bounds()),
        ),
        final(screen)@ == game_picture(
            old(screen)@,
            font_sheet@,
            final(terrains)@,
            mobiles@,
            projs@,
            scroll,
            score,
            game_over,
            frame_count,
        ),
{
    proof {
        reveal_strlit("Game over");
        reveal_strlit("Restarting");
        reveal_strlit("HP");
        reveal_strlit("Score ");
        lemma_decimal_is_short(score as nat);
        lemma_filter_keeps_showing(
            terrains@,
            |t: Entity<Terrain>| terrain_is_kept(t, tick, screen@.bounds()),
            frame_count,
        );
    }
    let bounds: Rect = screen.bounds();

    // Call screen's drawing methods to render the game state
    screen.clear(Rgba(255, 197, 255, 255));

    if game_over {
        draw_string("Game over", screen, font_sheet, Vec2i(80, 200), scroll);
        draw_string("Restarting", screen, font_sheet, Vec2i(80, 250), scroll);
    }
    // Remove Terrain objects that have left screen

    cleanup_terrain(terrains, tick, bounds);

    let ghost told = screen@;
    let mut i: usize = 0;
    while i < projs.len()
        invariant
            i <= projs.len(),
            screen@ == with_projectiles(told, projs@, i as int),
        decreases projs.len() - i,
    {
        screen.rect(projs[i].rect, Rgba(0, 128, 0, 255));
        i += 1;
    }

    draw_sprites(screen, mobiles, frame_count);
    draw_sprites(screen, terrains.as_slice(), frame_count);

    // Draw HP bar
    draw_string("HP", screen, font_sheet, Vec2i(20, BAR_TOP), scroll);
    let hp: usize = mobiles[0].collider().hp;
    let top: i32 = scroll.1 + BAR_TOP;
    let bottom: i32 = top + BAR_HEIGHT as i32;
    let mark: i32 = BAR_LEFT + (hp as i32 * 2);
    let right: i32 = BAR_LEFT + (FULL_HP as i32 * 2);
    screen.rect(
        Rect { x: BAR_LEFT, y: top, w: hp as u16 * 2, h: BAR_HEIGHT },
        Rgba(0, 128, 0, 255),
    );
    screen.rect(
        Rect { x: mark, y: top, w: (FULL_HP as u16 - hp as u16) * 2, h: BAR_HEIGHT },
        Rgba(128, 0, 0, 255),
    );
    screen.line(Vec2i(BAR_LEFT, top), Vec2i(right, top), Rgba(0, 0, 0, 255));
    screen.line(Vec2i(right, top), Vec2i(right, bottom), Rgba(0, 0, 0, 255));
    screen.line(Vec2i(BAR_LEFT, top), Vec2i(BAR_LEFT, bottom), Rgba(0, 0, 0, 255));
    screen.line(Vec2i(BAR_LEFT, bottom), Vec2i(right, bottom), Rgba(0, 0, 0, 255));
    screen.line(Vec2i(mark, top), Vec2i(mark, bottom), Rgba(0, 0, 0, 255));

    // Draw score
    draw_string("Score ", screen, font_sheet, Vec2i(20, 20), scroll);
    draw_number(score, screen, font_sheet, Vec2i(scroll.0 + 20 + 48, scroll.1 + 20));
}

} // verus!
