use arcade_physics::assets::{player_anim, rock_entity};
use arcade_physics::collision::{Mobile, Projectile, Terrain};
use arcade_physics::entity::Entity;
use arcade_physics::geometry::{Rect, Vec2i};
use arcade_physics::render::{can_draw, draw_game};
use arcade_physics::screen::Screen;
use arcade_physics::texture::{Rgba, Texture};
use arcade_physics::velocity::Velocity;
use std::rc::Rc;

const WIDTH: usize = 320;
const HEIGHT: usize = 576;
const BACKGROUND: Rgba = Rgba(255, 197, 255, 255);
const GREEN: Rgba = Rgba(0, 128, 0, 255);
const RED: Rgba = Rgba(128, 0, 0, 255);
const BLACK: Rgba = Rgba(0, 0, 0, 255);

/// A sheet on which the pixel `(x, y)` has the colour `(x % 256, y % 256, 1, 255)`.
fn sheet(width: usize, height: usize) -> Rc<Texture> {
    let mut bytes = Vec::new();
    for y in 0..height {
        for x in 0..width {
            bytes.extend([x as u8, y as u8, 1, 255]);
        }
    }
    Rc::new(Texture::new(width, height, bytes))
}

/// A font sheet on which the glyph of the character with code `n` has the colour
/// `(n, 2, 2, 255)`.
fn font() -> Texture {
    let mut bytes = Vec::new();
    for y in 0..48u8 {
        for x in 0..128u8 {
            bytes.extend([32 + (y / 8) * 16 + x / 8, 2, 2, 255]);
        }
    }
    Texture::new(128, 48, bytes)
}

struct Frame {
    bytes: Vec<u8>,
    scroll: Vec2i,
}

impl Frame {
    /// The colour of the pixel `(x, y)` of the world.
    fn at(&self, x: i32, y: i32) -> Rgba {
        let i = ((y - self.scroll.1) as usize * WIDTH + (x - self.scroll.0) as usize) * 4;
        Rgba(self.bytes[i], self.bytes[i + 1], self.bytes[i + 2], self.bytes[i + 3])
    }
}

fn draw(
    terrains: &mut Vec<Entity<Terrain>>,
    mobiles: &[Entity<Mobile>],
    projs: &[Projectile],
    tick: usize,
    scroll: Vec2i,
    score: usize,
    game_over: bool,
) -> Frame {
    let mut screen = Screen::wrap(vec![0; WIDTH * HEIGHT * 4], WIDTH, HEIGHT, 4, scroll);
    draw_game(terrains, mobiles, projs, tick, scroll, score, game_over, &mut screen, &font(), 0);
    Frame { bytes: screen.unwrap(), scroll }
}

fn player(hp: usize, x: i32, y: i32) -> Entity<Mobile> {
    let mut mobile = Mobile::player(x, y);
    mobile.hp = hp;
    Entity::new(player_anim(&sheet(600, 1024), 0), Vec2i(x, y), mobile)
}

#[test]
fn the_frame_shows_the_bodies_over_the_background() {
    let scroll = Vec2i(0, -1000);
    let mut terrains = vec![rock_entity(&sheet(400, 200), 0, Vec2i(40, -900))];
    let mobiles = vec![player(100, 180, -600)];
    let still = Velocity::at_rest();
    let projs = vec![Projectile::with_damage(Rect { x: 198, y: -610, w: 5, h: 5 }, still, still, 4)];
    let frame = draw(&mut terrains, &mobiles, &projs, 0, scroll, 0, false);
    assert_eq!(frame.at(0, -1000), BACKGROUND);
    assert_eq!(frame.at(319, -425), BACKGROUND);
    // The projectile is a green square.
    assert_eq!(frame.at(198, -610), GREEN);
    assert_eq!(frame.at(202, -606), GREEN);
    assert_eq!(frame.at(203, -606), BACKGROUND);
    // The player shows the region (502, 991) of its sheet, 36 by 25 pixels.
    assert_eq!(frame.at(180, -600), Rgba(246, 223, 1, 255));
    assert_eq!(frame.at(215, -576), Rgba((502 + 35) as u8, (991 + 24) as u8, 1, 255));
    assert_eq!(frame.at(216, -576), BACKGROUND);
    // The rock shows the region (368, 128) of its sheet, 16 by 16 pixels.
    assert_eq!(frame.at(40, -900), Rgba(112, 128, 1, 255));
    assert_eq!(frame.at(55, -885), Rgba(127, 143, 1, 255));
    assert_eq!(frame.at(56, -885), BACKGROUND);
    assert_eq!(terrains.len(), 1);
}

#[test]
fn the_health_bar_shows_the_hit_points() {
    let scroll = Vec2i(0, 2000);
    let top = 2000 + 520;
    for hp in [100usize, 70, 1, 0] {
        let mark = 70 + 2 * hp as i32;
        let frame = draw(&mut Vec::new(), &[player(hp, 0, 2000)], &[], 0, scroll, 0, false);
        // The label.
        assert_eq!(frame.at(20, top), Rgba(b'H', 2, 2, 255));
        assert_eq!(frame.at(28, top + 7), Rgba(b'P', 2, 2, 255));
        // Inside the frame of the bar: green up to the mark, red behind it.
        for x in 71..270 {
            let expected = if x == mark {
                BLACK
            } else if x < mark {
                GREEN
            } else {
                RED
            };
            assert_eq!(frame.at(x, top + 5), expected, "hp {} column {}", hp, x);
        }
        // The frame, and the mark.
        for x in 70..=270 {
            assert_eq!(frame.at(x, top), BLACK);
            assert_eq!(frame.at(x, top + 18), BLACK);
        }
        for y in top..=top + 18 {
            assert_eq!(frame.at(70, y), BLACK);
            assert_eq!(frame.at(270, y), BLACK);
            assert_eq!(frame.at(mark, y), BLACK);
        }
        assert_eq!(frame.at(69, top + 5), BACKGROUND);
        assert_eq!(frame.at(271, top + 5), BACKGROUND);
        assert_eq!(frame.at(100, top + 19), BACKGROUND);
    }
}

#[test]
fn the_score_is_written_in_digits() {
    let scroll = Vec2i(0, 0);
    let glyph = |frame: &Frame, i: i32| frame.at(20 + 8 * i, 20).0;
    let read = |frame: &Frame, n: i32| -> String {
        (0..n).map(|i| glyph(frame, i) as char).collect()
    };
    let frame = draw(&mut Vec::new(), &[player(100, 0, 0)], &[], 0, scroll, 0, false);
    assert_eq!(read(&frame, 7), "Score 0");
    assert_eq!(frame.at(20 + 56, 20), BACKGROUND);
    let frame = draw(&mut Vec::new(), &[player(100, 0, 0)], &[], 0, scroll, 9, false);
    assert_eq!(read(&frame, 7), "Score 9");
    let frame = draw(&mut Vec::new(), &[player(100, 0, 0)], &[], 0, scroll, 10, false);
    assert_eq!(read(&frame, 8), "Score 10");
    let frame = draw(&mut Vec::new(), &[player(100, 0, 0)], &[], 0, scroll, 4207, false);
    assert_eq!(read(&frame, 10), "Score 4207");
    assert_eq!(frame.at(20 + 80, 20), BACKGROUND);
    let frame = draw(&mut Vec::new(), &[player(100, 0, 0)], &[], 0, scroll, usize::MAX, false);
    let text = format!("Score {}", usize::MAX);
    assert_eq!(read(&frame, text.len() as i32), text);
}

#[test]
fn the_end_of_the_game_is_told() {
    let scroll = Vec2i(0, -300);
    let frame = draw(&mut Vec::new(), &[player(0, 0, 0)], &[], 0, scroll, 3, true);
    let read = |x: i32, y: i32, n: i32| -> String {
        (0..n).map(|i| frame.at(x + 8 * i, y).0 as char).collect()
    };
    // The space has a glyph too.
    assert_eq!(read(80, -100, 9), "Game over");
    assert_eq!(read(80, -50, 10), "Restarting");
    assert_eq!(read(20, -280, 7), "Score 3");
    let frame = draw(&mut Vec::new(), &[player(0, 0, 0)], &[], 0, scroll, 3, false);
    assert_eq!(frame.at(80, -100), BACKGROUND);
    assert_eq!(frame.at(80, -50), BACKGROUND);
}

#[test]
fn old_terrain_off_the_screen_is_removed_and_not_drawn() {
    let scroll = Vec2i(0, 0);
    let rocks = sheet(400, 200);
    let mut terrains = vec![
        rock_entity(&rocks, 0, Vec2i(10, 10)),
        rock_entity(&rocks, 0, Vec2i(10, 600)),
        rock_entity(&rocks, 200, Vec2i(10, 700)),
        rock_entity(&rocks, 0, Vec2i(300, 560)),
    ];
    let frame = draw(&mut terrains, &[player(100, 0, 0)], &[], 400, scroll, 0, false);
    let left: Vec<Vec2i> = terrains.iter().map(|t| t.position()).collect();
    assert_eq!(left, vec![Vec2i(10, 10), Vec2i(10, 700), Vec2i(300, 560)]);
    assert_eq!(frame.at(10, 10), Rgba(112, 128, 1, 255));
    assert_eq!(frame.at(300, 560), Rgba(112, 128, 1, 255));
    assert_eq!(frame.at(315, 575), Rgba(127, 143, 1, 255));
}

#[test]
fn the_check_tells_whether_the_frame_can_be_drawn() {
    let screen_at = |scroll: Vec2i| Screen::wrap(vec![0; 16], 2, 2, 4, scroll);
    let check = |terrains: &[Entity<Terrain>], mobiles: &[Entity<Mobile>], tick, scroll, score, over| {
        can_draw(terrains, mobiles, tick, scroll, score, over, &screen_at(scroll), 10)
    };
    let origin = Vec2i(0, 0);
    assert!(check(&[], &[player(100, 0, 0)], 0, origin, 0, false));
    assert!(check(&[], &[player(0, 0, 0)], 0, origin, usize::MAX, true));
    // No player, or one with more than its full hit points.
    assert!(!check(&[], &[], 0, origin, 0, false));
    assert!(!check(&[], &[player(101, 0, 0)], 0, origin, 0, false));
    // The score reaches 68 pixels and 8 for every digit to the right.
    assert!(check(&[], &[player(100, 0, 0)], 0, Vec2i(i32::MAX - 76, 0), 9, false));
    assert!(!check(&[], &[player(100, 0, 0)], 0, Vec2i(i32::MAX - 76, 0), 10, false));
    assert!(check(&[], &[player(100, 0, 0)], 0, Vec2i(i32::MAX - 84, 0), 99, false));
    assert!(!check(&[], &[player(100, 0, 0)], 0, Vec2i(i32::MAX - 83, 0), 99, false));
    // The words of the end reach 160 pixels to the right.
    assert!(check(&[], &[player(100, 0, 0)], 0, Vec2i(i32::MAX - 160, 0), 9, true));
    assert!(!check(&[], &[player(100, 0, 0)], 0, Vec2i(i32::MAX - 159, 0), 9, true));
    // The health bar reaches 538 pixels down.
    assert!(check(&[], &[player(100, 0, 0)], 0, Vec2i(0, i32::MAX - 538), 0, false));
    assert!(!check(&[], &[player(100, 0, 0)], 0, Vec2i(0, i32::MAX - 537), 0, false));
    // Terrain from a tick to come.
    let rocks = sheet(1, 1);
    assert!(check(&[rock_entity(&rocks, 5, origin)], &[player(100, 0, 0)], 5, origin, 0, false));
    assert!(!check(&[rock_entity(&rocks, 6, origin)], &[player(100, 0, 0)], 5, origin, 0, false));
    // A sprite that was started after the frame that is asked for.
    let late = Entity::new(player_anim(&rocks, 11), origin, Mobile::player(0, 0));
    let in_time = Entity::new(player_anim(&rocks, 10), origin, Mobile::player(0, 0));
    assert!(check(&[], &[player(100, 0, 0), in_time], 0, origin, 0, false));
    assert!(!check(&[], &[player(100, 0, 0), late], 0, origin, 0, false));
}
