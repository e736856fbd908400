use arcade_physics::assets::{player_anim, rock_entity, wall_entity};
use arcade_physics::collision::{Mobile, Projectile, Terrain, Wall};
use arcade_physics::entity::Entity;
use arcade_physics::game::{
    advance_mobiles, advance_projectiles, advance_stage, can_advance_mobiles,
    can_advance_projectiles, can_cleanup_terrain, can_fire, can_generate_terrain, can_scroll_walls,
    can_settle_score, can_update_tilemaps, cleanup_terrain, decide_stage, fire, generate_terrain, page_in, page_out,
    pick_ground_tile, plan_boulder_row, plan_rock_field, scroll_walls, settle_score, spawn_terrain,
    steer_player, update_tilemaps, Controls, GameStage, Placement, StageStep, TerrainKind,
};
use arcade_physics::geometry::{Rect, Vec2i};
use arcade_physics::texture::Texture;
use arcade_physics::tiles::{Tile, TileID, Tilemap, Tileset};
use std::rc::Rc;

fn sheet() -> Rc<Texture> {
    Rc::new(Texture::new(2, 2, vec![0; 16]))
}

fn keys(left: bool, right: bool, up: bool, down: bool) -> Controls {
    Controls { left, right, up, down }
}

fn decoded(v: (arcade_physics::velocity::Velocity, arcade_physics::velocity::Velocity)) -> (f32, f32) {
    (f32::from_bits(v.0.to_bits()), f32::from_bits(v.1.to_bits()))
}

fn step(stage: GameStage, terrain: Option<TerrainKind>, spawn_enemy: bool) -> StageStep {
    StageStep { stage, terrain, spawn_enemy }
}

fn rock(x: i32, y: i32) -> Placement {
    Placement { rock: true, at: Vec2i(x, y) }
}

fn boulder(x: i32, y: i32) -> Placement {
    Placement { rock: false, at: Vec2i(x, y) }
}

#[test]
fn steering_by_keys() {
    assert_eq!(decoded(steer_player(keys(false, false, false, false))), (0.0, -1.0));
    assert_eq!(decoded(steer_player(keys(false, true, false, false))), (3.0, -1.0));
    assert_eq!(decoded(steer_player(keys(true, false, false, false))), (-3.0, -1.0));
    assert_eq!(decoded(steer_player(keys(false, false, true, false))), (0.0, -4.0));
    assert_eq!(decoded(steer_player(keys(false, false, false, true))), (0.0, 2.0));
    // Right wins over left, up over down.
    assert_eq!(decoded(steer_player(keys(true, true, true, true))), (3.0, -4.0));
    assert_eq!(decoded(steer_player(keys(true, false, false, true))), (-3.0, 2.0));
}

#[test]
fn rock_stage_lets_a_wave_arrive() {
    let arriving = GameStage::Rocks(true, 2);
    assert_eq!(advance_stage(arriving, 0, 1, 0), step(arriving, None, true));
    assert_eq!(advance_stage(arriving, 1, 2, 0), step(arriving, None, false));
    assert_eq!(advance_stage(arriving, 30, 2, 0), step(arriving, None, true));
    assert_eq!(advance_stage(arriving, 120, 3, 0), step(arriving, Some(TerrainKind::RockField), true));
    assert_eq!(advance_stage(arriving, 300, 3, 3), step(arriving, Some(TerrainKind::RockField), true));
    // The fifth mobile completes the wave.
    assert_eq!(advance_stage(arriving, 90, 4, 0), step(GameStage::Rocks(false, 2), None, true));
    assert_eq!(advance_stage(arriving, 91, 5, 0), step(GameStage::Rocks(false, 2), None, false));
    assert_eq!(advance_stage(arriving, 91, 4, 0), step(arriving, None, false));
    assert_eq!(advance_stage(arriving, 90, 5, 0), step(arriving, None, true));
}

#[test]
fn rock_stage_ends_by_roll_and_wave() {
    let fought = GameStage::Rocks(false, 2);
    // Enemies are left: nothing changes.
    assert_eq!(advance_stage(fought, 7, 3, 3), step(fought, None, false));
    assert_eq!(advance_stage(fought, 120, 3, 3), step(fought, Some(TerrainKind::RockField), false));
    // The player is alone: roll and wave decide.
    assert_eq!(advance_stage(fought, 7, 1, 2), step(GameStage::Rocks(true, 3), None, false));
    assert_eq!(advance_stage(fought, 7, 1, 3), step(GameStage::Boulders(1), None, false));
    assert_eq!(advance_stage(GameStage::Rocks(false, 1), 7, 1, 3), step(GameStage::Rocks(true, 2), None, false));
    assert_eq!(advance_stage(GameStage::Rocks(false, 5), 7, 1, 0), step(GameStage::Boulders(1), None, false));
    assert_eq!(
        advance_stage(GameStage::Rocks(false, usize::MAX), 7, 1, 3),
        step(GameStage::Boulders(1), None, false)
    );
}

#[test]
fn boulder_stage_goes_by_rows() {
    let rows = GameStage::Boulders(4);
    assert_eq!(advance_stage(rows, 1, 1, 3), step(rows, None, false));
    assert_eq!(advance_stage(rows, 120, 1, 3), step(rows, None, false));
    assert_eq!(advance_stage(rows, 180, 1, 2), step(GameStage::Boulders(5), Some(TerrainKind::BoulderRow), false));
    assert_eq!(advance_stage(rows, 360, 1, 3), step(GameStage::Rocks(true, 1), Some(TerrainKind::BoulderRow), false));
    assert_eq!(
        advance_stage(GameStage::Boulders(7), 0, 9, 0),
        step(GameStage::Rocks(true, 1), Some(TerrainKind::BoulderRow), false)
    );
    assert_eq!(advance_stage(GameStage::Boss, 0, 1, 3), step(GameStage::Boss, None, false));
    assert_eq!(advance_stage(GameStage::Boss, 120, 5, 0), step(GameStage::Boss, None, false));
}

#[test]
fn decided_stage_is_one_of_the_rolled_stages() {
    for _ in 0..40 {
        let decided = decide_stage(GameStage::Rocks(false, 2), 7, 1);
        assert!((0..4).any(|roll| decided == advance_stage(GameStage::Rocks(false, 2), 7, 1, roll)));
        let decided = decide_stage(GameStage::Boulders(5), 180, 3);
        assert!((0..4).any(|roll| decided == advance_stage(GameStage::Boulders(5), 180, 3, roll)));
    }
    // Where nothing is rolled the decision is fixed.
    assert_eq!(decide_stage(GameStage::Rocks(true, 2), 30, 4), step(GameStage::Rocks(false, 2), None, true));
    assert_eq!(decide_stage(GameStage::Boulders(5), 181, 3), step(GameStage::Boulders(5), None, false));
    assert_eq!(decide_stage(GameStage::Boss, 0, 1), step(GameStage::Boss, None, false));
}

#[test]
fn score_is_settled() {
    assert_eq!(settle_score(10, true, 0), (10, false));
    assert_eq!(settle_score(10, true, 3), (13, false));
    assert_eq!(settle_score(10, false, 3), (12, true));
    assert_eq!(settle_score(0, false, 1), (0, true));
    assert_eq!(settle_score(usize::MAX - 1, true, 1), (usize::MAX, false));
}

#[test]
fn the_player_fires_every_fifth_tick() {
    let mobiles = vec![Entity::new(player_anim(&sheet(), 0), Vec2i(180, 500), Mobile::player(180, 500))];
    let mut projs: Vec<Projectile> = Vec::new();
    for tick in 0..11 {
        fire(&mobiles, &mut projs, tick);
    }
    assert_eq!(projs.len(), 3);
    assert_eq!(projs[0], Projectile::new(mobiles[0].collider()));
    assert_eq!(projs[2].rect, Rect { x: 198, y: 490, w: 5, h: 5 });
    fire(&[], &mut projs, 3);
    assert_eq!(projs.len(), 3);
}

#[test]
fn walls_scroll_with_the_camera() {
    let mut walls = vec![Wall::new(Rect { x: 0, y: 0, w: 1, h: 576 }), Wall::new(Rect { x: 319, y: -7, w: 1, h: 576 })];
    scroll_walls(&mut walls);
    scroll_walls(&mut walls);
    assert_eq!(walls, vec![Wall::new(Rect { x: 0, y: -2, w: 1, h: 576 }), Wall::new(Rect { x: 319, y: -9, w: 1, h: 576 })]);
    let mut none: Vec<Wall> = Vec::new();
    scroll_walls(&mut none);
    assert!(none.is_empty());
}

#[test]
fn terrain_is_cleared_when_off_screen_and_old() {
    let screen = Rect { x: 0, y: 1000, w: 320, h: 576 };
    let mut terrains = vec![
        rock_entity(&sheet(), 0, Vec2i(10, 1010)),  // on screen, old
        rock_entity(&sheet(), 0, Vec2i(10, 10)),    // off screen, old
        rock_entity(&sheet(), 701, Vec2i(10, 10)),  // off screen, young
        wall_entity(&sheet(), 700, Vec2i(10, 10)),  // off screen, just old enough to go
        wall_entity(&sheet(), 0, Vec2i(-31, 969)),  // one pixel on screen
        wall_entity(&sheet(), 0, Vec2i(-32, 969)),  // touching the screen from outside
    ];
    cleanup_terrain(&mut terrains, 1000, screen);
    let left: Vec<(usize, Vec2i)> = terrains.iter().map(|t| (t.collider().created_at, t.position())).collect();
    assert_eq!(left, vec![(0, Vec2i(10, 1010)), (701, Vec2i(10, 10)), (0, Vec2i(-31, 969))]);
}

#[test]
fn rock_field_from_rolls() {
    let mut rolls = vec![1usize; 120];
    assert!(plan_rock_field(&rolls, -500).is_empty());
    rolls[0] = 0; // column 0, first row above the screen
    rolls[5] = 0; // column 0, sixth row
    rolls[6] = 0; // column 1, first row
    rolls[119] = 0; // column 19, sixth row
    rolls[60] = 5;
    assert_eq!(
        plan_rock_field(&rolls, -500),
        vec![rock(0, -516), rock(0, -596), rock(16, -516), rock(304, -596)]
    );
    let all = plan_rock_field(&vec![0usize; 120], 0);
    assert_eq!(all.len(), 120);
    assert_eq!(all[7], rock(16, -32));
}

#[test]
fn boulder_row_from_seed() {
    // Seed 0: slots 0..3 hold rocks (run 0), slots 3..9 boulders (runs 1, 2), slot 9 rocks (run 3).
    let plan = plan_boulder_row(0, 100);
    let mut expected = Vec::new();
    for slot in [0, 1, 2] {
        let x = slot * 32;
        expected.extend([rock(x, 68), rock(x + 16, 68), rock(x, 84), rock(x + 16, 84)]);
    }
    for slot in 3..9 {
        expected.push(boulder(slot * 32, 68));
    }
    expected.extend([rock(288, 68), rock(304, 68), rock(288, 84), rock(304, 84)]);
    assert_eq!(plan, expected);
    // Seed 3: every slot of runs 1 and 2 holds a boulder, slots 6..9 rocks, slot 9 a boulder.
    let plan = plan_boulder_row(3, 0);
    assert_eq!(plan.len(), 6 + 3 * 4 + 1);
    assert_eq!(plan[0], boulder(0, -32));
    assert_eq!(plan[6], rock(192, -32));
    assert_eq!(plan[18], boulder(288, -32));
}

#[test]
fn spawning_makes_the_blocks_of_the_plan() {
    let mut terrains = vec![wall_entity(&sheet(), 0, Vec2i(1, 1))];
    let plan = vec![rock(16, -16), boulder(32, -32), rock(0, 0)];
    let tiles = Rc::new(Texture::new(5, 1, vec![0; 20]));
    spawn_terrain(&mut terrains, &tiles, 77, &plan);
    assert_eq!(terrains.len(), 4);
    assert_eq!(terrains[0].position(), Vec2i(1, 1));
    assert_eq!(*terrains[1].collider(), *rock_entity(&sheet(), 77, Vec2i(16, -16)).collider());
    assert_eq!(*terrains[2].collider(), *wall_entity(&sheet(), 77, Vec2i(32, -32)).collider());
    assert_eq!(*terrains[3].collider(), *rock_entity(&sheet(), 77, Vec2i(0, 0)).collider());
    assert!(terrains.iter().all(|t| t.is_synchronised()));
    assert!(terrains[1..].iter().all(|t| Rc::ptr_eq(&t.sprite().image, &tiles)));
}

#[test]
fn generated_terrain_lies_on_its_grid() {
    for _ in 0..10 {
        let mut terrains: Vec<Entity<Terrain>> = Vec::new();
        generate_terrain(&mut terrains, &sheet(), 9, -1000, TerrainKind::RockField);
        assert!(terrains.len() <= 120);
        let mut last = (-1, 0);
        for t in terrains.iter() {
            let Vec2i(x, y) = t.position();
            assert!(t.collider().destructible);
            assert_eq!(t.collider().created_at, 9);
            assert!(x % 16 == 0 && (0..320).contains(&x));
            assert!((y + 1000) % 16 == 0 && (-1096..=-1016).contains(&y));
            // Column by column, each column from the screen upwards.
            assert!((x, -y) > last);
            last = (x, -y);
        }

        let mut terrains: Vec<Entity<Terrain>> = Vec::new();
        generate_terrain(&mut terrains, &sheet(), 9, -1000, TerrainKind::BoulderRow);
        let made: Vec<Placement> = terrains
            .iter()
            .map(|t| Placement { rock: t.collider().destructible, at: t.position() })
            .collect();
        assert!((0..256).any(|seed| made == plan_boulder_row(seed, -1000)));
    }
}

fn ground_set(ground: Vec<usize>) -> Rc<Tileset> {
    let tiles = vec![Tile { solid: false }; 10];
    let image = Rc::new(Texture::new(160, 16, vec![0; 160 * 16 * 4]));
    Rc::new(Tileset::new(tiles, &image, vec![("ground".to_string(), ground)]))
}

fn page_at(set: &Rc<Tileset>, y: i32) -> Tilemap {
    Tilemap::new(Vec2i(0, y), (20, 8), set, vec![0; 160])
}

#[test]
fn pages_off_screen_are_unloaded() {
    let set = ground_set(vec![3]);
    // The screen covers y in [0, 576].
    let mut maps = vec![page_at(&set, -129), page_at(&set, -128), page_at(&set, 576), page_at(&set, 577)];
    let load = page_out(&mut maps, Vec2i(0, 0));
    assert_eq!(maps.iter().map(|m| m.position().1).collect::<Vec<_>>(), vec![-128, 576]);
    // A page began more than a tile above the screen.
    assert!(!load);
    let mut maps = vec![page_at(&set, -16), page_at(&set, 100)];
    assert!(page_out(&mut maps, Vec2i(0, 0)));
    assert_eq!(maps.len(), 2);
    let mut maps = vec![page_at(&set, -17)];
    assert!(!page_out(&mut maps, Vec2i(0, 0)));
}

#[test]
fn a_page_is_loaded_ahead_of_the_screen() {
    let set = ground_set(vec![3]);
    let mut maps = vec![page_at(&set, 0)];
    page_in(&mut maps, Vec2i(5, -40), 7);
    assert_eq!(maps.len(), 2);
    assert_eq!(maps[1].position(), Vec2i(5, -152));
    assert_eq!(maps[1].size(), (20, 8));
    assert!(Rc::ptr_eq(maps[1].tileset(), &set));
    assert_eq!(maps[1].tile_id_at(Vec2i(5, -152)), TileID(7));
    assert_eq!(maps[1].tile_id_at(Vec2i(324, -25)), TileID(7));
}

#[test]
fn ground_tiles_are_picked_from_the_group() {
    let set = ground_set(vec![3, 5, 8]);
    let mut seen = [false; 10];
    for _ in 0..200 {
        let picked = pick_ground_tile(&set).unwrap();
        assert!([3, 5, 8].contains(&picked));
        seen[picked] = true;
    }
    assert!(seen[3] && seen[5] && seen[8]);
    assert_eq!(pick_ground_tile(&ground_set(vec![])), None);
    let tiles = vec![Tile { solid: false }; 10];
    let image = Rc::new(Texture::new(160, 16, vec![0; 160 * 16 * 4]));
    let no_ground = Tileset::new(tiles, &image, vec![("sky".to_string(), vec![1])]);
    assert_eq!(pick_ground_tile(&no_ground), None);
}

#[test]
fn tilemaps_are_paged() {
    let set = ground_set(vec![4]);
    // Nothing is due: a page lies ahead.
    let mut maps = vec![page_at(&set, -100), page_at(&set, 1000)];
    assert!(update_tilemaps(&mut maps, Vec2i(0, 0)));
    assert_eq!(maps.len(), 1);
    // A page is due and loaded.
    let mut maps = vec![page_at(&set, 0), page_at(&set, 700)];
    assert!(update_tilemaps(&mut maps, Vec2i(0, 0)));
    assert_eq!(maps.iter().map(|m| m.position().1).collect::<Vec<_>>(), vec![0, -112]);
    assert_eq!(maps[1].tile_id_at(Vec2i(0, -112)), TileID(4));
    // A page is due, and no map is left to take the tile set from.
    let mut maps = vec![page_at(&set, 700)];
    assert!(!update_tilemaps(&mut maps, Vec2i(0, 0)));
    assert!(maps.is_empty());
    // The tile set has no ground tile, or one that it does not hold.
    let mut maps = vec![page_at(&ground_set(vec![]), 0)];
    assert!(!update_tilemaps(&mut maps, Vec2i(0, 0)));
    assert_eq!(maps.len(), 1);
    let mut maps = vec![page_at(&ground_set(vec![10]), 0)];
    assert!(!update_tilemaps(&mut maps, Vec2i(0, 0)));
    assert_eq!(maps.len(), 1);
}

#[test]
fn bodies_move_by_their_velocity_rounded_towards_zero() {
    let speed = |v: f32| arcade_physics::velocity::Velocity::from_bits(v.to_bits());
    let mobile = |x: i32, y: i32, vx: f32, vy: f32| {
        let rect = Rect { x, y, w: 20, h: 20 };
        Entity::new(player_anim(&sheet(), 0), Vec2i(x, y), Mobile::enemy(rect, speed(vx), speed(vy), 50))
    };
    let mut mobiles = vec![
        mobile(100, 100, 3.0, -4.0),
        mobile(100, 100, 0.07, -1.03),
        mobile(100, 100, -2.99, 2.5),
        mobile(100, 100, f32::NAN, -0.0),
    ];
    advance_mobiles(&mut mobiles);
    let places: Vec<Vec2i> = mobiles.iter().map(|m| m.position()).collect();
    assert_eq!(places, vec![Vec2i(103, 96), Vec2i(100, 99), Vec2i(98, 102), Vec2i(100, 100)]);
    assert!(mobiles.iter().all(|m| m.is_synchronised()));
    assert_eq!(f32::from_bits(mobiles[1].collider().vx.to_bits()), 0.07);

    let mut projs = vec![
        Projectile::new(mobiles[0].collider()),
        Projectile::with_damage(Rect { x: 0, y: 0, w: 5, h: 5 }, speed(1.9), speed(-1.9), 7),
    ];
    let fired_at = projs[0].rect;
    advance_projectiles(&mut projs);
    advance_projectiles(&mut projs);
    assert_eq!(projs[0].rect, Rect { x: fired_at.x, y: fired_at.y - 20, w: 5, h: 5 });
    assert_eq!(projs[1].rect, Rect { x: 2, y: -2, w: 5, h: 5 });
    assert_eq!(projs[1].hp, 7);
}

#[test]
fn checks_tell_what_fits_the_grid() {
    let speed = |v: f32| arcade_physics::velocity::Velocity::from_bits(v.to_bits());
    let mobile = |x: i32, y: i32, vx: f32, vy: f32| {
        let rect = Rect { x, y, w: 20, h: 20 };
        Entity::new(player_anim(&sheet(), 0), Vec2i(x, y), Mobile::enemy(rect, speed(vx), speed(vy), 50))
    };
    assert!(can_advance_mobiles(&[]));
    assert!(can_advance_mobiles(&[mobile(i32::MAX - 3, i32::MIN + 4, 3.9, -4.9)]));
    assert!(!can_advance_mobiles(&[mobile(0, 0, 1.0, 1.0), mobile(i32::MAX - 3, 0, 4.0, 0.0)]));
    assert!(!can_advance_mobiles(&[mobile(0, i32::MIN + 4, 0.0, -5.0)]));
    assert!(can_advance_mobiles(&[mobile(i32::MAX, i32::MIN, f32::NAN, -0.5)]));
    assert!(!can_advance_mobiles(&[mobile(1, 0, f32::INFINITY, 0.0)]));

    let shot = |x: i32, y: i32, vx: f32, vy: f32| {
        Projectile::with_damage(Rect { x, y, w: 5, h: 5 }, speed(vx), speed(vy), 4)
    };
    assert!(can_advance_projectiles(&[shot(0, i32::MIN + 10, 0.0, -10.0)]));
    assert!(!can_advance_projectiles(&[shot(0, 0, 0.0, -10.0), shot(0, i32::MIN + 9, 0.0, -10.0)]));

    assert!(can_scroll_walls(&[Wall::new(Rect { x: 0, y: i32::MIN + 1, w: 1, h: 1 })]));
    assert!(!can_scroll_walls(&[Wall::new(Rect { x: 0, y: i32::MIN, w: 1, h: 1 })]));

    assert!(can_settle_score(5, true, 0));
    assert!(can_settle_score(5, false, 1));
    assert!(!can_settle_score(5, false, 0));
    assert!(can_settle_score(usize::MAX, true, 0));
    assert!(!can_settle_score(usize::MAX, true, 1));
    assert!(can_settle_score(usize::MAX, false, 1));
    assert!(!can_settle_score(usize::MAX, false, 2));

    let at = |x: i32, y: i32| vec![Entity::new(player_anim(&sheet(), 0), Vec2i(x, y), Mobile::player(x, y))];
    // Off the ticks at which the player fires nothing is asked.
    assert!(can_fire(&[], 3));
    assert!(!can_fire(&[], 5));
    assert!(can_fire(&at(i32::MAX - 18, i32::MIN + 10), 5));
    assert!(!can_fire(&at(i32::MAX - 17, 0), 5));
    assert!(!can_fire(&at(0, i32::MIN + 9), 5));
    assert!(can_fire(&at(0, i32::MIN + 9), 6));

    assert!(can_generate_terrain(TerrainKind::RockField, i32::MIN + 96));
    assert!(!can_generate_terrain(TerrainKind::RockField, i32::MIN + 95));
    assert!(can_generate_terrain(TerrainKind::BoulderRow, i32::MIN + 32));
    assert!(!can_generate_terrain(TerrainKind::BoulderRow, i32::MIN + 31));

    let screen = Rect { x: 0, y: 0, w: 320, h: 576 };
    assert!(can_cleanup_terrain(&[], 0, screen));
    assert!(can_cleanup_terrain(&[rock_entity(&sheet(), 7, Vec2i(0, 0))], 7, screen));
    assert!(!can_cleanup_terrain(&[rock_entity(&sheet(), 8, Vec2i(0, 0))], 7, screen));
    assert!(!can_cleanup_terrain(&[rock_entity(&sheet(), 0, Vec2i(i32::MAX - 15, 0))], 7, screen));
    assert!(!can_cleanup_terrain(&[], 0, Rect { x: i32::MAX, y: 0, w: 320, h: 576 }));

    let set = ground_set(vec![3]);
    let wide = Tilemap::new(Vec2i(0, 0), (0x0800_0000, 0), &set, vec![]);
    let widest_that_fits = Tilemap::new(Vec2i(0, 0), (0, 0x07FF_FFFF), &set, vec![]);
    assert!(can_update_tilemaps(&[page_at(&set, 0), widest_that_fits], Vec2i(0, i32::MIN + 128)));
    assert!(!can_update_tilemaps(&[page_at(&set, 0)], Vec2i(0, i32::MIN + 127)));
    assert!(!can_update_tilemaps(&[page_at(&set, 0), wide], Vec2i(0, 0)));
}
