use arcade_physics::assets::{enemy_entity, player_anim, rock_entity, wall_entity, walls_vec};
use arcade_physics::collision::{
    Collider, Mobile, Projectile, Terrain, Wall, PLAYER_HEIGHT, PLAYER_HP, PLAYER_WIDTH,
};
use arcade_physics::entity::Entity;
use arcade_physics::geometry::{Rect, Vec2i};
use arcade_physics::texture::Texture;
use std::rc::Rc;
use arcade_physics::velocity::Velocity;

fn sheet() -> Rc<Texture> {
    Rc::new(Texture::new(2, 2, vec![0; 16]))
}

fn in_one_place<T: Collider>(e: &Entity<T>, rect: Rect) -> bool {
    e.is_synchronised() && e.sprite().position == e.position() && e.position() == Vec2i(rect.x, rect.y)
}

#[test]
fn new_entity_is_aligned_to_its_position() {
    // The sprite starts at (180, 500), the collider at (1, 2): both go to (40, 50).
    let e = Entity::new(player_anim(&sheet(), 0), Vec2i(40, 50), Mobile::player(1, 2));
    assert_eq!(e.position(), Vec2i(40, 50));
    assert_eq!(e.sprite().position, Vec2i(40, 50));
    assert_eq!(e.collider().rect, Rect { x: 40, y: 50, w: PLAYER_WIDTH, h: PLAYER_HEIGHT });
    assert_eq!(e.collider().hp, PLAYER_HP);
    assert!(e.collider().is_player);
    assert!(e.is_synchronised());
}

#[test]
fn move_pos_moves_all_three_positions() {
    let mut e = Entity::new(player_anim(&sheet(), 0), Vec2i(40, 50), Mobile::player(40, 50));
    e.move_pos(3, -4);
    assert_eq!(e.position(), Vec2i(43, 46));
    assert_eq!(e.sprite().position, Vec2i(43, 46));
    assert_eq!((e.collider().rect.x, e.collider().rect.y), (43, 46));
    assert_eq!((e.collider().rect.w, e.collider().rect.h), (PLAYER_WIDTH, PLAYER_HEIGHT));
    e.move_pos(-43, -46);
    assert!(in_one_place(&e, e.collider().rect));
    assert_eq!(e.position(), Vec2i(0, 0));
    e.move_pos(0, 0);
    assert_eq!(e.position(), Vec2i(0, 0));
}

#[test]
fn move_pos_reaches_the_edges_of_the_grid() {
    let mut e = Entity::new(player_anim(&sheet(), 0), Vec2i(0, 0), Mobile::player(0, 0));
    e.move_pos(i32::MAX, i32::MIN);
    assert_eq!(e.position(), Vec2i(i32::MAX, i32::MIN));
    assert!(e.is_synchronised());
}

#[test]
fn set_velocity_changes_the_velocity_only() {
    let mut e = Entity::new(player_anim(&sheet(), 0), Vec2i(40, 50), Mobile::player(40, 50));
    let vx = Velocity::from_bits(3.0f32.to_bits());
    let vy = Velocity::from_bits((-4.0f32).to_bits());
    e.set_velocity(vx, vy);
    assert_eq!(e.collider().vx, vx);
    assert_eq!(e.collider().vy, vy);
    assert_eq!(e.collider().hp, PLAYER_HP);
    assert_eq!(e.position(), Vec2i(40, 50));
    assert_eq!(e.collider().rect, Rect { x: 40, y: 50, w: PLAYER_WIDTH, h: PLAYER_HEIGHT });
}

#[test]
fn trigger_on_an_entity_reaches_its_sprite() {
    let mut rock = rock_entity(&sheet(), 0, Vec2i(5, 6));
    rock.trigger("hit", 9);
    assert_eq!(rock.sprite().animation_sm.current_state(), 1);
    rock.trigger("miss", 9);
    assert_eq!(rock.sprite().animation_sm.current_state(), 1);
    assert!(rock.is_synchronised());
    assert_eq!(rock.collider().hp, 40);
}

#[test]
fn colliders_move_and_keep_their_state() {
    let mut terrain = Terrain::new(Rect { x: 1, y: 2, w: 3, h: 4 }, 7, true, 9);
    terrain.move_pos(10, 20);
    assert_eq!(terrain, Terrain { rect: Rect { x: 11, y: 22, w: 3, h: 4 }, created_at: 7, destructible: true, hp: 9 });
    terrain.set_pos(-5, -6);
    assert_eq!(terrain.hitbox(), Rect { x: -5, y: -6, w: 3, h: 4 });

    let mut wall = Wall::new(Rect { x: 0, y: 0, w: 10, h: 500 });
    wall.move_pos(0, -1);
    assert_eq!(wall.rect, Rect { x: 0, y: -1, w: 10, h: 500 });
    wall.set_pos(4, 4);
    assert_eq!(wall.hitbox(), Rect { x: 4, y: 4, w: 10, h: 500 });

    let still = Velocity::from_bits(0);
    let mut enemy = Mobile::enemy(Rect { x: 1, y: 1, w: 2, h: 2 }, still, Velocity::scrolling(), 50);
    assert!(!enemy.is_player);
    Collider::move_pos(&mut enemy, 1, 1);
    enemy.move_pos(1, 1);
    assert_eq!(enemy.rect, Rect { x: 3, y: 3, w: 2, h: 2 });
    assert_eq!(enemy.vy, Velocity::scrolling());
    enemy.set_pos(0, 0);
    assert_eq!(enemy.hitbox(), Rect { x: 0, y: 0, w: 2, h: 2 });
    assert_eq!(enemy.hp, 50);
}

#[test]
fn projectile_is_fired_from_the_muzzle() {
    let player = Mobile::player(180, 500);
    let mut shot = Projectile::new(&player);
    // Half the player's width to the right, ten above.
    assert_eq!(shot.rect, Rect { x: 198, y: 490, w: 5, h: 5 });
    assert_eq!(shot.hp, 4);
    let (vx, vy) = shot.get_velocity();
    assert_eq!(f32::from_bits(vx.to_bits()), 0.0);
    assert_eq!(f32::from_bits(vy.to_bits()), -10.0);
    shot.move_pos(0, -10);
    assert_eq!(shot.rect, Rect { x: 198, y: 480, w: 5, h: 5 });
    shot.set_pos(1, 2);
    assert_eq!(shot.hitbox(), Rect { x: 1, y: 2, w: 5, h: 5 });
    let odd = Mobile::enemy(Rect { x: -7, y: -3, w: 9, h: 1 }, vx, vy, 1);
    assert_eq!(Projectile::new(&odd).rect, Rect { x: -3, y: -13, w: 5, h: 5 });
}

#[test]
fn assets_are_made_as_the_sheet_says() {
    let ships = Rc::new(Texture::new(4, 1, vec![0; 16]));
    let sprite = player_anim(&ships, 12);
    assert_eq!(sprite.position, Vec2i(180, 500));
    assert!(Rc::ptr_eq(&sprite.image, &ships));
    assert_eq!(sprite.animation_sm.current_state(), 0);
    assert_eq!(sprite.current_frame(12), Rect { x: 502, y: 991, w: 36, h: 25 });
    assert_eq!(sprite.current_frame(500), Rect { x: 502, y: 991, w: 36, h: 25 });

    let wall = wall_entity(&sheet(), 3, Vec2i(64, -32));
    assert_eq!(
        *wall.collider(),
        Terrain { rect: Rect { x: 64, y: -32, w: 32, h: 32 }, created_at: 3, destructible: false, hp: 1 }
    );
    assert_eq!(wall.position(), Vec2i(64, -32));
    assert_eq!(wall.sprite().position, Vec2i(64, -32));
    assert_eq!(wall.sprite().current_frame(3), Rect { x: 48, y: 320, w: 32, h: 32 });

    let mut rock = rock_entity(&sheet(), 3, Vec2i(16, -16));
    assert_eq!(
        *rock.collider(),
        Terrain { rect: Rect { x: 16, y: -16, w: 16, h: 16 }, created_at: 3, destructible: true, hp: 40 }
    );
    assert!(rock.is_synchronised());
    for stage in 0..4 {
        assert_eq!(rock.sprite().animation_sm.current_state(), stage);
        assert_eq!(
            rock.sprite().current_frame(10),
            Rect { x: 368, y: 128 + 16 * stage as i32, w: 16, h: 16 }
        );
        rock.trigger("hit", 10);
    }
    // There is no stage behind the last.
    assert_eq!(rock.sprite().animation_sm.current_state(), 3);
}

#[test]
fn enemies_and_walls_are_made() {
    let ships = Rc::new(Texture::new(6, 1, vec![0; 24]));
    let enemy = enemy_entity(&ships, 8, Vec2i(100, -30));
    assert!(enemy.is_synchronised());
    assert_eq!(enemy.position(), Vec2i(100, -30));
    assert_eq!(enemy.collider().rect, Rect { x: 100, y: -30, w: 93, h: 84 });
    assert_eq!(enemy.collider().hp, 50);
    assert!(!enemy.collider().is_player);
    assert_eq!(f32::from_bits(enemy.collider().vx.to_bits()), 0.0);
    assert_eq!(f32::from_bits(enemy.collider().vy.to_bits()), -1.0);
    assert!(Rc::ptr_eq(&enemy.sprite().image, &ships));
    assert_eq!(enemy.sprite().current_frame(8), Rect { x: 423, y: 728, w: 93, h: 84 });

    assert_eq!(
        walls_vec(320, 576),
        vec![
            Wall::new(Rect { x: -16, y: 0, w: 16, h: 576 }),
            Wall::new(Rect { x: 320, y: 0, w: 16, h: 576 }),
            Wall::new(Rect { x: 0, y: -16, w: 320, h: 16 }),
            Wall::new(Rect { x: 0, y: 576, w: 320, h: 16 }),
        ]
    );
}
