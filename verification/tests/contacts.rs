use arcade_physics::assets::{player_anim, rock_entity, wall_entity};
use arcade_physics::collision::{ColliderID, Contact, Mobile, Projectile, Terrain, Wall};
use arcade_physics::contacts::gather_contacts;
use arcade_physics::entity::Entity;
use arcade_physics::geometry::{Rect, Vec2i};
use arcade_physics::texture::Texture;
use std::rc::Rc;
use arcade_physics::velocity::Velocity;

fn sheet() -> Rc<Texture> {
    Rc::new(Texture::new(2, 2, vec![0; 16]))
}

fn rect(x: i32, y: i32, w: u16, h: u16) -> Rect {
    Rect { x, y, w, h }
}

fn player(x: i32, y: i32) -> Entity<Mobile> {
    Entity::new(player_anim(&sheet(), 0), Vec2i(x, y), Mobile::player(x, y))
}

fn enemy(x: i32, y: i32, w: u16, h: u16) -> Entity<Mobile> {
    let still = Velocity::from_bits(0.0f32.to_bits());
    Entity::new(player_anim(&sheet(), 0), Vec2i(x, y), Mobile::enemy(rect(x, y, w, h), still, still, 50))
}

fn shot(x: i32, y: i32) -> Projectile {
    let still = Velocity::from_bits(0.0f32.to_bits());
    Projectile::with_damage(rect(x, y, 5, 5), still, still, 4)
}

fn contact(a: ColliderID, b: ColliderID, mtv: (i32, i32)) -> Contact {
    Contact::new(a, b, mtv)
}

#[test]
fn empty_pools_give_no_contacts() {
    let mut out = Vec::new();
    gather_contacts(&[], &[], &[], &[], &mut out);
    assert!(out.is_empty());
}

#[test]
fn separate_bodies_give_no_contacts() {
    let terrains = vec![rock_entity(&sheet(), 0, Vec2i(300, 300))];
    let mobiles = vec![player(0, 0), enemy(100, 100, 10, 10)];
    let walls = vec![Wall::new(rect(-50, 0, 10, 500))];
    let projs = vec![shot(200, 0)];
    let mut out = Vec::new();
    gather_contacts(&terrains, &mobiles, &walls, &projs, &mut out);
    assert!(out.is_empty());
}

#[test]
fn touching_edges_are_not_a_contact() {
    // The player is 36 wide: an enemy that begins at x == 36 only touches it.
    let mobiles = vec![player(0, 0), enemy(36, 0, 10, 10)];
    let mut out = Vec::new();
    gather_contacts(&[], &mobiles, &[], &[], &mut out);
    assert!(out.is_empty());
    let mobiles = vec![player(0, 0), enemy(35, 0, 10, 10)];
    gather_contacts(&[], &mobiles, &[], &[], &mut out);
    assert_eq!(out, vec![contact(ColliderID::Mobile(0), ColliderID::Mobile(1), (0, 0))]);
}

#[test]
fn mobiles_are_paired_once_and_never_with_themselves() {
    let mobiles = vec![player(0, 0), enemy(5, 5, 10, 10), enemy(8, 8, 10, 10)];
    let mut out = Vec::new();
    gather_contacts(&[], &mobiles, &[], &[], &mut out);
    assert_eq!(
        out,
        vec![
            contact(ColliderID::Mobile(0), ColliderID::Mobile(1), (0, 0)),
            contact(ColliderID::Mobile(0), ColliderID::Mobile(2), (0, 0)),
            contact(ColliderID::Mobile(1), ColliderID::Mobile(2), (0, 0)),
        ]
    );
}

#[test]
fn sweeps_come_in_their_order() {
    let terrains = vec![rock_entity(&sheet(), 0, Vec2i(500, 500)), rock_entity(&sheet(), 0, Vec2i(10, 10))];
    let mobiles = vec![player(0, 0), enemy(20, 10, 10, 10)];
    // The wall covers x in [-10, 4): the player is 4 deep in it.
    let walls = vec![Wall::new(rect(-10, -100, 14, 400))];
    let projs = vec![shot(22, 12), shot(12, 12)];
    let mut out = Vec::new();
    gather_contacts(&terrains, &mobiles, &walls, &projs, &mut out);
    assert_eq!(
        out,
        vec![
            contact(ColliderID::Mobile(0), ColliderID::Mobile(1), (0, 0)),
            contact(ColliderID::Mobile(0), ColliderID::Terrain(1), (0, 0)),
            contact(ColliderID::Mobile(1), ColliderID::Terrain(1), (0, 0)),
            contact(ColliderID::Mobile(0), ColliderID::Wall(0), (4, 0)),
            contact(ColliderID::Projectile(0), ColliderID::Mobile(0), (0, 0)),
            contact(ColliderID::Projectile(0), ColliderID::Mobile(1), (0, 0)),
            contact(ColliderID::Projectile(1), ColliderID::Mobile(0), (0, 0)),
            contact(ColliderID::Projectile(0), ColliderID::Terrain(1), (0, 0)),
            contact(ColliderID::Projectile(1), ColliderID::Terrain(1), (0, 0)),
        ]
    );
}

#[test]
fn only_wall_contacts_carry_a_translation_vector() {
    let terrains = vec![wall_entity(&sheet(), 0, Vec2i(0, 20))];
    let mobiles = vec![player(0, 0)];
    // The wall lies under the player's lower 3 rows.
    let walls = vec![Wall::new(rect(-100, 22, 400, 10))];
    let mut out = Vec::new();
    gather_contacts(&terrains, &mobiles, &walls, &[], &mut out);
    assert_eq!(
        out,
        vec![
            contact(ColliderID::Mobile(0), ColliderID::Terrain(0), (0, 0)),
            contact(ColliderID::Mobile(0), ColliderID::Wall(0), (0, 3)),
        ]
    );
}

#[test]
fn projectiles_pass_through_walls_and_each_other() {
    let walls = vec![Wall::new(rect(0, 0, 100, 100))];
    let projs = vec![shot(10, 10), shot(11, 11)];
    let mut out = Vec::new();
    gather_contacts(&[], &[], &walls, &projs, &mut out);
    assert!(out.is_empty());
}

#[test]
fn contacts_are_appended_behind_what_is_there() {
    let kept = contact(ColliderID::Wall(7), ColliderID::Wall(9), (1, 2));
    let mobiles = vec![player(0, 0), enemy(5, 5, 10, 10)];
    let mut out = vec![kept];
    gather_contacts(&[], &mobiles, &[], &[], &mut out);
    assert_eq!(out, vec![kept, contact(ColliderID::Mobile(0), ColliderID::Mobile(1), (0, 0))]);
}

#[test]
fn generation_is_deterministic() {
    let terrains = vec![rock_entity(&sheet(), 0, Vec2i(10, 10)), wall_entity(&sheet(), 3, Vec2i(0, 0))];
    let mobiles = vec![player(0, 0), enemy(20, 10, 10, 10), enemy(3, 3, 40, 40)];
    let walls = vec![Wall::new(rect(-10, -100, 14, 400)), Wall::new(rect(30, -100, 14, 400))];
    let projs = vec![shot(22, 12), shot(12, 12), shot(900, 900)];
    let mut first = Vec::new();
    let mut second = Vec::new();
    gather_contacts(&terrains, &mobiles, &walls, &projs, &mut first);
    gather_contacts(&terrains, &mobiles, &walls, &projs, &mut second);
    assert!(!first.is_empty());
    assert_eq!(first, second);
}

#[test]
fn no_pair_is_listed_twice_and_every_listed_pair_overlaps() {
    let terrains: Vec<Entity<Terrain>> =
        (0..6).map(|i| rock_entity(&sheet(), 0, Vec2i(i * 9, i * 7))).collect();
    let mobiles: Vec<Entity<Mobile>> = (0..6).map(|i| enemy(i * 11, i * 5, 20, 12)).collect();
    let walls: Vec<Wall> = (0..3).map(|i| Wall::new(rect(i * 25, 0, 8, 60))).collect();
    let projs: Vec<Projectile> = (0..6).map(|i| shot(i * 10, i * 6)).collect();
    let mut out = Vec::new();
    gather_contacts(&terrains, &mobiles, &walls, &projs, &mut out);
    for (n, c) in out.iter().enumerate() {
        for d in out.iter().skip(n + 1) {
            assert!(c.a != d.a || c.b != d.b);
        }
    }
    let overlap = |a: Rect, b: Rect| {
        a.x < b.x + b.w as i32 && b.x < a.x + a.w as i32 && a.y < b.y + b.h as i32 && b.y < a.y + a.h as i32
    };
    let mut expected = 0;
    for i in 0..mobiles.len() {
        for j in (i + 1)..mobiles.len() {
            if overlap(mobiles[i].collider().rect, mobiles[j].collider().rect) {
                expected += 1;
                assert!(out.contains(&contact(ColliderID::Mobile(i), ColliderID::Mobile(j), (0, 0))));
            }
        }
        for j in 0..terrains.len() {
            if overlap(mobiles[i].collider().rect, terrains[j].collider().rect) {
                expected += 1;
                assert!(out.contains(&contact(ColliderID::Mobile(i), ColliderID::Terrain(j), (0, 0))));
            }
        }
        for j in 0..walls.len() {
            if overlap(mobiles[i].collider().rect, walls[j].rect) {
                expected += 1;
                assert!(out.iter().any(|c| c.a == ColliderID::Mobile(i) && c.b == ColliderID::Wall(j)));
            }
        }
    }
    for i in 0..projs.len() {
        for j in 0..mobiles.len() {
            if overlap(projs[i].rect, mobiles[j].collider().rect) {
                expected += 1;
                assert!(out.contains(&contact(ColliderID::Projectile(i), ColliderID::Mobile(j), (0, 0))));
            }
        }
        for j in 0..terrains.len() {
            if overlap(projs[i].rect, terrains[j].collider().rect) {
                expected += 1;
                assert!(out.contains(&contact(ColliderID::Projectile(i), ColliderID::Terrain(j), (0, 0))));
            }
        }
    }
    assert!(expected > 10);
    assert_eq!(out.len(), expected);
}
