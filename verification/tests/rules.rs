use arcade_physics::assets::{player_anim, rock_entity, wall_entity};
use arcade_physics::collision::{ColliderID, Contact, Mobile, Projectile, Terrain};
use arcade_physics::contacts::gather_contacts;
use arcade_physics::entity::Entity;
use arcade_physics::geometry::{Rect, Vec2i};
use arcade_physics::rules::{apply_damage, handle_contact, resolve_and_prune};
use arcade_physics::texture::Texture;
use std::rc::Rc;
use arcade_physics::velocity::Velocity;

fn sheet() -> Rc<Texture> {
    Rc::new(Texture::new(2, 2, vec![0; 16]))
}

fn still() -> Velocity {
    Velocity::from_bits(0.0f32.to_bits())
}

fn player(hp: usize) -> Entity<Mobile> {
    let mut mobile = Mobile::player(0, 0);
    mobile.hp = hp;
    Entity::new(player_anim(&sheet(), 0), Vec2i(0, 0), mobile)
}

fn enemy(hp: usize) -> Entity<Mobile> {
    let rect = Rect { x: 10, y: 10, w: 20, h: 20 };
    Entity::new(player_anim(&sheet(), 0), Vec2i(10, 10), Mobile::enemy(rect, still(), still(), hp))
}

fn shot(damage: usize) -> Projectile {
    Projectile::with_damage(Rect { x: 0, y: 0, w: 5, h: 5 }, still(), still(), damage)
}

fn hp_of(mobiles: &[Entity<Mobile>]) -> Vec<usize> {
    mobiles.iter().map(|m| m.collider().hp).collect()
}

fn pair(a: ColliderID, b: ColliderID) -> Contact {
    Contact::new(a, b, (0, 0))
}

#[test]
fn damage_is_floored_at_zero() {
    assert_eq!(apply_damage(40, 10), 30);
    assert_eq!(apply_damage(10, 10), 0);
    assert_eq!(apply_damage(3, 10), 0);
    assert_eq!(apply_damage(0, 10), 0);
    assert_eq!(apply_damage(0, 0), 0);
    assert_eq!(apply_damage(5, usize::MAX), 0);
    assert_eq!(apply_damage(usize::MAX, usize::MAX - 1), 1);
}

#[test]
fn terrain_destruction() {
    let mut terrains = vec![rock_entity(&sheet(), 0, Vec2i(100, 100))];
    let mut mobiles = vec![player(100)];
    let hit = [pair(ColliderID::Projectile(0), ColliderID::Terrain(0))];
    assert_eq!(terrains[0].collider().hp, 40);
    assert_eq!(terrains[0].sprite().animation_sm.current_state(), 0);
    for (round, left) in [(1usize, 30usize), (2, 20), (3, 10)] {
        let mut projs = vec![shot(10)];
        let outcome = resolve_and_prune(&mut terrains, &mut mobiles, &mut projs, &hit);
        assert_eq!(outcome, (true, 0));
        assert_eq!(terrains.len(), 1);
        assert_eq!(terrains[0].collider().hp, left);
        // Each hit fires one "hit": the rock shows its next stage.
        assert_eq!(terrains[0].sprite().animation_sm.current_state(), round);
        assert!(projs.is_empty());
    }
    let mut projs = vec![shot(10)];
    resolve_and_prune(&mut terrains, &mut mobiles, &mut projs, &hit);
    assert!(terrains.is_empty());
    assert!(projs.is_empty());
}

#[test]
fn overkill_leaves_terrain_at_zero() {
    let mut terrains = vec![rock_entity(&sheet(), 0, Vec2i(100, 100))];
    let mut mobiles = vec![player(100)];
    let mut projs = vec![shot(41), shot(7)];
    let hit = [pair(ColliderID::Projectile(0), ColliderID::Terrain(0))];
    resolve_and_prune(&mut terrains, &mut mobiles, &mut projs, &hit);
    assert!(terrains.is_empty());
    assert_eq!(projs.len(), 1);
    assert_eq!(projs[0].hp, 7);
}

#[test]
fn indestructible_terrain_spends_the_projectile() {
    let mut terrains = vec![wall_entity(&sheet(), 0, Vec2i(100, 100))];
    let mut mobiles = vec![player(100)];
    let mut projs = vec![shot(10)];
    let hit = [pair(ColliderID::Projectile(0), ColliderID::Terrain(0))];
    let outcome = resolve_and_prune(&mut terrains, &mut mobiles, &mut projs, &hit);
    assert_eq!(outcome, (true, 0));
    assert_eq!(terrains.len(), 1);
    assert_eq!(terrains[0].collider().hp, 1);
    assert!(!terrains[0].collider().destructible);
    assert_eq!(terrains[0].sprite().animation_sm.current_state(), 0);
    assert!(projs.is_empty());
}

#[test]
fn player_outlives_a_weaker_enemy() {
    let mut terrains: Vec<Entity<Terrain>> = Vec::new();
    let mut mobiles = vec![player(100), enemy(50)];
    let mut projs = Vec::new();
    let hit = [pair(ColliderID::Mobile(0), ColliderID::Mobile(1))];
    let outcome = resolve_and_prune(&mut terrains, &mut mobiles, &mut projs, &hit);
    assert_eq!(outcome, (true, 1));
    assert_eq!(hp_of(&mobiles), vec![70]);
    assert!(mobiles[0].collider().is_player);
}

#[test]
fn player_death_on_terrain() {
    let mut terrains = vec![wall_entity(&sheet(), 0, Vec2i(0, 0))];
    let mut mobiles = vec![player(100), enemy(50)];
    let mut projs = Vec::new();
    let hit = [pair(ColliderID::Mobile(0), ColliderID::Terrain(0))];
    let outcome = resolve_and_prune(&mut terrains, &mut mobiles, &mut projs, &hit);
    assert_eq!(outcome, (false, 0));
    assert_eq!(hp_of(&mobiles), vec![0, 50]);
    assert!(mobiles[0].collider().is_player);
}

#[test]
fn enemy_is_unharmed_by_terrain() {
    let mut terrains = vec![wall_entity(&sheet(), 0, Vec2i(0, 0))];
    let mut mobiles = vec![player(100), enemy(50)];
    let mut projs = Vec::new();
    let hit = [pair(ColliderID::Mobile(1), ColliderID::Terrain(0))];
    let outcome = resolve_and_prune(&mut terrains, &mut mobiles, &mut projs, &hit);
    assert_eq!(outcome, (true, 0));
    assert_eq!(hp_of(&mobiles), vec![100, 50]);
}

#[test]
fn stronger_enemy_kills_the_player() {
    let mut terrains: Vec<Entity<Terrain>> = Vec::new();
    let mut mobiles = vec![player(20), enemy(50)];
    let mut projs = Vec::new();
    let hit = [pair(ColliderID::Mobile(0), ColliderID::Mobile(1))];
    let outcome = resolve_and_prune(&mut terrains, &mut mobiles, &mut projs, &hit);
    assert_eq!(outcome, (false, 0));
    assert_eq!(hp_of(&mobiles), vec![0, 20]);
}

#[test]
fn contact_damage_is_floored() {
    let mut terrains: Vec<Entity<Terrain>> = Vec::new();
    let mut mobiles = vec![player(25), enemy(10)];
    let mut projs = Vec::new();
    let hit = [pair(ColliderID::Mobile(0), ColliderID::Mobile(1))];
    let outcome = resolve_and_prune(&mut terrains, &mut mobiles, &mut projs, &hit);
    // The enemy is weaker and dies; the player takes 30 of its 25 and dies too,
    // but keeps its slot.
    assert_eq!(outcome, (false, 1));
    assert_eq!(hp_of(&mobiles), vec![0]);
    assert!(mobiles[0].collider().is_player);
}

#[test]
fn equal_mobiles_both_take_the_contact_damage() {
    let mut terrains: Vec<Entity<Terrain>> = Vec::new();
    let mut mobiles = vec![player(50), enemy(50)];
    let mut projs = Vec::new();
    let hit = [pair(ColliderID::Mobile(0), ColliderID::Mobile(1))];
    let outcome = resolve_and_prune(&mut terrains, &mut mobiles, &mut projs, &hit);
    assert_eq!(outcome, (true, 0));
    assert_eq!(hp_of(&mobiles), vec![20, 20]);
}

#[test]
fn enemies_do_not_harm_each_other() {
    let mut terrains: Vec<Entity<Terrain>> = Vec::new();
    let mut mobiles = vec![player(100), enemy(50), enemy(10)];
    let mut projs = Vec::new();
    let hit = [pair(ColliderID::Mobile(1), ColliderID::Mobile(2))];
    let outcome = resolve_and_prune(&mut terrains, &mut mobiles, &mut projs, &hit);
    assert_eq!(outcome, (true, 0));
    assert_eq!(hp_of(&mobiles), vec![100, 50, 10]);
}

#[test]
fn projectile_damages_a_mobile_and_is_spent() {
    let mut terrains: Vec<Entity<Terrain>> = Vec::new();
    let mut mobiles = vec![player(100), enemy(50), enemy(3)];
    let mut projs = vec![shot(4), shot(4), shot(4)];
    let hits = [
        pair(ColliderID::Projectile(0), ColliderID::Mobile(1)),
        pair(ColliderID::Projectile(2), ColliderID::Mobile(2)),
    ];
    let outcome = resolve_and_prune(&mut terrains, &mut mobiles, &mut projs, &hits);
    assert_eq!(outcome, (true, 1));
    assert_eq!(hp_of(&mobiles), vec![100, 46]);
    assert_eq!(projs.len(), 1);
    assert_eq!(projs[0].hp, 4);
}

#[test]
fn a_spent_projectile_deals_no_more_damage() {
    let mut terrains: Vec<Entity<Terrain>> = Vec::new();
    let mut mobiles = vec![player(100), enemy(50)];
    let mut projs = vec![shot(4)];
    let hits = [
        pair(ColliderID::Projectile(0), ColliderID::Mobile(0)),
        pair(ColliderID::Projectile(0), ColliderID::Mobile(1)),
    ];
    resolve_and_prune(&mut terrains, &mut mobiles, &mut projs, &hits);
    assert_eq!(hp_of(&mobiles), vec![96, 50]);
    assert!(projs.is_empty());
}

#[test]
fn a_dead_mobile_that_is_hit_again_stays_dead() {
    let mut terrains: Vec<Entity<Terrain>> = Vec::new();
    let mut mobiles = vec![player(0), enemy(50)];
    let mut projs = vec![shot(4)];
    let hits = [pair(ColliderID::Projectile(0), ColliderID::Mobile(0))];
    let outcome = resolve_and_prune(&mut terrains, &mut mobiles, &mut projs, &hits);
    assert_eq!(outcome, (false, 0));
    assert_eq!(hp_of(&mobiles), vec![0, 50]);
}

#[test]
fn other_pairs_have_no_effect() {
    let mut terrains = vec![rock_entity(&sheet(), 0, Vec2i(100, 100))];
    let mut mobiles = vec![player(100), enemy(50)];
    let mut projs = vec![shot(4)];
    let hits = [
        pair(ColliderID::Mobile(0), ColliderID::Wall(0)),
        pair(ColliderID::Projectile(0), ColliderID::Wall(3)),
        pair(ColliderID::Projectile(0), ColliderID::Projectile(9)),
        pair(ColliderID::Terrain(0), ColliderID::Mobile(1)),
        pair(ColliderID::Wall(0), ColliderID::Mobile(0)),
        pair(ColliderID::Mobile(1), ColliderID::Projectile(0)),
    ];
    let outcome = resolve_and_prune(&mut terrains, &mut mobiles, &mut projs, &hits);
    assert_eq!(outcome, (true, 0));
    assert_eq!(hp_of(&mobiles), vec![100, 50]);
    assert_eq!(terrains[0].collider().hp, 40);
    assert_eq!(terrains[0].sprite().animation_sm.current_state(), 0);
    assert_eq!(projs[0].hp, 4);
}

#[test]
fn pruning_keeps_the_order_of_the_living() {
    let mut terrains = vec![
        rock_entity(&sheet(), 0, Vec2i(0, 0)),
        rock_entity(&sheet(), 1, Vec2i(20, 0)),
        rock_entity(&sheet(), 2, Vec2i(40, 0)),
    ];
    let mut mobiles = vec![player(100), enemy(1), enemy(2), enemy(3), enemy(60)];
    let mut projs = vec![shot(40), shot(1), shot(2), shot(3)];
    let hits = [
        pair(ColliderID::Projectile(0), ColliderID::Terrain(1)),
        pair(ColliderID::Projectile(2), ColliderID::Mobile(2)),
        pair(ColliderID::Mobile(0), ColliderID::Mobile(1)),
    ];
    let outcome = resolve_and_prune(&mut terrains, &mut mobiles, &mut projs, &hits);
    assert_eq!(outcome, (true, 2));
    assert_eq!(hp_of(&mobiles), vec![70, 3, 60]);
    assert_eq!(terrains.len(), 2);
    assert_eq!(terrains[0].collider().created_at, 0);
    assert_eq!(terrains[1].collider().created_at, 2);
    assert_eq!(projs.iter().map(|p| p.hp).collect::<Vec<_>>(), vec![1, 3]);
}

#[test]
fn the_player_keeps_the_first_slot_when_dead() {
    let mut terrains = vec![wall_entity(&sheet(), 0, Vec2i(0, 0))];
    let mut mobiles = vec![player(100), enemy(5), enemy(50)];
    let mut projs = vec![shot(9)];
    let hits = [
        pair(ColliderID::Mobile(0), ColliderID::Terrain(0)),
        pair(ColliderID::Projectile(0), ColliderID::Mobile(1)),
    ];
    let outcome = resolve_and_prune(&mut terrains, &mut mobiles, &mut projs, &hits);
    assert_eq!(outcome, (false, 1));
    assert_eq!(hp_of(&mobiles), vec![0, 50]);
    assert!(mobiles[0].collider().is_player);
    assert!(!mobiles[1].collider().is_player);
    // Dead stays dead, and stays.
    let outcome = resolve_and_prune(&mut terrains, &mut mobiles, &mut projs, &[]);
    assert_eq!(outcome, (false, 0));
    assert_eq!(hp_of(&mobiles), vec![0, 50]);
}

#[test]
fn handle_contact_restitutes_then_resolves() {
    let mut terrains = vec![rock_entity(&sheet(), 0, Vec2i(100, 100))];
    let mut player = player(100);
    player.set_velocity(Velocity::from_bits(3.0f32.to_bits()), Velocity::from_bits((-1.0f32).to_bits()));
    let mut mobiles = vec![player, enemy(50)];
    let mut projs = vec![shot(10)];
    let mut contacts = vec![
        pair(ColliderID::Mobile(0), ColliderID::Mobile(1)),
        Contact::new(ColliderID::Mobile(0), ColliderID::Wall(0), (5, 0)),
        pair(ColliderID::Projectile(0), ColliderID::Terrain(0)),
    ];
    let outcome = handle_contact(&mut terrains, &mut mobiles, &mut projs, &mut contacts);
    assert_eq!(outcome, (true, 1));
    assert_eq!(hp_of(&mobiles), vec![70]);
    assert_eq!(mobiles[0].position(), Vec2i(-5, 0));
    assert_eq!(mobiles[0].collider().rect.x, -5);
    assert_eq!(mobiles[0].sprite().position, Vec2i(-5, 0));
    assert_eq!(f32::from_bits(mobiles[0].collider().vx.to_bits()), 0.0);
    assert_eq!(terrains[0].collider().hp, 30);
    assert!(projs.is_empty());
    // The contacts are left in priority order: the wall contact first.
    assert_eq!(
        contacts,
        vec![
            Contact::new(ColliderID::Mobile(0), ColliderID::Wall(0), (5, 0)),
            pair(ColliderID::Mobile(0), ColliderID::Mobile(1)),
            pair(ColliderID::Projectile(0), ColliderID::Terrain(0)),
        ]
    );
}

#[test]
fn a_whole_tick_from_gathering_to_pruning() {
    // The player overlaps an enemy; a shot lies on a rock.
    let mut terrains = vec![rock_entity(&sheet(), 0, Vec2i(200, 200))];
    let mut mobiles = vec![player(100), enemy(50)];
    let mut projs = vec![Projectile::with_damage(Rect { x: 205, y: 205, w: 5, h: 5 }, still(), still(), 4)];
    let mut contacts = Vec::new();
    gather_contacts(&terrains, &mobiles, &[], &projs, &mut contacts);
    assert_eq!(contacts.len(), 2);
    let outcome = handle_contact(&mut terrains, &mut mobiles, &mut projs, &mut contacts);
    assert_eq!(outcome, (true, 1));
    assert_eq!(hp_of(&mobiles), vec![70]);
    assert_eq!(terrains[0].collider().hp, 36);
    assert_eq!(terrains[0].sprite().animation_sm.current_state(), 1);
    assert!(projs.is_empty());
}
