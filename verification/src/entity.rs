//! Entities: a sprite, a logical position and a collider that move as one.

use vstd::prelude::*;
use crate::collision::{Collider, Mobile, Terrain};
use crate::geometry::Vec2i;
use crate::sprite::Sprite;
use crate::velocity::Velocity;

verus! {

/// A sprite and a collider bound to one position. The three positions are
/// kept equal: they are aligned when the entity is made, and every later
/// move goes through [`Entity::move_pos`], which shifts all of them.
pub struct Entity<T: Collider> {
    pub(crate) sprite: Sprite,
    pub(crate) position: Vec2i,
    pub(crate) collider: T,
}

impl<T: Collider> Entity<T> {
    /// The sprite of the entity.
    pub open(crate) spec fn spec_sprite(&self) -> &Sprite {
        &self.sprite
    }

    /// The logical position of the entity.
    pub open(crate) spec fn spec_position(&self) -> Vec2i {
        self.position
    }

    /// The collider of the entity.
    pub open(crate) spec fn spec_collider(&self) -> &T {
        &self.collider
    }

    /// The sprite, the entity and the collider are at the same place.
    pub open spec fn synchronised(self) -> bool {
        &&& self.sprite().position == self.position()
        &&& self.collider().bounds().x == self.position().0
        &&& self.collider().bounds().y == self.position().1
    }

    /// The entity with all three positions at `(x, y)`.
    pub open(crate) spec fn placed_at(self, x: i32, y: i32) -> Self {
        Entity {
            sprite: self.sprite.shown_at(Vec2i(x, y)),
            position: Vec2i(x, y),
            collider: self.collider.placed_at(x, y),
        }
    }

    /// The entity shifted by `(dx, dy)`.
    pub open spec fn moved(self, dx: int, dy: int) -> Self {
        self.placed_at((self.position().0 + dx) as i32, (self.position().1 + dy) as i32)
    }

    /// The entity with `event` triggered on its sprite at `now`.
    pub open(crate) spec fn triggered(self, event: Seq<char>, now: usize) -> Self {
        Entity { sprite: self.sprite.triggered(event, now), ..self }
    }

    /// What placing an entity does to its parts.
    pub proof fn lemma_placed_at(self, x: i32, y: i32)
        ensures
            *self.placed_at(x, y).sprite() == self.sprite().shown_at(Vec2i(x, y)),
            self.placed_at(x, y).position() == Vec2i(x, y),
            *self.placed_at(x, y).collider() == self.collider().placed_at(x, y),
            self.placed_at(x, y).synchronised(),
    {
        self.collider.lemma_placed_bounds(x, y);
    }

    /// What a trigger does to the parts of an entity.
    pub proof fn lemma_triggered(self, event: Seq<char>, now: usize)
        ensures
            *self.triggered(event, now).sprite() == self.sprite().triggered(event, now),
            self.triggered(event, now).position() == self.position(),
            self.triggered(event, now).collider() == self.collider(),
            self.synchronised() ==> self.triggered(event, now).synchronised(),
    {
    }

    /// Binds a sprite and a collider to `position`, moving both there.
    pub fn new(sprite: Sprite, position: Vec2i, collider: T) -> (entity: Self)
        ensures
            *entity.sprite() == sprite.shown_at(position),
            entity.position() == position,
            *entity.collider() == collider.placed_at(position.0, position.1),
            entity.synchronised(),
    {
        let mut this_entity = Entity { sprite, position, collider };
        this_entity.align();
        this_entity
    }

    /// Shifts the sprite, the position and the collider by `(dx, dy)`.
    pub fn move_pos(&mut self, dx: i32, dy: i32)
        requires
            old(self).synchronised(),
            old(self).collider().bounds().can_shift(dx as int, dy as int),
        ensures
            *final(self) == old(self).moved(dx as int, dy as int),
            final(self).synchronised(),
    {
        proof {
            self.collider.lemma_placed_bounds(
                (self.position.0 + dx) as i32,
                (self.position.1 + dy) as i32,
            );
        }
        self.sprite.position.0 += dx;
        self.sprite.position.1 += dy;
        self.position.0 += dx;
        self.position.1 += dy;
        self.collider.move_pos(dx, dy);
    }

    /// Computes [`Entity::synchronised`].
    pub fn is_synchronised(&self) -> (synchronised: bool)
        ensures
            synchronised == self.synchronised(),
    {
        let rect = self.collider.hitbox();
        self.sprite.position.0 == self.position.0 && self.sprite.position.1 == self.position.1
            && rect.x == self.position.0 && rect.y == self.position.1
    }

    fn align(&mut self)
        ensures
            *final(self) == old(self).placed_at(old(self).position.0, old(self).position.1),
            final(self).synchronised(),
    {
        proof {
            self.collider.lemma_placed_bounds(self.position.0, self.position.1);
        }
        if self.sprite.position.0 != self.position.0 {
            self.sprite.position.0 = self.position.0;
        }
        if self.sprite.position.1 != self.position.1 {
            self.sprite.position.1 = self.position.1;
        }
        self.collider.set_pos(self.position.0, self.position.1);
    }

    /// Feeds a named event to the animation of the entity's sprite.
    pub fn trigger(&mut self, event: &str, now: usize)
        ensures
            *final(self) == old(self).triggered(event@, now),
    {
        self.sprite.trigger(event, now);
    }

    /// The sprite of the entity.
    #[verifier::when_used_as_spec(spec_sprite)]
    pub fn sprite(&self) -> (sprite: &Sprite)
        ensures
            sprite == self.spec_sprite(),
    {
        &self.sprite
    }

    /// The logical position of the entity.
    #[verifier::when_used_as_spec(spec_position)]
    pub fn position(&self) -> (position: Vec2i)
        ensures
            position == self.spec_position(),
    {
        self.position
    }

    /// The collider of the entity.
    #[verifier::when_used_as_spec(spec_collider)]
    pub fn collider(&self) -> (collider: &T)
        ensures
            collider == self.spec_collider(),
    {
        &self.collider
    }
}

/// Every entity of the pool has its three positions in one place.
pub open spec fn all_synchronised<T: Collider>(pool: Seq<Entity<T>>) -> bool {
    forall|i: int| 0 <= i < pool.len() ==> (#[trigger] pool[i]).synchronised()
}

impl Entity<Terrain> {
    /// The block with its hit points replaced.
    pub open(crate) spec fn with_hp(self, hp: usize) -> Self {
        Entity { collider: Terrain { hp, ..self.collider }, ..self }
    }

    /// What replacing the hit points changes.
    pub proof fn lemma_with_hp(self, hp: usize)
        ensures
            *self.with_hp(hp).collider() == (Terrain { hp, ..*self.collider() }),
            self.with_hp(hp).sprite() == self.sprite(),
            self.with_hp(hp).position() == self.position(),
            self.synchronised() ==> self.with_hp(hp).synchronised(),
    {
    }
}

impl Entity<Mobile> {
    /// The actor with its velocity replaced.
    pub open(crate) spec fn with_velocity(self, vx: Velocity, vy: Velocity) -> Self {
        Entity { collider: Mobile { vx, vy, ..self.collider }, ..self }
    }

    /// The actor with its hit points replaced.
    pub open(crate) spec fn with_hp(self, hp: usize) -> Self {
        Entity { collider: Mobile { hp, ..self.collider }, ..self }
    }

    /// What replacing the hit points changes.
    pub proof fn lemma_with_hp(self, hp: usize)
        ensures
            *self.with_hp(hp).collider() == (Mobile { hp, ..*self.collider() }),
            self.with_hp(hp).sprite() == self.sprite(),
            self.with_hp(hp).position() == self.position(),
            self.synchronised() ==> self.with_hp(hp).synchronised(),
    {
    }

    /// What replacing the velocity changes.
    pub proof fn lemma_with_velocity(self, vx: Velocity, vy: Velocity)
        ensures
            *self.with_velocity(vx, vy).collider() == (Mobile { vx, vy, ..*self.collider() }),
            self.with_velocity(vx, vy).sprite() == self.sprite(),
            self.with_velocity(vx, vy).position() == self.position(),
            self.synchronised() ==> self.with_velocity(vx, vy).synchronised(),
    {
    }

    /// Sets the velocity of the actor; nothing else changes.
    pub fn set_velocity(&mut self, vx: Velocity, vy: Velocity)
        ensures
            *final(self) == old(self).with_velocity(vx, vy),
    {
        self.collider.vx = vx;
        self.collider.vy = vy;
    }
}

} // verus!
