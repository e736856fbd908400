//! The four kinds of physical bodies, the capability they share, and the
//! contacts that are recorded between them.

use vstd::prelude::*;
use crate::geometry::Rect;
use crate::velocity::Velocity;

verus! {

/// Width of the player's collision rectangle.
pub const PLAYER_WIDTH: u16 = 36;

/// Height of the player's collision rectangle.
pub const PLAYER_HEIGHT: u16 = 25;

/// Hit points the player starts with.
pub const PLAYER_HP: usize = 100;

/// Side of a projectile's collision square.
pub const PROJECTILE_SIZE: u16 = 5;

/// Damage that a freshly fired projectile carries.
pub const PROJECTILE_DAMAGE: usize = 4;

/// How far above its parent's origin a projectile is spawned.
pub const MUZZLE_RISE: i32 = 10;

/// The bit pattern of minus ten, the vertical speed of a projectile.
pub const PROJECTILE_SPEED_BITS: u32 = 0xC120_0000;

/// A body that owns a rectangle which can be placed and shifted. Nothing
/// but the rectangle's origin changes when a body is moved.
pub trait Collider: Sized {
    /// The rectangle of the body.
    spec fn bounds(&self) -> Rect;

    /// The same body with the origin of its rectangle at `(x, y)`.
    spec fn placed_at(&self, x: i32, y: i32) -> Self;

    /// Placing a body moves its rectangle and keeps the extents.
    proof fn lemma_placed_bounds(&self, x: i32, y: i32)
        ensures
            self.placed_at(x, y).bounds() == self.bounds().at(x, y),
    ;

    /// The rectangle of the body.
    fn hitbox(&self) -> (rect: Rect)
        ensures
            rect == self.bounds(),
    ;

    /// Shifts the body by `(dx, dy)`.
    fn move_pos(&mut self, dx: i32, dy: i32)
        requires
            old(self).bounds().can_shift(dx as int, dy as int),
        ensures
            *final(self) == old(self).placed_at(
                (old(self).bounds().x + dx) as i32,
                (old(self).bounds().y + dy) as i32,
            ),
    ;

    /// Puts the origin of the body at `(x, y)`.
    fn set_pos(&mut self, x: i32, y: i32)
        ensures
            *final(self) == old(self).placed_at(x, y),
    ;
}

/// A static block of the level. It does not move by itself; it is shifted
/// with the camera. Only a destructible block loses hit points.
#[derive(Clone, Copy, Debug, PartialEq, Eq, Structural)]
pub struct Terrain {
    pub rect: Rect,
    pub created_at: usize,
    pub destructible: bool,
    pub hp: usize,
}

impl Collider for Terrain {
    open spec fn bounds(&self) -> Rect {
        self.rect
    }

    open spec fn placed_at(&self, x: i32, y: i32) -> Self {
        Terrain { rect: self.rect.at(x, y), ..*self }
    }

    proof fn lemma_placed_bounds(&self, x: i32, y: i32) {
    }

    fn hitbox(&self) -> Rect {
        self.rect
    }

    fn move_pos(&mut self, dx: i32, dy: i32) {
        self.rect.x += dx;
        self.rect.y += dy;
    }

    fn set_pos(&mut self, x: i32, y: i32) {
        self.rect.x = x;
        self.rect.y = y;
    }
}

impl Terrain {
    /// A block made at tick `created_at`.
    pub fn new(rect: Rect, created_at: usize, destructible: bool, hp: usize) -> (terrain: Self)
        ensures
            terrain == (Terrain { rect, created_at, destructible, hp }),
    {
        Self { rect, created_at, destructible, hp }
    }
}

/// An actor that moves freely: the player or an enemy.
#[derive(Clone, Copy, Debug, PartialEq, Eq, Structural)]
pub struct Mobile {
    pub rect: Rect,
    pub vx: Velocity,
    pub vy: Velocity,
    pub hp: usize,
    pub is_player: bool,
}

impl Collider for Mobile {
    open spec fn bounds(&self) -> Rect {
        self.rect
    }

    open spec fn placed_at(&self, x: i32, y: i32) -> Self {
        Mobile { rect: self.rect.at(x, y), ..*self }
    }

    proof fn lemma_placed_bounds(&self, x: i32, y: i32) {
    }

    fn hitbox(&self) -> Rect {
        self.rect
    }

    fn move_pos(&mut self, dx: i32, dy: i32) {
        self.rect.x += dx;
        self.rect.y += dy;
    }

    fn set_pos(&mut self, x: i32, y: i32) {
        self.rect.x = x;
        self.rect.y = y;
    }
}

impl Mobile {
    /// An enemy with the given rectangle, velocity and hit points.
    pub fn enemy(rect: Rect, vx: Velocity, vy: Velocity, hp: usize) -> (mobile: Self)
        ensures
            mobile == (Mobile { rect, vx, vy, hp, is_player: false }),
    {
        Self { rect, vx, vy, hp, is_player: false }
    }

    /// The player at `(x, y)`: at rest, with full hit points.
    pub fn player(x: i32, y: i32) -> (mobile: Self)
        ensures
            mobile == (Mobile {
                rect: Rect { x, y, w: PLAYER_WIDTH, h: PLAYER_HEIGHT },
                vx: Velocity::zero(),
                vy: Velocity::zero(),
                hp: PLAYER_HP,
                is_player: true,
            }),
    {
        Self {
            rect: Rect { x, y, w: PLAYER_WIDTH, h: PLAYER_HEIGHT },
            vx: Velocity::at_rest(),
            vy: Velocity::at_rest(),
            hp: PLAYER_HP,
            is_player: true,
        }
    }

    /// Shifts the actor by `(dx, dy)`.
    pub fn move_pos(&mut self, dx: i32, dy: i32)
        requires
            old(self).rect.can_shift(dx as int, dy as int),
        ensures
            *final(self) == old(self).placed_at(
                (old(self).rect.x + dx) as i32,
                (old(self).rect.y + dy) as i32,
            ),
    {
        self.rect.x += dx;
        self.rect.y += dy;
    }
}

/// A shot. Its hit points are the damage it deals; it is spent on its first
/// impact.
#[derive(Clone, Copy, Debug, PartialEq, Eq, Structural)]
pub struct Projectile {
    pub rect: Rect,
    pub vx: Velocity,
    pub vy: Velocity,
    pub hp: usize,
}

impl Collider for Projectile {
    open spec fn bounds(&self) -> Rect {
        self.rect
    }

    open spec fn placed_at(&self, x: i32, y: i32) -> Self {
        Projectile { rect: self.rect.at(x, y), ..*self }
    }

    proof fn lemma_placed_bounds(&self, x: i32, y: i32) {
    }

    fn hitbox(&self) -> Rect {
        self.rect
    }

    fn move_pos(&mut self, dx: i32, dy: i32) {
        self.rect.x += dx;
        self.rect.y += dy;
    }

    fn set_pos(&mut self, x: i32, y: i32) {
        self.rect.x = x;
        self.rect.y = y;
    }
}

impl Projectile {
    /// The muzzle point of an actor: above its origin, at half its width.
    pub open spec fn muzzle(from: Mobile) -> (int, int) {
        (from.rect.x + from.rect.w as int / 2, from.rect.y - MUZZLE_RISE)
    }

    /// Whether the muzzle point of `from` lies on the `i32` grid.
    pub open spec fn can_fire(from: Mobile) -> bool {
        Self::muzzle(from).0 <= i32::MAX && Self::muzzle(from).1 >= i32::MIN
    }

    /// The projectile that `from` fires: at its muzzle point, flying
    /// straight up, with the standard damage.
    pub open spec fn fired_from(from: Mobile) -> Projectile {
        Projectile {
            rect: Rect {
                x: Self::muzzle(from).0 as i32,
                y: Self::muzzle(from).1 as i32,
                w: PROJECTILE_SIZE,
                h: PROJECTILE_SIZE,
            },
            vx: Velocity::zero(),
            vy: Velocity { bits: PROJECTILE_SPEED_BITS },
            hp: PROJECTILE_DAMAGE,
        }
    }

    /// A projectile fired upwards from the muzzle point of `from`.
    pub fn new(from: &Mobile) -> (projectile: Self)
        requires
            Self::can_fire(*from),
        ensures
            projectile == Self::fired_from(*from),
    {
        Self {
            rect: Rect {
                x: from.rect.x + from.rect.w as i32 / 2,
                y: from.rect.y - MUZZLE_RISE,
                w: PROJECTILE_SIZE,
                h: PROJECTILE_SIZE,
            },
            vx: Velocity::at_rest(),
            vy: Velocity::from_bits(PROJECTILE_SPEED_BITS),
            hp: PROJECTILE_DAMAGE,
        }
    }

    /// A projectile with a chosen rectangle, velocity and damage.
    pub fn with_damage(rect: Rect, vx: Velocity, vy: Velocity, damage: usize) -> (projectile: Self)
        ensures
            projectile == (Projectile { rect, vx, vy, hp: damage }),
    {
        Self { rect, vx, vy, hp: damage }
    }

    /// The velocity of the projectile, x component first.
    pub fn get_velocity(&self) -> (velocity: (Velocity, Velocity))
        ensures
            velocity == (self.vx, self.vy),
    {
        (self.vx, self.vy)
    }
}

/// A boundary of the scrolling play field. It has no hit points.
#[derive(Clone, Copy, Debug, PartialEq, Eq, Structural)]
pub struct Wall {
    pub rect: Rect,
}

impl Collider for Wall {
    open spec fn bounds(&self) -> Rect {
        self.rect
    }

    open spec fn placed_at(&self, x: i32, y: i32) -> Self {
        Wall { rect: self.rect.at(x, y) }
    }

    proof fn lemma_placed_bounds(&self, x: i32, y: i32) {
    }

    fn hitbox(&self) -> Rect {
        self.rect
    }

    fn move_pos(&mut self, dx: i32, dy: i32) {
        self.rect.x += dx;
        self.rect.y += dy;
    }

    fn set_pos(&mut self, x: i32, y: i32) {
        self.rect.x = x;
        self.rect.y = y;
    }
}

impl Wall {
    /// A wall that covers `rect`.
    pub fn new(rect: Rect) -> (wall: Self)
        ensures
            wall == (Wall { rect }),
    {
        Self { rect }
    }
}

/// A reference to one body by its pool and its index there. It is valid
/// only until the pools are next pruned.
#[derive(Clone, Copy, Debug, PartialEq, Eq, Structural)]
pub enum ColliderID {
    Terrain(usize),
    Mobile(usize),
    Projectile(usize),
    Wall(usize),
}

impl ColliderID {
    /// The position of the body in its pool.
    pub open spec fn index(self) -> usize {
        match self {
            ColliderID::Terrain(i) => i,
            ColliderID::Mobile(i) => i,
            ColliderID::Projectile(i) => i,
            ColliderID::Wall(i) => i,
        }
    }
}

/// An overlap found between two bodies in one tick. `a` is the moving or
/// attacking side, `b` the passive one. `mtv` is the minimum translation
/// vector where one was computed, and zero otherwise.
#[derive(Clone, Copy, Debug, PartialEq, Eq)]
pub struct Contact {
    pub a: ColliderID,
    pub b: ColliderID,
    pub mtv: (i32, i32),
}

impl Contact {
    /// The squared length of the translation vector, by which contacts are
    /// ranked for restitution.
    pub open spec fn magnitude(self) -> int {
        self.mtv.0 * self.mtv.0 + self.mtv.1 * self.mtv.1
    }

    /// A contact of `a` with `b`.
    pub fn new(a: ColliderID, b: ColliderID, mtv: (i32, i32)) -> (contact: Self)
        ensures
            contact == (Contact { a, b, mtv }),
    {
        Self { a, b, mtv }
    }
}

} // verus!
