//! Sprites: an image, the animation that selects the part of it to show,
//! and the place where it is shown.

use vstd::prelude::*;
use std::rc::Rc;
use crate::animation::AnimationSM;
use crate::geometry::{Rect, Vec2i};
use crate::texture::{share, Texture};

verus! {

/// An image, the animation that selects the part of it to show, and the
/// place of the world where it is shown.
pub struct Sprite {
    pub image: Rc<Texture>,
    pub animation_sm: AnimationSM,
    pub position: Vec2i,
}

impl Sprite {
    /// The sprite after `event` was triggered on it at `now`: only its
    /// animation can have changed.
    pub open spec fn triggered(self, event: Seq<char>, now: usize) -> Sprite {
        Sprite { animation_sm: self.animation_sm.after(event, now), ..self }
    }

    /// The same sprite shown at `position`.
    pub open spec fn shown_at(self, position: Vec2i) -> Sprite {
        Sprite { position, ..self }
    }

    /// A sprite that shares `image`.
    pub fn new(image: &Rc<Texture>, animation_sm: AnimationSM, position: Vec2i) -> (sprite: Self)
        ensures
            sprite == (Sprite { image: *image, animation_sm, position }),
    {
        Self { image: share(image), animation_sm, position }
    }

    /// Feeds a named event to the sprite's animation.
    pub fn trigger(&mut self, event: &str, now: usize)
        ensures
            *final(self) == old(self).triggered(event@, now),
    {
        self.animation_sm.input(event, now);
    }

    /// The region of the image to show at `now`.
    pub fn current_frame(&self, now: usize) -> (frame: Rect)
        requires
            self.animation_sm.shows_at(now),
        ensures
            frame == self.animation_sm.frame_at(now),
    {
        self.animation_sm.current_frame(now)
    }
}

/// A surface on which sprites can be drawn.
pub trait DrawSpriteExt {
    /// Draws the frame of `s` that is due at `cur_frame`, at the sprite's
    /// position.
    fn draw_sprite(&mut self, s: &Sprite, cur_frame: usize)
        requires
            s.animation_sm.shows_at(cur_frame),
    ;
}

} // verus!
