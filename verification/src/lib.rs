//! The simulation of a 2D side-scrolling arcade game.
//!
//! The core runs once per tick: it finds the overlaps between the bodies of
//! four pools ([`contacts`]), pushes actors out of walls ([`restitution`]),
//! applies the rules of damage, death and destruction and removes what was
//! destroyed ([`rules`]); [`simulation`] runs the three in their order.
//!
//! Around the core stand the bodies themselves ([`collision`], [`entity`]),
//! what is shown of them ([`animation`], [`sprite`], [`tiles`],
//! [`texture`]), the rules by which the game feeds the pools ([`game`],
//! [`assets`]), and the composition of a frame ([`screen`], [`render`]).
//!
//! Nothing here reads a clock, a file or a device: images come in as
//! bytes, a frame goes out as bytes, and velocities come in as bit patterns
//! of single-precision numbers ([`velocity`]), so that all arithmetic is
//! integer arithmetic.

pub mod geometry;
pub mod velocity;
pub mod collision;
pub mod texture;
pub mod animation;
pub mod sprite;
pub mod entity;
pub mod screen;
pub mod contacts;
pub mod restitution;
mod pool;
pub mod rules;
pub mod tiles;
pub mod assets;
pub mod framebuffer;
pub mod simulation;
pub mod game;
pub mod render;
