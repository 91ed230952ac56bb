//! A discrete-time simulation of ripples spreading on a pond: droplets placed on
//! the pond periodically spawn ripples that grow until they reach their maximum
//! radius. All state is kept in parallel arrays that a renderer reads directly.

pub mod model;
pub mod pond;
pub mod laws;
pub mod lifetime;

pub use model::{Color, Coordinate, DropletStrength, RippleCtr};
pub use pond::Pond;
