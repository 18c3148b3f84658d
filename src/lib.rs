//! A grid-based tank-combat simulation: terrain, combatants, projectiles,
//! pickups, opponent planning and the phase machine, with their contracts.

pub mod animation;
pub mod constants;
pub mod game;
pub mod laws;
pub mod pickup;
pub mod player;
pub mod projectile;
pub mod random;
pub mod rules;
pub mod transform;
pub mod wall;
