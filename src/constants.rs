use vstd::prelude::*;

verus! {

// Times are in microseconds.
/// Default grid width.
pub const COLUMN_COUNT: u8 = 16;

/// Default grid height.
pub const ROW_COUNT: u8 = 16;

pub const PLAYER_LIVES: u32 = 3;

pub const PLAYER_MAX_HEALTH: u32 = 3;

pub const PLAYER_MAX_ARMOR: u32 = 3;

pub const PLAYER_SPAWN_HEALTH: u32 = 3;

pub const PLAYER_SPAWN_ARMOR: u32 = 0;

/// Time that must pass between two shots of one combatant.
pub const PLAYER_SHOT_INTERVAL: u64 = 500_000;

/// Length of one resolved tick.
pub const GAME_TICK_INTERVAL: u64 = 150_000;

pub const ARMOR_SPAWN_TIME: u64 = 10_000_000;

pub const HEALTH_SPAWN_TIME: u64 = 7_000_000;

pub const MAX_SPAWNED_PICKUPS: usize = 3;

/// Radius of the square kept empty around each spawn tile.
pub const SAFE_ZONE_RADIUS: i32 = 2;

/// Time between two re-plans of an opponent.
pub const BOT_THINK_INTERVAL: u64 = 180_000;

/// Time an opponent waits after deciding to fire.
pub const BOT_FIRE_COOLDOWN: u64 = 600_000;

/// How long each animation frame is shown.
pub const ANIMATION_FRAME_TIME: u64 = 100_000;

pub const EXPLOSION_FRAME_COUNT: usize = 3;

pub const SPAWN_FRAME_COUNT: usize = 2;

} // verus!
