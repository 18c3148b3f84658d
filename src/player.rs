use vstd::prelude::*;
use crate::constants::{
    PLAYER_LIVES, PLAYER_MAX_ARMOR, PLAYER_MAX_HEALTH, PLAYER_SHOT_INTERVAL, PLAYER_SPAWN_ARMOR,
    PLAYER_SPAWN_HEALTH,
};
use crate::pickup::sat_add;
use crate::transform::LookDirection;

verus! {

/// What a combatant is, as the contracts see it.
pub struct PlayerView {
    pub id: u32,
    pub position: [i32; 2],
    pub previous: [i32; 2],
    pub lives: u32,
    pub health: u32,
    pub armor: u32,
    pub max_health: u32,
    pub max_armor: u32,
    pub kills: u32,
    pub alive: bool,
    pub spawn: [i32; 2],
    pub spawn_health: u32,
    pub spawn_armor: u32,
    /// Time since the last shot.
    pub reload: u64,
    pub shot_interval: u64,
    /// Movement intent, in the order up, right, down, left.
    pub moving: Seq<bool>,
    pub firing: bool,
    pub direction: LookDirection,
    pub spawn_direction: LookDirection,
}

impl PlayerView {
    /// The combatant's state is consistent: alive exactly while it has
    /// health, health and armor within their maximums (the configured
    /// ones), a living combatant still holds a life, and a respawn brings
    /// it back alive.
    pub open spec fn inv(self) -> bool {
        &&& self.alive == (self.health > 0)
        &&& self.health <= self.max_health
        &&& self.armor <= self.max_armor
        &&& self.alive ==> self.lives > 0
        &&& 0 < self.spawn_health <= self.max_health
        &&& self.spawn_armor <= self.max_armor
        &&& self.moving.len() == 4
        &&& self.max_health == PLAYER_MAX_HEALTH
        &&& self.max_armor == PLAYER_MAX_ARMOR
    }

    /// The state after one hit: armor absorbs it if there is any, else
    /// health drops by one; at zero health the combatant dies and loses a
    /// life.
    pub open spec fn hit(self) -> PlayerView {
        let armor = if self.armor > 0 { (self.armor - 1) as u32 } else { self.armor };
        let health = if self.armor > 0 { self.health } else { (self.health - 1) as u32 };
        let dies = health == 0;
        PlayerView {
            armor,
            health,
            alive: if dies { false } else { self.alive },
            lives: if dies { (self.lives - 1) as u32 } else { self.lives },
            ..self
        }
    }

    /// Back at the spawn tile with spawn health, armor and facing.
    pub open spec fn respawned(self) -> PlayerView {
        PlayerView {
            position: self.spawn,
            previous: self.spawn,
            health: self.spawn_health,
            armor: self.spawn_armor,
            direction: self.spawn_direction,
            alive: true,
            ..self
        }
    }

    /// The first asserted movement direction, by priority up, right, down,
    /// left.
    pub open spec fn pressed(self) -> Option<LookDirection> {
        if self.moving[0] {
            Some(LookDirection::Up)
        } else if self.moving[1] {
            Some(LookDirection::Right)
        } else if self.moving[2] {
            Some(LookDirection::Down)
        } else if self.moving[3] {
            Some(LookDirection::Left)
        } else {
            None
        }
    }

    /// One more kill counted (saturating).
    pub open spec fn credited(self) -> PlayerView {
        PlayerView {
            kills: if self.kills == u32::MAX {
                u32::MAX
            } else {
                (self.kills + 1) as u32
            },
            ..self
        }
    }

    pub open spec fn reloading(self) -> bool {
        self.reload < self.shot_interval
    }
}

/// A fresh combatant at `spawn`.
pub open spec fn initial_player(id: u32, spawn: [i32; 2], spawn_direction: LookDirection) -> PlayerView {
    PlayerView {
        id,
        position: spawn,
        previous: spawn,
        lives: PLAYER_LIVES,
        health: PLAYER_SPAWN_HEALTH,
        armor: 0,
        max_health: PLAYER_MAX_HEALTH,
        max_armor: PLAYER_MAX_ARMOR,
        kills: 0,
        alive: true,
        spawn,
        spawn_health: PLAYER_SPAWN_HEALTH,
        spawn_armor: PLAYER_SPAWN_ARMOR,
        reload: 0,
        shot_interval: PLAYER_SHOT_INTERVAL,
        moving: seq![false, false, false, false],
        firing: false,
        direction: spawn_direction,
        spawn_direction,
    }
}

/// A combatant: the human (id 0) or an opponent.
pub struct Player {
    id: u32,
    /// Current and previous position.
    position: [[i32; 2]; 2],
    lives: u32,
    health: u32,
    armor: u32,
    max_health: u32,
    max_armor: u32,
    kills: u32,
    is_alive: bool,
    spawn: [i32; 2],
    spawn_health: u32,
    spawn_armor: u32,
    last_shot_dt: u64,
    shot_interval: u64,
    movement_controls_state: [bool; 4],
    fire_control_state: bool,
    direction: LookDirection,
    spawn_direction: LookDirection,
}

impl View for Player {
    type V = PlayerView;

    closed spec fn view(&self) -> PlayerView {
        PlayerView {
            id: self.id,
            position: self.position[0],
            previous: self.position[1],
            lives: self.lives,
            health: self.health,
            armor: self.armor,
            max_health: self.max_health,
            max_armor: self.max_armor,
            kills: self.kills,
            alive: self.is_alive,
            spawn: self.spawn,
            spawn_health: self.spawn_health,
            spawn_armor: self.spawn_armor,
            reload: self.last_shot_dt,
            shot_interval: self.shot_interval,
            moving: self.movement_controls_state@,
            firing: self.fire_control_state,
            direction: self.direction,
            spawn_direction: self.spawn_direction,
        }
    }
}

impl Player {
    pub fn new(id: u32, spawn: [i32; 2], spawn_direction: LookDirection) -> (r: Player)
        ensures
            r@ == initial_player(id, spawn, spawn_direction),
            r@.inv(),
    {
        let r = Player {
            id,
            position: [spawn, spawn],
            lives: PLAYER_LIVES,
            health: PLAYER_SPAWN_HEALTH,
            armor: 0,
            max_health: PLAYER_MAX_HEALTH,
            max_armor: PLAYER_MAX_ARMOR,
            kills: 0,
            is_alive: true,
            spawn,
            spawn_health: PLAYER_SPAWN_HEALTH,
            spawn_armor: PLAYER_SPAWN_ARMOR,
            last_shot_dt: 0,
            shot_interval: PLAYER_SHOT_INTERVAL,
            movement_controls_state: [false, false, false, false],
            fire_control_state: false,
            direction: spawn_direction,
            spawn_direction,
        };
        assert(r@.moving =~= seq![false, false, false, false]);
        r
    }

    /// Lets `dt` of time pass for the reload timer (saturating).
    pub fn on_frame(&mut self, dt: u64)
        ensures
            final(self)@ == (PlayerView { reload: sat_add(old(self)@.reload, dt), ..old(self)@ }),
    {
        self.last_shot_dt = self.last_shot_dt.saturating_add(dt);
    }

    /// Fires if reloaded: the reload timer restarts and `true` comes back;
    /// while reloading nothing changes and `false` comes back.
    pub fn shoot(&mut self) -> (fired: bool)
        ensures
            fired == !old(self)@.reloading(),
            final(self)@ == if fired {
                PlayerView { reload: 0, ..old(self)@ }
            } else {
                old(self)@
            },
    {
        if self.is_reloading() {
            return false;
        }
        self.last_shot_dt = 0;
        true
    }

    pub fn is_reloading(&self) -> (r: bool)
        ensures
            r == self@.reloading(),
    {
        self.last_shot_dt < self.shot_interval
    }

    pub fn get_direction(&self) -> (r: &LookDirection)
        ensures
            *r == self@.direction,
    {
        &self.direction
    }

    pub fn set_direction(&mut self, direction: LookDirection)
        ensures
            final(self)@ == (PlayerView { direction, ..old(self)@ }),
    {
        self.direction = direction;
    }

    /// Moves to `position`, remembering the current one as previous.
    pub fn set_position(&mut self, position: [i32; 2])
        ensures
            final(self)@ == (PlayerView { position, previous: old(self)@.position, ..old(self)@ }),
    {
        self.position = [position, self.position[0]];
    }

    pub fn get_position(&self) -> (r: [i32; 2])
        ensures
            r == self@.position,
    {
        self.position[0]
    }

    pub fn get_previous_position(&self) -> (r: [i32; 2])
        ensures
            r == self@.previous,
    {
        self.position[1]
    }

    pub fn get_spawn(&self) -> (r: [i32; 2])
        ensures
            r == self@.spawn,
    {
        self.spawn
    }

    pub fn get_id(&self) -> (r: u32)
        ensures
            r == self@.id,
    {
        self.id
    }

    /// Takes one hit; returns whether it killed.
    pub fn damage(&mut self) -> (killed: bool)
        requires
            old(self)@.inv(),
            old(self)@.alive,
        ensures
            final(self)@ == old(self)@.hit(),
            final(self)@.inv(),
            killed == !final(self)@.alive,
    {
        if self.armor > 0 {
            self.armor = self.armor - 1;
        } else {
            self.health = self.health - 1;
        }
        if self.health == 0 {
            self.is_alive = false;
            self.lives = self.lives - 1;
        }
        !self.is_alive
    }

    pub fn get_kills(&self) -> (r: u32)
        ensures
            r == self@.kills,
    {
        self.kills
    }

    /// Counts one more kill (saturating).
    pub fn inc_kill_count(&mut self)
        ensures
            final(self)@ == old(self)@.credited(),
    {
        self.kills = self.kills.saturating_add(1);
    }

    pub fn get_is_alive(&self) -> (r: bool)
        ensures
            r == self@.alive,
    {
        self.is_alive
    }

    pub fn get_lives(&self) -> (r: u32)
        ensures
            r == self@.lives,
    {
        self.lives
    }

    pub fn can_respawn(&self) -> (r: bool)
        ensures
            r == (self@.lives > 0),
    {
        self.lives > 0
    }

    /// Returns to the spawn tile alive, with spawn health, armor and facing.
    pub fn respawn(&mut self)
        requires
            old(self)@.inv(),
            old(self)@.lives > 0,
        ensures
            final(self)@ == old(self)@.respawned(),
            final(self)@.inv(),
    {
        self.position = [self.spawn, self.spawn];
        self.health = self.spawn_health;
        self.armor = self.spawn_armor;
        self.direction = self.spawn_direction;
        self.is_alive = true;
    }

    /// A new game: full lives, no kills, back at the spawn tile.
    pub fn reset(&mut self)
        requires
            old(self)@.inv(),
        ensures
            final(self)@ == (PlayerView { lives: PLAYER_LIVES, kills: 0, ..old(self)@ }).respawned(),
            final(self)@.inv(),
    {
        self.lives = PLAYER_LIVES;
        self.kills = 0;
        self.respawn();
    }

    /// Asserts or releases movement intent `idx` (up, right, down, left).
    pub fn set_move_pressed(&mut self, idx: usize, pressed: bool)
        requires
            idx < 4,
        ensures
            final(self)@ == (PlayerView { moving: old(self)@.moving.update(idx as int, pressed), ..old(self)@ }),
    {
        self.movement_controls_state[idx] = pressed;
    }

    pub fn set_fire_pressed(&mut self, pressed: bool)
        ensures
            final(self)@ == (PlayerView { firing: pressed, ..old(self)@ }),
    {
        self.fire_control_state = pressed;
    }

    /// The asserted movement direction with the highest priority (up,
    /// right, down, left), if any.
    pub fn get_pressed_direction(&self) -> (r: Option<LookDirection>)
        ensures
            r == self@.pressed(),
    {
        if self.movement_controls_state[0] {
            Some(LookDirection::Up)
        } else if self.movement_controls_state[1] {
            Some(LookDirection::Right)
        } else if self.movement_controls_state[2] {
            Some(LookDirection::Down)
        } else if self.movement_controls_state[3] {
            Some(LookDirection::Left)
        } else {
            None
        }
    }

    pub fn get_is_fire_pressed(&self) -> (r: bool)
        ensures
            r == self@.firing,
    {
        self.fire_control_state
    }

    /// Collects an armor pickup: one more armor point, up to the maximum.
    pub fn add_armor(&mut self) -> (r: bool)
        requires
            old(self)@.inv(),
        ensures
            r,
            final(self)@ == (PlayerView {
                armor: if old(self)@.armor < old(self)@.max_armor {
                    (old(self)@.armor + 1) as u32
                } else {
                    old(self)@.max_armor
                },
                ..old(self)@
            }),
            final(self)@.inv(),
    {
        if self.armor < self.max_armor {
            self.armor = self.armor + 1;
        }
        true
    }

    /// Collects a health pickup: one more health point, up to the maximum.
    pub fn add_health(&mut self) -> (r: bool)
        requires
            old(self)@.inv(),
            old(self)@.alive,
        ensures
            r,
            final(self)@ == (PlayerView {
                health: if old(self)@.health < old(self)@.max_health {
                    (old(self)@.health + 1) as u32
                } else {
                    old(self)@.max_health
                },
                ..old(self)@
            }),
            final(self)@.inv(),
    {
        if self.health < self.max_health {
            self.health = self.health + 1;
        }
        true
    }

    pub fn get_health(&self) -> (r: u32)
        ensures
            r == self@.health,
    {
        self.health
    }

    pub fn get_armor(&self) -> (r: u32)
        ensures
            r == self@.armor,
    {
        self.armor
    }

    /// A combatant is drawn while it has health.
    pub fn is_visible(&self) -> (r: bool)
        ensures
            r == (self@.health > 0),
    {
        self.health > 0
    }

    /// Which of the eight sprite frames shows this combatant: the facing
    /// (up, right, down, left) picks one of four, armor selects the second
    /// set of four.
    pub fn frame_index(&self) -> (r: usize)
        ensures
            r == (if self@.armor > 0 { 4usize } else { 0usize }) + match self@.direction {
                LookDirection::Up => 0usize,
                LookDirection::Right => 1usize,
                LookDirection::Down => 2usize,
                LookDirection::Left => 3usize,
            },
            r < 8,
    {
        let shift: usize = if self.armor > 0 { 4 } else { 0 };
        match self.direction {
            LookDirection::Up => shift,
            LookDirection::Right => shift + 1,
            LookDirection::Down => shift + 2,
            LookDirection::Left => shift + 3,
        }
    }
}

} // verus!
