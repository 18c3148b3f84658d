use vstd::prelude::*;

verus! {

#[derive(Clone, Copy, Debug, PartialEq, Eq, Structural)]
pub enum PickupType {
    Health,
    Armor,
}

/// An item lying on a tile, collected by the first living combatant there.
#[derive(Clone, Copy, Debug)]
pub struct Pickup {
    pub variant: PickupType,
    pub position: [i32; 2],
}

impl Pickup {
    pub fn new(variant: PickupType, position: [i32; 2]) -> (r: Pickup)
        ensures
            r == (Pickup { variant, position }),
    {
        Pickup { variant, position }
    }

    pub fn get_variant(&self) -> (r: PickupType)
        ensures
            r == self.variant,
    {
        self.variant
    }

    pub fn get_position(&self) -> (r: [i32; 2])
        ensures
            r == self.position,
    {
        self.position
    }

    pub fn set_position(&mut self, position: [i32; 2])
        ensures
            *final(self) == (Pickup { position, ..*old(self) }),
    {
        self.position = position;
    }
}

/// The timer of one pickup kind: a spawn is due once `elapsed` reaches
/// `spawn_time`.
#[derive(Clone, Copy, Debug)]
pub struct PickupSpawnSystem {
    pub variant: PickupType,
    pub spawn_time: u64,
    pub elapsed: u64,
}

/// `a + b`, saturating at the largest `u64`.
pub open spec fn sat_add(a: u64, b: u64) -> u64 {
    if a + b > u64::MAX {
        u64::MAX
    } else {
        (a + b) as u64
    }
}

impl PickupSpawnSystem {
    pub fn new(variant: PickupType, spawn_time: u64) -> (r: PickupSpawnSystem)
        ensures
            r == (PickupSpawnSystem { variant, spawn_time, elapsed: 0 }),
    {
        PickupSpawnSystem { variant, spawn_time, elapsed: 0 }
    }

    /// Lets `dt` of time pass (saturating).
    pub fn on_frame(&mut self, dt: u64)
        ensures
            *final(self) == (PickupSpawnSystem { elapsed: sat_add(old(self).elapsed, dt), ..*old(self) }),
    {
        self.elapsed = self.elapsed.saturating_add(dt);
    }

    pub fn is_due(&self) -> (r: bool)
        ensures
            r == (self.elapsed >= self.spawn_time),
    {
        self.elapsed >= self.spawn_time
    }

    /// A pickup of this kind, not yet placed, when a spawn is due.
    pub fn get_pickup_to_spawn(&self) -> (r: Option<Pickup>)
        ensures
            r == if self.elapsed >= self.spawn_time {
                Some(Pickup { variant: self.variant, position: [0i32, 0i32] })
            } else {
                None
            },
    {
        if self.is_due() {
            Some(Pickup::new(self.variant, [0, 0]))
        } else {
            None
        }
    }

    pub fn reset_spawn_timer(&mut self)
        ensures
            *final(self) == (PickupSpawnSystem { elapsed: 0, ..*old(self) }),
    {
        self.elapsed = 0;
    }
}

} // verus!
