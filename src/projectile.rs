use vstd::prelude::*;
use crate::transform::{LookDirection, step, steppable};

verus! {

/// A shot in flight.
#[derive(Clone, Copy, Debug)]
pub struct Projectile {
    pub owner_id: u32,
    pub position: [i32; 2],
    pub direction: LookDirection,
}

impl Projectile {
    pub fn new(owner_id: u32, position: [i32; 2], direction: LookDirection) -> (r: Projectile)
        ensures
            r == (Projectile { owner_id, position, direction }),
    {
        Projectile { owner_id, position, direction }
    }

    pub fn get_owner_id(&self) -> (r: u32)
        ensures
            r == self.owner_id,
    {
        self.owner_id
    }

    pub fn get_position(&self) -> (r: [i32; 2])
        ensures
            r == self.position,
    {
        self.position
    }

    pub fn get_direction(&self) -> (r: LookDirection)
        ensures
            r == self.direction,
    {
        self.direction
    }

    pub fn set_position(&mut self, position: [i32; 2])
        ensures
            *final(self) == (Projectile { position, ..*old(self) }),
    {
        self.position = position;
    }

    /// The tile this projectile enters next.
    pub fn next_position(&self) -> (r: [i32; 2])
        requires
            steppable(self.position),
        ensures
            r == step(self.direction, self.position),
    {
        self.direction.position_from(&self.position)
    }
}

} // verus!
