use vstd::prelude::*;

verus! {

/// A facing on the grid. `Up` decreases `y`, `Right` increases `x`.
#[derive(Debug, Clone, Copy, PartialEq, Eq, Structural)]
pub enum LookDirection {
    Up,
    Down,
    Left,
    Right,
}

/// The tile one step from `p` in direction `d`.
pub open spec fn step(d: LookDirection, p: [i32; 2]) -> [i32; 2] {
    match d {
        LookDirection::Up => [p[0], (p[1] - 1) as i32],
        LookDirection::Down => [p[0], (p[1] + 1) as i32],
        LookDirection::Left => [(p[0] - 1) as i32, p[1]],
        LookDirection::Right => [(p[0] + 1) as i32, p[1]],
    }
}

/// A coordinate pair whose neighbours all fit in `i32`.
pub open spec fn steppable(p: [i32; 2]) -> bool {
    i32::MIN < p[0] < i32::MAX && i32::MIN < p[1] < i32::MAX
}

/// Whether two tiles are the same.
pub fn same_tile(a: [i32; 2], b: [i32; 2]) -> (r: bool)
    ensures
        r == (a == b),
{
    proof {
        if a[0] == b[0] && a[1] == b[1] {
            assert(a =~= b);
        }
    }
    a[0] == b[0] && a[1] == b[1]
}

impl LookDirection {
    pub fn position_from(&self, position: &[i32; 2]) -> (r: [i32; 2])
        requires
            steppable(*position),
        ensures
            r == step(*self, *position),
    {
        let x = position[0];
        let y = position[1];
        match self {
            LookDirection::Up => [x, y - 1],
            LookDirection::Down => [x, y + 1],
            LookDirection::Left => [x - 1, y],
            LookDirection::Right => [x + 1, y],
        }
    }
}

} // verus!
