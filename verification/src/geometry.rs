//! Grid coordinates and the four directions of movement.

use vstd::prelude::*;

verus! {

/// A pair of unsigned grid coordinates: `x` counts columns from the left,
/// `y` counts rows from the top.
#[derive(Clone, Copy, Debug, PartialEq, Eq, Hash, Structural)]
pub struct Vec2 {
    pub x: usize,
    pub y: usize,
}

/// A direction in which the player can be asked to move.
#[derive(Clone, Copy, Debug, PartialEq, Eq, Hash, Structural)]
pub enum Action {
    Left,
    Right,
    Up,
    Down,
}

impl Action {
    /// Horizontal component of one step in this direction.
    pub open spec fn dx(self) -> int {
        match self {
            Action::Left => -1,
            Action::Right => 1,
            Action::Up => 0,
            Action::Down => 0,
        }
    }

    /// Vertical component of one step in this direction.
    pub open spec fn dy(self) -> int {
        match self {
            Action::Left => 0,
            Action::Right => 0,
            Action::Up => -1,
            Action::Down => 1,
        }
    }

    /// The step of this direction as a pair of signed offsets.
    pub fn delta(self) -> (d: (isize, isize))
        ensures
            d.0 == self.dx(),
            d.1 == self.dy(),
    {
        match self {
            Action::Left => (-1, 0),
            Action::Right => (1, 0),
            Action::Up => (0, -1),
            Action::Down => (0, 1),
        }
    }
}

impl Vec2 {
    /// Whether the neighbour of this position in direction `a` has
    /// coordinates at all: going left of column 0 or above row 0 has none.
    pub open spec fn can_step(self, a: Action) -> bool {
        &&& 0 <= self.x + a.dx() <= usize::MAX
        &&& 0 <= self.y + a.dy() <= usize::MAX
    }

    /// The neighbour of this position in direction `a`, where
    /// `can_step` holds.
    pub open spec fn stepped(self, a: Action) -> Vec2 {
        Vec2 { x: (self.x + a.dx()) as usize, y: (self.y + a.dy()) as usize }
    }

    /// Whether `n` steps in direction `a` from this position all have
    /// coordinates.
    pub open spec fn can_reach(self, a: Action, n: nat) -> bool
        decreases n,
    {
        n > 0 ==> self.can_step(a) && self.stepped(a).can_reach(a, (n - 1) as nat)
    }

    /// The position `n` steps away in direction `a`, where `can_reach`
    /// holds.
    pub open spec fn ahead(self, a: Action, n: nat) -> Vec2
        decreases n,
    {
        if n == 0 {
            self
        } else {
            self.stepped(a).ahead(a, (n - 1) as nat)
        }
    }

    /// How many more steps in direction `a` the coordinates allow from this
    /// position.
    pub open spec fn room(self, a: Action) -> nat {
        match a {
            Action::Left => self.x as nat,
            Action::Right => (usize::MAX - self.x) as nat,
            Action::Up => self.y as nat,
            Action::Down => (usize::MAX - self.y) as nat,
        }
    }

    /// The neighbour in direction `a`, or `None` where there is none.
    pub fn step(self, a: Action) -> (next: Option<Vec2>)
        ensures
            next == (if self.can_step(a) {
                Some(self.stepped(a))
            } else {
                None
            }),
    {
        let d = a.delta();
        let blocked_x = (d.0 < 0 && self.x == 0) || (d.0 > 0 && self.x == usize::MAX);
        let blocked_y = (d.1 < 0 && self.y == 0) || (d.1 > 0 && self.y == usize::MAX);
        if blocked_x || blocked_y {
            None
        } else {
            Some(Vec2 { x: u_plus_i(self.x, d.0), y: u_plus_i(self.y, d.1) })
        }
    }
}

/// Adds a signed offset to an unsigned coordinate.
pub fn u_plus_i(u: usize, i: isize) -> (r: usize)
    requires
        0 <= u + i <= usize::MAX,
    ensures
        r == u + i,
{
    if i < 0 {
        if i == isize::MIN {
            let half: usize = isize::MAX as usize;
            u - half - 1
        } else {
            u - ((-i) as usize)
        }
    } else {
        u + (i as usize)
    }
}

} // verus!
