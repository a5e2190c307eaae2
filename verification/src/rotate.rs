//! Quarter turns of a square tile about its centre.
use vstd::prelude::*;

verus! {

/// A counter-clockwise rotation of a tile, as seen from above.
#[derive(Clone, Copy, Debug, PartialEq, Eq, Structural)]
pub enum Rotate {
    Zero,
    Ninety,
    OneEighty,
    TwoSeventy,
}

impl Rotate {
    /// Where the rotation carries the point `(u, v)` of a tile of side
    /// `size`.
    pub open spec fn apply(self, size: int, u: int, v: int) -> (int, int) {
        match self {
            Rotate::Zero => (u, v),
            Rotate::Ninety => (size - v, u),
            Rotate::OneEighty => (size - u, size - v),
            Rotate::TwoSeventy => (v, size - u),
        }
    }

    /// The point that the rotation carries to `(x, y)`.
    pub open spec fn to_local_spec(self, size: int, x: int, y: int) -> (int, int) {
        match self {
            Rotate::Zero => (x, y),
            Rotate::Ninety => (y, size - x),
            Rotate::OneEighty => (size - x, size - y),
            Rotate::TwoSeventy => (size - y, x),
        }
    }

    /// The number of quarter turns.
    pub open spec fn quarter_turns(self) -> int {
        match self {
            Rotate::Zero => 0,
            Rotate::Ninety => 1,
            Rotate::OneEighty => 2,
            Rotate::TwoSeventy => 3,
        }
    }

    /// The rotation by `turns` quarter turns.
    pub open spec fn of_quarter_turns(turns: int) -> Rotate {
        let t = turns % 4;
        if t == 0 {
            Rotate::Zero
        } else if t == 1 {
            Rotate::Ninety
        } else if t == 2 {
            Rotate::OneEighty
        } else {
            Rotate::TwoSeventy
        }
    }

    /// `to_local_spec` undoes `apply`, and `apply` undoes `to_local_spec`.
    pub proof fn lemma_to_local_inverts(self, size: int, x: int, y: int)
        ensures
            ({
                let (u, v) = self.apply(size, x, y);
                self.to_local_spec(size, u, v) == (x, y)
            }),
            ({
                let (u, v) = self.to_local_spec(size, x, y);
                self.apply(size, u, v) == (x, y)
            }),
    {
    }

    /// Turning by one rotation and then by another is the rotation by the
    /// sum of their quarter turns: four quarter turns bring every point
    /// back.
    pub proof fn lemma_apply_composes(self, then: Rotate, size: int, x: int, y: int)
        ensures
            ({
                let (u, v) = self.apply(size, x, y);
                then.apply(size, u, v) == Rotate::of_quarter_turns(
                    self.quarter_turns() + then.quarter_turns(),
                ).apply(size, x, y)
            }),
    {
    }

    /// A rotation keeps the footprint of the tile.
    pub proof fn lemma_keeps_footprint(self, size: int, x: int, y: int)
        requires
            0 <= x <= size,
            0 <= y <= size,
        ensures
            ({
                let (u, v) = self.to_local_spec(size, x, y);
                0 <= u <= size && 0 <= v <= size
            }),
            ({
                let (u, v) = self.apply(size, x, y);
                0 <= u <= size && 0 <= v <= size
            }),
    {
    }

    /// The point of the unrotated tile that the rotation carries to
    /// `(x, y)`.
    pub fn to_local(self, size: i32, x: i32, y: i32) -> (p: (i32, i32))
        requires
            0 <= x <= size,
            0 <= y <= size,
        ensures
            (p.0 as int, p.1 as int) == self.to_local_spec(size as int, x as int, y as int),
            0 <= p.0 <= size,
            0 <= p.1 <= size,
    {
        match self {
            Rotate::Zero => (x, y),
            Rotate::Ninety => (y, size - x),
            Rotate::OneEighty => (size - x, size - y),
            Rotate::TwoSeventy => (size - y, x),
        }
    }
}

impl Default for Rotate {
    fn default() -> (r: Rotate)
        ensures
            r == Rotate::Zero,
    {
        Rotate::Zero
    }
}

} // verus!
