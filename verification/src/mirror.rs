//! Reflections of a square tile in the planes through its centre.
use vstd::prelude::*;

verus! {

/// A reflection of a tile: in the plane spanned by x and z, which flips y;
/// in the plane spanned by y and z, which flips x; or in both.
#[derive(Clone, Copy, Debug, PartialEq, Eq, Structural)]
pub enum Mirror {
    Neither,
    XZ,
    YZ,
    Both,
}

impl Mirror {
    /// Where the reflection carries the point `(u, v)` of a tile of side
    /// `size`. A reflection undoes itself, so this is also the point that it
    /// carries to `(u, v)`.
    pub open spec fn apply(self, size: int, u: int, v: int) -> (int, int) {
        match self {
            Mirror::Neither => (u, v),
            Mirror::XZ => (u, size - v),
            Mirror::YZ => (size - u, v),
            Mirror::Both => (size - u, size - v),
        }
    }

    /// Reflecting twice brings every point back.
    pub proof fn lemma_apply_twice(self, size: int, x: int, y: int)
        ensures
            ({
                let (u, v) = self.apply(size, x, y);
                self.apply(size, u, v) == (x, y)
            }),
    {
    }

    /// A reflection keeps the footprint of the tile.
    pub proof fn lemma_keeps_footprint(self, size: int, x: int, y: int)
        requires
            0 <= x <= size,
            0 <= y <= size,
        ensures
            ({
                let (u, v) = self.apply(size, x, y);
                0 <= u <= size && 0 <= v <= size
            }),
    {
    }

    /// The point of the unmirrored tile that the reflection carries to
    /// `(x, y)`.
    pub fn to_local(self, size: i32, x: i32, y: i32) -> (p: (i32, i32))
        requires
            0 <= x <= size,
            0 <= y <= size,
        ensures
            (p.0 as int, p.1 as int) == self.apply(size as int, x as int, y as int),
            0 <= p.0 <= size,
            0 <= p.1 <= size,
    {
        match self {
            Mirror::Neither => (x, y),
            Mirror::XZ => (x, size - y),
            Mirror::YZ => (size - x, y),
            Mirror::Both => (size - x, size - y),
        }
    }
}

impl Default for Mirror {
    fn default() -> (m: Mirror)
        ensures
            m == Mirror::Neither,
    {
        Mirror::Neither
    }
}

} // verus!
