//! The four-way split of a triangle, the two-way split of a prism, and the
//! fixed-point barycentric step that picks a child.
use vstd::prelude::*;

verus! {

/// The fixed-point whole of a barycentric fraction: `1 << 29`.
pub const ONE: u32 = 0x2000_0000;

/// Half of [`ONE`].
pub const HALF: u32 = 0x1000_0000;

/// Horizontal subdivision of a triangle.
#[derive(Debug, Clone, Copy, PartialEq, Eq, PartialOrd, Ord, Hash, Structural)]
pub enum HorizontalSubdivision {
    NorthSouth,
    Center,
    West,
    East,
}

/// Vertical subdivision of a prism.
#[derive(Debug, Clone, Copy, PartialEq, Eq, PartialOrd, Ord, Hash, Structural)]
pub enum VerticalSubdivision {
    Lower,
    Upper,
}

/// The child that [`HorizontalSubdivision::subdivide`] picks for the fractions
/// `(n2w, n2e)`, with the fractions rescaled for that child.
///
/// Ties at one half go to `West`, `East` and `Center` before `NorthSouth`.
pub open spec fn subdivide_spec(n2w: u32, n2e: u32) -> (HorizontalSubdivision, u32, u32) {
    if n2w > HALF {
        (HorizontalSubdivision::West, (2 * n2w - ONE) as u32, (2 * n2e) as u32)
    } else if n2e > HALF {
        (HorizontalSubdivision::East, (2 * n2w) as u32, (2 * n2e - ONE) as u32)
    } else if n2w + n2e >= HALF {
        (HorizontalSubdivision::Center, (ONE - 2 * n2w) as u32, (ONE - 2 * n2e) as u32)
    } else {
        (HorizontalSubdivision::NorthSouth, (2 * n2w) as u32, (2 * n2e) as u32)
    }
}

/// Whether `(n2w, n2e)` is a point of the triangle in fixed point.
pub open spec fn in_triangle(n2w: u32, n2e: u32) -> bool {
    n2w + n2e <= ONE
}

/// The horizontal subdivision whose two bits are `i`, for `i < 4`.
pub open spec fn horizontal_of(i: nat) -> HorizontalSubdivision {
    if i == 0 {
        HorizontalSubdivision::NorthSouth
    } else if i == 1 {
        HorizontalSubdivision::Center
    } else if i == 2 {
        HorizontalSubdivision::West
    } else {
        HorizontalSubdivision::East
    }
}

/// The vertical subdivision whose bit is `i`, for `i` either `0` or `4`.
pub open spec fn vertical_of(i: nat) -> VerticalSubdivision {
    if i == 0 {
        VerticalSubdivision::Lower
    } else {
        VerticalSubdivision::Upper
    }
}

/// The fractions of a point after `k` steps down the tree from `(n2w, n2e)`.
pub open spec fn fractions_after(n2w: u32, n2e: u32, k: nat) -> (u32, u32)
    decreases k,
{
    if k == 0 {
        (n2w, n2e)
    } else {
        let p = fractions_after(n2w, n2e, (k - 1) as nat);
        let q = subdivide_spec(p.0, p.1);
        (q.1, q.2)
    }
}

/// The child taken at step `k + 1` down the tree from `(n2w, n2e)`.
pub open spec fn step_taken(n2w: u32, n2e: u32, k: nat) -> HorizontalSubdivision {
    let p = fractions_after(n2w, n2e, k);
    subdivide_spec(p.0, p.1).0
}

impl HorizontalSubdivision {
    /// The two bits that a step into this child adds to a packed index.
    pub open spec fn bits(self) -> nat {
        match self {
            HorizontalSubdivision::NorthSouth => 0,
            HorizontalSubdivision::Center => 1,
            HorizontalSubdivision::West => 2,
            HorizontalSubdivision::East => 3,
        }
    }

    /// The subdivision whose two bits are `idx`.
    pub fn from_u8_unchecked(idx: u8) -> (r: Self)
        requires
            idx < 4,
        ensures
            r.bits() == idx,
            r == horizontal_of(idx as nat),
    {
        match idx {
            0 => HorizontalSubdivision::NorthSouth,
            1 => HorizontalSubdivision::Center,
            2 => HorizontalSubdivision::West,
            _ => HorizontalSubdivision::East,
        }
    }

    /// The two bits of this subdivision.
    pub fn to_u8(self) -> (r: u8)
        ensures
            r == self.bits(),
    {
        match self {
            HorizontalSubdivision::NorthSouth => 0,
            HorizontalSubdivision::Center => 1,
            HorizontalSubdivision::West => 2,
            HorizontalSubdivision::East => 3,
        }
    }

    /// Subdivide a point given by north-to-west and north-to-east barycentric
    /// fractions, in fixed point with [`ONE`] as the whole.
    ///
    /// Returns the child that holds the point, along with the fractions of the point
    /// within that child, which can be passed to this call again.
    pub fn subdivide(n2w: u32, n2e: u32) -> (r: (Self, u32, u32))
        requires
            in_triangle(n2w, n2e),
        ensures
            r == subdivide_spec(n2w, n2e),
            in_triangle(r.1, r.2),
    {
        if n2w > HALF {
            assert(n2w << 1u32 == 2 * n2w && n2e << 1u32 == 2 * n2e) by (bit_vector)
                requires
                    n2w <= 0x2000_0000u32 && n2e <= 0x2000_0000u32,
            ;
            (Self::West, (n2w << 1) - ONE, n2e << 1)
        } else if n2e > HALF {
            assert(n2w << 1u32 == 2 * n2w && n2e << 1u32 == 2 * n2e) by (bit_vector)
                requires
                    n2w <= 0x2000_0000u32 && n2e <= 0x2000_0000u32,
            ;
            (Self::East, n2w << 1, (n2e << 1) - ONE)
        } else if n2w + n2e >= HALF {
            assert(n2w << 1u32 == 2 * n2w && n2e << 1u32 == 2 * n2e) by (bit_vector)
                requires
                    n2w <= 0x1000_0000u32 && n2e <= 0x1000_0000u32,
            ;
            (Self::Center, ONE - (n2w << 1), ONE - (n2e << 1))
        } else {
            assert(n2w << 1u32 == 2 * n2w && n2e << 1u32 == 2 * n2e) by (bit_vector)
                requires
                    n2w <= 0x1000_0000u32 && n2e <= 0x1000_0000u32,
            ;
            (Self::NorthSouth, n2w << 1, n2e << 1)
        }
    }
}

impl VerticalSubdivision {
    /// The bit that a step into this half adds to a packed octree index: `0b000` for
    /// the lower half and `0b100` for the upper one.
    pub open spec fn bits(self) -> nat {
        match self {
            VerticalSubdivision::Lower => 0,
            VerticalSubdivision::Upper => 4,
        }
    }

    /// The subdivision whose bit is `idx`.
    pub fn from_u8_unchecked(idx: u8) -> (r: Self)
        requires
            idx == 0 || idx == 4,
        ensures
            r.bits() == idx,
            r == vertical_of(idx as nat),
    {
        if idx == 0 {
            VerticalSubdivision::Lower
        } else {
            VerticalSubdivision::Upper
        }
    }

    /// The bit of this subdivision.
    pub fn to_u8(self) -> (r: u8)
        ensures
            r == self.bits(),
    {
        match self {
            VerticalSubdivision::Lower => 0,
            VerticalSubdivision::Upper => 4,
        }
    }
}

} // verus!
