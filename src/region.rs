//! The regions of the icosahedral net and the two halves of each region.
use vstd::prelude::*;

verus! {

/// A region of the world.
///
/// `R0..=R4` are northern regions and `R5..=R9` are southern regions.
#[derive(Debug, Clone, Copy, PartialEq, Eq, PartialOrd, Ord, Hash, Structural)]
pub enum WorldRegion {
    R0,
    R1,
    R2,
    R3,
    R4,
    R5,
    R6,
    R7,
    R8,
    R9,
}

/// The hemisphere a region lies in.
#[derive(Debug, Clone, Copy, PartialEq, Eq, Structural)]
pub enum Hemisphere {
    North,
    South,
}

/// Which half of the region a triangle is in.
///
/// The pyramid triangles touch the poles, while the antiprism triangles lie in the
/// equatorial belt.
#[derive(Debug, Clone, Copy, PartialEq, Eq, PartialOrd, Ord, Hash, Structural)]
pub enum RegionHalf {
    Pyramid,
    Antiprism,
}

/// The region with ordinal `i`, for `i < 10`.
pub open spec fn region_of(i: nat) -> WorldRegion {
    if i == 0 {
        WorldRegion::R0
    } else if i == 1 {
        WorldRegion::R1
    } else if i == 2 {
        WorldRegion::R2
    } else if i == 3 {
        WorldRegion::R3
    } else if i == 4 {
        WorldRegion::R4
    } else if i == 5 {
        WorldRegion::R5
    } else if i == 6 {
        WorldRegion::R6
    } else if i == 7 {
        WorldRegion::R7
    } else if i == 8 {
        WorldRegion::R8
    } else {
        WorldRegion::R9
    }
}

/// The half with ordinal `i`, for `i < 2`.
pub open spec fn half_of(i: nat) -> RegionHalf {
    if i == 0 {
        RegionHalf::Pyramid
    } else {
        RegionHalf::Antiprism
    }
}

impl WorldRegion {
    /// The dense ordinal of the region, in `0..10`.
    pub open spec fn index(self) -> nat {
        match self {
            WorldRegion::R0 => 0,
            WorldRegion::R1 => 1,
            WorldRegion::R2 => 2,
            WorldRegion::R3 => 3,
            WorldRegion::R4 => 4,
            WorldRegion::R5 => 5,
            WorldRegion::R6 => 6,
            WorldRegion::R7 => 7,
            WorldRegion::R8 => 8,
            WorldRegion::R9 => 9,
        }
    }

    /// Every region has an ordinal below ten, and the ordinal names it back.
    pub proof fn lemma_index(self)
        ensures
            self.index() < 10,
            region_of(self.index()) == self,
    {
    }

    /// The region with ordinal `idx`.
    pub fn from_u8_unchecked(idx: u8) -> (r: Self)
        requires
            idx < 10,
        ensures
            r.index() == idx,
            r == region_of(idx as nat),
    {
        match idx {
            0 => WorldRegion::R0,
            1 => WorldRegion::R1,
            2 => WorldRegion::R2,
            3 => WorldRegion::R3,
            4 => WorldRegion::R4,
            5 => WorldRegion::R5,
            6 => WorldRegion::R6,
            7 => WorldRegion::R7,
            8 => WorldRegion::R8,
            _ => WorldRegion::R9,
        }
    }

    /// The ordinal of the region as a `u8`.
    pub fn to_u8(self) -> (r: u8)
        ensures
            r == self.index(),
    {
        match self {
            WorldRegion::R0 => 0,
            WorldRegion::R1 => 1,
            WorldRegion::R2 => 2,
            WorldRegion::R3 => 3,
            WorldRegion::R4 => 4,
            WorldRegion::R5 => 5,
            WorldRegion::R6 => 6,
            WorldRegion::R7 => 7,
            WorldRegion::R8 => 8,
            WorldRegion::R9 => 9,
        }
    }

    /// Convert `self` to a `usize`, for bit packing and array lookups.
    pub fn to_index(self) -> (r: usize)
        ensures
            r == self.index(),
    {
        self.to_u8() as usize
    }

    /// The region offset by half a turn of the ring: northern regions map to southern
    /// ones and back.
    pub fn flipped(self) -> (r: Self)
        ensures
            r.index() == (self.index() + 5) % 10,
    {
        Self::from_u8_unchecked((self.to_u8() + 5) % 10)
    }

    /// Whether the region is one of the northern ring.
    pub fn is_north(&self) -> (r: bool)
        ensures
            r == (self.index() < 5),
    {
        matches!(self, Self::R0 | Self::R1 | Self::R2 | Self::R3 | Self::R4)
    }

    /// Whether the region is one of the southern ring.
    pub fn is_south(&self) -> (r: bool)
        ensures
            r == (self.index() >= 5),
    {
        matches!(self, Self::R5 | Self::R6 | Self::R7 | Self::R8 | Self::R9)
    }

    /// The hemisphere that the region lies in.
    pub fn hemisphere(&self) -> (r: Hemisphere)
        ensures
            r == (if self.index() < 5 {
                Hemisphere::North
            } else {
                Hemisphere::South
            }),
    {
        match self {
            Self::R0 | Self::R1 | Self::R2 | Self::R3 | Self::R4 => Hemisphere::North,
            Self::R5 | Self::R6 | Self::R7 | Self::R8 | Self::R9 => Hemisphere::South,
        }
    }
}

impl RegionHalf {
    /// The ordinal of the half: `0` for the pyramid, `1` for the antiprism.
    pub open spec fn index(self) -> nat {
        match self {
            RegionHalf::Pyramid => 0,
            RegionHalf::Antiprism => 1,
        }
    }

    /// The half with ordinal `idx`.
    pub fn from_u8_unchecked(idx: u8) -> (r: Self)
        requires
            idx < 2,
        ensures
            r.index() == idx,
            r == half_of(idx as nat),
    {
        if idx == 0 {
            RegionHalf::Pyramid
        } else {
            RegionHalf::Antiprism
        }
    }

    /// The ordinal of the half as a `u8`.
    pub fn to_u8(self) -> (r: u8)
        ensures
            r == self.index(),
    {
        match self {
            RegionHalf::Pyramid => 0,
            RegionHalf::Antiprism => 1,
        }
    }
}

} // verus!
