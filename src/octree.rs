//! Octree indices: nodes of the recursive subdivision of the twenty root prisms,
//! four ways across and two ways in altitude, each packed into a `u64` with three
//! bits per level.
use vstd::prelude::*;
use vstd::arithmetic::power2::*;
use vstd::arithmetic::div_mod::*;
use vstd::bits::lemma_u64_shr_is_div;
use core::cmp::Ordering;
use core::ops::{ControlFlow, Range};
use vstd::bytes::spec_u64_to_le_bytes;
use crate::key::{KEY_WIDTH, decoded, key_order, encode_key, decode_key, compare_keys};
use crate::region::{WorldRegion, RegionHalf};
use crate::subdivision::{
    HorizontalSubdivision, VerticalSubdivision, horizontal_of, vertical_of, in_triangle,
    fractions_after, step_taken,
};
use crate::packing::{
    root_key, levels, is_packed_key, is_packed, root_triangle, triangle_of_root, lemma_root_key, lemma_step,
    lemma_key_range, lemma_depth_from_leading_zeros, lemma_root_by_division,
};

verus! {

/// The deepest level an octree index can reach in 64 bits.
pub const MAX_OCTREE_DEPTH: u32 = 19;

/// The fixed-point midpoint of the altitude range: `1 << 18`.
pub const ALT_HALF: u32 = 0x4_0000;

/// The mask that keeps a fixed-point altitude in range after each step.
pub const ALT_MASK: u32 = 0x7_ffff;

/// Error returned by octree subdividing methods if they'd exceed the maximum depth.
#[derive(Debug, Clone, Copy, PartialEq, Eq, Structural)]
pub struct MaxOctreeDepth;

/// An octree index for three-dimensional space.
///
/// This stores both the depth and the subdivisions in a single `u64`. It has a maximum
/// depth of 19 subdivisions.
#[derive(Debug, Clone, Copy, PartialEq, Eq, PartialOrd, Ord, Hash, Structural)]
pub struct OctreeIndex(pub u64);

/// The fixed-point altitude after `k` steps down from altitude `a`: each step
/// doubles it and keeps it in range.
pub open spec fn altitude_after(a: u32, k: nat) -> u32
    decreases k,
{
    if k == 0 {
        a
    } else {
        (altitude_after(a, (k - 1) as nat) << 1u32) & ALT_MASK
    }
}

/// The half taken in altitude at step `k + 1` down from altitude `a`.
pub open spec fn vertical_taken(a: u32, k: nat) -> VerticalSubdivision {
    if altitude_after(a, k) > ALT_HALF {
        VerticalSubdivision::Upper
    } else {
        VerticalSubdivision::Lower
    }
}

/// The key reached after `k` steps down from the root `root`, following the point
/// with fractions `(n2w, n2e)` and fixed-point altitude `a`.
pub open spec fn oct_cell(root: nat, n2w: u32, n2e: u32, a: u32, k: nat) -> nat
    decreases k,
{
    if k == 0 {
        root
    } else {
        oct_cell(root, n2w, n2e, a, (k - 1) as nat) * 8 + step_taken(n2w, n2e, (k - 1) as nat).bits()
            + vertical_taken(a, (k - 1) as nat).bits()
    }
}

/// Whether `visit` may continue at every node of the first `d` levels of the path
/// from `root` that follows the point `(n2w, n2e)` at altitude `a`.
pub open spec fn continues_along<R, F: FnMut(OctreeIndex) -> ControlFlow<R>>(
    visit: F,
    root: nat,
    n2w: u32,
    n2e: u32,
    a: u32,
    d: nat,
) -> bool {
    forall|j: nat|
        j < d ==> call_ensures(
            visit,
            (OctreeIndex(#[trigger] oct_cell(root, n2w, n2e, a, j) as u64),),
            ControlFlow::Continue(()),
        )
}

proof fn lemma_cell_step(root: nat, n2w: u32, n2e: u32, a: u32, k: nat)
    ensures
        oct_cell(root, n2w, n2e, a, k + 1) == oct_cell(root, n2w, n2e, a, k) * 8 + step_taken(
            n2w,
            n2e,
            k,
        ).bits() + vertical_taken(a, k).bits(),
        fractions_after(n2w, n2e, k + 1) == ({
            let p = fractions_after(n2w, n2e, k);
            let q = crate::subdivision::subdivide_spec(p.0, p.1);
            (q.1, q.2)
        }),
        altitude_after(a, k + 1) == (altitude_after(a, k) << 1u32) & ALT_MASK,
{
}

impl OctreeIndex {
    /// Whether the key is a node below one of the twenty root prisms.
    pub open spec fn wf(self) -> bool {
        is_packed(self.0 as nat, 8)
    }

    /// The number of subdivisions in this index.
    pub open spec fn spec_depth(self) -> nat {
        levels(self.0 as nat, 8)
    }

    /// The root triangle this index lies in.
    pub open spec fn spec_region(self) -> (WorldRegion, RegionHalf) {
        root_triangle(self.0 as nat, 8)
    }

    /// The child of this index in subdivisions `h` and `v`.
    pub open spec fn spec_child(self, h: HorizontalSubdivision, v: VerticalSubdivision) -> OctreeIndex {
        OctreeIndex((self.0 * 8 + h.bits() + v.bits()) as u64)
    }

    /// The parent of this index and the subdivisions that lead back down, unless
    /// this is a root.
    pub open spec fn spec_parent(self) -> Option<
        (OctreeIndex, HorizontalSubdivision, VerticalSubdivision),
    > {
        if self.spec_depth() == 0 {
            None
        } else {
            Some(
                (
                    OctreeIndex(self.0 / 8),
                    horizontal_of(self.0 as nat % 4),
                    vertical_of((self.0 as nat % 8 - self.0 as nat % 4) as nat),
                ),
            )
        }
    }

    proof fn lemma_bounds(self)
        requires
            self.wf(),
        ensures
            self.0 >= 32,
            self.spec_depth() <= 19,
            self.spec_depth() == 19 <==> self.0 > 0x1fff_ffff_ffff_ffff,
            self.spec_depth() == 0 <==> self.0 < 0x80,
            self.spec_depth() == 0 ==> self.0 < 52,
            self.spec_depth() < 19 ==> self.0 * 8 + 8 <= 0xffff_ffff_ffff_ffff,
    {
        let k = self.0 as nat;
        let l = self.spec_depth();
        lemma2_to64();
        lemma2_to64_rest();
        lemma_key_range(k, 8, 3);
        lemma_depth_from_leading_zeros(self.0, 8, 3);
        lemma_root_by_division(k, 8, 3);
        crate::packing::lemma_root_at_least_32(k, 8);
        if l < 19 {
            if 3 * l < 54 {
                lemma_pow2_strictly_increases(3 * l, 54);
            }
            let p = pow2(3 * l);
            lemma_pow2_pos(3 * l);
            lemma_fundamental_div_mod(k as int, p as int);
            let q = k / p;
            assert(q < 52);
            assert(k < 52 * p) by (nonlinear_arith)
                requires
                    k == p * q + k % p,
                    q < 52,
                    k % p < p,
                    p > 0,
            ;
            assert(52 * p <= 52 * pow2(54)) by (nonlinear_arith)
                requires
                    p <= pow2(54),
            ;
        }
        if l > 0 {
            lemma_pow2_strictly_increases(6, 5 + 3 * l);
        }
        if l == 0 {
            assert(k / 1 == k);
        }
    }

    /// One step down keeps the root triangle and adds a level.
    proof fn lemma_child(self, h: HorizontalSubdivision, v: VerticalSubdivision)
        requires
            self.wf(),
            self.spec_depth() < 19,
        ensures
            self.spec_child(h, v).wf(),
            self.spec_child(h, v).spec_depth() == self.spec_depth() + 1,
            self.spec_child(h, v).spec_region() == self.spec_region(),
            self.spec_child(h, v).0 == self.0 * 8 + h.bits() + v.bits(),
    {
        self.lemma_bounds();
        lemma_step(self.0 as nat, 8, h.bits() + v.bits());
    }

    /// Convert a [`WorldRegion`] and half to the root index of that prism.
    ///
    /// The zero-depth representation uses six bits.
    pub fn from_region(region: WorldRegion, triangle: RegionHalf) -> (r: Self)
        ensures
            r.0 == root_key(region, triangle),
            r.wf(),
            r.spec_depth() == 0,
            r.spec_region() == (region, triangle),
    {
        let g = region.to_u8() as u64;
        let t = triangle.to_u8() as u64;
        assert((g << 1u64) | t | 0x20u64 == 32 + 2 * g + t) by (bit_vector)
            requires
                g < 10 && t < 2,
        ;
        proof {
            lemma_root_key(region, triangle, 8);
        }
        OctreeIndex((g << 1) | t | 0x20)
    }

    /// Wrap a raw key that is known to be a valid octree index.
    pub fn from_u64_unchecked(raw: u64) -> (r: Self)
        requires
            is_packed(raw as nat, 8),
        ensures
            r.0 == raw,
            r.wf(),
    {
        OctreeIndex(raw)
    }

    /// Get number of subdivisions in this index.
    pub fn depth(&self) -> (r: u32)
        requires
            self.wf(),
        ensures
            r == self.spec_depth(),
    {
        proof {
            lemma2_to64();
            lemma_depth_from_leading_zeros(self.0, 8, 3);
        }
        let bits = 58 - self.0.leading_zeros();
        bits / 3
    }

    /// Get the child indices of this node: the range of the eight keys one level down.
    pub fn children(self) -> (r: Result<Range<Self>, MaxOctreeDepth>)
        requires
            self.wf(),
        ensures
            r is Err <==> self.spec_depth() == MAX_OCTREE_DEPTH,
            r matches Ok(range) ==> range.start == self.spec_child(
                HorizontalSubdivision::NorthSouth,
                VerticalSubdivision::Lower,
            ) && range.end.0 == self.0 * 8 + 8,
    {
        proof {
            self.lemma_bounds();
        }
        // an eighth of `u64::MAX`: one more level would not fit
        if self.0 > 0x1fff_ffff_ffff_ffff {
            return Err(MaxOctreeDepth);
        }
        let k = self.0;
        assert(k << 3u64 == k * 8) by (bit_vector)
            requires
                k <= 0x1fff_ffff_ffff_ffffu64,
        ;
        let first = self.0 << 3;
        Ok(OctreeIndex(first)..OctreeIndex(first + 8))
    }

    /// Get the child with the given horizontal and vertical subdivisions.
    pub fn child(self, horiz: HorizontalSubdivision, vert: VerticalSubdivision) -> (r: Result<
        Self,
        MaxOctreeDepth,
    >)
        requires
            self.wf(),
        ensures
            r is Err <==> self.spec_depth() == MAX_OCTREE_DEPTH,
            r matches Ok(c) ==> c == self.spec_child(horiz, vert) && c.wf() && c.spec_depth()
                == self.spec_depth() + 1 && c.spec_region() == self.spec_region(),
    {
        proof {
            self.lemma_bounds();
        }
        if self.0 > 0x1fff_ffff_ffff_ffff {
            return Err(MaxOctreeDepth);
        }
        proof {
            self.lemma_child(horiz, vert);
        }
        let k = self.0;
        let h = horiz.to_u8() as u64;
        let v = vert.to_u8() as u64;
        assert((k << 3u64) | h | v == k * 8 + h + v) by (bit_vector)
            requires
                k <= 0x1fff_ffff_ffff_ffffu64 && h < 4 && (v == 0 || v == 4),
        ;
        Ok(OctreeIndex((k << 3) | h | v))
    }

    /// Get the parent index and subdivisions if this isn't a root index.
    pub fn parent(self) -> (r: Option<(Self, HorizontalSubdivision, VerticalSubdivision)>)
        requires
            self.wf(),
        ensures
            r == self.spec_parent(),
            r matches Some(p) ==> p.0.wf() && p.0.spec_depth() + 1 == self.spec_depth(),
    {
        proof {
            self.lemma_bounds();
        }
        if self.0 < 0x80 {
            return None;
        }
        let raw = self.0;
        assert(raw >> 3u64 == raw / 8 && raw & 3u64 == raw % 4 && raw & 4u64 == raw % 8 - raw % 4)
            by (bit_vector);
        proof {
            crate::packing::lemma_div_decreases_levels(raw as nat, 8);
        }
        Some(
            (
                OctreeIndex(raw >> 3),
                HorizontalSubdivision::from_u8_unchecked((raw & 3) as u8),
                VerticalSubdivision::from_u8_unchecked((raw & 4) as u8),
            ),
        )
    }

    /// If this is a root index, get the containing region.
    pub fn is_root(self) -> (r: Option<(WorldRegion, RegionHalf)>)
        requires
            self.wf(),
        ensures
            r == (if self.spec_depth() == 0 {
                Some(self.spec_region())
            } else {
                None::<(WorldRegion, RegionHalf)>
            }),
    {
        proof {
            self.lemma_bounds();
        }
        let raw = self.0;
        if raw < 0x3f {
            Some(triangle_of_root(raw))
        } else {
            None
        }
    }

    /// Get the containing region of this node, at any depth.
    pub fn region(self) -> (r: (WorldRegion, RegionHalf))
        requires
            self.wf(),
        ensures
            r == self.spec_region(),
    {
        proof {
            self.lemma_bounds();
            lemma2_to64();
            lemma_depth_from_leading_zeros(self.0, 8, 3);
            lemma_root_by_division(self.0 as nat, 8, 3);
        }
        let shift = (58 - self.0.leading_zeros()) as u64;
        proof {
            lemma_u64_shr_is_div(self.0, shift);
        }
        triangle_of_root(self.0 >> shift)
    }

    /// Wrap a raw key if it is a valid index.
    pub fn from_u64(raw: u64) -> (r: Option<Self>)
        ensures
            r is Some <==> is_packed(raw as nat, 8),
            r matches Some(i) ==> i.0 == raw,
    {
        proof {
            vstd::arithmetic::power2::lemma2_to64();
        }
        if is_packed_key(raw, 3) {
            Some(OctreeIndex(raw))
        } else {
            None
        }
    }

    /// The key of this index as stored: its raw integer, little-endian.
    pub fn as_bytes(&self) -> (r: Vec<u8>)
        ensures
            r@ == spec_u64_to_le_bytes(self.0),
            decoded(r@) == self.0,
    {
        encode_key(self.0)
    }

    /// The index stored in the first eight bytes of `data`, if they hold a valid one.
    pub fn from_bytes(data: &[u8]) -> (r: Option<Self>)
        requires
            data@.len() >= KEY_WIDTH,
        ensures
            r is Some <==> is_packed(decoded(data@) as nat, 8),
            r matches Some(i) ==> i.0 == decoded(data@),
    {
        Self::from_u64(decode_key(data))
    }

    /// Compare two stored keys as the unsigned integers they hold.
    pub fn compare(data1: &[u8], data2: &[u8]) -> (r: Ordering)
        requires
            data1@.len() >= KEY_WIDTH,
            data2@.len() >= KEY_WIDTH,
        ensures
            r == key_order(decoded(data1@), decoded(data2@)),
    {
        compare_keys(data1, data2)
    }

    /// Find the index of a point given by its fixed-point barycentric fractions
    /// `(n2w, n2e)` within the root triangle `(region, half)` and its fixed-point
    /// altitude `alt`, whose midpoint is [`ALT_HALF`].
    ///
    /// Starting at the root, the traversal calls `visit` on each node it reaches, root
    /// first, and steps into the child that holds the point: the upper half when the
    /// altitude is above the midpoint, after which the altitude is doubled and masked
    /// to [`ALT_MASK`]. It stops at the first node for which `visit` breaks, returning
    /// that node and the visitor's payload, or at the maximum depth, returning the
    /// deepest node and `None`.
    pub fn hash_fixed<R, F: FnMut(OctreeIndex) -> ControlFlow<R>>(
        region: WorldRegion,
        half: RegionHalf,
        n2w: u32,
        n2e: u32,
        alt: u32,
        visit: F,
    ) -> (r: (Self, Option<R>))
        requires
            in_triangle(n2w, n2e),
            forall|i: OctreeIndex| call_requires(visit, (i,)),
        ensures
            r.0.wf(),
            r.0.spec_region() == (region, half),
            r.0.0 == oct_cell(root_key(region, half), n2w, n2e, alt, r.0.spec_depth()),
            continues_along(visit, root_key(region, half), n2w, n2e, alt, r.0.spec_depth()),
            match r.1 {
                Some(x) => call_ensures(visit, (r.0,), ControlFlow::Break(x)),
                None => r.0.spec_depth() == MAX_OCTREE_DEPTH && call_ensures(
                    visit,
                    (r.0,),
                    ControlFlow::Continue(()),
                ),
            },
            (forall|i: OctreeIndex, c: ControlFlow<R>| #[trigger]
                call_ensures(visit, (i,), c) ==> c is Continue) ==> r.1 is None
                && r.0.spec_depth() == MAX_OCTREE_DEPTH,
    {
        let ghost root = root_key(region, half);
        let mut step = visit;
        let mut index = Self::from_region(region, half);
        let cf = step(index);
        match cf {
            ControlFlow::Break(ret) => {
                return (index, Some(ret));
            },
            ControlFlow::Continue(_unit) => {
                assert(cf == ControlFlow::<R, ()>::Continue(()));
            },
        }
        let mut w = n2w;
        let mut e = n2e;
        let mut a = alt;
        loop
            invariant
                root == root_key(region, half),
                step == visit,
                in_triangle(w, e),
                index.wf(),
                index.spec_depth() <= MAX_OCTREE_DEPTH,
                index.spec_region() == (region, half),
                (w, e) == fractions_after(n2w, n2e, index.spec_depth()),
                a == altitude_after(alt, index.spec_depth()),
                index.0 == oct_cell(root, n2w, n2e, alt, index.spec_depth()),
                call_ensures(visit, (index,), ControlFlow::Continue(())),
                continues_along(visit, root, n2w, n2e, alt, index.spec_depth()),
                forall|i: OctreeIndex| call_requires(visit, (i,)),
            decreases MAX_OCTREE_DEPTH - index.spec_depth(),
        {
            proof {
                index.lemma_bounds();
            }
            let (h, w2, e2) = HorizontalSubdivision::subdivide(w, e);
            let v = if a > ALT_HALF {
                VerticalSubdivision::Upper
            } else {
                VerticalSubdivision::Lower
            };
            let a2 = (a << 1) & ALT_MASK;
            let prev = index;
            let next = index.child(h, v);
            if next.is_err() {
                return (prev, None);
            }
            index = next.unwrap();
            w = w2;
            e = e2;
            a = a2;
            proof {
                lemma_cell_step(root, n2w, n2e, alt, prev.spec_depth());
            }
            assert(continues_along(visit, root, n2w, n2e, alt, index.spec_depth())) by {
                assert forall|j: nat| j < index.spec_depth() implies call_ensures(
                    visit,
                    (OctreeIndex(#[trigger] oct_cell(root, n2w, n2e, alt, j) as u64),),
                    ControlFlow::Continue(()),
                ) by {
                    if j == prev.spec_depth() {
                        assert(prev.0 == oct_cell(root, n2w, n2e, alt, j) as u64);
                    }
                }
            }
            let cf = step(index);
            match cf {
                ControlFlow::Break(ret) => {
                    return (index, Some(ret));
                },
                ControlFlow::Continue(_unit) => {
                    assert(cf == ControlFlow::<R, ()>::Continue(()));
                },
            }
        }
    }
}

/// Each of the eight children of an index above the maximum depth, the keys of the
/// range that `children` returns, names that index as its parent, with the
/// subdivisions that lead back down, and lies one level deeper in the same root
/// triangle.
pub proof fn lemma_children_parent(index: OctreeIndex, i: nat)
    requires
        index.wf(),
        index.spec_depth() < MAX_OCTREE_DEPTH,
        i < 8,
    ensures
        OctreeIndex((index.0 * 8 + i) as u64).wf(),
        OctreeIndex((index.0 * 8 + i) as u64).spec_parent() == Some(
            (index, horizontal_of(i % 4), vertical_of((i - i % 4) as nat)),
        ),
        OctreeIndex((index.0 * 8 + i) as u64).spec_depth() == index.spec_depth() + 1,
        OctreeIndex((index.0 * 8 + i) as u64).spec_region() == index.spec_region(),
{
    index.lemma_bounds();
    lemma_step(index.0 as nat, 8, i);
    let k = index.0 as nat;
    assert((k * 8 + i) % 4 == i % 4 && (k * 8 + i) % 8 == i) by (nonlinear_arith)
        requires
            i < 8,
    ;
}

/// Keys sort as a depth-first walk of the tree: of two indices at one depth, every
/// child of the smaller sorts before every child of the larger.
pub proof fn lemma_children_order(a: OctreeIndex, b: OctreeIndex, i: nat, j: nat)
    requires
        a.wf(),
        b.wf(),
        a.spec_depth() == b.spec_depth(),
        a.0 < b.0,
        i < 8,
        j < 8,
    ensures
        a.0 * 8 + i < b.0 * 8 + j,
{
}

/// A point's key at each depth is its key one level deeper with the lowest three
/// bits dropped. So two points whose paths reach the same cell agree at every
/// shallower depth, and two points in one cell reach sibling cells one level down,
/// whose keys differ only in their lowest three bits.
pub proof fn lemma_cell_locality(
    root: nat,
    w1: u32,
    e1: u32,
    a1: u32,
    w2: u32,
    e2: u32,
    a2: u32,
    d: nat,
)
    ensures
        oct_cell(root, w1, e1, a1, d + 1) / 8 == oct_cell(root, w1, e1, a1, d),
        oct_cell(root, w1, e1, a1, d) == oct_cell(root, w2, e2, a2, d) ==> (forall|j: nat|
            j <= d ==> #[trigger] oct_cell(root, w1, e1, a1, j) == oct_cell(root, w2, e2, a2, j)),
        oct_cell(root, w1, e1, a1, d) == oct_cell(root, w2, e2, a2, d) ==> oct_cell(
            root,
            w1,
            e1,
            a1,
            d + 1,
        ) / 8 == oct_cell(root, w2, e2, a2, d + 1) / 8,
    decreases d,
{
    lemma_cell_parent(root, w1, e1, a1, d);
    lemma_cell_parent(root, w2, e2, a2, d);
    if d > 0 {
        lemma_cell_locality(root, w1, e1, a1, w2, e2, a2, (d - 1) as nat);
        if oct_cell(root, w1, e1, a1, d) == oct_cell(root, w2, e2, a2, d) {
            assert(oct_cell(root, w1, e1, a1, (d - 1) as nat) == oct_cell(
                root,
                w2,
                e2,
                a2,
                (d - 1) as nat,
            ));
        }
    }
}

proof fn lemma_cell_parent(root: nat, n2w: u32, n2e: u32, a: u32, d: nat)
    ensures
        oct_cell(root, n2w, n2e, a, d + 1) / 8 == oct_cell(root, n2w, n2e, a, d),
{
    let c = oct_cell(root, n2w, n2e, a, d);
    let b = step_taken(n2w, n2e, d).bits() + vertical_taken(a, d).bits();
    lemma_cell_step(root, n2w, n2e, a, d);
    lemma_fundamental_div_mod_converse((c * 8 + b) as int, 8, c as int, b as int);
}

} // verus!
