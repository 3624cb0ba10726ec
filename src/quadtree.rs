//! Quadtree indices: nodes of the recursive four-way subdivision of the twenty
//! root triangles, each packed into a `u64` with two bits per level.
use vstd::prelude::*;
use vstd::arithmetic::power2::*;
use vstd::arithmetic::div_mod::*;
use vstd::bits::lemma_u64_shr_is_div;
use core::cmp::Ordering;
use core::ops::{ControlFlow, Range};
use vstd::bytes::spec_u64_to_le_bytes;
use crate::key::{KEY_WIDTH, decoded, key_order, encode_key, decode_key, compare_keys};
use crate::region::{WorldRegion, RegionHalf};
use crate::subdivision::{
    HorizontalSubdivision, horizontal_of, in_triangle, fractions_after, step_taken,
};
use crate::packing::{
    root_key, levels, is_packed_key, is_packed, root_triangle, triangle_of_root, lemma_root_key,
    lemma_step, lemma_key_range, lemma_depth_from_leading_zeros, lemma_root_by_division,
};

verus! {

/// The deepest level a quadtree index can reach in 64 bits.
pub const MAX_QUADTREE_DEPTH: u32 = 29;

/// Error returned by quadtree subdividing methods if they'd exceed the maximum depth.
#[derive(Debug, Clone, Copy, PartialEq, Eq, Structural)]
pub struct MaxQuadtreeDepth;

/// A quadtree index for two-dimensional space.
///
/// This stores both the depth and the subdivisions in a single `u64`. It has a maximum
/// depth of 29 subdivisions.
#[derive(Debug, Clone, Copy, PartialEq, Eq, PartialOrd, Ord, Hash, Structural)]
pub struct QuadtreeIndex(pub u64);

/// The key reached after `k` steps down from the root `root`, following the point
/// with fractions `(n2w, n2e)`.
pub open spec fn quad_cell(root: nat, n2w: u32, n2e: u32, k: nat) -> nat
    decreases k,
{
    if k == 0 {
        root
    } else {
        quad_cell(root, n2w, n2e, (k - 1) as nat) * 4 + step_taken(n2w, n2e, (k - 1) as nat).bits()
    }
}

proof fn lemma_cell_step(root: nat, n2w: u32, n2e: u32, k: nat)
    ensures
        quad_cell(root, n2w, n2e, k + 1) == quad_cell(root, n2w, n2e, k) * 4 + step_taken(
            n2w,
            n2e,
            k,
        ).bits(),
        fractions_after(n2w, n2e, k + 1) == ({
            let p = fractions_after(n2w, n2e, k);
            let q = crate::subdivision::subdivide_spec(p.0, p.1);
            (q.1, q.2)
        }),
{
}

/// Whether `visit` may continue at every node of the first `d` levels of the path
/// from `root` that follows the point `(n2w, n2e)`.
pub open spec fn continues_along<R, F: FnMut(QuadtreeIndex) -> ControlFlow<R>>(
    visit: F,
    root: nat,
    n2w: u32,
    n2e: u32,
    d: nat,
) -> bool {
    forall|j: nat|
        j < d ==> call_ensures(
            visit,
            (QuadtreeIndex(#[trigger] quad_cell(root, n2w, n2e, j) as u64),),
            ControlFlow::Continue(()),
        )
}

impl QuadtreeIndex {
    /// Whether the key is a node below one of the twenty root triangles.
    pub open spec fn wf(self) -> bool {
        is_packed(self.0 as nat, 4)
    }

    /// The number of subdivisions in this index.
    pub open spec fn spec_depth(self) -> nat {
        levels(self.0 as nat, 4)
    }

    /// The root triangle this index lies in.
    pub open spec fn spec_region(self) -> (WorldRegion, RegionHalf) {
        root_triangle(self.0 as nat, 4)
    }

    /// The child of this index in subdivision `h`.
    pub open spec fn spec_child(self, h: HorizontalSubdivision) -> QuadtreeIndex {
        QuadtreeIndex((self.0 * 4 + h.bits()) as u64)
    }

    /// The parent of this index and the subdivision that leads back down, unless
    /// this is a root.
    pub open spec fn spec_parent(self) -> Option<(QuadtreeIndex, HorizontalSubdivision)> {
        if self.spec_depth() == 0 {
            None
        } else {
            Some((QuadtreeIndex(self.0 / 4), horizontal_of(self.0 as nat % 4)))
        }
    }

    proof fn lemma_bounds(self)
        requires
            self.wf(),
        ensures
            self.0 >= 32,
            self.spec_depth() <= 29,
            self.spec_depth() == 29 <==> self.0 > 0x3fff_ffff_ffff_ffff,
            self.spec_depth() == 0 <==> self.0 < 0x80,
            self.spec_depth() == 0 ==> self.0 < 52,
            self.spec_depth() < 29 ==> self.0 * 4 + 4 <= 0xffff_ffff_ffff_ffff,
    {
        let k = self.0 as nat;
        let l = self.spec_depth();
        lemma2_to64();
        lemma2_to64_rest();
        lemma_key_range(k, 4, 2);
        lemma_depth_from_leading_zeros(self.0, 4, 2);
        lemma_root_by_division(k, 4, 2);
        crate::packing::lemma_root_at_least_32(k, 4);
        if l < 29 {
            if 2 * l < 56 {
                lemma_pow2_strictly_increases(2 * l, 56);
            }
            let p = pow2(2 * l);
            lemma_pow2_pos(2 * l);
            lemma_fundamental_div_mod(k as int, p as int);
            let q = k / p;
            assert(q < 52);
            assert(k < 52 * p) by (nonlinear_arith)
                requires
                    k == p * q + k % p,
                    q < 52,
                    k % p < p,
                    p > 0,
            ;
            assert(52 * p <= 52 * pow2(56)) by (nonlinear_arith)
                requires
                    p <= pow2(56),
            ;
        }
        if l > 0 {
            lemma_pow2_strictly_increases(6, 5 + 2 * l);
        }
        if l == 0 {
            assert(k / 1 == k);
        }
    }

    /// One step down keeps the root triangle and adds a level.
    proof fn lemma_child(self, h: HorizontalSubdivision)
        requires
            self.wf(),
            self.spec_depth() < 29,
        ensures
            self.spec_child(h).wf(),
            self.spec_child(h).spec_depth() == self.spec_depth() + 1,
            self.spec_child(h).spec_region() == self.spec_region(),
            self.spec_child(h).0 == self.0 * 4 + h.bits(),
    {
        self.lemma_bounds();
        lemma_step(self.0 as nat, 4, h.bits());
    }

    /// Convert a [`WorldRegion`] and half to the root index of that triangle.
    ///
    /// The zero-depth representation uses six bits.
    pub fn from_region(region: WorldRegion, triangle: RegionHalf) -> (r: Self)
        ensures
            r.0 == root_key(region, triangle),
            r.wf(),
            r.spec_depth() == 0,
            r.spec_region() == (region, triangle),
    {
        let g = region.to_u8() as u64;
        let t = triangle.to_u8() as u64;
        assert((g << 1u64) | t | 0x20u64 == 32 + 2 * g + t) by (bit_vector)
            requires
                g < 10 && t < 2,
        ;
        proof {
            lemma_root_key(region, triangle, 4);
        }
        QuadtreeIndex((g << 1) | t | 0x20)
    }

    /// Wrap a raw key that is known to be a valid quadtree index.
    pub fn from_u64_unchecked(raw: u64) -> (r: Self)
        requires
            is_packed(raw as nat, 4),
        ensures
            r.0 == raw,
            r.wf(),
    {
        QuadtreeIndex(raw)
    }

    /// Get number of subdivisions in this index.
    pub fn depth(&self) -> (r: u32)
        requires
            self.wf(),
        ensures
            r == self.spec_depth(),
    {
        proof {
            lemma2_to64();
            lemma_depth_from_leading_zeros(self.0, 4, 2);
        }
        let bits = 58 - self.0.leading_zeros();
        bits / 2
    }

    /// Get the child indices of this node: the range of the four keys one level down.
    pub fn children(self) -> (r: Result<Range<Self>, MaxQuadtreeDepth>)
        requires
            self.wf(),
        ensures
            r is Err <==> self.spec_depth() == MAX_QUADTREE_DEPTH,
            r matches Ok(range) ==> range.start == self.spec_child(HorizontalSubdivision::NorthSouth)
                && range.end.0 == self.0 * 4 + 4,
    {
        proof {
            self.lemma_bounds();
        }
        // a fourth of `u64::MAX`: one more level would not fit
        if self.0 > 0x3fff_ffff_ffff_ffff {
            return Err(MaxQuadtreeDepth);
        }
        let k = self.0;
        assert(k << 2u64 == k * 4) by (bit_vector)
            requires
                k <= 0x3fff_ffff_ffff_ffffu64,
        ;
        let first = self.0 << 2;
        Ok(QuadtreeIndex(first)..QuadtreeIndex(first + 4))
    }

    /// Get the child with the given horizontal subdivision.
    pub fn child(self, horiz: HorizontalSubdivision) -> (r: Result<Self, MaxQuadtreeDepth>)
        requires
            self.wf(),
        ensures
            r is Err <==> self.spec_depth() == MAX_QUADTREE_DEPTH,
            r matches Ok(c) ==> c == self.spec_child(horiz) && c.wf() && c.spec_depth()
                == self.spec_depth() + 1 && c.spec_region() == self.spec_region(),
    {
        proof {
            self.lemma_bounds();
        }
        // a fourth of `u64::MAX`: one more level would not fit
        if self.0 > 0x3fff_ffff_ffff_ffff {
            return Err(MaxQuadtreeDepth);
        }
        proof {
            self.lemma_child(horiz);
        }
        let k = self.0;
        let d = horiz.to_u8() as u64;
        assert((k << 2u64) | d == k * 4 + d) by (bit_vector)
            requires
                k <= 0x3fff_ffff_ffff_ffffu64 && d < 4,
        ;
        Ok(QuadtreeIndex((k << 2) | d))
    }

    /// Get the parent index and subdivision if this isn't a root index.
    pub fn parent(self) -> (r: Option<(Self, HorizontalSubdivision)>)
        requires
            self.wf(),
        ensures
            r == self.spec_parent(),
            r matches Some(p) ==> p.0.wf() && p.0.spec_depth() + 1 == self.spec_depth(),
    {
        proof {
            self.lemma_bounds();
        }
        if self.0 < 0x80 {
            return None;
        }
        let raw = self.0;
        assert(raw >> 2u64 == raw / 4 && raw & 3u64 == raw % 4) by (bit_vector);
        proof {
            crate::packing::lemma_div_decreases_levels(raw as nat, 4);
        }
        Some((QuadtreeIndex(raw >> 2), HorizontalSubdivision::from_u8_unchecked((raw & 3) as u8)))
    }

    /// If this is a root index, get the containing region.
    pub fn is_root(self) -> (r: Option<(WorldRegion, RegionHalf)>)
        requires
            self.wf(),
        ensures
            r == (if self.spec_depth() == 0 {
                Some(self.spec_region())
            } else {
                None::<(WorldRegion, RegionHalf)>
            }),
    {
        proof {
            self.lemma_bounds();
        }
        let raw = self.0;
        if raw < 0x3f {
            Some(triangle_of_root(raw))
        } else {
            None
        }
    }

    /// Get the containing region of this node, at any depth.
    pub fn region(self) -> (r: (WorldRegion, RegionHalf))
        requires
            self.wf(),
        ensures
            r == self.spec_region(),
    {
        proof {
            self.lemma_bounds();
            lemma2_to64();
            lemma_depth_from_leading_zeros(self.0, 4, 2);
            lemma_root_by_division(self.0 as nat, 4, 2);
        }
        let shift = (58 - self.0.leading_zeros()) as u64;
        proof {
            lemma_u64_shr_is_div(self.0, shift);
        }
        triangle_of_root(self.0 >> shift)
    }

    /// Wrap a raw key if it is a valid index.
    pub fn from_u64(raw: u64) -> (r: Option<Self>)
        ensures
            r is Some <==> is_packed(raw as nat, 4),
            r matches Some(i) ==> i.0 == raw,
    {
        proof {
            vstd::arithmetic::power2::lemma2_to64();
        }
        if is_packed_key(raw, 2) {
            Some(QuadtreeIndex(raw))
        } else {
            None
        }
    }

    /// The key of this index as stored: its raw integer, little-endian.
    pub fn as_bytes(&self) -> (r: Vec<u8>)
        ensures
            r@ == spec_u64_to_le_bytes(self.0),
            decoded(r@) == self.0,
    {
        encode_key(self.0)
    }

    /// The index stored in the first eight bytes of `data`, if they hold a valid one.
    pub fn from_bytes(data: &[u8]) -> (r: Option<Self>)
        requires
            data@.len() >= KEY_WIDTH,
        ensures
            r is Some <==> is_packed(decoded(data@) as nat, 4),
            r matches Some(i) ==> i.0 == decoded(data@),
    {
        Self::from_u64(decode_key(data))
    }

    /// Compare two stored keys as the unsigned integers they hold.
    pub fn compare(data1: &[u8], data2: &[u8]) -> (r: Ordering)
        requires
            data1@.len() >= KEY_WIDTH,
            data2@.len() >= KEY_WIDTH,
        ensures
            r == key_order(decoded(data1@), decoded(data2@)),
    {
        compare_keys(data1, data2)
    }

    /// Find the index of a point given by its fixed-point barycentric fractions
    /// `(n2w, n2e)` within the root triangle `(region, half)`.
    ///
    /// Starting at the root, the traversal calls `visit` on each node it reaches, root
    /// first, and steps into the child that holds the point. It stops at the first
    /// node for which `visit` breaks, returning that node and the visitor's payload,
    /// or at the maximum depth, returning the deepest node and `None`.
    pub fn hash_fixed<R, F: FnMut(QuadtreeIndex) -> ControlFlow<R>>(
        region: WorldRegion,
        half: RegionHalf,
        n2w: u32,
        n2e: u32,
        visit: F,
    ) -> (r: (Self, Option<R>))
        requires
            in_triangle(n2w, n2e),
            forall|i: QuadtreeIndex| call_requires(visit, (i,)),
        ensures
            r.0.wf(),
            r.0.spec_region() == (region, half),
            r.0.0 == quad_cell(root_key(region, half), n2w, n2e, r.0.spec_depth()),
            continues_along(visit, root_key(region, half), n2w, n2e, r.0.spec_depth()),
            match r.1 {
                Some(x) => call_ensures(visit, (r.0,), ControlFlow::Break(x)),
                None => r.0.spec_depth() == MAX_QUADTREE_DEPTH && call_ensures(
                    visit,
                    (r.0,),
                    ControlFlow::Continue(()),
                ),
            },
            (forall|i: QuadtreeIndex, c: ControlFlow<R>| #[trigger]
                call_ensures(visit, (i,), c) ==> c is Continue) ==> r.1 is None
                && r.0.spec_depth() == MAX_QUADTREE_DEPTH,
    {
        let ghost root = root_key(region, half);
        let mut step = visit;
        let mut index = Self::from_region(region, half);
        let cf = step(index);
        match cf {
            ControlFlow::Break(ret) => {
                return (index, Some(ret));
            },
            ControlFlow::Continue(_unit) => {
                assert(cf == ControlFlow::<R, ()>::Continue(()));
            },
        }
        let mut w = n2w;
        let mut e = n2e;
        loop
            invariant
                root == root_key(region, half),
                step == visit,
                in_triangle(w, e),
                index.wf(),
                index.spec_depth() <= MAX_QUADTREE_DEPTH,
                index.spec_region() == (region, half),
                (w, e) == fractions_after(n2w, n2e, index.spec_depth()),
                index.0 == quad_cell(root, n2w, n2e, index.spec_depth()),
                call_ensures(visit, (index,), ControlFlow::Continue(())),
                continues_along(visit, root, n2w, n2e, index.spec_depth()),
                forall|i: QuadtreeIndex| call_requires(visit, (i,)),
            decreases MAX_QUADTREE_DEPTH - index.spec_depth(),
        {
            proof {
                index.lemma_bounds();
            }
            let (h, w2, e2) = HorizontalSubdivision::subdivide(w, e);
            let prev = index;
            let next = index.child(h);
            if next.is_err() {
                return (prev, None);
            }
            index = next.unwrap();
            w = w2;
            e = e2;
            proof {
                lemma_cell_step(root, n2w, n2e, prev.spec_depth());
            }
            assert(continues_along(visit, root, n2w, n2e, index.spec_depth())) by {
                assert forall|j: nat| j < index.spec_depth() implies call_ensures(
                    visit,
                    (QuadtreeIndex(#[trigger] quad_cell(root, n2w, n2e, j) as u64),),
                    ControlFlow::Continue(()),
                ) by {
                    if j == prev.spec_depth() {
                        assert(prev.0 == quad_cell(root, n2w, n2e, j) as u64);
                    }
                }
            }
            let cf = step(index);
            match cf {
                ControlFlow::Break(ret) => {
                    return (index, Some(ret));
                },
                ControlFlow::Continue(_unit) => {
                    assert(cf == ControlFlow::<R, ()>::Continue(()));
                },
            }
        }
    }
}

/// Each of the four children of an index above the maximum depth, the keys of the
/// range that `children` returns, names that index as its parent, with the
/// subdivision that leads back down, and lies one level deeper in the same root
/// triangle.
pub proof fn lemma_children_parent(index: QuadtreeIndex, i: nat)
    requires
        index.wf(),
        index.spec_depth() < MAX_QUADTREE_DEPTH,
        i < 4,
    ensures
        QuadtreeIndex((index.0 * 4 + i) as u64).wf(),
        QuadtreeIndex((index.0 * 4 + i) as u64).spec_parent() == Some((index, horizontal_of(i))),
        QuadtreeIndex((index.0 * 4 + i) as u64).spec_depth() == index.spec_depth() + 1,
        QuadtreeIndex((index.0 * 4 + i) as u64).spec_region() == index.spec_region(),
{
    index.lemma_bounds();
    lemma_step(index.0 as nat, 4, i);
}

/// Keys sort as a depth-first walk of the tree: of two indices at one depth, every
/// child of the smaller sorts before every child of the larger.
pub proof fn lemma_children_order(a: QuadtreeIndex, b: QuadtreeIndex, i: nat, j: nat)
    requires
        a.wf(),
        b.wf(),
        a.spec_depth() == b.spec_depth(),
        a.0 < b.0,
        i < 4,
        j < 4,
    ensures
        a.0 * 4 + i < b.0 * 4 + j,
{
}

/// A point's key at each depth is its key one level deeper with the lowest two
/// bits dropped. So two points whose paths reach the same cell agree at every
/// shallower depth, and two points in one cell reach sibling cells one level down,
/// whose keys differ only in their lowest two bits.
pub proof fn lemma_cell_locality(root: nat, w1: u32, e1: u32, w2: u32, e2: u32, d: nat)
    ensures
        quad_cell(root, w1, e1, d + 1) / 4 == quad_cell(root, w1, e1, d),
        quad_cell(root, w1, e1, d) == quad_cell(root, w2, e2, d) ==> (forall|j: nat|
            j <= d ==> #[trigger] quad_cell(root, w1, e1, j) == quad_cell(root, w2, e2, j)),
        quad_cell(root, w1, e1, d) == quad_cell(root, w2, e2, d) ==> quad_cell(root, w1, e1, d + 1)
            / 4 == quad_cell(root, w2, e2, d + 1) / 4,
    decreases d,
{
    lemma_cell_parent(root, w1, e1, d);
    lemma_cell_parent(root, w2, e2, d);
    if d > 0 {
        lemma_cell_locality(root, w1, e1, w2, e2, (d - 1) as nat);
        if quad_cell(root, w1, e1, d) == quad_cell(root, w2, e2, d) {
            assert(quad_cell(root, w1, e1, (d - 1) as nat) == quad_cell(root, w2, e2, (d - 1) as nat));
        }
    }
}

proof fn lemma_cell_parent(root: nat, n2w: u32, n2e: u32, d: nat)
    ensures
        quad_cell(root, n2w, n2e, d + 1) / 4 == quad_cell(root, n2w, n2e, d),
{
    let c = quad_cell(root, n2w, n2e, d);
    let b = step_taken(n2w, n2e, d).bits();
    lemma_cell_step(root, n2w, n2e, d);
    lemma_fundamental_div_mod_converse((c * 4 + b) as int, 4, c as int, b as int);
}

} // verus!
