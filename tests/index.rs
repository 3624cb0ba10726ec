use factor_world::key::compare_keys;
use factor_world::octree::{OctreeIndex, MAX_OCTREE_DEPTH};
use factor_world::quadtree::{QuadtreeIndex, MAX_QUADTREE_DEPTH};
use factor_world::region::{Hemisphere, RegionHalf, WorldRegion};
use factor_world::subdivision::{HorizontalSubdivision, VerticalSubdivision, HALF, ONE};
use std::cmp::Ordering;
use std::ops::ControlFlow;

#[test]
fn region_ordinals() {
    assert_eq!(WorldRegion::R7.to_index(), 7);
    assert_eq!(WorldRegion::from_u8_unchecked(4), WorldRegion::R4);
    assert_eq!(WorldRegion::R2.flipped(), WorldRegion::R7);
    assert_eq!(WorldRegion::R7.flipped(), WorldRegion::R2);
    assert!(WorldRegion::R4.is_north());
    assert!(!WorldRegion::R4.is_south());
    assert!(WorldRegion::R5.is_south());
    assert_eq!(WorldRegion::R0.hemisphere(), Hemisphere::North);
    assert_eq!(WorldRegion::R9.hemisphere(), Hemisphere::South);
    assert_eq!(RegionHalf::from_u8_unchecked(1), RegionHalf::Antiprism);
}

#[test]
fn subdivide_picks_children() {
    assert_eq!(
        HorizontalSubdivision::subdivide(HALF + 1, 0),
        (HorizontalSubdivision::West, 2, 0)
    );
    assert_eq!(
        HorizontalSubdivision::subdivide(0, HALF + 2),
        (HorizontalSubdivision::East, 0, 4)
    );
    assert_eq!(
        HorizontalSubdivision::subdivide(100, 200),
        (HorizontalSubdivision::NorthSouth, 200, 400)
    );
    assert_eq!(
        HorizontalSubdivision::subdivide(HALF / 2, HALF / 2),
        (HorizontalSubdivision::Center, HALF, HALF)
    );
    // the west vertex itself stays the west vertex of the west child
    assert_eq!(
        HorizontalSubdivision::subdivide(ONE, 0),
        (HorizontalSubdivision::West, ONE, 0)
    );
    assert_eq!(
        HorizontalSubdivision::subdivide(0, ONE),
        (HorizontalSubdivision::East, 0, ONE)
    );
    assert_eq!(
        HorizontalSubdivision::subdivide(ONE - 4, 4),
        (HorizontalSubdivision::West, ONE - 8, 8)
    );
}

#[test]
fn subdivide_ties_avoid_north_south() {
    // exactly one half toward the west: the center child, not the north-south one
    assert_eq!(
        HorizontalSubdivision::subdivide(HALF, 0),
        (HorizontalSubdivision::Center, 0, ONE)
    );
    assert_eq!(
        HorizontalSubdivision::subdivide(0, HALF),
        (HorizontalSubdivision::Center, ONE, 0)
    );
}

#[test]
fn subdivision_codes() {
    assert_eq!(HorizontalSubdivision::from_u8_unchecked(2), HorizontalSubdivision::West);
    assert_eq!(HorizontalSubdivision::East.to_u8(), 3);
    assert_eq!(VerticalSubdivision::from_u8_unchecked(4), VerticalSubdivision::Upper);
    assert_eq!(VerticalSubdivision::Lower.to_u8(), 0);
}

#[test]
fn quadtree_child_and_parent() {
    let root = QuadtreeIndex::from_region(WorldRegion::R0, RegionHalf::Pyramid);
    assert_eq!(root.0, 0x20);
    let c = root.child(HorizontalSubdivision::West).unwrap();
    assert_eq!(c.0, 0x82);
    assert_eq!(c.depth(), 1);
    assert_eq!(c.parent(), Some((root, HorizontalSubdivision::West)));
    assert_eq!(c.is_root(), None);
    assert_eq!(c.region(), (WorldRegion::R0, RegionHalf::Pyramid));
}

#[test]
fn quadtree_children_name_their_parent() {
    let index = QuadtreeIndex::from_region(WorldRegion::R6, RegionHalf::Antiprism)
        .child(HorizontalSubdivision::Center)
        .unwrap()
        .child(HorizontalSubdivision::NorthSouth)
        .unwrap();
    let range = index.children().unwrap();
    assert_eq!(range.end.0 - range.start.0, 4);
    for raw in range.start.0..range.end.0 {
        let child = QuadtreeIndex::from_u64(raw).unwrap();
        let (parent, h) = child.parent().unwrap();
        assert_eq!(parent, index);
        assert_eq!(h.to_u8() as u64, raw & 3);
        assert_eq!(child.depth(), index.depth() + 1);
        assert_eq!(parent.depth(), child.depth() - 1);
        assert_eq!(child.region(), (WorldRegion::R6, RegionHalf::Antiprism));
    }
}

#[test]
fn quadtree_one_level_above_max_has_children() {
    let mut index = QuadtreeIndex::from_region(WorldRegion::R1, RegionHalf::Antiprism);
    for _ in 0..MAX_QUADTREE_DEPTH - 1 {
        index = index.child(HorizontalSubdivision::West).unwrap();
    }
    assert_eq!(index.depth(), 28);
    let range = index.children().unwrap();
    assert_eq!(range.start.depth(), 29);
    assert!(range.start.child(HorizontalSubdivision::NorthSouth).is_err());
}

#[test]
fn quadtree_hash_breaks_early() {
    let (index, payload) = QuadtreeIndex::hash_fixed(
        WorldRegion::R4,
        RegionHalf::Antiprism,
        HALF + 1,
        0,
        |i: QuadtreeIndex| {
            if i.depth() == 2 {
                ControlFlow::Break(i.0)
            } else {
                ControlFlow::Continue(())
            }
        },
    );
    assert_eq!(index.depth(), 2);
    assert_eq!(payload, Some(index.0));
    // West first (n2w > 1/2), then from (2, 0) the north-south child
    let expected = QuadtreeIndex::from_region(WorldRegion::R4, RegionHalf::Antiprism)
        .child(HorizontalSubdivision::West)
        .unwrap()
        .child(HorizontalSubdivision::NorthSouth)
        .unwrap();
    assert_eq!(index, expected);
}

#[test]
fn quadtree_hash_breaks_at_root() {
    let (index, payload) = QuadtreeIndex::hash_fixed(
        WorldRegion::R8,
        RegionHalf::Pyramid,
        0,
        0,
        |_| ControlFlow::Break("root"),
    );
    assert_eq!(index.is_root(), Some((WorldRegion::R8, RegionHalf::Pyramid)));
    assert_eq!(payload, Some("root"));
}

fn cell_at(depth: u32, w: u32, e: u32) -> QuadtreeIndex {
    QuadtreeIndex::hash_fixed(WorldRegion::R3, RegionHalf::Pyramid, w, e, |i| {
        if i.depth() == depth {
            ControlFlow::Break(())
        } else {
            ControlFlow::Continue(())
        }
    })
    .0
}

#[test]
fn quadtree_hash_same_cell_same_index() {
    // cells at depth 10 are 2^19 fixed-point units wide: these two points share one
    let (w, e) = (3 << 20, 5 << 20);
    let a = cell_at(10, w, e);
    let b = cell_at(10, w + 1000, e + 77);
    assert_eq!(a.depth(), 10);
    assert_eq!(a, b);
    for d in 0..10 {
        assert_eq!(cell_at(d, w, e), cell_at(d, w + 1000, e + 77));
    }
}

#[test]
fn quadtree_hash_sibling_cells() {
    let (w, e) = (3 << 20, 5 << 20);
    let a = cell_at(10, w, e);
    let parent = cell_at(9, w, e);
    let mut found = false;
    for k in 1..64u32 {
        let e2 = e + k * (1 << 17);
        if cell_at(9, w, e2) == parent && cell_at(10, w, e2) != a {
            let c = cell_at(10, w, e2);
            assert_eq!(a.0 >> 2, c.0 >> 2);
            assert_eq!(c.parent().unwrap().0, parent);
            found = true;
            break;
        }
    }
    assert!(found);
}

#[test]
fn quadtree_keys_sort_depth_first() {
    let root = QuadtreeIndex::from_region(WorldRegion::R2, RegionHalf::Pyramid);
    let a = root.child(HorizontalSubdivision::Center).unwrap();
    let b = root.child(HorizontalSubdivision::West).unwrap();
    assert!(a < b);
    let a_last = a.child(HorizontalSubdivision::East).unwrap();
    let b_first = b.child(HorizontalSubdivision::NorthSouth).unwrap();
    assert!(a_last < b_first);
}

#[test]
fn quadtree_from_u64_checks_the_key() {
    assert!(QuadtreeIndex::from_u64(0).is_none());
    assert!(QuadtreeIndex::from_u64(31).is_none());
    assert_eq!(QuadtreeIndex::from_u64(0x20), Some(QuadtreeIndex(0x20)));
    assert_eq!(QuadtreeIndex::from_u64(0x33), Some(QuadtreeIndex(0x33)));
    // region ordinal 10 does not exist
    assert!(QuadtreeIndex::from_u64(0x34).is_none());
    // a leading bit at an odd distance from the root bits is no quadtree key
    assert!(QuadtreeIndex::from_u64(0x40).is_none());
    assert_eq!(QuadtreeIndex::from_u64(0x80).map(|i| i.depth()), Some(1));
}

#[test]
fn quadtree_key_bytes_round_trip() {
    let index = QuadtreeIndex::from_region(WorldRegion::R5, RegionHalf::Antiprism)
        .child(HorizontalSubdivision::East)
        .unwrap();
    let bytes = index.as_bytes();
    assert_eq!(bytes, index.0.to_le_bytes().to_vec());
    assert_eq!(QuadtreeIndex::from_bytes(&bytes), Some(index));
    assert!(QuadtreeIndex::from_bytes(&[0u8; 8]).is_none());
    let other = QuadtreeIndex::from_region(WorldRegion::R9, RegionHalf::Pyramid);
    assert_eq!(
        QuadtreeIndex::compare(&bytes, &other.as_bytes()),
        index.0.cmp(&other.0)
    );
    assert_eq!(compare_keys(&bytes, &bytes), Ordering::Equal);
}

#[test]
fn octree_child_and_parent() {
    let root = OctreeIndex::from_region(WorldRegion::R0, RegionHalf::Pyramid);
    let c = root
        .child(HorizontalSubdivision::East, VerticalSubdivision::Upper)
        .unwrap();
    assert_eq!(c.0, 0x107);
    assert_eq!(c.depth(), 1);
    assert_eq!(
        c.parent(),
        Some((root, HorizontalSubdivision::East, VerticalSubdivision::Upper))
    );
    assert_eq!(c.region(), (WorldRegion::R0, RegionHalf::Pyramid));
    assert!(c.is_root().is_none());
    assert_eq!(root.is_root(), Some((WorldRegion::R0, RegionHalf::Pyramid)));
}

#[test]
fn octree_children_name_their_parent() {
    let index = OctreeIndex::from_region(WorldRegion::R7, RegionHalf::Pyramid)
        .child(HorizontalSubdivision::West, VerticalSubdivision::Lower)
        .unwrap();
    let range = index.children().unwrap();
    assert_eq!(range.end.0 - range.start.0, 8);
    for raw in range.start.0..range.end.0 {
        let child = OctreeIndex::from_u64(raw).unwrap();
        let (parent, h, v) = child.parent().unwrap();
        assert_eq!(parent, index);
        assert_eq!((h.to_u8() | v.to_u8()) as u64, raw & 7);
        assert_eq!(child.depth(), index.depth() + 1);
    }
}

#[test]
fn octree_hash_never_breaking() {
    let (index, payload) = OctreeIndex::hash_fixed(
        WorldRegion::R5,
        RegionHalf::Antiprism,
        1 << 26,
        1 << 27,
        (1 << 18) + 5,
        |_| ControlFlow::<()>::Continue(()),
    );
    assert!(payload.is_none());
    assert_eq!(index.depth(), MAX_OCTREE_DEPTH);
    assert_eq!(index.region(), (WorldRegion::R5, RegionHalf::Antiprism));
}

#[test]
fn octree_hash_altitude_halves() {
    let first = |alt: u32| {
        OctreeIndex::hash_fixed(WorldRegion::R1, RegionHalf::Pyramid, 0, 0, alt, |i| {
            if i.depth() == 1 {
                ControlFlow::Break(())
            } else {
                ControlFlow::Continue(())
            }
        })
        .0
    };
    let root = OctreeIndex::from_region(WorldRegion::R1, RegionHalf::Pyramid);
    let upper = root
        .child(HorizontalSubdivision::NorthSouth, VerticalSubdivision::Upper)
        .unwrap();
    let lower = root
        .child(HorizontalSubdivision::NorthSouth, VerticalSubdivision::Lower)
        .unwrap();
    assert_eq!(first((1 << 18) + 1), upper);
    // the midpoint itself is the lower half
    assert_eq!(first(1 << 18), lower);
    assert_eq!(first(0), lower);
}

#[test]
fn octree_from_u64_checks_the_key() {
    assert_eq!(OctreeIndex::from_u64(0x107).map(|i| i.depth()), Some(1));
    // two bits below the root bits: a quadtree key, no octree key
    assert!(OctreeIndex::from_u64(0x80).is_none());
    assert!(OctreeIndex::from_u64(0x3f).is_none());
    let bytes = OctreeIndex(0x107).as_bytes();
    assert_eq!(OctreeIndex::from_bytes(&bytes), Some(OctreeIndex(0x107)));
    assert_eq!(
        OctreeIndex::compare(&bytes, &OctreeIndex(0x20).as_bytes()),
        Ordering::Greater
    );
}

#[test]
fn quadtree_path_round_trip() {
    let path = [
        HorizontalSubdivision::East,
        HorizontalSubdivision::NorthSouth,
        HorizontalSubdivision::Center,
        HorizontalSubdivision::West,
        HorizontalSubdivision::East,
    ];
    let root = QuadtreeIndex::from_region(WorldRegion::R9, RegionHalf::Antiprism);
    let mut index = root;
    for h in path {
        index = index.child(h).unwrap();
    }
    assert_eq!(index.depth(), 5);
    assert_eq!(index.0, 0b110011_11_00_01_10_11);
    let mut back = Vec::new();
    while let Some((parent, h)) = index.parent() {
        back.push(h);
        index = parent;
    }
    back.reverse();
    assert_eq!(back, path.to_vec());
    assert_eq!(index, root);
}

#[test]
fn encoded_keys_sort_as_integers() {
    let keys = [0x20u64, 0x33, 0x80, 0x1_0000, 0x8000_0000_0000_0000, 0xff];
    for &a in &keys {
        for &b in &keys {
            assert_eq!(
                compare_keys(&QuadtreeIndex(a).as_bytes(), &QuadtreeIndex(b).as_bytes()),
                a.cmp(&b)
            );
        }
    }
    // bytes past the eighth are not part of the key
    let mut long = QuadtreeIndex(0x80).as_bytes();
    long.push(0xff);
    assert_eq!(QuadtreeIndex::from_bytes(&long), Some(QuadtreeIndex(0x80)));
}

#[test]
fn quadtree_hash_at_the_west_vertex() {
    // every step keeps the point at the west vertex: the west child each time
    let (index, _) = QuadtreeIndex::hash_fixed(
        WorldRegion::R0,
        RegionHalf::Pyramid,
        ONE,
        0,
        |_| ControlFlow::<()>::Continue(()),
    );
    let mut expected = QuadtreeIndex::from_region(WorldRegion::R0, RegionHalf::Pyramid);
    for _ in 0..MAX_QUADTREE_DEPTH {
        expected = expected.child(HorizontalSubdivision::West).unwrap();
    }
    assert_eq!(index, expected);
}
