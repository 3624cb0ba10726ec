use factor_world::octree::{MaxOctreeDepth, OctreeIndex};
use factor_world::quadtree::{MaxQuadtreeDepth, QuadtreeIndex};
use factor_world::region::{RegionHalf, WorldRegion};
use factor_world::subdivision::HorizontalSubdivision;
use std::ops::ControlFlow;

#[test]
fn quadtree_root_round_trip() {
    let root = QuadtreeIndex::from_region(WorldRegion::R3, RegionHalf::Antiprism);
    assert_eq!(root.0, 0x20 | (3 << 1) | 1);
    assert_eq!(root.depth(), 0);
    assert_eq!(root.is_root(), Some((WorldRegion::R3, RegionHalf::Antiprism)));
    assert_eq!(root.region(), (WorldRegion::R3, RegionHalf::Antiprism));
    assert!(root.parent().is_none());
}

#[test]
fn quadtree_packing_bound() {
    let mut index = QuadtreeIndex::from_region(WorldRegion::R9, RegionHalf::Pyramid);
    for _ in 0..29 {
        index = index.child(HorizontalSubdivision::East).unwrap();
    }
    assert_eq!(index.depth(), 29);
    assert!(matches!(index.children(), Err(MaxQuadtreeDepth)));
    let (up, h) = index.parent().unwrap();
    assert_eq!(h, HorizontalSubdivision::East);
    assert!(up.children().is_ok());
}

#[test]
fn quadtree_hash_never_breaking() {
    let (index, payload) = QuadtreeIndex::hash_fixed(
        WorldRegion::R2,
        RegionHalf::Pyramid,
        1 << 27,
        1 << 27,
        |_| ControlFlow::<()>::Continue(()),
    );
    assert!(payload.is_none());
    assert_eq!(index.depth(), 29);
    assert_eq!(index.region(), (WorldRegion::R2, RegionHalf::Pyramid));
}

#[test]
fn octree_packing_bound() {
    let root = OctreeIndex::from_region(WorldRegion::R0, RegionHalf::Pyramid);
    let mut index = root;
    for _ in 0..19 {
        index = index.children().unwrap().start;
    }
    assert_eq!(index.depth(), 19);
    assert!(matches!(index.children(), Err(MaxOctreeDepth)));
}
