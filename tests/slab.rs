use factor_world::generation::{GenerationIndex, Generational, OptWithGeneration, Slab};
use factor_world::surface::SphereSurface;
use factor_world::tetra::VertexIdx;

#[test]
fn slab_insert_get_remove() {
    let mut slab: Slab<&str, 8> = Slab::new();
    let a = slab.insert("a");
    let b = slab.insert("b");
    assert_eq!(a, GenerationIndex::new(0, 1));
    assert_eq!(b, GenerationIndex::new(1, 1));
    assert_eq!(slab.get(a), Some(&"a"));
    assert!(slab.contains(b));
    assert_eq!(slab.max_idx(), 2);
    assert_eq!(slab.remove(a), Some("a"));
    assert!(!slab.contains(a));
    assert_eq!(slab.get(a), None);
    assert_eq!(slab.remove(a), None);
    // the freed slot is reused with a new generation
    let c = slab.insert("c");
    assert_eq!(c, GenerationIndex::new(0, 3));
    assert_eq!(slab.get(a), None);
    assert_eq!(slab.get(c), Some(&"c"));
    assert_eq!(slab.max_idx(), 2);
    // every slot is full again, so the next one goes at the end
    let d = slab.insert("d");
    assert_eq!(d.index, 2);
}

#[test]
fn slab_out_of_range_index() {
    let mut slab: Slab<u32, 4> = Slab::with_capacity(4);
    assert_eq!(slab.get(GenerationIndex::new(3, 1)), None);
    assert_eq!(slab.remove(GenerationIndex::new(3, 1)), None);
    assert!(!slab.contains(GenerationIndex::new(0, 1)));
}

#[test]
fn slab_lowest_free_slot_first() {
    let mut slab: Slab<u32, 4> = Slab::new();
    let ids: Vec<_> = (0..4).map(|v| slab.insert(v)).collect();
    slab.remove(ids[2]);
    slab.remove(ids[1]);
    assert_eq!(slab.insert(10).index, 1);
    assert_eq!(slab.insert(11).index, 2);
    assert_eq!(slab.insert(12).index, 4);
}

#[test]
fn slab_without_generations() {
    let mut slab: Slab<u32, 0> = Slab::new();
    let a = slab.insert(5);
    assert_eq!(a, GenerationIndex::new(0, 0));
    slab.remove(a);
    let b = slab.insert(6);
    // with no generation bits a stale index reaches the new value
    assert_eq!(b, a);
    assert_eq!(slab.get(a), Some(&6));
}

#[test]
fn slab_get_mut_and_listing() {
    let mut slab: Slab<u32, 16> = Slab::new();
    let a = slab.insert(1);
    let b = slab.insert(2);
    let c = slab.insert(3);
    *slab.get_mut(b).unwrap() = 20;
    slab.remove(a);
    assert!(slab.get_mut(a).is_none());
    let values: Vec<u32> = slab.values().into_iter().copied().collect();
    assert_eq!(values, vec![20, 3]);
    let entries: Vec<(GenerationIndex<u64>, u32)> =
        slab.iter().into_iter().map(|(i, v)| (i, *v)).collect();
    assert_eq!(entries, vec![(b, 20), (c, 3)]);
}

#[test]
fn generational_counts_wrap_in_their_bits() {
    let (mut slot, g) = Generational::<u8, 2>::with_value(1);
    assert_eq!(g, 1);
    assert_eq!(slot.insert_value(2), 3);
    assert_eq!(slot.insert_value(3), 1);
    assert_eq!(slot.drop_value_checked(3), None);
    assert_eq!(slot.drop_value_checked(1), Some(3));
    assert!(!slot.has_value());
    assert_eq!(slot.generation(), None);
    assert_eq!(slot.insert_value(4), 3);
    assert_eq!(slot.get(3), Some(&4));
    let empty = Generational::<u8, 2>::new();
    assert!(!empty.has_gen(0));
}

#[test]
fn option_slot_has_no_generation() {
    let (mut slot, ()) = <Option<u8> as OptWithGeneration>::with_value(7);
    assert!(OptWithGeneration::has_gen(&slot, ()));
    assert_eq!(OptWithGeneration::drop_value_checked(&mut slot, ()), Some(7));
    assert_eq!(OptWithGeneration::generation(&slot), None);
}

#[test]
fn surface_needs_two_squares_of_cells() {
    let s = SphereSurface::from_data(3, vec![0u8; 18]).unwrap();
    assert_eq!(s.len(), 18);
    assert_eq!(s.resolution(), 3);
    assert_eq!(s.as_slice().len(), 18);
    assert_eq!(SphereSurface::from_data(3, vec![0u8; 17]).err().map(|d| d.len()), Some(17));
    assert!(SphereSurface::from_data(0, Vec::<u8>::new()).is_err());
    assert!(SphereSurface::from_data(usize::MAX, vec![1u8]).is_err());
}

#[test]
fn vertex_positions() {
    assert_eq!(VertexIdx::V0.to_usize(), 0);
    assert_eq!(VertexIdx::V3.to_usize(), 3);
}

#[test]
fn one_generation_bit_cannot_tell_reuse() {
    let mut slab: Slab<u8, 1> = Slab::new();
    let a = slab.insert(1);
    slab.remove(a);
    let b = slab.insert(2);
    // a single bit only marks the slot as full, so the stale index reaches the new value
    assert_eq!(a, b);
    let mut slab: Slab<u8, 2> = Slab::new();
    let a = slab.insert(1);
    slab.remove(a);
    let b = slab.insert(2);
    assert_eq!(b, GenerationIndex::new(0, 3));
    assert!(!slab.contains(a));
}
