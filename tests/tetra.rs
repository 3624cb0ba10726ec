use factor_world::tetra::{
    BasicFace, FaceData, PackedFace, PackedTetra, Tetra, TetraData, TetraDataMut, TetraId,
    VertexId, VertexIdx,
};

#[test]
fn packed_face_round_trip() {
    let f = PackedFace::<u64>::pack(TetraId(5), VertexIdx::V2);
    assert_eq!(f.0, 5 << 2 | 2);
    assert!(FaceData::is_some(&f));
    assert_eq!(f.unpack(), (TetraId(5), VertexIdx::V2));
    assert_eq!(f.into_option(), Some((TetraId(5), VertexIdx::V2)));
    let none = PackedFace::<u64>::none();
    assert_eq!(none.0, u64::MAX);
    assert!(FaceData::is_none(&none));
    assert_eq!(none.into_option(), None);
    assert_eq!(PackedFace::<u64>::from_option(None), none);
}

#[test]
fn option_face_is_the_link() {
    let f: BasicFace<u32> = FaceData::pack(TetraId(9), VertexIdx::V3);
    assert_eq!(f, Some((TetraId(9), VertexIdx::V3)));
    assert_eq!(<BasicFace<u32> as FaceData<u32>>::none(), None);
}

#[test]
fn tetra_vertices_and_faces() {
    let none = PackedFace::<u64>::none();
    let mut t: PackedTetra<u64> = Tetra {
        conns: [
            (VertexId(10), none),
            (VertexId(11), none),
            (VertexId(12), none),
            (VertexId(13), none),
        ],
        data: (),
    };
    assert_eq!(t.vertex(VertexIdx::V2), VertexId(12));
    t.set_vertex(VertexIdx::V2, VertexId(42));
    assert_eq!(t.vertex(VertexIdx::V2), VertexId(42));
    assert_eq!(t.vertex(VertexIdx::V1), VertexId(11));
    t.set_face(VertexIdx::V0, Some((TetraId(7), VertexIdx::V1)));
    assert_eq!(t.face(VertexIdx::V0), Some((TetraId(7), VertexIdx::V1)));
    assert_eq!(t.face(VertexIdx::V3), None);
    assert_eq!(t.conns[0].1 .0, 7 << 2 | 1);
}

#[test]
fn vertex_index_positions() {
    assert_eq!(VertexIdx::from_usize_unchecked(1), VertexIdx::V1);
    assert_eq!(VertexIdx::V2.to_usize(), 2);
}

#[test]
fn vertex_extract_wraps_around() {
    assert_eq!(VertexIdx::V1.extract(['a', 'b', 'c', 'd']), ('b', ['c', 'd', 'a']));
    assert_eq!(VertexIdx::V0.extract([1, 2, 3, 4]), (1, [2, 3, 4]));
    assert_eq!(VertexIdx::V3.extract([1, 2, 3, 4]), (4, [1, 2, 3]));
}
