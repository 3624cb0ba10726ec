//! Indices of the four vertices of a tetrahedron, ids of vertices and tetrahedra in
//! a mesh, and the face links between neighbouring tetrahedra.
use vstd::prelude::*;

verus! {

/// A vertex index of a tetrahedron.
#[derive(Debug, Clone, Copy, PartialEq, Eq, PartialOrd, Ord, Hash, Structural)]
pub enum VertexIdx {
    V0,
    V1,
    V2,
    V3,
}

/// The vertex index at position `i`, for `i < 4`.
pub open spec fn vertex_at(i: nat) -> VertexIdx {
    if i == 0 {
        VertexIdx::V0
    } else if i == 1 {
        VertexIdx::V1
    } else if i == 2 {
        VertexIdx::V2
    } else {
        VertexIdx::V3
    }
}

/// A vertex ID for a mesh.
#[derive(Debug, Clone, Copy, PartialEq, Eq, PartialOrd, Ord, Hash)]
pub struct VertexId<K>(pub K);

/// A tetrahedron ID in a mesh.
#[derive(Debug, Clone, Copy, PartialEq, Eq, PartialOrd, Ord, Hash)]
pub struct TetraId<K>(pub K);

/// A face link packed into one integer: the neighbour's key above two bits of vertex
/// index, with the all-ones value for no neighbour.
#[derive(Debug, Clone, Copy, PartialEq, Eq, PartialOrd, Ord, Hash)]
pub struct PackedFace<K>(pub K);

/// The link across a face of a tetrahedron: the neighbouring tetrahedron and the
/// index of its vertex opposite the shared face, or nothing at the mesh's boundary.
///
/// This acts as an `Option<(TetraId<K>, VertexIdx)>`; denser layouts are possible.
pub trait FaceData<K>: Sized {
    /// The link this value stands for.
    spec fn link(&self) -> Option<(TetraId<K>, VertexIdx)>;

    /// Whether a link to `key` can be stored.
    spec fn can_pack(key: TetraId<K>) -> bool;

    /// Pack a key and a vertex index into `Self`.
    fn pack(key: TetraId<K>, idx: VertexIdx) -> (r: Self)
        requires
            Self::can_pack(key),
        ensures
            r.link() == Some((key, idx)),
    ;

    /// Unpack a link that is present.
    fn unpack(self) -> (r: (TetraId<K>, VertexIdx))
        requires
            self.link() is Some,
        ensures
            self.link() == Some(r),
    ;

    /// The value for no link.
    fn none() -> (r: Self)
        ensures
            r.link() is None,
    ;

    /// Whether a link is present.
    fn is_some(&self) -> (r: bool)
        ensures
            r == self.link() is Some,
    ;

    /// Whether no link is present.
    fn is_none(&self) -> (r: bool)
        ensures
            r == self.link() is None,
    ;

    /// The link as an `Option`.
    fn into_option(self) -> (r: Option<(TetraId<K>, VertexIdx)>)
        ensures
            r == self.link(),
    ;

    /// Store a link given as an `Option`.
    fn from_option(opt: Option<(TetraId<K>, VertexIdx)>) -> (r: Self)
        requires
            opt matches Some(l) ==> Self::can_pack(l.0),
        ensures
            r.link() == opt,
    ;
}

impl<K> FaceData<K> for Option<(TetraId<K>, VertexIdx)> {
    open spec fn link(&self) -> Option<(TetraId<K>, VertexIdx)> {
        *self
    }

    open spec fn can_pack(key: TetraId<K>) -> bool {
        true
    }

    fn pack(key: TetraId<K>, idx: VertexIdx) -> (r: Self) {
        Some((key, idx))
    }

    fn unpack(self) -> (r: (TetraId<K>, VertexIdx)) {
        self.unwrap()
    }

    fn none() -> (r: Self) {
        None
    }

    fn is_some(&self) -> (r: bool) {
        Option::is_some(self)
    }

    fn is_none(&self) -> (r: bool) {
        Option::is_none(self)
    }

    fn into_option(self) -> (r: Option<(TetraId<K>, VertexIdx)>) {
        self
    }

    fn from_option(opt: Option<(TetraId<K>, VertexIdx)>) -> (r: Self) {
        opt
    }
}

impl FaceData<u64> for PackedFace<u64> {
    open spec fn link(&self) -> Option<(TetraId<u64>, VertexIdx)> {
        if self.0 == u64::MAX {
            None
        } else {
            Some((TetraId(self.0 >> 2), vertex_at((self.0 & 3) as nat)))
        }
    }

    open spec fn can_pack(key: TetraId<u64>) -> bool {
        key.0 < 0x3fff_ffff_ffff_ffff
    }

    fn pack(key: TetraId<u64>, idx: VertexIdx) -> (r: Self) {
        let k = key.0;
        let d = idx.to_usize() as u64;
        assert(((k << 2u64) | d) >> 2u64 == k && ((k << 2u64) | d) & 3u64 == d && (k << 2u64) | d
            != 0xffff_ffff_ffff_ffffu64) by (bit_vector)
            requires
                k < 0x3fff_ffff_ffff_ffffu64 && d < 4,
        ;
        PackedFace((k << 2) | d)
    }

    fn unpack(self) -> (r: (TetraId<u64>, VertexIdx)) {
        let raw = self.0;
        assert(raw & 3u64 < 4) by (bit_vector);
        let idx = VertexIdx::from_usize_unchecked((raw & 3) as usize);
        (TetraId(raw >> 2), idx)
    }

    fn none() -> (r: Self) {
        PackedFace(u64::MAX)
    }

    fn is_some(&self) -> (r: bool) {
        self.0 != u64::MAX
    }

    fn is_none(&self) -> (r: bool) {
        self.0 == u64::MAX
    }

    fn into_option(self) -> (r: Option<(TetraId<u64>, VertexIdx)>) {
        if self.is_some() {
            Some(self.unpack())
        } else {
            None
        }
    }

    fn from_option(opt: Option<(TetraId<u64>, VertexIdx)>) -> (r: Self) {
        match opt {
            Some((key, idx)) => Self::pack(key, idx),
            None => Self::none(),
        }
    }
}

impl VertexIdx {
    /// A vertex index names its position back.
    pub proof fn lemma_index_names(self)
        ensures
            self.index() < 4,
            vertex_at(self.index()) == self,
    {
    }

    /// Extract the value at this index from an array, and return the remaining three
    /// elements, starting after the index and wrapping around:
    /// `V1.extract([a, b, c, d]) == (b, [c, d, a])`.
    pub fn extract<T: Copy>(self, arr: [T; 4]) -> (r: (T, [T; 3]))
        ensures
            r.0 == arr@[self.index() as int],
            r.1@ == seq![
                arr@[((self.index() + 1) % 4) as int],
                arr@[((self.index() + 2) % 4) as int],
                arr@[((self.index() + 3) % 4) as int],
            ],
    {
        let i = self.to_usize();
        let r = (arr[i], [arr[(i + 1) % 4], arr[(i + 2) % 4], arr[(i + 3) % 4]]);
        assert(r.1@ =~= seq![
            arr@[((self.index() + 1) % 4) as int],
            arr@[((self.index() + 2) % 4) as int],
            arr@[((self.index() + 3) % 4) as int],
        ]);
        r
    }

    /// The vertex index at position `i`.
    pub fn from_usize_unchecked(i: usize) -> (r: Self)
        requires
            i < 4,
        ensures
            r.index() == i,
            r == vertex_at(i as nat),
    {
        match i {
            0 => VertexIdx::V0,
            1 => VertexIdx::V1,
            2 => VertexIdx::V2,
            _ => VertexIdx::V3,
        }
    }

    /// The position of the vertex, in `0..4`.
    pub open spec fn index(self) -> nat {
        match self {
            VertexIdx::V0 => 0,
            VertexIdx::V1 => 1,
            VertexIdx::V2 => 2,
            VertexIdx::V3 => 3,
        }
    }

    /// Convert `self` to a `usize`.
    pub fn to_usize(self) -> (r: usize)
        ensures
            r == self.index(),
    {
        match self {
            VertexIdx::V0 => 0,
            VertexIdx::V1 => 1,
            VertexIdx::V2 => 2,
            VertexIdx::V3 => 3,
        }
    }
}

/// The vertices and face links of a tetrahedron.
pub trait TetraData<K> {
    /// The vertex at position `vert`.
    spec fn vertex_at(&self, vert: VertexIdx) -> VertexId<K>;

    /// The link across the face opposite vertex `face`.
    spec fn link_at(&self, face: VertexIdx) -> Option<(TetraId<K>, VertexIdx)>;

    /// Get the vertex at position `vert`.
    fn vertex(&self, vert: VertexIdx) -> (r: VertexId<K>)
        ensures
            r == self.vertex_at(vert),
    ;

    /// Get the link across the face opposite vertex `face`.
    fn face(&self, face: VertexIdx) -> (r: Option<(TetraId<K>, VertexIdx)>)
        ensures
            r == self.link_at(face),
    ;
}

/// Tetrahedron data that can be changed in place.
pub trait TetraDataMut<K>: TetraData<K> {
    /// Whether a link to `key` can be stored.
    spec fn can_link(key: TetraId<K>) -> bool;

    /// Set the vertex at position `vert`, leaving everything else as it was.
    fn set_vertex(&mut self, vert: VertexIdx, val: VertexId<K>)
        ensures
            final(self).vertex_at(vert) == val,
            forall|v: VertexIdx| v != vert ==> final(self).vertex_at(v) == old(self).vertex_at(v),
            forall|f: VertexIdx| final(self).link_at(f) == old(self).link_at(f),
    ;

    /// Set the link across the face opposite vertex `face`, leaving everything else
    /// as it was.
    fn set_face(&mut self, face: VertexIdx, val: Option<(TetraId<K>, VertexIdx)>)
        requires
            val matches Some(l) ==> Self::can_link(l.0),
        ensures
            final(self).link_at(face) == val,
            forall|f: VertexIdx| f != face ==> final(self).link_at(f) == old(self).link_at(f),
            forall|v: VertexIdx| final(self).vertex_at(v) == old(self).vertex_at(v),
    ;
}

/// A face link held as an `Option`.
pub type BasicFace<K> = Option<(TetraId<K>, VertexIdx)>;

/// A tetrahedron whose face links are packed integers.
pub type PackedTetra<K, T = ()> = Tetra<K, PackedFace<K>, T>;

/// A tetrahedron: for each of its four vertices, the vertex's id and the link across
/// the face opposite it, with associated data.
#[derive(Debug, Clone, Copy, PartialEq)]
pub struct Tetra<K, F = BasicFace<K>, T = ()> {
    pub conns: [(VertexId<K>, F); 4],
    pub data: T,
}

impl<K: Copy, F: FaceData<K> + Copy, T> TetraData<K> for Tetra<K, F, T> {
    open spec fn vertex_at(&self, vert: VertexIdx) -> VertexId<K> {
        self.conns@[vert.index() as int].0
    }

    open spec fn link_at(&self, face: VertexIdx) -> Option<(TetraId<K>, VertexIdx)> {
        self.conns@[face.index() as int].1.link()
    }

    fn vertex(&self, vert: VertexIdx) -> (r: VertexId<K>) {
        self.conns[vert.to_usize()].0
    }

    fn face(&self, face: VertexIdx) -> (r: Option<(TetraId<K>, VertexIdx)>) {
        self.conns[face.to_usize()].1.into_option()
    }
}

impl<K: Copy, F: FaceData<K> + Copy, T> TetraDataMut<K> for Tetra<K, F, T> {
    open spec fn can_link(key: TetraId<K>) -> bool {
        F::can_pack(key)
    }

    fn set_vertex(&mut self, vert: VertexIdx, val: VertexId<K>) {
        let i = vert.to_usize();
        let (_, face) = self.conns[i];
        self.conns.set(i, (val, face));
        proof {
            assert forall|v: VertexIdx| v != vert implies v.index() != vert.index() by {
                v.lemma_index_names();
                vert.lemma_index_names();
            }
        }
    }

    fn set_face(&mut self, face: VertexIdx, val: Option<(TetraId<K>, VertexIdx)>) {
        let i = face.to_usize();
        let (vertex, _) = self.conns[i];
        self.conns.set(i, (vertex, F::from_option(val)));
        proof {
            assert forall|f: VertexIdx| f != face implies f.index() != face.index() by {
                f.lemma_index_names();
                face.lemma_index_names();
            }
        }
    }
}

} // verus!
