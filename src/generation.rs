//! A slab allocator whose slots carry a generation count, so that an index to a
//! slot that was freed and reused no longer reaches the new value.
use vstd::prelude::*;

verus! {

/// An index into a [`Slab`]: the slot and the generation it was handed out with.
#[derive(Debug, Clone, Copy, PartialEq, Eq, PartialOrd, Ord, Hash)]
pub struct GenerationIndex<M> {
    pub index: usize,
    pub generation: M,
}

impl<M> GenerationIndex<M> {
    /// The index of slot `index` with generation `generation`.
    pub fn new(index: usize, generation: M) -> (r: Self)
        ensures
            r.index == index,
            r.generation == generation,
    {
        Self { index, generation }
    }
}

/// The largest generation count of `bits` bits; zero bits keep no count at all.
pub open spec fn generation_mask(bits: nat) -> u64 {
    if bits >= 64 {
        0xffff_ffff_ffff_ffff
    } else {
        (vstd::arithmetic::power2::pow2(bits) - 1) as u64
    }
}

/// The generation a slot takes when a value is stored in it: two past its current
/// one, wrapping within the mask, and odd. With no bits the count stays zero.
pub open spec fn next_generation(g: u64, bits: nat) -> u64 {
    if bits == 0 {
        0
    } else {
        ((((g as int + 2) % 0x1_0000_0000_0000_0000) as u64) & generation_mask(bits)) | 1
    }
}

/// The generation of a slot after its value was taken: the low bit cleared.
pub open spec fn emptied_generation(g: u64) -> u64 {
    g & !1u64
}

/// The generation of a slot that was created holding a value.
pub open spec fn first_generation(bits: nat) -> u64 {
    if bits == 0 {
        0
    } else {
        1
    }
}

proof fn lemma_mask_odd(bits: nat)
    requires
        bits >= 1,
    ensures
        generation_mask(bits) % 2 == 1,
{
    if bits < 64 {
        vstd::arithmetic::power2::lemma_pow2_unfold(bits);
        vstd::arithmetic::power2::lemma_pow2_pos((bits - 1) as nat);
        vstd::bits::lemma_u64_pow2_no_overflow(bits);
    }
}

/// With at least two generation bits, a slot that is emptied and filled again takes a
/// generation other than the one it had, so an index handed out before no longer
/// reaches the new value.
pub proof fn lemma_reuse_changes_generation(g: u64, bits: nat)
    requires
        bits >= 2,
        g % 2 == 1,
        g & generation_mask(bits) == g,
    ensures
        next_generation(emptied_generation(g), bits) != g,
{
    let m = generation_mask(bits);
    lemma_mask_odd(bits);
    lemma_mask_low_bits(bits);
    if bits < 64 {
        vstd::arithmetic::power2::lemma_pow2_strictly_increases(1, bits);
        vstd::arithmetic::power2::lemma2_to64();
        vstd::bits::lemma_u64_pow2_no_overflow(bits);
    }
    assert(m >= 3);
    assert(g % 2 == 1 ==> (g & !1u64) == vstd::prelude::sub(g, 1u64)) by (bit_vector);
    assert(vstd::prelude::sub(g, 1u64) == g - 1);
    if g == 0xffff_ffff_ffff_ffff {
        assert(g == 0xffff_ffff_ffff_ffffu64 && g & m == g ==> (0u64 & m) | 1u64 != g)
            by (bit_vector);
    } else {
        assert(vstd::prelude::add(g, 1u64) == g + 1);
        assert(g & m == g && m & vstd::prelude::add(m, 1u64) == 0 && m >= 3 && g % 2 == 1 ==> ((
        vstd::prelude::add(g, 1u64) & m) | 1u64) != g) by (bit_vector);
    }
}

/// A generation mask is a run of low bits.
proof fn lemma_mask_low_bits(bits: nat)
    ensures
        generation_mask(bits) & vstd::prelude::add(generation_mask(bits), 1u64) == 0,
{
    if bits >= 64 {
        assert(0xffff_ffff_ffff_ffffu64 & vstd::prelude::add(0xffff_ffff_ffff_ffffu64, 1u64) == 0)
            by (bit_vector);
    } else {
        let b = bits as u64;
        vstd::bits::lemma_u64_pow2_no_overflow(bits);
        vstd::bits::lemma_u64_shl_is_mul(1, b);
        assert(b < 64 ==> vstd::prelude::sub(1u64 << b, 1u64) & vstd::prelude::add(
            vstd::prelude::sub(1u64 << b, 1u64),
            1u64,
        ) == 0) by (bit_vector);
    }
}

fn generation_mask_exec(bits: usize) -> (r: u64)
    ensures
        r == generation_mask(bits as nat),
{
    if bits >= 64 {
        0xffff_ffff_ffff_ffff
    } else {
        proof {
            vstd::bits::lemma_u64_pow2_no_overflow(bits as nat);
            vstd::bits::lemma_u64_shl_is_mul(1, bits as u64);
        }
        (1u64 << bits as u64) - 1
    }
}

/// A slot that acts like `Option<T>`, but with a generation count.
///
/// With `BITS` above zero the count is odd exactly while the slot holds a value, and
/// it never exceeds `BITS` bits. With `BITS` zero it is always zero.
#[derive(Debug, Clone)]
pub struct Generational<T, const BITS: usize> {
    generation: u64,
    value: Option<T>,
}

impl<T, const BITS: usize> Generational<T, BITS> {
    /// The generation count of the slot.
    pub closed spec fn spec_generation(&self) -> u64 {
        self.generation
    }

    /// The value the slot holds.
    pub closed spec fn spec_value(&self) -> Option<T> {
        self.value
    }

    /// The generation count agrees with the slot being full and fits its bits.
    pub closed spec fn wf(&self) -> bool {
        if BITS == 0 {
            self.generation == 0
        } else {
            &&& (self.generation % 2 == 1 <==> self.value is Some)
            &&& self.generation & generation_mask(BITS as nat) == self.generation
        }
    }

    /// Whether an index with generation `g` reaches the value of this slot.
    pub open spec fn spec_has_gen(&self, g: u64) -> bool {
        self.spec_value() is Some && (BITS == 0 || self.spec_generation() == g)
    }

    /// An empty slot.
    pub fn new() -> (r: Self)
        ensures
            r.wf(),
            r.spec_generation() == 0,
            r.spec_value() is None,
    {
        assert(0u64 & generation_mask(BITS as nat) == 0) by (bit_vector);
        Self { generation: 0, value: None }
    }

    /// A slot that holds `val`, with the generation it was given.
    pub fn with_value(val: T) -> (r: (Self, u64))
        ensures
            r.0.wf(),
            r.0.spec_value() == Some(val),
            r.0.spec_generation() == first_generation(BITS as nat),
            r.1 == first_generation(BITS as nat),
    {
        let g: u64 = if BITS == 0 {
            0
        } else {
            1
        };
        proof {
            if BITS > 0 {
                let m = generation_mask(BITS as nat);
                lemma_mask_odd(BITS as nat);
                assert(m % 2 == 1 ==> 1u64 & m == 1u64) by (bit_vector);
            }
        }
        (Self { generation: g, value: Some(val) }, g)
    }

    /// Whether the slot holds a value.
    pub fn has_value(&self) -> (r: bool)
        requires
            self.wf(),
        ensures
            r == self.spec_value() is Some,
    {
        self.value.is_some()
    }

    /// Whether an index with generation `generation` reaches the value of this slot.
    pub fn has_gen(&self, generation: u64) -> (r: bool)
        requires
            self.wf(),
        ensures
            r == self.spec_has_gen(generation),
    {
        self.value.is_some() && (BITS == 0 || self.generation == generation)
    }

    /// The generation of the slot while it holds a value.
    pub fn generation(&self) -> (r: Option<u64>)
        requires
            self.wf(),
        ensures
            r == (if self.spec_value() is Some {
                Some(self.spec_generation())
            } else {
                None
            }),
    {
        if self.value.is_some() {
            Some(self.generation)
        } else {
            None
        }
    }

    /// Take the value out of the slot, whatever its generation.
    pub fn drop_value_unchecked(&mut self) -> (r: Option<T>)
        requires
            old(self).wf(),
        ensures
            final(self).wf(),
            r == old(self).spec_value(),
            final(self).spec_value() is None,
            final(self).spec_generation() == (if old(self).spec_value() is Some {
                emptied_generation(old(self).spec_generation())
            } else {
                old(self).spec_generation()
            }),
    {
        if self.value.is_none() {
            return None;
        }
        self.make_empty()
    }

    /// Take the value out of the slot if an index with generation `generation`
    /// reaches it.
    pub fn drop_value_checked(&mut self, generation: u64) -> (r: Option<T>)
        requires
            old(self).wf(),
        ensures
            final(self).wf(),
            r == (if old(self).spec_has_gen(generation) {
                old(self).spec_value()
            } else {
                None
            }),
            old(self).spec_has_gen(generation) ==> final(self).spec_value() is None
                && final(self).spec_generation() == emptied_generation(old(self).spec_generation()),
            !old(self).spec_has_gen(generation) ==> *final(self) == *old(self),
    {
        if !self.has_gen(generation) {
            return None;
        }
        self.make_empty()
    }

    fn make_empty(&mut self) -> (r: Option<T>)
        requires
            old(self).wf(),
            old(self).spec_value() is Some,
        ensures
            final(self).wf(),
            r == old(self).spec_value(),
            final(self).spec_value() is None,
            final(self).spec_generation() == emptied_generation(old(self).spec_generation()),
    {
        let g = self.generation;
        let m = generation_mask_exec(BITS);
        assert(g & m == g ==> (g & !1u64) & m == g & !1u64 && (g & !1u64) % 2 == 0)
            by (bit_vector);
        assert(g == 0 ==> g & !1u64 == 0) by (bit_vector);
        self.generation = g & !1u64;
        self.value.take()
    }

    /// Store `val` in the slot, in place of any value it held, and return the
    /// slot's new generation.
    pub fn insert_value(&mut self, val: T) -> (r: u64)
        requires
            old(self).wf(),
        ensures
            final(self).wf(),
            r == next_generation(old(self).spec_generation(), BITS as nat),
            final(self).spec_generation() == r,
            final(self).spec_value() == Some(val),
    {
        let g = if BITS == 0 {
            0
        } else {
            let m = generation_mask_exec(BITS);
            let n = self.generation.wrapping_add(2);
            proof {
                lemma_mask_odd(BITS as nat);
            }
            assert(m % 2 == 1 ==> ((n & m) | 1u64) & m == (n & m) | 1u64 && ((n & m) | 1u64) % 2
                == 1) by (bit_vector);
            (n & m) | 1
        };
        self.generation = g;
        self.value = Some(val);
        g
    }

    /// The value of the slot, whatever its generation.
    pub fn get_unchecked(&self) -> (r: Option<&T>)
        requires
            self.wf(),
        ensures
            match r {
                Some(v) => self.spec_value() == Some(*v),
                None => self.spec_value() is None,
            },
    {
        self.value.as_ref()
    }

    /// The value of the slot, whatever its generation, to change in place.
    pub fn get_unchecked_mut(&mut self) -> (r: Option<&mut T>)
        requires
            old(self).wf(),
        ensures
            match r {
                Some(v) => old(self).spec_value() == Some(*v) && final(self).spec_value() == Some(
                    *final(v),
                ) && final(self).spec_generation() == old(self).spec_generation() && final(self).wf(),
                None => old(self).spec_value() is None && *final(self) == *old(self),
            },
    {
        self.value.as_mut()
    }

    /// The value of the slot if an index with generation `generation` reaches it, to
    /// change in place.
    pub fn get_mut(&mut self, generation: u64) -> (r: Option<&mut T>)
        requires
            old(self).wf(),
        ensures
            match r {
                Some(v) => old(self).spec_has_gen(generation) && old(self).spec_value() == Some(*v)
                    && final(self).spec_value() == Some(*final(v)) && final(self).spec_generation()
                    == old(self).spec_generation() && final(self).wf(),
                None => !old(self).spec_has_gen(generation) && *final(self) == *old(self),
            },
    {
        if self.has_gen(generation) {
            self.value.as_mut()
        } else {
            None
        }
    }

    /// The value of the slot if an index with generation `generation` reaches it.
    pub fn get(&self, generation: u64) -> (r: Option<&T>)
        requires
            self.wf(),
        ensures
            match r {
                Some(v) => self.spec_has_gen(generation) && self.spec_value() == Some(*v),
                None => !self.spec_has_gen(generation),
            },
    {
        if self.has_gen(generation) {
            self.value.as_ref()
        } else {
            None
        }
    }
}

/// A generation count, as carried by a [`GenerationIndex`].
pub trait Generation {

}

impl Generation for u64 {

}

impl Generation for () {

}

/// A type that acts like `Option<T>`, but with a generation count that an index must
/// match to reach the value.
pub trait OptWithGeneration: Sized {
    type Generation: Generation;

    type Value;

    /// The value the slot holds.
    spec fn held(&self) -> Option<Self::Value>;

    /// Whether an index with generation `generation` reaches the held value.
    spec fn reaches(&self, generation: Self::Generation) -> bool;

    /// Whether the slot's generation count agrees with its contents.
    spec fn consistent(&self) -> bool;

    /// Whether the slot holds a value.
    fn has_value(&self) -> (r: bool)
        requires
            self.consistent(),
        ensures
            r == self.held() is Some,
    ;

    /// Whether an index with generation `generation` reaches the value of this slot.
    fn has_gen(&self, generation: Self::Generation) -> (r: bool)
        requires
            self.consistent(),
        ensures
            r == self.reaches(generation),
            r ==> self.held() is Some,
    ;

    /// Take the value out of the slot, whatever its generation.
    fn drop_value_unchecked(&mut self) -> (r: Option<Self::Value>)
        requires
            old(self).consistent(),
        ensures
            final(self).consistent(),
            r == old(self).held(),
            final(self).held() is None,
    ;

    /// Take the value out of the slot if an index with generation `generation`
    /// reaches it.
    fn drop_value_checked(&mut self, generation: Self::Generation) -> (r: Option<Self::Value>)
        requires
            old(self).consistent(),
        ensures
            final(self).consistent(),
            r == (if old(self).reaches(generation) {
                old(self).held()
            } else {
                None
            }),
            old(self).reaches(generation) ==> final(self).held() is None,
            !old(self).reaches(generation) ==> final(self).held() == old(self).held(),
    ;

    /// Store `val` in the slot and return the generation that reaches it.
    fn insert_value(&mut self, val: Self::Value) -> (r: Self::Generation)
        requires
            old(self).consistent(),
        ensures
            final(self).consistent(),
            final(self).held() == Some(val),
            final(self).reaches(r),
    ;

    /// The value of the slot if an index with generation `generation` reaches it.
    fn get(&self, generation: Self::Generation) -> (r: Option<&Self::Value>)
        requires
            self.consistent(),
        ensures
            match r {
                Some(v) => self.reaches(generation) && self.held() == Some(*v),
                None => !self.reaches(generation),
            },
    ;

    /// The generation that reaches the value of the slot, while it holds one.
    fn generation(&self) -> (r: Option<Self::Generation>)
        requires
            self.consistent(),
        ensures
            r is Some <==> self.held() is Some,
            r matches Some(g) ==> self.reaches(g),
    ;

    /// A slot that holds `val`, with the generation that reaches it.
    fn with_value(val: Self::Value) -> (r: (Self, Self::Generation))
        ensures
            r.0.consistent(),
            r.0.held() == Some(val),
            r.0.reaches(r.1),
    ;
}

impl<T> OptWithGeneration for Option<T> {
    type Generation = ();

    type Value = T;

    open spec fn held(&self) -> Option<T> {
        *self
    }

    open spec fn reaches(&self, generation: ()) -> bool {
        self is Some
    }

    open spec fn consistent(&self) -> bool {
        true
    }

    fn has_value(&self) -> (r: bool) {
        self.is_some()
    }

    fn has_gen(&self, generation: ()) -> (r: bool) {
        self.is_some()
    }

    fn drop_value_unchecked(&mut self) -> (r: Option<T>) {
        self.take()
    }

    fn drop_value_checked(&mut self, generation: ()) -> (r: Option<T>) {
        self.take()
    }

    fn insert_value(&mut self, val: T) -> (r: ()) {
        *self = Some(val);
    }

    fn get(&self, generation: ()) -> (r: Option<&T>) {
        self.as_ref()
    }

    fn generation(&self) -> (r: Option<()>) {
        if self.is_some() {
            Some(())
        } else {
            None
        }
    }

    fn with_value(val: T) -> (r: (Self, ())) {
        (Some(val), ())
    }
}

impl<T, const BITS: usize> OptWithGeneration for Generational<T, BITS> {
    type Generation = u64;

    type Value = T;

    open spec fn held(&self) -> Option<T> {
        self.spec_value()
    }

    open spec fn reaches(&self, generation: u64) -> bool {
        self.spec_has_gen(generation)
    }

    open spec fn consistent(&self) -> bool {
        self.wf()
    }

    fn has_value(&self) -> (r: bool) {
        Generational::has_value(self)
    }

    fn has_gen(&self, generation: u64) -> (r: bool) {
        Generational::has_gen(self, generation)
    }

    fn drop_value_unchecked(&mut self) -> (r: Option<T>) {
        Generational::drop_value_unchecked(self)
    }

    fn drop_value_checked(&mut self, generation: u64) -> (r: Option<T>) {
        Generational::drop_value_checked(self, generation)
    }

    fn insert_value(&mut self, val: T) -> (r: u64) {
        let r = Generational::insert_value(self, val);
        proof {
            if BITS > 0 {
                assert(r % 2 == 1);
            }
        }
        r
    }

    fn get(&self, generation: u64) -> (r: Option<&T>) {
        Generational::get(self, generation)
    }

    fn generation(&self) -> (r: Option<u64>) {
        Generational::generation(self)
    }

    fn with_value(val: T) -> (r: (Self, u64)) {
        Generational::with_value(val)
    }
}

/// The state of a slot: its generation and the value it holds.
pub type SlotState<T> = (u64, Option<T>);

/// The position of the first empty slot, or the length when every slot is full.
pub open spec fn first_empty<T>(s: Seq<SlotState<T>>) -> nat
    decreases s.len(),
{
    if s.len() == 0 {
        0
    } else if s[0].1 is None {
        0
    } else {
        1 + first_empty(s.drop_first())
    }
}

/// The value that `index` reaches in slots `s` of a slab with `bits` generation bits.
pub open spec fn slot_lookup<T>(s: Seq<SlotState<T>>, index: GenerationIndex<u64>, bits: nat) -> Option<T> {
    if index.index < s.len() && s[index.index as int].1 is Some && (bits == 0 || s[index.index as int].0
        == index.generation) {
        s[index.index as int].1
    } else {
        None
    }
}

/// The indices and values of the full slots among `s`, in slot order.
pub open spec fn live_entries<T>(s: Seq<SlotState<T>>) -> Seq<(GenerationIndex<u64>, T)>
    decreases s.len(),
{
    if s.len() == 0 {
        Seq::empty()
    } else {
        let p = live_entries(s.drop_last());
        match s.last().1 {
            Some(v) => p.push((GenerationIndex { index: (s.len() - 1) as usize, generation: s.last().0 }, v)),
            None => p,
        }
    }
}

/// `first_empty` is the first position that is empty, with every slot before it full.
pub proof fn lemma_first_empty<T>(s: Seq<SlotState<T>>, i: nat)
    requires
        i <= s.len(),
        forall|j: int| 0 <= j < i ==> s[j].1 is Some,
        i < s.len() ==> s[i as int].1 is None,
    ensures
        first_empty(s) == i,
    decreases s.len(),
{
    if s.len() > 0 && i > 0 {
        let t = s.drop_first();
        assert forall|j: int| 0 <= j < i - 1 implies t[j].1 is Some by {
            assert(t[j] == s[j + 1]);
        }
        if i < s.len() {
            assert(t[i - 1] == s[i as int]);
        }
        lemma_first_empty(t, (i - 1) as nat);
    }
}

/// A slab of slots, indexed by position and generation.
#[derive(Debug, Clone)]
pub struct Slab<T, const BITS: usize> {
    elems: Vec<Generational<T, BITS>>,
    first_free: usize,
}

impl<T, const BITS: usize> Default for Generational<T, BITS> {
    fn default() -> (r: Self)
        ensures
            r.wf(),
            r.spec_generation() == 0,
            r.spec_value() is None,
    {
        Self::new()
    }
}

impl<T, const BITS: usize> Default for Slab<T, BITS> {
    fn default() -> (r: Self)
        ensures
            r.wf(),
            r@ == Seq::<SlotState<T>>::empty(),
    {
        Self::new()
    }
}

impl<T, const BITS: usize> View for Slab<T, BITS> {
    type V = Seq<SlotState<T>>;

    closed spec fn view(&self) -> Seq<SlotState<T>> {
        self.elems@.map_values(|g: Generational<T, BITS>| (g.spec_generation(), g.spec_value()))
    }
}

impl<T, const BITS: usize> Slab<T, BITS> {
    /// Every slot is well formed, and the search for a free slot starts at the first
    /// empty one.
    pub closed spec fn wf(&self) -> bool {
        &&& forall|i: int| 0 <= i < self.elems.len() ==> (#[trigger] self.elems@[i]).wf()
        &&& self.first_free <= self.elems.len()
        &&& forall|i: int| 0 <= i < self.first_free ==> (#[trigger] self.elems@[i]).spec_value() is Some
        &&& self.first_free < self.elems.len() ==> self.elems@[self.first_free as int].spec_value() is None
    }

    /// The value that `index` reaches in this slab.
    pub open spec fn lookup(&self, index: GenerationIndex<u64>) -> Option<T> {
        slot_lookup(self@, index, BITS as nat)
    }

    proof fn lemma_wf_first_free(&self)
        requires
            self.wf(),
        ensures
            self.first_free == first_empty(self@),
            self@.len() == self.elems.len(),
    {
        lemma_first_empty(self@, self.first_free as nat);
    }

    /// An empty slab.
    pub fn new() -> (r: Self)
        ensures
            r.wf(),
            r@ == Seq::<SlotState<T>>::empty(),
    {
        let r = Self { elems: Vec::new(), first_free: 0 };
        assert(r@ =~= Seq::<SlotState<T>>::empty());
        r
    }

    /// An empty slab with room for `capacity` slots.
    pub fn with_capacity(capacity: usize) -> (r: Self)
        ensures
            r.wf(),
            r@ == Seq::<SlotState<T>>::empty(),
    {
        let r = Self { elems: Vec::with_capacity(capacity), first_free: 0 };
        assert(r@ =~= Seq::<SlotState<T>>::empty());
        r
    }

    /// Get the maximum index for the slab: the number of its slots.
    pub fn max_idx(&self) -> (r: usize)
        ensures
            r == self@.len(),
    {
        self.elems.len()
    }

    /// Store `val` in the first empty slot, or in a new slot at the end when every
    /// slot is full, and return its index.
    pub fn insert(&mut self, val: T) -> (r: GenerationIndex<u64>)
        requires
            old(self).wf(),
            old(self)@.len() < usize::MAX,
        ensures
            final(self).wf(),
            r.index == first_empty(old(self)@),
            r.index == old(self)@.len() ==> r.generation == first_generation(BITS as nat)
                && final(self)@ == old(self)@.push((r.generation, Some(val))),
            r.index < old(self)@.len() ==> r.generation == next_generation(
                old(self)@[r.index as int].0,
                BITS as nat,
            ) && final(self)@ == old(self)@.update(r.index as int, (r.generation, Some(val))),
            final(self).lookup(r) == Some(val),
    {
        proof {
            self.lemma_wf_first_free();
        }
        let ghost old_view = self@;
        let index = self.first_free;
        let g;
        if self.first_free == self.elems.len() {
            let (v, g0) = Generational::with_value(val);
            self.elems.push(v);
            self.first_free = self.first_free + 1;
            g = g0;
            assert(self@ =~= old_view.push((g, Some(val))));
        } else {
            g = self.elems[index].insert_value(val);
            assert(self@ =~= old_view.update(index as int, (g, Some(val))));
            let mut j = index + 1;
            while j < self.elems.len() && self.elems[j].has_value()
                invariant
                    index < j <= self.elems.len(),
                    forall|i: int| 0 <= i < self.elems.len() ==> (#[trigger] self.elems@[i]).wf(),
                    forall|i: int| 0 <= i < j ==> (#[trigger] self.elems@[i]).spec_value() is Some,
                decreases self.elems.len() - j,
            {
                j = j + 1;
            }
            self.first_free = j;
        }
        GenerationIndex { index, generation: g }
    }

    /// Take the value that `index` reaches out of its slot, leaving the slot empty.
    pub fn remove(&mut self, index: GenerationIndex<u64>) -> (r: Option<T>)
        requires
            old(self).wf(),
        ensures
            final(self).wf(),
            r == old(self).lookup(index),
            r is Some ==> final(self)@ == old(self)@.update(
                index.index as int,
                (emptied_generation(old(self)@[index.index as int].0), None),
            ),
            r is None ==> final(self)@ == old(self)@,
    {
        let ghost old_view = self@;
        if index.index >= self.elems.len() {
            return None;
        }
        let res = self.elems[index.index].drop_value_checked(index.generation);
        if res.is_some() && index.index < self.first_free {
            self.first_free = index.index;
        }
        proof {
            if res is Some {
                assert(self@ =~= old_view.update(
                    index.index as int,
                    (emptied_generation(old_view[index.index as int].0), None),
                ));
            } else {
                assert(self@ =~= old_view);
            }
        }
        res
    }

    /// Whether `index` reaches a value in this slab.
    pub fn contains(&self, index: GenerationIndex<u64>) -> (r: bool)
        requires
            self.wf(),
        ensures
            r == self.lookup(index) is Some,
    {
        index.index < self.elems.len() && self.elems[index.index].has_gen(index.generation)
    }

    /// The value that `index` reaches in this slab.
    pub fn get(&self, index: GenerationIndex<u64>) -> (r: Option<&T>)
        requires
            self.wf(),
        ensures
            match r {
                Some(v) => self.lookup(index) == Some(*v),
                None => self.lookup(index) is None,
            },
    {
        if index.index < self.elems.len() {
            self.elems[index.index].get(index.generation)
        } else {
            None
        }
    }

    /// The value that `index` reaches in this slab, to change in place.
    pub fn get_mut(&mut self, index: GenerationIndex<u64>) -> (r: Option<&mut T>)
        requires
            old(self).wf(),
        ensures
            r is Some <==> old(self).lookup(index) is Some,
            r matches Some(v) ==> old(self).lookup(index) == Some(*v),
            r matches Some(v) ==> final(self)@[index.index as int] == (
                old(self)@[index.index as int].0,
                Some(*final(v)),
            ),
            final(self)@.len() == old(self)@.len(),
            forall|i: int|
                0 <= i < old(self)@.len() && i != index.index ==> #[trigger] final(self)@[i]
                    == old(self)@[i],
            r is None ==> final(self)@ =~= old(self)@,
            final(self).wf(),
    {
        if index.index < self.elems.len() {
            self.elems[index.index].get_mut(index.generation)
        } else {
            None
        }
    }

    /// The indices and values of the full slots, in slot order.
    pub fn iter(&self) -> (r: Vec<(GenerationIndex<u64>, &T)>)
        requires
            self.wf(),
        ensures
            r@.len() == live_entries(self@).len(),
            forall|i: int|
                0 <= i < r@.len() ==> (#[trigger] r@[i]).0 == live_entries(self@)[i].0 && *r@[i].1
                    == live_entries(self@)[i].1,
    {
        let mut r: Vec<(GenerationIndex<u64>, &T)> = Vec::new();
        let mut i: usize = 0;
        while i < self.elems.len()
            invariant
                i <= self.elems.len(),
                self@.len() == self.elems.len(),
                forall|k: int| 0 <= k < self.elems.len() ==> (#[trigger] self.elems@[k]).wf(),
                r@.len() == live_entries(self@.subrange(0, i as int)).len(),
                forall|k: int|
                    0 <= k < r@.len() ==> (#[trigger] r@[k]).0 == live_entries(
                        self@.subrange(0, i as int),
                    )[k].0 && *r@[k].1 == live_entries(self@.subrange(0, i as int))[k].1,
            decreases self.elems.len() - i,
        {
            let ghost prefix = self@.subrange(0, i as int);
            let ghost next = self@.subrange(0, i + 1);
            assert(next.drop_last() =~= prefix);
            assert(next.last() == self@[i as int]);
            let slot = &self.elems[i];
            match slot.generation() {
                Some(g) => {
                    let v = slot.get_unchecked().unwrap();
                    r.push((GenerationIndex { index: i, generation: g }, v));
                },
                None => {},
            }
            i = i + 1;
        }
        assert(self@.subrange(0, self.elems.len() as int) =~= self@);
        r
    }

    /// The values of the full slots, in slot order.
    pub fn values(&self) -> (r: Vec<&T>)
        requires
            self.wf(),
        ensures
            r@.len() == live_entries(self@).len(),
            forall|i: int| 0 <= i < r@.len() ==> *(#[trigger] r@[i]) == live_entries(self@)[i].1,
    {
        let mut r: Vec<&T> = Vec::new();
        let mut i: usize = 0;
        while i < self.elems.len()
            invariant
                i <= self.elems.len(),
                self@.len() == self.elems.len(),
                forall|k: int| 0 <= k < self.elems.len() ==> (#[trigger] self.elems@[k]).wf(),
                r@.len() == live_entries(self@.subrange(0, i as int)).len(),
                forall|k: int|
                    0 <= k < r@.len() ==> *(#[trigger] r@[k]) == live_entries(
                        self@.subrange(0, i as int),
                    )[k].1,
            decreases self.elems.len() - i,
        {
            let ghost prefix = self@.subrange(0, i as int);
            let ghost next = self@.subrange(0, i + 1);
            assert(next.drop_last() =~= prefix);
            assert(next.last() == self@[i as int]);
            match self.elems[i].get_unchecked() {
                Some(v) => {
                    r.push(v);
                },
                None => {},
            }
            i = i + 1;
        }
        assert(self@.subrange(0, self.elems.len() as int) =~= self@);
        r
    }
}

} // verus!
