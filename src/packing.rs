//! The succinct path encoding shared by both index types.
//!
//! A root triangle is the six-bit key `0b1_rrrr_h`: a sentinel bit, four bits of
//! region and one bit of half. Each step down the tree shifts the key left by the
//! bits of one level and adds the child's digit, so the position of the leading set
//! bit records the depth.
use vstd::prelude::*;
use vstd::arithmetic::power2::*;
use vstd::arithmetic::div_mod::*;
use vstd::std_specs::bits::u64_leading_zeros;
use crate::region::{WorldRegion, RegionHalf, region_of, half_of};

verus! {

/// The key of the root triangle `(region, half)`.
pub open spec fn root_key(region: WorldRegion, half: RegionHalf) -> nat {
    32 + 2 * region.index() + half.index()
}

/// The number of levels below the root in key `k`, for a tree with `base` children
/// per node.
pub open spec fn levels(k: nat, base: nat) -> nat
    decreases k,
    via key_division_decreases
{
    if k < 64 || base < 2 {
        0
    } else {
        1 + levels(k / base, base)
    }
}

/// The key of the root that `k` descends from.
pub open spec fn root_of(k: nat, base: nat) -> nat
    decreases k,
    via root_division_decreases
{
    if k < 64 || base < 2 {
        k
    } else {
        root_of(k / base, base)
    }
}

#[via_fn]
proof fn key_division_decreases(k: nat, base: nat) {
    if !(k < 64 || base < 2) {
        lemma_div_decreases(k as int, base as int);
    }
}

#[via_fn]
proof fn root_division_decreases(k: nat, base: nat) {
    if !(k < 64 || base < 2) {
        lemma_div_decreases(k as int, base as int);
    }
}

/// Whether `k` is the key of a node below one of the twenty root triangles.
pub open spec fn is_packed(k: nat, base: nat) -> bool {
    32 <= root_of(k, base) < 52
}

/// The root triangle that the node with key `k` lies in.
pub open spec fn root_triangle(k: nat, base: nat) -> (WorldRegion, RegionHalf) {
    let r = root_of(k, base);
    (region_of(((r - 32) / 2) as nat), half_of(r % 2))
}

/// The root triangle named by a root key.
pub fn triangle_of_root(raw: u64) -> (r: (WorldRegion, RegionHalf))
    requires
        32 <= raw < 52,
    ensures
        r == (region_of(((raw - 32) / 2) as nat), half_of(raw as nat % 2)),
{
    assert((raw >> 1u64) & 15u64 == (raw - 32) / 2 && raw & 1u64 == raw % 2) by (bit_vector)
        requires
            32u64 <= raw < 52u64,
    ;
    let region = WorldRegion::from_u8_unchecked(((raw >> 1) & 15) as u8);
    let half = RegionHalf::from_u8_unchecked((raw & 1) as u8);
    (region, half)
}

/// A root triangle's key names it back.
pub proof fn lemma_root_key(region: WorldRegion, half: RegionHalf, base: nat)
    requires
        base >= 2,
    ensures
        is_packed(root_key(region, half), base),
        levels(root_key(region, half), base) == 0,
        root_triangle(root_key(region, half), base) == (region, half),
{
    region.lemma_index();
}

/// One step down the tree: the child keeps the root and is one level deeper.
pub proof fn lemma_step(k: nat, base: nat, d: nat)
    requires
        32 <= root_of(k, base) < 64,
        base == 4 || base == 8,
        d < base,
    ensures
        (k * base + d) / base == k,
        root_of(k * base + d, base) == root_of(k, base),
        levels(k * base + d, base) == levels(k, base) + 1,
        root_triangle(k * base + d, base) == root_triangle(k, base),
{
    lemma_root_at_least_32(k, base);
    lemma_fundamental_div_mod_converse((k * base + d) as int, base as int, k as int, d as int);
}

/// A key whose root has its sentinel bit is at least 32.
pub proof fn lemma_root_at_least_32(k: nat, base: nat)
    requires
        32 <= root_of(k, base),
    ensures
        k >= 32,
    decreases k,
{
    if k >= 64 && base >= 2 {
        lemma_div_decreases(k as int, base as int);
        lemma_root_at_least_32(k / base, base);
    }
}

/// The leading set bit of a key lies just above its levels' bits and the root's
/// five payload bits.
pub proof fn lemma_key_range(k: nat, base: nat, s: nat)
    requires
        32 <= root_of(k, base) < 64,
        base == pow2(s),
        s == 2 || s == 3,
    ensures
        pow2(5 + s * levels(k, base)) <= k < pow2(6 + s * levels(k, base)),
    decreases k,
{
    lemma2_to64();
    if k < 64 {
    } else {
        let q = k / base;
        let l = levels(q, base);
        lemma_key_range(q, base, s);
        lemma_pow2_adds(s, 5 + s * l);
        lemma_pow2_adds(s, 6 + s * l);
        assert(s + (5 + s * l) == 5 + s * levels(k, base)) by (nonlinear_arith)
            requires
                levels(k, base) == 1 + l,
        ;
        assert(s + (6 + s * l) == 6 + s * levels(k, base)) by (nonlinear_arith)
            requires
                levels(k, base) == 1 + l,
        ;
        lemma_fundamental_div_mod(k as int, base as int);
        let a = pow2(5 + s * l);
        let b = pow2(6 + s * l);
        assert(base * a <= k) by (nonlinear_arith)
            requires
                a <= q,
                k == base * q + k % base,
                k % base >= 0,
                base > 0,
        ;
        assert(k < base * b) by (nonlinear_arith)
            requires
                q < b,
                k == base * q + k % base,
                k % base < base,
                base > 0,
        ;
    }
}

/// `leading_zeros` of a value whose leading set bit is bit `n`.
pub proof fn lemma_leading_zeros(k: u64, n: nat)
    requires
        pow2(n) <= k < pow2(n + 1),
    ensures
        n < 64,
        u64_leading_zeros(k) == 63 - n,
    decreases n,
{
    lemma2_to64();
    lemma2_to64_rest();
    if n >= 64 {
        lemma_pow2_strictly_increases(64, n);
    }
    reveal(u64_leading_zeros);
    if n == 0 {
        assert(k == 1);
        assert(u64_leading_zeros(0) == 64);
        assert(u64_leading_zeros(1) == u64_leading_zeros(0) - 1);
    } else {
        let h = (k / 2) as u64;
        lemma_pow2_unfold(n);
        lemma_pow2_unfold(n + 1);
        assert(pow2((n - 1) as nat) <= h < pow2(n));
        lemma_leading_zeros(h, (n - 1) as nat);
        assert(u64_leading_zeros(k) == u64_leading_zeros(h) - 1);
    }
}

/// The depth of a packed key is read off its leading zeros.
pub proof fn lemma_depth_from_leading_zeros(k: u64, base: nat, s: nat)
    requires
        32 <= root_of(k as nat, base) < 64,
        base == pow2(s),
        s == 2 || s == 3,
    ensures
        5 + s * levels(k as nat, base) < 64,
        u64_leading_zeros(k) == 58 - s * levels(k as nat, base),
{
    lemma_key_range(k as nat, base, s);
    lemma_leading_zeros(k, 5 + s * levels(k as nat, base));
}

/// Shifting a packed key right by the bits of its levels leaves its root.
pub proof fn lemma_root_by_division(k: nat, base: nat, s: nat)
    requires
        32 <= root_of(k, base) < 64,
        base == pow2(s),
        s == 2 || s == 3,
    ensures
        k / pow2(s * levels(k, base)) == root_of(k, base),
    decreases k,
{
    lemma2_to64();
    if k < 64 {
        assert(levels(k, base) == 0);
        assert(s * 0 == 0);
        assert(k / 1 == k);
    } else {
        let q = k / base;
        let l = levels(q, base);
        lemma_div_decreases(k as int, base as int);
        lemma_root_by_division(q, base, s);
        assert(s * levels(k, base) == s + s * l) by (nonlinear_arith)
            requires
                levels(k, base) == 1 + l,
        ;
        lemma_pow2_adds(s, s * l);
        lemma_pow2_pos(s * l);
        lemma_div_denominator(k as int, base as int, pow2(s * l) as int);
        assert(pow2(s * levels(k, base)) == base * pow2(s * l));
        assert(k / pow2(s * levels(k, base)) == q / pow2(s * l));
    }
}

/// The parent of a key below the root is its quotient by the base: same root, one
/// level less.
pub proof fn lemma_div_decreases_levels(k: nat, base: nat)
    requires
        32 <= root_of(k, base) < 64,
        k >= 64,
        base == 4 || base == 8,
    ensures
        root_of(k / base, base) == root_of(k, base),
        levels(k / base, base) + 1 == levels(k, base),
{
}

/// A value whose leading set bit sits just above `5 + s * l` bits has its root in its
/// top six bits and `l` levels below it.
pub proof fn lemma_range_root(k: nat, base: nat, s: nat, l: nat)
    requires
        pow2(5 + s * l) <= k < pow2(6 + s * l),
        base == pow2(s),
        s == 2 || s == 3,
    ensures
        root_of(k, base) == k / pow2(s * l),
        32 <= root_of(k, base) < 64,
        levels(k, base) == l,
    decreases l,
{
    lemma2_to64();
    if l == 0 {
        assert(s * 0 == 0);
        assert(k / 1 == k);
    } else {
        let q = k / base;
        assert(s * l == s + s * (l - 1)) by (nonlinear_arith)
            requires
                l >= 1,
        ;
        lemma_pow2_adds(s, 5 + s * (l - 1) as nat);
        lemma_pow2_adds(s, 6 + s * (l - 1) as nat);
        lemma_pow2_adds(s, s * (l - 1) as nat);
        lemma_pow2_strictly_increases(6, 5 + s * l);
        lemma_pow2_pos(5 + s * (l - 1) as nat);
        lemma_pow2_pos(s * (l - 1) as nat);
        let lo = pow2(5 + s * (l - 1) as nat);
        let hi = pow2(6 + s * (l - 1) as nat);
        lemma_fundamental_div_mod(k as int, base as int);
        assert(lo <= q < hi) by (nonlinear_arith)
            requires
                base * lo <= k < base * hi,
                k == base * q + k % base,
                0 <= k % base < base,
                base > 0,
        ;
        lemma_div_decreases(k as int, base as int);
        lemma_range_root(q, base, s, (l - 1) as nat);
        lemma_div_denominator(k as int, base as int, pow2(s * (l - 1) as nat) as int);
    }
}

/// Whether `raw` is the key of a node, for a tree with `s` bits per level.
pub fn is_packed_key(raw: u64, s: u32) -> (r: bool)
    requires
        s == 2 || s == 3,
    ensures
        r == is_packed(raw as nat, pow2(s as nat)),
{
    proof {
        lemma2_to64();
    }
    let ghost base = pow2(s as nat);
    if raw < 32 {
        proof {
            if is_packed(raw as nat, base) {
                lemma_root_at_least_32(raw as nat, base);
            }
        }
        return false;
    }
    let lead = 63 - raw.leading_zeros();
    proof {
        assert(u64_leading_zeros(raw) < 59) by {
            crate::packing::lemma_leading_zeros_at_least(raw);
        }
    }
    let shift = lead - 5;
    let ghost ok = shift % s == 0;
    if shift % s != 0 {
        proof {
            if is_packed(raw as nat, base) {
                lemma_depth_from_leading_zeros(raw, base, s as nat);
                let lv = levels(raw as nat, base);
                assert((s as int * lv) % (s as int) == 0) by (nonlinear_arith)
                    requires
                        s > 0,
                ;
            }
        }
        return false;
    }
    let l = shift / s;
    proof {
        assert(s * l == shift) by (nonlinear_arith)
            requires
                shift % s == 0,
                l == shift / s,
                s > 0,
        ;
        lemma_leading_bit(raw);
        assert(5 + s * l == lead && 6 + s * l == lead + 1);
        lemma_range_root(raw as nat, base, s as nat, l as nat);
        vstd::bits::lemma_u64_shr_is_div(raw, shift as u64);
    }
    (raw >> shift as u64) < 52
}

/// The leading zeros of a value of at least 32 leave its leading bit above bit 4.
pub proof fn lemma_leading_zeros_at_least(k: u64)
    requires
        k >= 32,
    ensures
        u64_leading_zeros(k) < 59,
{
    lemma_leading_bit(k);
    lemma2_to64();
    if u64_leading_zeros(k) >= 59 {
        lemma_pow2_strictly_increases((64 - u64_leading_zeros(k)) as nat, 5);
    }
}

/// A nonzero value lies between the powers of two around its leading set bit.
pub proof fn lemma_leading_bit(k: u64)
    requires
        k > 0,
    ensures
        0 <= u64_leading_zeros(k) < 64,
        pow2((63 - u64_leading_zeros(k)) as nat) <= k < pow2((64 - u64_leading_zeros(k)) as nat),
{
    lemma2_to64_rest();
    lemma_leading_bit_nat(k, 63);
}

proof fn lemma_leading_bit_nat(k: u64, n: nat)
    requires
        0 < k < pow2(n + 1),
        n < 64,
    ensures
        0 <= u64_leading_zeros(k) < 64,
        pow2((63 - u64_leading_zeros(k)) as nat) <= k < pow2((64 - u64_leading_zeros(k)) as nat),
    decreases n,
{
    lemma2_to64();
    lemma2_to64_rest();
    if k >= pow2(n) {
        lemma_leading_zeros(k, n);
    } else {
        lemma_leading_bit_nat(k, (n - 1) as nat);
    }
}

} // verus!
