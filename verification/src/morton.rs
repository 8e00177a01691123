//! Morton (Z-order) curve encode / decode.
//!
//! Interleaves the bits of several coordinates into a single integer key,
//! using bit deposit to encode and bit extract to decode.

use vstd::prelude::*;
use crate::accel::{pdep_u32, pdep_u64, pext_u32, pext_u64};
use crate::bitspec::{
    lemma_and_u32, lemma_and_u64, lemma_pdep_shift, lemma_pdep_within_mask,
    lemma_pext_bound, lemma_pext_shift, lemma_pow2_32, pdep, pext, popcount, pow2,
};

verus! {

/// 2D lane masks: every other bit.
pub const LANE_2D_X: u32 = 0x5555_5555;
pub const LANE_2D_Y: u32 = 0xAAAA_AAAA;
/// 2D lane masks for `u64` keys.
pub const LANE_2D_X_U64: u64 = 0x5555_5555_5555_5555;
pub const LANE_2D_Y_U64: u64 = 0xAAAA_AAAA_AAAA_AAAA;
/// 3D lane masks: every third bit, offset 0 / 1 / 2.
pub const LANE_3D_X: u32 = 0x0924_9249;
pub const LANE_3D_Y: u32 = 0x1249_2492;
pub const LANE_3D_Z: u32 = 0x2492_4924;

/// The key whose even bits are the bits of `x` and whose odd bits are the
/// bits of `y`, in order.
pub open spec fn interleave2(x: nat, y: nat) -> nat
    decreases x + y,
{
    if x == 0 && y == 0 {
        0
    } else {
        x % 2 + 2 * (y % 2) + 4 * interleave2(x / 2, y / 2)
    }
}

/// The bits of `z` at even positions, packed.
pub open spec fn even_bits(z: nat) -> nat
    decreases z,
{
    if z == 0 { 0 } else { z % 2 + 2 * even_bits(z / 4) }
}

/// The key whose bits `3i`, `3i+1`, `3i+2` are bit `i` of `x`, `y`, `z`.
pub open spec fn interleave3(x: nat, y: nat, z: nat) -> nat
    decreases x + y + z,
{
    if x == 0 && y == 0 && z == 0 {
        0
    } else {
        x % 2 + 2 * (y % 2) + 4 * (z % 2) + 8 * interleave3(x / 2, y / 2, z / 2)
    }
}

/// The bits of `w` at positions that are multiples of three, packed.
pub open spec fn every_third(w: nat) -> nat
    decreases w,
{
    if w == 0 { 0 } else { w % 2 + 2 * every_third(w / 8) }
}

/// The mask with bits `0, 2, .., 2k - 2` set.
pub open spec fn spread2(k: nat) -> nat
    decreases k,
{
    if k == 0 { 0 } else { 1 + 4 * spread2((k - 1) as nat) }
}

/// The mask with bits `0, 3, .., 3k - 3` set.
pub open spec fn spread3(k: nat) -> nat
    decreases k,
{
    if k == 0 { 0 } else { 1 + 8 * spread3((k - 1) as nat) }
}

// ---------------------------------------------------------------------------
// Lemmas
// ---------------------------------------------------------------------------

proof fn lemma_mod_pow2_step(x: nat, k: nat)
    requires
        k >= 1,
    ensures
        (x % pow2(k)) % 2 == x % 2,
        (x % pow2(k)) / 2 == (x / 2) % pow2((k - 1) as nat),
        x % pow2(k) == x % 2 + 2 * ((x / 2) % pow2((k - 1) as nat)),
{
    crate::bitspec::lemma_pow2_pos((k - 1) as nat);
    vstd::arithmetic::div_mod::lemma_mod_breakdown(x as int, 2, pow2((k - 1) as nat) as int);
}

proof fn lemma_pdep_spread2(x: nat, k: nat)
    ensures
        pdep(x, spread2(k)) == interleave2(x % pow2(k), 0),
    decreases k,
{
    if k == 0 {
    } else {
        let s1 = spread2((k - 1) as nat);
        let s = spread2(k);
        lemma_pdep_spread2(x / 2, (k - 1) as nat);
        assert(s % 2 == 1 && s / 2 == 2 * s1);
        lemma_pdep_shift(x / 2, s1);
        lemma_mod_pow2_step(x, k);
        let r = x % pow2(k);
        if r == 0 {
            assert((x / 2) % pow2((k - 1) as nat) == 0);
        }
    }
}

proof fn lemma_pdep_spread3(x: nat, k: nat)
    ensures
        pdep(x, spread3(k)) == interleave3(x % pow2(k), 0, 0),
    decreases k,
{
    if k == 0 {
    } else {
        let s1 = spread3((k - 1) as nat);
        let s = spread3(k);
        lemma_pdep_spread3(x / 2, (k - 1) as nat);
        assert(s % 2 == 1 && s / 2 == 2 * (2 * s1));
        lemma_pdep_shift(x / 2, 2 * s1);
        lemma_pdep_shift(x / 2, s1);
        lemma_mod_pow2_step(x, k);
        let r = x % pow2(k);
        if r == 0 {
            assert((x / 2) % pow2((k - 1) as nat) == 0);
        }
    }
}

proof fn lemma_pext_spread2(z: nat, k: nat)
    ensures
        pext(z, spread2(k)) == even_bits(z % pow2(2 * k)),
    decreases k,
{
    if k == 0 {
        assert(pow2(0) == 1);
    } else {
        let s1 = spread2((k - 1) as nat);
        lemma_pext_spread2(z / 4, (k - 1) as nat);
        assert(spread2(k) / 2 == 2 * s1);
        lemma_pext_shift(z / 2, s1);
        vstd::arithmetic::div_mod::lemma_div_denominator(z as int, 2, 2);
        assert(2 * k == (2 * (k - 1) + 2) as nat);
        lemma_mod_pow2_step(z, 2 * k);
        lemma_mod_pow2_step(z / 2, (2 * k - 1) as nat);
        let r = z % pow2(2 * k);
        assert(r % 2 == z % 2);
        assert(r / 4 == (z / 4) % pow2((2 * (k - 1)) as nat)) by {
            vstd::arithmetic::div_mod::lemma_div_denominator(r as int, 2, 2);
        }
        if r == 0 {
            assert((z / 4) % pow2((2 * (k - 1)) as nat) == 0);
        }
    }
}

proof fn lemma_pext_spread3(w: nat, k: nat)
    ensures
        pext(w, spread3(k)) == every_third(w % pow2(3 * k)),
    decreases k,
{
    if k == 0 {
        assert(pow2(0) == 1);
    } else {
        let s1 = spread3((k - 1) as nat);
        lemma_pext_spread3(w / 8, (k - 1) as nat);
        assert(spread3(k) / 2 == 2 * (2 * s1));
        lemma_pext_shift(w / 2, 2 * s1);
        lemma_pext_shift(w / 4, s1);
        vstd::arithmetic::div_mod::lemma_div_denominator(w as int, 2, 2);
        vstd::arithmetic::div_mod::lemma_div_denominator(w as int, 4, 2);
        assert(3 * k == (3 * (k - 1) + 3) as nat);
        lemma_mod_pow2_step(w, 3 * k);
        lemma_mod_pow2_step(w / 2, (3 * k - 1) as nat);
        lemma_mod_pow2_step(w / 4, (3 * k - 2) as nat);
        let r = w % pow2(3 * k);
        assert(r / 8 == (w / 8) % pow2((3 * (k - 1)) as nat)) by {
            vstd::arithmetic::div_mod::lemma_div_denominator(r as int, 2, 2);
            vstd::arithmetic::div_mod::lemma_div_denominator(r as int, 4, 2);
        }
        if r == 0 {
            assert((w / 8) % pow2((3 * (k - 1)) as nat) == 0);
        }
    }
}

proof fn lemma_interleave2_sum(x: nat, y: nat)
    ensures
        interleave2(x, 0) + 2 * interleave2(y, 0) == interleave2(x, y),
    decreases x + y,
{
    if x == 0 && y == 0 {
    } else {
        lemma_interleave2_sum(x / 2, y / 2);
        if x == 0 {
            assert(interleave2(0, 0) == 0);
        }
        if y == 0 {
            assert(interleave2(0, 0) == 0);
        }
    }
}

proof fn lemma_interleave3_sum(x: nat, y: nat, z: nat)
    ensures
        interleave3(x, 0, 0) + 2 * interleave3(y, 0, 0) + 4 * interleave3(z, 0, 0)
            == interleave3(x, y, z),
    decreases x + y + z,
{
    if x == 0 && y == 0 && z == 0 {
    } else {
        lemma_interleave3_sum(x / 2, y / 2, z / 2);
        assert(interleave3(0, 0, 0) == 0);
    }
}

proof fn lemma_popcount_spread2(k: nat)
    ensures
        popcount(spread2(k)) == k,
    decreases k,
{
    if k > 0 {
        lemma_popcount_spread2((k - 1) as nat);
        let s1 = spread2((k - 1) as nat);
        assert(spread2(k) / 2 == 2 * s1);
        assert((2 * s1) / 2 == s1);
        if s1 == 0 {
        } else {
            assert(popcount(2 * s1) == popcount(s1));
        }
    }
}

proof fn lemma_popcount_spread3(k: nat)
    ensures
        popcount(spread3(k)) == k,
    decreases k,
{
    if k > 0 {
        lemma_popcount_spread3((k - 1) as nat);
        let s1 = spread3((k - 1) as nat);
        assert(spread3(k) / 2 == 2 * (2 * s1));
        assert((2 * (2 * s1)) / 2 == 2 * s1);
        assert((2 * s1) / 2 == s1);
        if s1 != 0 {
            assert(popcount(2 * s1) == popcount(s1));
            assert(popcount(2 * (2 * s1)) == popcount(2 * s1));
        }
    }
}

proof fn lemma_lane_constants()
    ensures
        spread2(16) == LANE_2D_X,
        2 * spread2(16) == LANE_2D_Y,
        spread2(32) == LANE_2D_X_U64,
        2 * spread2(32) == LANE_2D_Y_U64,
        spread3(10) == LANE_3D_X,
        2 * spread3(10) == LANE_3D_Y,
        4 * spread3(10) == LANE_3D_Z,
{
    reveal_with_fuel(spread2, 33);
    reveal_with_fuel(spread3, 11);
}

// ---------------------------------------------------------------------------
// Laws
// ---------------------------------------------------------------------------

/// Decoding an interleaved key gives back its first coordinate.
#[verifier::spinoff_prover]
pub proof fn law_interleave2_decode_x(x: nat, y: nat)
    ensures
        even_bits(interleave2(x, y)) == x,
    decreases x + y,
{
    if x == 0 && y == 0 {
    } else {
        law_interleave2_decode_x(x / 2, y / 2);
        assert(interleave2(x, y) / 4 == interleave2(x / 2, y / 2));
        assert(even_bits(0) == 0);
    }
}

/// Decoding an interleaved key gives back its second coordinate.
pub proof fn law_interleave2_decode_y(x: nat, y: nat)
    ensures
        even_bits(interleave2(x, y) / 2) == y,
    decreases x + y,
{
    if x == 0 && y == 0 {
    } else {
        law_interleave2_decode_y(x / 2, y / 2);
        let w = interleave2(x, y);
        let w1 = interleave2(x / 2, y / 2);
        assert((w / 2) / 4 == w1 / 2) by {
            vstd::arithmetic::div_mod::lemma_div_denominator(w as int, 2, 4);
            vstd::arithmetic::div_mod::lemma_div_denominator(w as int, 4, 2);
        }
        assert(even_bits(0) == 0);
        if w / 2 == 0 {
            assert(w1 == 0);
        }
    }
}

/// Interleaving the decoded coordinates of a key gives back the key.
pub proof fn law_interleave2_encode(z: nat)
    ensures
        interleave2(even_bits(z), even_bits(z / 2)) == z,
    decreases z,
{
    if z == 0 {
    } else {
        law_interleave2_encode(z / 4);
        vstd::arithmetic::div_mod::lemma_div_denominator(z as int, 2, 4);
        vstd::arithmetic::div_mod::lemma_div_denominator(z as int, 4, 2);
        vstd::arithmetic::div_mod::lemma_div_denominator(z as int, 2, 2);
        if z / 2 == 0 {
            assert(even_bits(0) == 0);
        }
        assert(even_bits(z) == z % 2 + 2 * even_bits(z / 4));
    }
}

/// Decoding a 3D key gives back its first coordinate.
pub proof fn law_interleave3_decode_x(x: nat, y: nat, z: nat)
    ensures
        every_third(interleave3(x, y, z)) == x,
    decreases x + y + z,
{
    if x == 0 && y == 0 && z == 0 {
    } else {
        law_interleave3_decode_x(x / 2, y / 2, z / 2);
        let w = interleave3(x, y, z);
        assert(w / 8 == interleave3(x / 2, y / 2, z / 2));
        assert(every_third(0) == 0);
    }
}

/// Decoding a 3D key gives back its second coordinate.
pub proof fn law_interleave3_decode_y(x: nat, y: nat, z: nat)
    ensures
        every_third(interleave3(x, y, z) / 2) == y,
    decreases x + y + z,
{
    if x == 0 && y == 0 && z == 0 {
    } else {
        law_interleave3_decode_y(x / 2, y / 2, z / 2);
        let w = interleave3(x, y, z);
        let w1 = interleave3(x / 2, y / 2, z / 2);
        assert((w / 2) / 8 == w1 / 2) by {
            vstd::arithmetic::div_mod::lemma_div_denominator(w as int, 2, 8);
            vstd::arithmetic::div_mod::lemma_div_denominator(w as int, 8, 2);
        }
        assert(every_third(0) == 0);
        if w / 2 == 0 {
            assert(w1 == 0);
        }
    }
}

/// Decoding a 3D key gives back its third coordinate.
pub proof fn law_interleave3_decode_z(x: nat, y: nat, z: nat)
    ensures
        every_third(interleave3(x, y, z) / 4) == z,
    decreases x + y + z,
{
    if x == 0 && y == 0 && z == 0 {
    } else {
        law_interleave3_decode_z(x / 2, y / 2, z / 2);
        let w = interleave3(x, y, z);
        let w1 = interleave3(x / 2, y / 2, z / 2);
        assert((w / 4) / 8 == w1 / 4) by {
            vstd::arithmetic::div_mod::lemma_div_denominator(w as int, 4, 8);
            vstd::arithmetic::div_mod::lemma_div_denominator(w as int, 8, 4);
        }
        assert(every_third(0) == 0);
        if w / 4 == 0 {
            assert(w1 == 0);
        }
    }
}

/// Coordinates below `2^k` interleave into a key below `2^(3k)`.
proof fn lemma_interleave3_bound(x: nat, y: nat, z: nat, k: nat)
    requires
        x < pow2(k),
        y < pow2(k),
        z < pow2(k),
    ensures
        interleave3(x, y, z) < pow2(3 * k),
    decreases k,
{
    if k == 0 {
        assert(x == 0 && y == 0 && z == 0);
    } else if x == 0 && y == 0 && z == 0 {
        crate::bitspec::lemma_pow2_pos(3 * k);
    } else {
        let k1 = (k - 1) as nat;
        assert(pow2(k) == 2 * pow2(k1));
        lemma_interleave3_bound(x / 2, y / 2, z / 2, k1);
        assert(3 * k == 3 * k1 + 3);
        assert(pow2(3 * k1 + 3) == 2 * pow2(3 * k1 + 2));
        assert(pow2(3 * k1 + 2) == 2 * pow2(3 * k1 + 1));
        assert(pow2(3 * k1 + 1) == 2 * pow2(3 * k1));
    }
}

/// Coordinates of ten bits come back out of their 3D key unchanged: the
/// key fits in 30 bits, and each decoder recovers its coordinate.
pub proof fn law_morton_3d_round_trip(x: nat, y: nat, z: nat)
    requires
        x < 1024,
        y < 1024,
        z < 1024,
    ensures
        interleave3(x, y, z) < 0x4000_0000,
        every_third(interleave3(x, y, z) % 0x4000_0000) == x,
        every_third((interleave3(x, y, z) / 2) % 0x4000_0000) == y,
        every_third((interleave3(x, y, z) / 4) % 0x4000_0000) == z,
        x % 1024 == x && y % 1024 == y && z % 1024 == z,
{
    reveal_with_fuel(pow2, 11);
    assert(pow2(10) == 1024);
    lemma_interleave3_bound(x, y, z, 10);
    lemma_pow2_32();
    assert(pow2(30) == 0x4000_0000) by {
        reveal_with_fuel(pow2, 31);
    }
    let w = interleave3(x, y, z);
    vstd::arithmetic::div_mod::lemma_small_mod(w, 0x4000_0000);
    vstd::arithmetic::div_mod::lemma_small_mod(w / 2, 0x4000_0000);
    vstd::arithmetic::div_mod::lemma_small_mod(w / 4, 0x4000_0000);
    law_interleave3_decode_x(x, y, z);
    law_interleave3_decode_y(x, y, z);
    law_interleave3_decode_z(x, y, z);
}

// ---------------------------------------------------------------------------
// Keys of any width
// ---------------------------------------------------------------------------

/// A digit `d < b` below `b * q`: dividing by `b` gives `q` back, and the
/// remainder modulo `b * m` keeps `d` and `q % m`.
proof fn lemma_mod_split(d: nat, b: nat, q: nat, m: nat)
    requires
        d < b,
        m > 0,
    ensures
        (d + b * q) / b == q,
        (d + b * q) % b == d,
        (d + b * q) % (b * m) == d + b * (q % m),
{
    assert(d + b * q == q * b + d) by (nonlinear_arith);
    vstd::arithmetic::div_mod::lemma_fundamental_div_mod_converse((d + b * q) as int, b as int, q as int, d as int);
    let t = q / m;
    let r = q % m;
    vstd::arithmetic::div_mod::lemma_fundamental_div_mod(q as int, m as int);
    assert(d + b * q == t * (b * m) + (d + b * r)) by (nonlinear_arith)
        requires q == m * t + r;
    assert(d + b * r < b * m) by (nonlinear_arith)
        requires d < b, r < m;
    vstd::arithmetic::div_mod::lemma_fundamental_div_mod_converse(
        (d + b * q) as int,
        (b * m) as int,
        t as int,
        (d + b * r) as int,
    );
}

/// `v` split into its low bit and the rest.
proof fn lemma_low_bit(v: nat)
    ensures
        v == v % 2 + 2 * (v / 2),
        v % 2 < 2,
{
    vstd::arithmetic::div_mod::lemma_fundamental_div_mod(v as int, 2);
}

/// `interleave3` takes one bit of each coordinate, also when all are zero.
proof fn lemma_interleave3_step(x: nat, y: nat, z: nat)
    ensures
        interleave3(x, y, z) == x % 2 + 2 * (y % 2) + 4 * (z % 2) + 8 * interleave3(x / 2, y / 2, z / 2),
{
    if x == 0 && y == 0 && z == 0 {
        assert(interleave3(0, 0, 0) == 0);
    }
}

/// `every_third` takes one bit out of every three, also of zero.
proof fn lemma_every_third_step(w: nat)
    ensures
        every_third(w) == w % 2 + 2 * every_third(w / 8),
{
    if w == 0 {
        assert(every_third(0) == 0);
    }
}

/// `2^(3k)` is eight times `2^(3(k-1))`.
proof fn lemma_pow8_step(k: nat)
    requires
        k > 0,
    ensures
        pow2(3 * k) == 8 * pow2(3 * ((k - 1) as nat)),
        pow2(k) == 2 * pow2((k - 1) as nat),
{
    crate::bitspec::lemma_pow2_add(3, 3 * ((k - 1) as nat));
    assert(pow2(3) == 8) by {
        reveal_with_fuel(pow2, 4);
    }
    assert(3 + 3 * ((k - 1) as nat) == 3 * k);
}

/// Extracting every third bit of the low `3k` bits gives the low `k` bits of
/// the extraction.
proof fn lemma_every_third_mod(u: nat, k: nat)
    ensures
        every_third(u % pow2(3 * k)) == every_third(u) % pow2(k),
    decreases k,
{
    if k == 0 {
        assert(pow2(0) == 1);
        assert(every_third(0) == 0);
    } else {
        let k1 = (k - 1) as nat;
        let m = pow2(3 * k1);
        let p = pow2(k1);
        lemma_pow8_step(k);
        crate::bitspec::lemma_pow2_pos(3 * k1);
        crate::bitspec::lemma_pow2_pos(k1);
        vstd::arithmetic::div_mod::lemma_fundamental_div_mod(u as int, 8);
        let d = u % 8;
        let q = u / 8;
        lemma_mod_split(d, 8, q, m);
        let v = u % pow2(3 * k);
        assert(v == d + 8 * (q % m));
        lemma_mod_split(d, 8, q % m, 1);
        lemma_every_third_step(v);
        vstd::arithmetic::div_mod::lemma_mod_mod(v as int, 2, 4);
        vstd::arithmetic::div_mod::lemma_mod_mod(u as int, 2, 4);
        assert(v % 2 == u % 2);
        lemma_every_third_mod(q, k1);
        lemma_every_third_step(u);
        lemma_mod_split(u % 2, 2, every_third(q), p);
    }
}

/// Interleaving the low `k` bits of each coordinate gives the low `3k` bits
/// of the key.
proof fn lemma_interleave3_mod(x: nat, y: nat, z: nat, k: nat)
    ensures
        interleave3(x % pow2(k), y % pow2(k), z % pow2(k)) == interleave3(x, y, z) % pow2(3 * k),
    decreases k,
{
    if k == 0 {
        assert(pow2(0) == 1);
        assert(interleave3(0, 0, 0) == 0);
    } else {
        let k1 = (k - 1) as nat;
        let p = pow2(k1);
        let m = pow2(3 * k1);
        lemma_pow8_step(k);
        crate::bitspec::lemma_pow2_pos(3 * k1);
        crate::bitspec::lemma_pow2_pos(k1);
        lemma_low_bit(x);
        lemma_low_bit(y);
        lemma_low_bit(z);
        lemma_mod_split(x % 2, 2, x / 2, p);
        lemma_mod_split(y % 2, 2, y / 2, p);
        lemma_mod_split(z % 2, 2, z / 2, p);
        let a = x % pow2(k);
        let b = y % pow2(k);
        let c = z % pow2(k);
        lemma_mod_split(x % 2, 2, (x / 2) % p, 1);
        lemma_mod_split(y % 2, 2, (y / 2) % p, 1);
        lemma_mod_split(z % 2, 2, (z / 2) % p, 1);
        lemma_interleave3_step(a, b, c);
        lemma_interleave3_mod(x / 2, y / 2, z / 2, k1);
        lemma_interleave3_step(x, y, z);
        let d = x % 2 + 2 * (y % 2) + 4 * (z % 2);
        lemma_mod_split(d, 8, interleave3(x / 2, y / 2, z / 2), m);
    }
}

/// Every key is the interleaving of its three extracted coordinates.
proof fn lemma_interleave3_of_every_third(v: nat)
    ensures
        interleave3(every_third(v), every_third(v / 2), every_third(v / 4)) == v,
    decreases v,
{
    if v == 0 {
        assert(every_third(0) == 0);
        assert(interleave3(0, 0, 0) == 0);
    } else {
        let w = v / 8;
        vstd::arithmetic::div_mod::lemma_div_denominator(v as int, 2, 8);
        vstd::arithmetic::div_mod::lemma_div_denominator(v as int, 8, 2);
        vstd::arithmetic::div_mod::lemma_div_denominator(v as int, 4, 8);
        vstd::arithmetic::div_mod::lemma_div_denominator(v as int, 8, 4);
        vstd::arithmetic::div_mod::lemma_div_denominator(v as int, 2, 2);
        vstd::arithmetic::div_mod::lemma_div_denominator(v as int, 4, 2);
        lemma_interleave3_of_every_third(w);
        lemma_every_third_step(v);
        lemma_every_third_step(v / 2);
        lemma_every_third_step(v / 4);
        lemma_low_bit(v);
        lemma_low_bit(v / 2);
        lemma_low_bit(v / 4);
        lemma_mod_split(v % 2, 2, every_third(w), 1);
        lemma_mod_split((v / 2) % 2, 2, every_third(w / 2), 1);
        lemma_mod_split((v / 4) % 2, 2, every_third(w / 4), 1);
        lemma_interleave3_step(every_third(v), every_third(v / 2), every_third(v / 4));
    }
}

/// Extracted coordinates of a key below `2^(3k)` are below `2^k`.
proof fn lemma_every_third_bound(v: nat, k: nat)
    ensures
        every_third(v % pow2(3 * k)) < pow2(k),
{
    lemma_every_third_mod(v, k);
    crate::bitspec::lemma_pow2_pos(k);
}

/// Every 3D key decodes to coordinates below 1024, and those encode back to
/// the key's low 30 bits.
pub proof fn law_morton_3d_decode_encode(w: nat)
    ensures
        every_third(w % 0x4000_0000) < 1024,
        every_third((w / 2) % 0x4000_0000) < 1024,
        every_third((w / 4) % 0x4000_0000) < 1024,
        interleave3(
            every_third(w % 0x4000_0000) % 1024,
            every_third((w / 2) % 0x4000_0000) % 1024,
            every_third((w / 4) % 0x4000_0000) % 1024,
        ) == w % 0x4000_0000,
{
    assert(pow2(10) == 1024 && pow2(30) == 0x4000_0000) by {
        reveal_with_fuel(pow2, 31);
    }
    assert(3 * 10nat == 30nat);
    lemma_every_third_mod(w, 10);
    lemma_every_third_mod(w / 2, 10);
    lemma_every_third_mod(w / 4, 10);
    let a = every_third(w) % 1024;
    let b = every_third(w / 2) % 1024;
    let c = every_third(w / 4) % 1024;
    vstd::arithmetic::div_mod::lemma_small_mod(a, 1024);
    vstd::arithmetic::div_mod::lemma_small_mod(b, 1024);
    vstd::arithmetic::div_mod::lemma_small_mod(c, 1024);
    lemma_interleave3_mod(every_third(w), every_third(w / 2), every_third(w / 4), 10);
    lemma_interleave3_of_every_third(w);
}

/// Bit `n + s` of `v` is bit `n` of `v / 2^s`.
proof fn lemma_bit_shift(v: nat, n: nat, s: nat)
    ensures
        crate::bitspec::bit(v, n + s) == crate::bitspec::bit(v / pow2(s), n),
{
    crate::bitspec::lemma_pow2_add(s, n);
    crate::bitspec::lemma_pow2_pos(s);
    crate::bitspec::lemma_pow2_pos(n);
    vstd::arithmetic::div_mod::lemma_div_denominator(v as int, pow2(s) as int, pow2(n) as int);
    assert(s + n == n + s);
}

/// Bits `3i`, `3i + 1`, `3i + 2` of a 3D key are bit `i` of `x`, `y`, `z`.
pub proof fn law_interleave3_bits(x: nat, y: nat, z: nat, i: nat)
    ensures
        crate::bitspec::bit(interleave3(x, y, z), 3 * i) == crate::bitspec::bit(x, i),
        crate::bitspec::bit(interleave3(x, y, z), 3 * i + 1) == crate::bitspec::bit(y, i),
        crate::bitspec::bit(interleave3(x, y, z), 3 * i + 2) == crate::bitspec::bit(z, i),
    decreases i,
{
    let w = interleave3(x, y, z);
    let r = interleave3(x / 2, y / 2, z / 2);
    lemma_interleave3_step(x, y, z);
    lemma_low_bit(x);
    lemma_low_bit(y);
    lemma_low_bit(z);
    let d = x % 2 + 2 * (y % 2) + 4 * (z % 2);
    lemma_mod_split(d, 8, r, 1);
    assert(pow2(1) == 2 && pow2(2) == 4 && pow2(3) == 8) by {
        reveal_with_fuel(pow2, 4);
    }
    if i == 0 {
        assert(pow2(0) == 1);
        lemma_bit_shift(w, 0, 1);
        lemma_bit_shift(w, 0, 2);
        lemma_mod_split(x % 2, 2, y % 2 + 2 * (z % 2) + 4 * r, 1);
        lemma_mod_split(y % 2, 2, z % 2 + 2 * r, 1);
        lemma_mod_split(z % 2, 2, r, 1);
        vstd::arithmetic::div_mod::lemma_div_denominator(w as int, 2, 2);
        assert(3 * i == 0 && 3 * i + 1 == 0 + 1 && 3 * i + 2 == 0 + 2);
    } else {
        let i1 = (i - 1) as nat;
        law_interleave3_bits(x / 2, y / 2, z / 2, i1);
        lemma_bit_shift(w, 3 * i1, 3);
        lemma_bit_shift(w, 3 * i1 + 1, 3);
        lemma_bit_shift(w, 3 * i1 + 2, 3);
        lemma_bit_shift(x, i1, 1);
        lemma_bit_shift(y, i1, 1);
        lemma_bit_shift(z, i1, 1);
        assert(3 * i1 + 3 == 3 * i);
        assert(i1 + 1 == i);
    }
}

/// Bit `i < n` of `v` survives reduction modulo `2^n`.
proof fn lemma_bit_mod(v: nat, n: nat, i: nat)
    requires
        i < n,
    ensures
        crate::bitspec::bit(v % pow2(n), i) == crate::bitspec::bit(v, i),
    decreases i,
{
    let n1 = (n - 1) as nat;
    let p = pow2(n1);
    crate::bitspec::lemma_pow2_pos(n1);
    assert(pow2(n) == 2 * p);
    assert(pow2(1) == 2) by {
        reveal_with_fuel(pow2, 2);
    }
    lemma_low_bit(v);
    lemma_mod_split(v % 2, 2, v / 2, p);
    let u = v % pow2(n);
    lemma_mod_split(v % 2, 2, (v / 2) % p, 1);
    if i == 0 {
        assert(pow2(0) == 1);
    } else {
        let i1 = (i - 1) as nat;
        lemma_bit_mod(v / 2, n1, i1);
        lemma_bit_shift(u, i1, 1);
        lemma_bit_shift(v, i1, 1);
        assert(i1 + 1 == i);
    }
}

/// What `encode_3d` returns for `x`, `y`, `z`: bits at and above 10 of each
/// coordinate are dropped, so masking them off first changes nothing; the
/// key is below `2^30`; and for `i < 10` its bits `3i`, `3i + 1`, `3i + 2`
/// are bit `i` of `x`, `y`, `z`.
pub proof fn law_morton_3d_encode(x: u16, y: u16, z: u16, i: nat)
    requires
        i < 10,
    ensures
        ((x & 0x3FF) as nat) % 1024 == x as nat % 1024,
        ((y & 0x3FF) as nat) % 1024 == y as nat % 1024,
        ((z & 0x3FF) as nat) % 1024 == z as nat % 1024,
        interleave3(x as nat % 1024, y as nat % 1024, z as nat % 1024) < 0x4000_0000,
        crate::bitspec::bit(interleave3(x as nat % 1024, y as nat % 1024, z as nat % 1024), 3 * i)
            == crate::bitspec::bit(x as nat, i),
        crate::bitspec::bit(interleave3(x as nat % 1024, y as nat % 1024, z as nat % 1024), 3 * i + 1)
            == crate::bitspec::bit(y as nat, i),
        crate::bitspec::bit(interleave3(x as nat % 1024, y as nat % 1024, z as nat % 1024), 3 * i + 2)
            == crate::bitspec::bit(z as nat, i),
{
    assert((x & 0x3FF) as nat % 1024 == x as nat % 1024 && (y & 0x3FF) as nat % 1024 == y as nat % 1024
        && (z & 0x3FF) as nat % 1024 == z as nat % 1024) by (bit_vector);
    assert(pow2(10) == 1024) by {
        reveal_with_fuel(pow2, 11);
    }
    law_morton_3d_round_trip(x as nat % 1024, y as nat % 1024, z as nat % 1024);
    law_interleave3_bits(x as nat % 1024, y as nat % 1024, z as nat % 1024, i);
    lemma_bit_mod(x as nat, 10, i);
    lemma_bit_mod(y as nat, 10, i);
    lemma_bit_mod(z as nat, 10, i);
}

// ---------------------------------------------------------------------------
// Encode / decode
// ---------------------------------------------------------------------------

/// Encode 2D coordinates `(x, y)` into a 32-bit Morton key.
pub fn encode_2d(x: u16, y: u16) -> (r: u32)
    ensures
        r as nat == interleave2(x as nat, y as nat),
{
    let a = pdep_u32(x as u32, LANE_2D_X);
    let b = pdep_u32(y as u32, LANE_2D_Y);
    proof {
        lemma_lane_constants();
        lemma_pow2_32();
        lemma_pdep_shift(y as nat, spread2(16));
        lemma_pdep_spread2(x as nat, 16);
        lemma_pdep_spread2(y as nat, 16);
        lemma_pdep_within_mask(x as nat, LANE_2D_X as nat);
        lemma_pdep_within_mask(y as nat, LANE_2D_Y as nat);
        lemma_and_u32(a, LANE_2D_X);
        lemma_and_u32(b, LANE_2D_Y);
        lemma_interleave2_sum(x as nat, y as nat);
    }
    assert(a | b == a + b) by (bit_vector)
        requires a & 0x5555_5555u32 == a, b & 0xAAAA_AAAAu32 == b;
    a | b
}

/// Decode a 32-bit Morton key back into `(x, y)`.
pub fn decode_2d(z: u32) -> (r: (u16, u16))
    ensures
        r.0 as nat == even_bits(z as nat),
        r.1 as nat == even_bits(z as nat / 2),
{
    let a = pext_u32(z, LANE_2D_X);
    let b = pext_u32(z, LANE_2D_Y);
    proof {
        lemma_lane_constants();
        lemma_pow2_32();
        lemma_pext_shift(z as nat, spread2(16));
        lemma_pext_spread2(z as nat, 16);
        lemma_pext_spread2(z as nat / 2, 16);
        lemma_popcount_spread2(16);
        lemma_pext_bound(z as nat, LANE_2D_X as nat);
        lemma_pext_bound(z as nat, LANE_2D_Y as nat);
        assert(2 * 16 == 32);
    }
    (a as u16, b as u16)
}

/// Encode 2D 32-bit coordinates `(x, y)` into a 64-bit Morton key.
pub fn encode_2d_u64(x: u32, y: u32) -> (r: u64)
    ensures
        r as nat == interleave2(x as nat, y as nat),
{
    let a = pdep_u64(x as u64, LANE_2D_X_U64);
    let b = pdep_u64(y as u64, LANE_2D_Y_U64);
    proof {
        lemma_lane_constants();
        lemma_pow2_32();
        lemma_pdep_shift(y as nat, spread2(32));
        lemma_pdep_spread2(x as nat, 32);
        lemma_pdep_spread2(y as nat, 32);
        lemma_pdep_within_mask(x as nat, LANE_2D_X_U64 as nat);
        lemma_pdep_within_mask(y as nat, LANE_2D_Y_U64 as nat);
        lemma_and_u64(a, LANE_2D_X_U64);
        lemma_and_u64(b, LANE_2D_Y_U64);
        lemma_interleave2_sum(x as nat, y as nat);
    }
    assert(a | b == a + b) by (bit_vector)
        requires a & 0x5555_5555_5555_5555u64 == a, b & 0xAAAA_AAAA_AAAA_AAAAu64 == b;
    a | b
}

/// Decode a 64-bit Morton key into a `(x, y)` pair of 32-bit coordinates.
pub fn decode_2d_u64(z: u64) -> (r: (u32, u32))
    ensures
        r.0 as nat == even_bits(z as nat),
        r.1 as nat == even_bits(z as nat / 2),
{
    let a = pext_u64(z, LANE_2D_X_U64);
    let b = pext_u64(z, LANE_2D_Y_U64);
    proof {
        lemma_lane_constants();
        lemma_pow2_32();
        lemma_pext_shift(z as nat, spread2(32));
        lemma_pext_spread2(z as nat, 32);
        lemma_pext_spread2(z as nat / 2, 32);
        lemma_popcount_spread2(32);
        lemma_pext_bound(z as nat, LANE_2D_X_U64 as nat);
        lemma_pext_bound(z as nat, LANE_2D_Y_U64 as nat);
        assert(2 * 32 == 64);
    }
    (a as u32, b as u32)
}

proof fn lemma_encode3_parts(xb: u32, yb: u32, zb: u32, a: u32, b: u32, c: u32)
    requires
        xb < 1024,
        yb < 1024,
        zb < 1024,
        a as nat == pdep(xb as nat, LANE_3D_X as nat),
        b as nat == pdep(yb as nat, LANE_3D_Y as nat),
        c as nat == pdep(zb as nat, LANE_3D_Z as nat),
    ensures
        a & LANE_3D_X == a,
        b & LANE_3D_Y == b,
        c & LANE_3D_Z == c,
        a as nat + b as nat + c as nat == interleave3(xb as nat, yb as nat, zb as nat),
{
    lemma_lane_constants();
    assert(pow2(10) == 1024) by {
        reveal_with_fuel(pow2, 11);
    }
    lemma_pdep_shift(yb as nat, spread3(10));
    lemma_pdep_shift(zb as nat, spread3(10));
    lemma_pdep_shift(zb as nat, 2 * spread3(10));
    lemma_pdep_spread3(xb as nat, 10);
    lemma_pdep_spread3(yb as nat, 10);
    lemma_pdep_spread3(zb as nat, 10);
    lemma_pdep_within_mask(xb as nat, LANE_3D_X as nat);
    lemma_pdep_within_mask(yb as nat, LANE_3D_Y as nat);
    lemma_pdep_within_mask(zb as nat, LANE_3D_Z as nat);
    lemma_and_u32(a, LANE_3D_X);
    lemma_and_u32(b, LANE_3D_Y);
    lemma_and_u32(c, LANE_3D_Z);
    lemma_interleave3_sum(xb as nat, yb as nat, zb as nat);
}

/// Encode 3D coordinates `(x, y, z)` into a 32-bit Morton key.
///
/// Each coordinate must fit in 10 bits (`< 1024`); higher bits are
/// silently truncated.
pub fn encode_3d(x: u16, y: u16, z: u16) -> (r: u32)
    ensures
        r as nat == interleave3(x as nat % 1024, y as nat % 1024, z as nat % 1024),
{
    let m10: u32 = 0x3FF;
    let xb = (x as u32) & m10;
    let yb = (y as u32) & m10;
    let zb = (z as u32) & m10;
    assert(xb == x % 1024 && yb == y % 1024 && zb == z % 1024) by (bit_vector)
        requires xb == (x as u32) & 0x3FFu32, yb == (y as u32) & 0x3FFu32, zb == (z as u32) & 0x3FFu32;
    let a = pdep_u32(xb, LANE_3D_X);
    let b = pdep_u32(yb, LANE_3D_Y);
    let c = pdep_u32(zb, LANE_3D_Z);
    proof {
        lemma_encode3_parts(xb, yb, zb, a, b, c);
    }
    assert(a | b | c == a + b + c) by (bit_vector)
        requires a & 0x0924_9249u32 == a, b & 0x1249_2492u32 == b, c & 0x2492_4924u32 == c;
    a | b | c
}

/// Decode a 32-bit 3D Morton key.
pub fn decode_3d(w: u32) -> (r: (u16, u16, u16))
    ensures
        r.0 as nat == every_third(w as nat % 0x4000_0000),
        r.1 as nat == every_third((w as nat / 2) % 0x4000_0000),
        r.2 as nat == every_third((w as nat / 4) % 0x4000_0000),
{
    let a = pext_u32(w, LANE_3D_X);
    let b = pext_u32(w, LANE_3D_Y);
    let c = pext_u32(w, LANE_3D_Z);
    proof {
        lemma_lane_constants();
        assert(pow2(10) == 1024 && pow2(30) == 0x4000_0000) by {
            reveal_with_fuel(pow2, 31);
        }
        lemma_pext_shift(w as nat, spread3(10));
        lemma_pext_shift(w as nat, 2 * spread3(10));
        lemma_pext_shift(w as nat / 2, spread3(10));
        vstd::arithmetic::div_mod::lemma_div_denominator(w as int, 2, 2);
        lemma_pext_spread3(w as nat, 10);
        lemma_pext_spread3(w as nat / 2, 10);
        lemma_pext_spread3(w as nat / 4, 10);
        lemma_popcount_spread3(10);
        lemma_pext_bound(w as nat, LANE_3D_X as nat);
        lemma_pext_bound(w as nat, LANE_3D_Y as nat);
        lemma_pext_bound(w as nat, LANE_3D_Z as nat);
        assert(3 * 10 == 30);
    }
    (a as u16, b as u16, c as u16)
}

} // verus!
