//! Bit gather / scatter (PEXT / PDEP).
//!
//! * `pext(x, mask)`: for each bit set in `mask`, from low to high, take the
//!   corresponding bit of `x` and pack it into the low bits of the result.
//! * `pdep(x, mask)`: take the low `popcount(mask)` bits of `x` and scatter
//!   them, in order, into the positions set in `mask`.
//!
//! Both are computed by a portable loop that visits the set bits of the mask
//! from the lowest one up.

use vstd::prelude::*;
use crate::bitspec::{
    bit_and, lemma_pdep_pext, lemma_pext_pdep, lemma_pext_bound, lemma_pdep_within_mask, lemma_popcount_pext,
    lemma_and_low_mask, lemma_and_pow2, lemma_and_u32, lemma_and_u64,
    is_pow2, lemma_pdep_lowest, lemma_pext_lowest, lemma_popcount_bound, lemma_popcount_pos,
    lemma_pow2_32, lemma_pow2_mono, lemma_pow2_pos, lemma_pow2_u64, pdep, pext, popcount, pow2,
};

verus! {

/// Facts about the lowest set bit `l = m & (!m + 1)` of a non-zero word.
proof fn lemma_lowest_u32(x: u32, m: u32, l: u32)
    requires
        m != 0,
        l == m & ((!m + 1) as u32),
    ensures
        l != 0,
        is_pow2(l as nat),
        m % l == 0,
        (m / l) % 2 == 1,
        m ^ l == m - l,
        m & l == l,
        ((x & l) != 0) == ((x / l) % 2 == 1),
        m - l != 0 ==> 2 * (l as int) <= ((m - l) as u32) & ((!((m - l) as u32) + 1) as u32),
{
    assert(l != 0 && l & ((l - 1) as u32) == 0 && m & ((l - 1) as u32) == 0 && m & l == l && m ^ l == m - l)
        by (bit_vector)
        requires m != 0, l == m & ((!m + 1) as u32);
    assert(m - l != 0 ==> 2 * (l as int) <= ((m - l) as u32) & ((!((m - l) as u32) + 1) as u32)) by (bit_vector)
        requires l == m & ((!m + 1) as u32), m != 0;
    lemma_pow2_u64(l as u64);
    assert((l as u64) & ((l as u64 - 1) as u64) == (l & ((l - 1) as u32)) as u64) by (bit_vector)
        requires l != 0;
    lemma_and_u32(m, (l - 1) as u32);
    lemma_and_u32(m, l);
    lemma_and_u32(x, l);
    lemma_and_low_mask(m as nat, l as nat);
    lemma_and_pow2(m as nat, l as nat);
    lemma_and_pow2(x as nat, l as nat);
    assert(((m / l) % 2) * l == l ==> (m / l) % 2 == 1) by (nonlinear_arith)
        requires l > 0;
    assert(((x / l) % 2) * l != 0 <==> (x / l) % 2 == 1) by (nonlinear_arith)
        requires l > 0;
}

/// Facts about the lowest set bit `l = m & (!m + 1)` of a non-zero word.
proof fn lemma_lowest_u64(x: u64, m: u64, l: u64)
    requires
        m != 0,
        l == m & ((!m + 1) as u64),
    ensures
        l != 0,
        is_pow2(l as nat),
        m % l == 0,
        (m / l) % 2 == 1,
        m ^ l == m - l,
        m & l == l,
        ((x & l) != 0) == ((x / l) % 2 == 1),
        m - l != 0 ==> 2 * (l as int) <= ((m - l) as u64) & ((!((m - l) as u64) + 1) as u64),
{
    assert(l != 0 && l & ((l - 1) as u64) == 0 && m & ((l - 1) as u64) == 0 && m & l == l && m ^ l == m - l)
        by (bit_vector)
        requires m != 0, l == m & ((!m + 1) as u64);
    assert(m - l != 0 ==> 2 * (l as int) <= ((m - l) as u64) & ((!((m - l) as u64) + 1) as u64)) by (bit_vector)
        requires l == m & ((!m + 1) as u64), m != 0;
    lemma_pow2_u64(l);
    lemma_and_u64(m, (l - 1) as u64);
    lemma_and_u64(m, l);
    lemma_and_u64(x, l);
    lemma_and_low_mask(m as nat, l as nat);
    lemma_and_pow2(m as nat, l as nat);
    lemma_and_pow2(x as nat, l as nat);
    assert(((m / l) % 2) * l == l ==> (m / l) % 2 == 1) by (nonlinear_arith)
        requires l > 0;
    assert(((x / l) % 2) * l != 0 <==> (x / l) % 2 == 1) by (nonlinear_arith)
        requires l > 0;
}

/// Portable PEXT for `u32`.
pub fn pext_u32_swar(x: u32, mask: u32) -> (r: u32)
    ensures
        r as nat == pext(x as nat, mask as nat),
{
    let mut res: u32 = 0;
    let mut bb: u32 = 1;
    let mut m: u32 = mask;
    let ghost mut bbn: nat = 1;
    proof {
        lemma_pow2_32();
        lemma_popcount_bound(mask as nat, 32);
        lemma_pow2_mono(popcount(mask as nat), 32);
    }
    while m != 0
        invariant
            pext(x as nat, mask as nat) == res as nat + bbn * pext(x as nat, m as nat),
            res < bbn,
            is_pow2(bbn),
            m != 0 ==> bb as nat == bbn,
            bbn * pow2(popcount(m as nat)) <= 0x1_0000_0000,
        decreases m,
    {
        assert(!m < 0xffff_ffffu32) by (bit_vector)
            requires m != 0;
        let lowest = m & (!m + 1);
        let ghost m0 = m;
        proof {
            lemma_lowest_u32(x, m, lowest);
            let q = (m / lowest) as nat;
            assert(m as nat == q * lowest as nat) by (nonlinear_arith)
                requires m % lowest == 0, q == m / lowest, lowest > 0;
            lemma_pext_lowest(x as nat, m as nat, lowest as nat, q);
            lemma_pow2_u64(bb as u64);
            assert((bb as u64) & ((bb as u64 - 1) as u64) == (bb & ((bb - 1) as u32)) as u64) by (bit_vector)
                requires bb != 0;
        }
        if (x & lowest) != 0 {
            assert(res | bb == res + bb) by (bit_vector)
                requires res < bb, bb != 0, bb & ((bb - 1) as u32) == 0;
            res = res | bb;
        }
        m = m ^ lowest;
        proof {
            let pc1 = popcount(m as nat);
            lemma_pow2_pos(pc1);
            if m != 0 {
                lemma_popcount_pos(m as nat);
                lemma_pow2_mono(1, pc1);
            }
            assert(pow2(pc1 + 1) == 2 * pow2(pc1));
            assert(bbn * pow2(pc1 + 1) == 2 * bbn * pow2(pc1)) by (nonlinear_arith)
                requires pow2(pc1 + 1) == 2 * pow2(pc1);
            assert(m != 0 ==> 2 * bbn * 2 <= 0x1_0000_0000) by (nonlinear_arith)
                requires 2 * bbn * pow2(pc1) <= 0x1_0000_0000, m != 0 ==> pow2(pc1) >= 2, bbn >= 1;
            assert(bbn * pext(x as nat, m0 as nat) == bbn * ((x / lowest) as nat % 2) + 2 * bbn * pext(x as nat, m as nat)) by (nonlinear_arith)
                requires pext(x as nat, m0 as nat) == (x / lowest) as nat % 2 + 2 * pext(x as nat, m as nat);
            assert(is_pow2(2 * bbn)) by {
                assert((2 * bbn) / 2 == bbn);
            }
        }
        if m != 0 {
            assert((bb << 1u32) as nat == 2 * (bb as nat)) by (bit_vector)
                requires 2 * (bb as nat) <= 0x8000_0000;
        }
        bb = bb << 1u32;
        proof {
            bbn = 2 * bbn;
        }
    }
    assert(bbn * pext(x as nat, 0) == 0) by (nonlinear_arith);
    res
}

/// Portable PDEP for `u32`.
pub fn pdep_u32_swar(x: u32, mask: u32) -> (r: u32)
    ensures
        r as nat == pdep(x as nat, mask as nat),
{
    let mut res: u32 = 0;
    let mut bb: u32 = 1;
    let mut m: u32 = mask;
    let ghost mut bbn: nat = 1;
    proof {
        lemma_pow2_32();
        lemma_popcount_bound(mask as nat, 32);
        lemma_pow2_mono(popcount(mask as nat), 32);
        assert(0u32 & mask == 0) by (bit_vector);
    }
    while m != 0
        invariant
            pdep(x as nat, mask as nat) == res as nat + pdep(x as nat / bbn, m as nat),
            res & m == 0,
            bbn >= 1,
            is_pow2(bbn),
            m != 0 ==> bb as nat == bbn,
            bbn * pow2(popcount(m as nat)) <= 0x1_0000_0000,
        decreases m,
    {
        assert(!m < 0xffff_ffffu32) by (bit_vector)
            requires m != 0;
        let lowest = m & (!m + 1);
        let ghost m0 = m;
        let ghost y = x as nat / bbn;
        proof {
            lemma_lowest_u32(x, m, lowest);
            let q = (m / lowest) as nat;
            assert(m as nat == q * lowest as nat) by (nonlinear_arith)
                requires m % lowest == 0, q == m / lowest, lowest > 0;
            lemma_pdep_lowest(y, m as nat, lowest as nat, q);
            lemma_pext_lowest(0, m as nat, lowest as nat, q);
            lemma_and_u32(x, bb);
            lemma_and_pow2(x as nat, bb as nat);
            assert(((x as nat / bbn) % 2) * bbn != 0 <==> (x as nat / bbn) % 2 == 1) by (nonlinear_arith)
                requires bbn > 0;
            vstd::arithmetic::div_mod::lemma_div_denominator(x as int, bbn as int, 2);
            assert(res & lowest == 0) by (bit_vector)
                requires res & m == 0, m & lowest == lowest;
        }
        let ghost res0 = res;
        if (x & bb) != 0 {
            assert(res | lowest == res + lowest) by (bit_vector)
                requires res & lowest == 0;
            res = res | lowest;
            assert((y % 2) * (lowest as nat) == lowest as nat) by (nonlinear_arith)
                requires y % 2 == 1;
        } else {
            assert((y % 2) * (lowest as nat) == 0) by (nonlinear_arith)
                requires y % 2 == 0;
        }
        assert(res & (m0 ^ lowest) == 0) by (bit_vector)
            requires res0 & m0 == 0, m0 & lowest == lowest, res == res0 || res == res0 | lowest;
        m = m ^ lowest;
        assert(x as nat / (2 * bbn) == y / 2) by {
            assert(bbn * 2 == 2 * bbn);
        }
        proof {
            let pc1 = popcount(m as nat);
            lemma_pow2_pos(pc1);
            if m != 0 {
                lemma_popcount_pos(m as nat);
                lemma_pow2_mono(1, pc1);
            }
            assert(pow2(pc1 + 1) == 2 * pow2(pc1));
            assert(bbn * pow2(pc1 + 1) == 2 * bbn * pow2(pc1)) by (nonlinear_arith)
                requires pow2(pc1 + 1) == 2 * pow2(pc1);
            assert(m != 0 ==> 2 * bbn * 2 <= 0x1_0000_0000) by (nonlinear_arith)
                requires 2 * bbn * pow2(pc1) <= 0x1_0000_0000, m != 0 ==> pow2(pc1) >= 2, bbn >= 1;
            assert(is_pow2(2 * bbn)) by {
                assert((2 * bbn) / 2 == bbn);
            }
        }
        if m != 0 {
            assert((bb << 1u32) as nat == 2 * (bb as nat)) by (bit_vector)
                requires 2 * (bb as nat) <= 0x8000_0000;
        }
        bb = bb << 1u32;
        proof {
            bbn = 2 * bbn;
        }
    }
    res
}

/// Portable PEXT for `u64`.
pub fn pext_u64_swar(x: u64, mask: u64) -> (r: u64)
    ensures
        r as nat == pext(x as nat, mask as nat),
{
    let mut res: u64 = 0;
    let mut bb: u64 = 1;
    let mut m: u64 = mask;
    let ghost mut bbn: nat = 1;
    proof {
        lemma_pow2_32();
        lemma_popcount_bound(mask as nat, 64);
        lemma_pow2_mono(popcount(mask as nat), 64);
    }
    while m != 0
        invariant
            pext(x as nat, mask as nat) == res as nat + bbn * pext(x as nat, m as nat),
            res < bbn,
            is_pow2(bbn),
            m != 0 ==> bb as nat == bbn,
            bbn * pow2(popcount(m as nat)) <= 0x1_0000_0000_0000_0000,
        decreases m,
    {
        assert(!m < 0xffff_ffff_ffff_ffffu64) by (bit_vector)
            requires m != 0;
        let lowest = m & (!m + 1);
        let ghost m0 = m;
        proof {
            lemma_lowest_u64(x, m, lowest);
            let q = (m / lowest) as nat;
            assert(m as nat == q * lowest as nat) by (nonlinear_arith)
                requires m % lowest == 0, q == m / lowest, lowest > 0;
            lemma_pext_lowest(x as nat, m as nat, lowest as nat, q);
            lemma_pow2_u64(bb);
        }
        if (x & lowest) != 0 {
            assert(res | bb == res + bb) by (bit_vector)
                requires res < bb, bb != 0, bb & ((bb - 1) as u64) == 0;
            res = res | bb;
        }
        m = m ^ lowest;
        proof {
            let pc1 = popcount(m as nat);
            lemma_pow2_pos(pc1);
            if m != 0 {
                lemma_popcount_pos(m as nat);
                lemma_pow2_mono(1, pc1);
            }
            assert(pow2(pc1 + 1) == 2 * pow2(pc1));
            assert(bbn * pow2(pc1 + 1) == 2 * bbn * pow2(pc1)) by (nonlinear_arith)
                requires pow2(pc1 + 1) == 2 * pow2(pc1);
            assert(m != 0 ==> 2 * bbn * 2 <= 0x1_0000_0000_0000_0000) by (nonlinear_arith)
                requires 2 * bbn * pow2(pc1) <= 0x1_0000_0000_0000_0000, m != 0 ==> pow2(pc1) >= 2, bbn >= 1;
            assert(bbn * pext(x as nat, m0 as nat) == bbn * ((x / lowest) as nat % 2) + 2 * bbn * pext(x as nat, m as nat)) by (nonlinear_arith)
                requires pext(x as nat, m0 as nat) == (x / lowest) as nat % 2 + 2 * pext(x as nat, m as nat);
            assert(is_pow2(2 * bbn)) by {
                assert((2 * bbn) / 2 == bbn);
            }
        }
        if m != 0 {
            assert((bb << 1u64) as nat == 2 * (bb as nat)) by (bit_vector)
                requires 2 * (bb as nat) <= 0x8000_0000_0000_0000;
        }
        bb = bb << 1u64;
        proof {
            bbn = 2 * bbn;
        }
    }
    assert(bbn * pext(x as nat, 0) == 0) by (nonlinear_arith);
    res
}

/// Portable PDEP for `u64`.
pub fn pdep_u64_swar(x: u64, mask: u64) -> (r: u64)
    ensures
        r as nat == pdep(x as nat, mask as nat),
{
    let mut res: u64 = 0;
    let mut bb: u64 = 1;
    let mut m: u64 = mask;
    let ghost mut bbn: nat = 1;
    proof {
        lemma_pow2_32();
        lemma_popcount_bound(mask as nat, 64);
        lemma_pow2_mono(popcount(mask as nat), 64);
        assert(0u64 & mask == 0) by (bit_vector);
    }
    while m != 0
        invariant
            pdep(x as nat, mask as nat) == res as nat + pdep(x as nat / bbn, m as nat),
            res & m == 0,
            bbn >= 1,
            is_pow2(bbn),
            m != 0 ==> bb as nat == bbn,
            bbn * pow2(popcount(m as nat)) <= 0x1_0000_0000_0000_0000,
        decreases m,
    {
        assert(!m < 0xffff_ffff_ffff_ffffu64) by (bit_vector)
            requires m != 0;
        let lowest = m & (!m + 1);
        let ghost m0 = m;
        let ghost y = x as nat / bbn;
        proof {
            lemma_lowest_u64(x, m, lowest);
            let q = (m / lowest) as nat;
            assert(m as nat == q * lowest as nat) by (nonlinear_arith)
                requires m % lowest == 0, q == m / lowest, lowest > 0;
            lemma_pdep_lowest(y, m as nat, lowest as nat, q);
            lemma_pext_lowest(0, m as nat, lowest as nat, q);
            lemma_and_u64(x, bb);
            lemma_and_pow2(x as nat, bb as nat);
            assert(((x as nat / bbn) % 2) * bbn != 0 <==> (x as nat / bbn) % 2 == 1) by (nonlinear_arith)
                requires bbn > 0;
            vstd::arithmetic::div_mod::lemma_div_denominator(x as int, bbn as int, 2);
            assert(res & lowest == 0) by (bit_vector)
                requires res & m == 0, m & lowest == lowest;
        }
        let ghost res0 = res;
        if (x & bb) != 0 {
            assert(res | lowest == res + lowest) by (bit_vector)
                requires res & lowest == 0;
            res = res | lowest;
            assert((y % 2) * (lowest as nat) == lowest as nat) by (nonlinear_arith)
                requires y % 2 == 1;
        } else {
            assert((y % 2) * (lowest as nat) == 0) by (nonlinear_arith)
                requires y % 2 == 0;
        }
        assert(res & (m0 ^ lowest) == 0) by (bit_vector)
            requires res0 & m0 == 0, m0 & lowest == lowest, res == res0 || res == res0 | lowest;
        m = m ^ lowest;
        assert(x as nat / (2 * bbn) == y / 2) by {
            assert(bbn * 2 == 2 * bbn);
        }
        proof {
            let pc1 = popcount(m as nat);
            lemma_pow2_pos(pc1);
            if m != 0 {
                lemma_popcount_pos(m as nat);
                lemma_pow2_mono(1, pc1);
            }
            assert(pow2(pc1 + 1) == 2 * pow2(pc1));
            assert(bbn * pow2(pc1 + 1) == 2 * bbn * pow2(pc1)) by (nonlinear_arith)
                requires pow2(pc1 + 1) == 2 * pow2(pc1);
            assert(m != 0 ==> 2 * bbn * 2 <= 0x1_0000_0000_0000_0000) by (nonlinear_arith)
                requires 2 * bbn * pow2(pc1) <= 0x1_0000_0000_0000_0000, m != 0 ==> pow2(pc1) >= 2, bbn >= 1;
            assert(is_pow2(2 * bbn)) by {
                assert((2 * bbn) / 2 == bbn);
            }
        }
        if m != 0 {
            assert((bb << 1u64) as nat == 2 * (bb as nat)) by (bit_vector)
                requires 2 * (bb as nat) <= 0x8000_0000_0000_0000;
        }
        bb = bb << 1u64;
        proof {
            bbn = 2 * bbn;
        }
    }
    res
}

/// PEXT on `u32`: the bits of `x` selected by `mask`, packed low.
pub fn pext_u32(x: u32, mask: u32) -> (r: u32)
    ensures
        r as nat == pext(x as nat, mask as nat),
{
    pext_u32_swar(x, mask)
}

/// PDEP on `u32`: the low bits of `x` spread onto the bits of `mask`.
pub fn pdep_u32(x: u32, mask: u32) -> (r: u32)
    ensures
        r as nat == pdep(x as nat, mask as nat),
{
    pdep_u32_swar(x, mask)
}

/// PEXT on `u64`.
pub fn pext_u64(x: u64, mask: u64) -> (r: u64)
    ensures
        r as nat == pext(x as nat, mask as nat),
{
    pext_u64_swar(x, mask)
}

/// PDEP on `u64`.
pub fn pdep_u64(x: u64, mask: u64) -> (r: u64)
    ensures
        r as nat == pdep(x as nat, mask as nat),
{
    pdep_u64_swar(x, mask)
}

/// Scattering through `mask` what was gathered through `mask` keeps exactly
/// the bits of `v` that `mask` selects.
pub proof fn law_scatter_gather_u32(v: u32, mask: u32)
    ensures
        pdep(pext(v as nat, mask as nat), mask as nat) == (v & mask) as nat,
{
    lemma_pdep_pext(v as nat, mask as nat);
    lemma_and_u32(v, mask);
}

/// Gathering through `mask` what was scattered through `mask` keeps the low
/// `popcount(mask)` bits of `v`.
pub proof fn law_gather_scatter_u32(v: u32, mask: u32)
    ensures
        pext(pdep(v as nat, mask as nat), mask as nat) == v as nat % pow2(popcount(mask as nat)),
{
    lemma_pext_pdep(v as nat, mask as nat);
}

/// `u64` form of [`law_scatter_gather_u32`].
pub proof fn law_scatter_gather_u64(v: u64, mask: u64)
    ensures
        pdep(pext(v as nat, mask as nat), mask as nat) == (v & mask) as nat,
{
    lemma_pdep_pext(v as nat, mask as nat);
    lemma_and_u64(v, mask);
}

/// `u64` form of [`law_gather_scatter_u32`].
pub proof fn law_gather_scatter_u64(v: u64, mask: u64)
    ensures
        pext(pdep(v as nat, mask as nat), mask as nat) == v as nat % pow2(popcount(mask as nat)),
{
    lemma_pext_pdep(v as nat, mask as nat);
}

/// Gathering through `mask` yields as many set bits as `x` has inside
/// `mask`, all of them in the low `popcount(mask)` positions.
pub proof fn law_gather_bits_u32(x: u32, mask: u32)
    ensures
        popcount(pext(x as nat, mask as nat)) == popcount((x & mask) as nat),
        pext(x as nat, mask as nat) < pow2(popcount(mask as nat)),
{
    lemma_popcount_pext(x as nat, mask as nat);
    lemma_and_u32(x, mask);
    lemma_pext_bound(x as nat, mask as nat);
}

/// Scattering through `mask` sets bits only inside `mask`.
pub proof fn law_scatter_within_mask_u32(low: u32, mask: u32)
    ensures
        bit_and(pdep(low as nat, mask as nat), mask as nat) == pdep(low as nat, mask as nat),
{
    lemma_pdep_within_mask(low as nat, mask as nat);
}

/// `u64` form of [`law_gather_bits_u32`].
pub proof fn law_gather_bits_u64(x: u64, mask: u64)
    ensures
        popcount(pext(x as nat, mask as nat)) == popcount((x & mask) as nat),
        pext(x as nat, mask as nat) < pow2(popcount(mask as nat)),
{
    lemma_popcount_pext(x as nat, mask as nat);
    lemma_and_u64(x, mask);
    lemma_pext_bound(x as nat, mask as nat);
}

/// `u64` form of [`law_scatter_within_mask_u32`].
pub proof fn law_scatter_within_mask_u64(low: u64, mask: u64)
    ensures
        bit_and(pdep(low as nat, mask as nat), mask as nat) == pdep(low as nat, mask as nat),
{
    lemma_pdep_within_mask(low as nat, mask as nat);
}

} // verus!
