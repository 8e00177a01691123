//! Power-of-two alignment over `usize`. `align` must be a non-zero power of two.

use vstd::prelude::*;
use crate::BitError;
use crate::bitspec::{is_pow2, lemma_and_low_mask, lemma_and_u64, lemma_pow2_u64};

verus! {

/// `v & (a - 1)` is `v % a` for a power of two `a`.
proof fn lemma_mask_is_mod(v: usize, a: usize)
    requires
        is_pow2(a as nat),
    ensures
        a >= 1,
        v & ((a - 1) as usize) == v % a,
        v & !((a - 1) as usize) == v - v % a,
{
    assert(a != 0);
    assert((v as u64) & ((a - 1) as u64) == (v & ((a - 1) as usize)) as u64) by (bit_vector)
        requires a != 0;
    lemma_and_u64(v as u64, (a - 1) as u64);
    lemma_and_low_mask(v as nat, a as nat);
    assert(v & !((a - 1) as usize) == v - (v & ((a - 1) as usize))) by (bit_vector)
        requires a != 0;
}

/// True if `v` is a non-zero power of two.
pub fn is_power_of_two(v: usize) -> (r: bool)
    ensures
        r == is_pow2(v as nat),
{
    proof {
        lemma_pow2_u64(v as u64);
        assert(v != 0 ==> (v as u64) & ((v as u64 - 1) as u64) == (v & ((v - 1) as usize)) as u64) by (bit_vector);
    }
    v != 0 && (v & (v - 1)) == 0
}

/// The error an alignment is refused with, if any.
pub open spec fn alignment_error(a: usize) -> Option<BitError> {
    if a == 0 {
        Some(BitError::AlignmentZero)
    } else if !is_pow2(a as nat) {
        Some(BitError::AlignmentNotPowerOfTwo)
    } else {
        None
    }
}

fn check(a: usize) -> (r: Result<(), BitError>)
    ensures
        r is Err <==> alignment_error(a) is Some,
        r is Err ==> r->Err_0 == alignment_error(a)->0,
{
    if a == 0 {
        Err(BitError::AlignmentZero)
    } else if !is_power_of_two(a) {
        Err(BitError::AlignmentNotPowerOfTwo)
    } else {
        Ok(())
    }
}

/// True if `v` is a multiple of `a`.
pub fn is_aligned(v: usize, a: usize) -> (r: Result<bool, BitError>)
    ensures
        alignment_error(a) is Some ==> r == Err::<bool, BitError>(alignment_error(a)->0),
        alignment_error(a) is None ==> r == Ok::<bool, BitError>(v % a == 0),
{
    match check(a) {
        Ok(()) => {
            proof {
                lemma_mask_is_mod(v, a);
            }
            Ok((v & (a - 1)) == 0)
        },
        Err(e) => Err(e),
    }
}

/// Largest multiple of `a` that is `<= v`.
pub fn down(v: usize, a: usize) -> (r: Result<usize, BitError>)
    ensures
        alignment_error(a) is Some ==> r == Err::<usize, BitError>(alignment_error(a)->0),
        alignment_error(a) is None ==> r == Ok::<usize, BitError>((v - v % a) as usize),
{
    match check(a) {
        Ok(()) => {
            proof {
                lemma_mask_is_mod(v, a);
            }
            Ok(v & !(a - 1))
        },
        Err(e) => Err(e),
    }
}

/// The smallest multiple of `a` that is `>= v`.
pub open spec fn round_up(v: nat, a: nat) -> nat {
    v + ((a - v % a) as nat) % a
}

proof fn lemma_round_up(v: usize, a: usize)
    requires
        a >= 1,
        v + a - 1 <= usize::MAX,
    ensures
        (v + a - 1) - (v + a - 1) % (a as int) == round_up(v as nat, a as nat),
{
    let q = v / a;
    let r = v % a;
    vstd::arithmetic::div_mod::lemma_fundamental_div_mod(v as int, a as int);
    let s = (v + a - 1) as int;
    if r == 0 {
        assert(s == q * a + (a - 1));
        vstd::arithmetic::div_mod::lemma_fundamental_div_mod_converse(s, a as int, q as int, a - 1);
        vstd::arithmetic::div_mod::lemma_mod_self_0(a as int);
    } else {
        assert(s == (q + 1) * a + (r - 1)) by (nonlinear_arith)
            requires s == v + a - 1, v == a * q + r;
        vstd::arithmetic::div_mod::lemma_fundamental_div_mod_converse(s, a as int, q + 1, r - 1);
        vstd::arithmetic::div_mod::lemma_small_mod((a - r) as nat, a as nat);
    }
}

/// Smallest multiple of `a` that is `>= v`. [`BitError::Overflow`] if it would overflow.
pub fn up(v: usize, a: usize) -> (r: Result<usize, BitError>)
    ensures
        alignment_error(a) is Some ==> r == Err::<usize, BitError>(alignment_error(a)->0),
        alignment_error(a) is None && v + a - 1 > usize::MAX ==> r == Err::<usize, BitError>(BitError::Overflow),
        alignment_error(a) is None && v + a - 1 <= usize::MAX ==> r == Ok::<usize, BitError>(round_up(v as nat, a as nat) as usize),
{
    match check(a) {
        Ok(()) => match v.checked_add(a - 1) {
            Some(s) => {
                proof {
                    lemma_mask_is_mod(s, a);
                    lemma_round_up(v, a);
                }
                Ok(s & !(a - 1))
            },
            None => Err(BitError::Overflow),
        },
        Err(e) => Err(e),
    }
}

/// Bytes needed to reach the next multiple of `a`.
pub fn padding(v: usize, a: usize) -> (r: Result<usize, BitError>)
    ensures
        alignment_error(a) is Some ==> r == Err::<usize, BitError>(alignment_error(a)->0),
        alignment_error(a) is None ==> r == Ok::<usize, BitError>((((a - v % a) as nat) % (a as nat)) as usize),
{
    match check(a) {
        Ok(()) => {
            proof {
                lemma_mask_is_mod(v, a);
                lemma_mask_is_mod((a - v % a) as usize, a);
            }
            Ok((a - (v & (a - 1))) & (a - 1))
        },
        Err(e) => Err(e),
    }
}

/// Rounding down and up bracket `v` within one step of `a`, padding is the
/// distance up, and aligned values are fixed points.
pub proof fn law_align(v: usize, a: usize)
    requires
        is_pow2(a as nat),
        v + a - 1 <= usize::MAX,
    ensures
        (v - v % a) % (a as int) == 0,
        v - a < v - v % a <= v,
        round_up(v as nat, a as nat) % (a as nat) == 0,
        v <= round_up(v as nat, a as nat) < v + a,
        round_up(v as nat, a as nat) == v + ((a - v % a) as nat) % (a as nat),
        v % a == 0 ==> round_up(v as nat, a as nat) == v && v - v % a == v,
{
    assert(a != 0);
    let q = v / a;
    let r = v % a;
    vstd::arithmetic::div_mod::lemma_fundamental_div_mod(v as int, a as int);
    assert(v - r == a * q);
    vstd::arithmetic::div_mod::lemma_mod_multiples_basic(q as int, a as int);
    assert((q * a) % (a as int) == 0);
    if r == 0 {
        vstd::arithmetic::div_mod::lemma_mod_self_0(a as int);
        assert(round_up(v as nat, a as nat) == v);
    } else {
        vstd::arithmetic::div_mod::lemma_small_mod((a - r) as nat, a as nat);
        assert(round_up(v as nat, a as nat) == (q + 1) * a) by (nonlinear_arith)
            requires round_up(v as nat, a as nat) == v + (a - r), v == a * q + r;
        vstd::arithmetic::div_mod::lemma_mod_multiples_basic(q + 1, a as int);
    }
}

} // verus!
