//! Mathematical model of machine words as natural numbers read in base 2.
//!
//! Every bit operation of the library is stated over these functions, which
//! are independent of the word width.

use vstd::prelude::*;

verus! {

/// `2^n`.
pub open spec fn pow2(n: nat) -> nat
    decreases n,
{
    if n == 0 { 1 } else { 2 * pow2((n - 1) as nat) }
}

/// Bit `i` of `v` (0 or 1).
pub open spec fn bit(v: nat, i: nat) -> nat {
    (v / pow2(i)) % 2
}

/// `v` is a power of two.
pub open spec fn is_pow2(v: nat) -> bool
    decreases v,
{
    if v == 0 {
        false
    } else if v == 1 {
        true
    } else {
        v % 2 == 0 && is_pow2(v / 2)
    }
}

/// Bitwise AND of two naturals.
pub open spec fn bit_and(a: nat, b: nat) -> nat
    decreases a,
{
    if a == 0 { 0 } else { (a % 2) * (b % 2) + 2 * bit_and(a / 2, b / 2) }
}

/// Number of set bits.
pub open spec fn popcount(m: nat) -> nat
    decreases m,
{
    if m == 0 { 0 } else { m % 2 + popcount(m / 2) }
}

/// Parallel bit extract: the bits of `x` at the positions set in `m`,
/// packed from the least significant end.
pub open spec fn pext(x: nat, m: nat) -> nat
    decreases m,
{
    if m == 0 {
        0
    } else if m % 2 == 1 {
        x % 2 + 2 * pext(x / 2, m / 2)
    } else {
        pext(x / 2, m / 2)
    }
}

/// Parallel bit deposit: the low bits of `x`, in order, placed at the
/// positions set in `m`.
pub open spec fn pdep(x: nat, m: nat) -> nat
    decreases m,
{
    if m == 0 {
        0
    } else if m % 2 == 1 {
        x % 2 + 2 * pdep(x / 2, m / 2)
    } else {
        2 * pdep(x, m / 2)
    }
}

// ---------------------------------------------------------------------------
// Machine words and the model
// ---------------------------------------------------------------------------

pub proof fn lemma_and_u64(a: u64, b: u64)
    ensures
        (a & b) as nat == bit_and(a as nat, b as nat),
    decreases a,
{
    if a == 0 {
        assert(0u64 & b == 0) by (bit_vector);
    } else {
        assert((a & b) % 2 == (a % 2) * (b % 2)) by (bit_vector);
        assert((a & b) / 2 == (a / 2) & (b / 2)) by (bit_vector);
        lemma_and_u64(a / 2, b / 2);
    }
}

pub proof fn lemma_and_u32(a: u32, b: u32)
    ensures
        (a & b) as nat == bit_and(a as nat, b as nat),
{
    assert((a as u64) & (b as u64) == (a & b) as u64) by (bit_vector);
    lemma_and_u64(a as u64, b as u64);
}

pub proof fn lemma_pow2_u64(v: u64)
    ensures
        (v != 0 && v & (v - 1) as u64 == 0) == is_pow2(v as nat),
    decreases v,
{
    if v == 0 {
    } else if v == 1 {
        assert(1u64 & 0u64 == 0) by (bit_vector);
    } else {
        assert(v != 0 && v != 1 ==> ((v & (v - 1) as u64 == 0) == (v % 2 == 0 && (v / 2) & ((v / 2) - 1) as u64 == 0))) by (bit_vector);
        lemma_pow2_u64(v / 2);
    }
}

// ---------------------------------------------------------------------------
// Powers of two and counting
// ---------------------------------------------------------------------------

pub proof fn lemma_pow2_pos(n: nat)
    ensures
        pow2(n) >= 1,
        is_pow2(pow2(n)),
    decreases n,
{
    if n > 0 {
        lemma_pow2_pos((n - 1) as nat);
        assert((2 * pow2((n - 1) as nat)) / 2 == pow2((n - 1) as nat));
    }
}

pub proof fn lemma_pow2_32()
    ensures
        pow2(8) == 0x100,
        pow2(16) == 0x1_0000,
        pow2(32) == 0x1_0000_0000,
        pow2(64) == 0x1_0000_0000_0000_0000,
{
    reveal_with_fuel(pow2, 65);
}

pub proof fn lemma_pow2_add(a: nat, b: nat)
    ensures
        pow2(a) * pow2(b) == pow2(a + b),
    decreases a,
{
    if a > 0 {
        lemma_pow2_add((a - 1) as nat, b);
        assert(pow2(a + b) == 2 * pow2((a + b - 1) as nat));
        assert((a - 1) as nat + b == (a + b - 1) as nat);
        let pa1 = pow2((a - 1) as nat);
        let pb = pow2(b);
        assert(pow2(a) * pow2(b) == pow2(a + b)) by (nonlinear_arith)
            requires
                pow2(a) == 2 * pa1,
                pa1 * pb == pow2((a + b - 1) as nat),
                pow2(a + b) == 2 * pow2((a + b - 1) as nat),
                pb == pow2(b);
    } else {
        assert(1 * pow2(b) == pow2(b));
    }
}

pub proof fn lemma_pow2_mono(a: nat, b: nat)
    requires
        a <= b,
    ensures
        pow2(a) <= pow2(b),
    decreases b,
{
    if a < b {
        lemma_pow2_mono(a, (b - 1) as nat);
        lemma_pow2_pos((b - 1) as nat);
    }
}

pub proof fn lemma_popcount_bound(m: nat, n: nat)
    requires
        m < pow2(n),
    ensures
        popcount(m) <= n,
    decreases n,
{
    if n > 0 && m > 0 {
        lemma_popcount_bound(m / 2, (n - 1) as nat);
    }
}

pub proof fn lemma_popcount_pos(m: nat)
    requires
        m != 0,
    ensures
        popcount(m) >= 1,
    decreases m,
{
    if m % 2 == 0 {
        lemma_popcount_pos(m / 2);
    }
}

// ---------------------------------------------------------------------------
// Peeling the lowest set bit off a mask
// ---------------------------------------------------------------------------

/// With `l` the lowest set bit of `m` (so `m == q * l` with `q` odd),
/// extraction takes the bit of `x` at that position first.
pub proof fn lemma_pext_lowest(x: nat, m: nat, l: nat, q: nat)
    requires
        is_pow2(l),
        m == q * l,
        q % 2 == 1,
    ensures
        m >= l,
        pext(x, m) == (x / l) % 2 + 2 * pext(x, (m - l) as nat),
        popcount(m) == popcount((m - l) as nat) + 1,
    decreases l,
{
    if l == 1 {
        assert(m == q) by (nonlinear_arith)
            requires m == q * l, l == 1;
        assert(x / l == x);
        if m == 1 {
            assert(pext(x, 0) == 0);
        } else {
            assert(((m - 1) as nat) % 2 == 0);
            assert(((m - 1) as nat) / 2 == m / 2);
            assert(pext(x, (m - 1) as nat) == pext(x / 2, ((m - 1) as nat) / 2));
        }
        assert(pext(x, m) == x % 2 + 2 * pext(x / 2, m / 2));
    } else {
        let l2 = l / 2;
        assert(l == 2 * l2);
        let m2: nat = q * l2;
        assert(m == 2 * m2) by (nonlinear_arith)
            requires m == q * l, l == 2 * l2, m2 == q * l2;
        assert(m2 >= l2) by (nonlinear_arith)
            requires q % 2 == 1, m2 == q * l2;
        lemma_pext_lowest(x / 2, m2, l2, q);
        vstd::arithmetic::div_mod::lemma_div_denominator(x as int, 2, l2 as int);
        assert(m / 2 == m2);
        assert((m - l) as nat == 2 * ((m2 - l2) as nat));
        assert(((m - l) as nat) / 2 == (m2 - l2) as nat);
        assert(pext(x, m) == pext(x / 2, m2));
        assert(x / l == (x / 2) / l2);
        if m2 == l2 {
            assert(pext(x, (m - l) as nat) == 0);
            assert(pext(x / 2, (m2 - l2) as nat) == 0);
        } else {
            assert(pext(x, (m - l) as nat) == pext(x / 2, (m2 - l2) as nat));
        }
    }
}

/// With `l` the lowest set bit of `m`, deposit puts the lowest bit of `y`
/// at that position first.
pub proof fn lemma_pdep_lowest(y: nat, m: nat, l: nat, q: nat)
    requires
        is_pow2(l),
        m == q * l,
        q % 2 == 1,
    ensures
        m >= l,
        pdep(y, m) == (y % 2) * l + pdep(y / 2, (m - l) as nat),
    decreases l,
{
    if l == 1 {
        assert(m == q) by (nonlinear_arith)
            requires m == q * l, l == 1;
        if m == 1 {
            assert(pdep(y / 2, 0) == 0);
        } else {
            assert(((m - 1) as nat) % 2 == 0);
            assert(((m - 1) as nat) / 2 == m / 2);
            assert(pdep(y / 2, (m - 1) as nat) == 2 * pdep(y / 2, ((m - 1) as nat) / 2));
        }
    } else {
        let l2 = l / 2;
        assert(l == 2 * l2);
        let m2: nat = q * l2;
        assert(m == 2 * m2) by (nonlinear_arith)
            requires m == q * l, l == 2 * l2, m2 == q * l2;
        assert(m2 >= l2) by (nonlinear_arith)
            requires q % 2 == 1, m2 == q * l2;
        lemma_pdep_lowest(y, m2, l2, q);
        assert(m / 2 == m2);
        assert((m - l) as nat == 2 * ((m2 - l2) as nat));
        assert(((m - l) as nat) / 2 == (m2 - l2) as nat);
        assert((y % 2) * l == 2 * ((y % 2) * l2)) by (nonlinear_arith)
            requires l == 2 * l2;
        assert(pdep(y, m) == 2 * pdep(y, m2));
        if m2 == l2 {
            assert(pdep(y / 2, (m - l) as nat) == 0);
            assert(pdep(y / 2, (m2 - l2) as nat) == 0);
        } else {
            assert(pdep(y / 2, (m - l) as nat) == 2 * pdep(y / 2, (m2 - l2) as nat));
        }
    }
}

/// Masking with `l - 1` keeps the remainder modulo the power of two `l`.
pub proof fn lemma_and_low_mask(v: nat, l: nat)
    requires
        is_pow2(l),
    ensures
        bit_and(v, (l - 1) as nat) == v % l,
    decreases l,
{
    if l == 1 {
        lemma_and_zero(v);
    } else {
        let l2 = l / 2;
        lemma_and_low_mask(v / 2, l2);
        assert((v % 2) * (((l - 1) as nat) % 2) == v % 2) by (nonlinear_arith)
            requires ((l - 1) as nat) % 2 == 1;
        vstd::arithmetic::div_mod::lemma_mod_breakdown(v as int, 2, l2 as int);
        assert(2 * l2 == l);
        if v == 0 {
        } else {
            assert(((l - 1) as nat) % 2 == 1);
            assert(((l - 1) as nat) / 2 == (l2 - 1) as nat);
        }
    }
}

pub proof fn lemma_and_zero(v: nat)
    ensures
        bit_and(v, 0) == 0,
    decreases v,
{
    if v > 0 {
        lemma_and_zero(v / 2);
        assert((v % 2) * (0nat % 2) == 0) by (nonlinear_arith);
    }
}

/// Masking with the power of two `l` isolates bit `log2(l)`.
pub proof fn lemma_and_pow2(v: nat, l: nat)
    requires
        is_pow2(l),
    ensures
        bit_and(v, l) == ((v / l) % 2) * l,
    decreases l,
{
    if l == 1 {
        if v > 0 {
            lemma_and_zero(v / 2);
        }
        assert(v / 1 == v);
    } else {
        let l2 = l / 2;
        lemma_and_pow2(v / 2, l2);
        vstd::arithmetic::div_mod::lemma_div_denominator(v as int, 2, l2 as int);
        assert(2 * l2 == l);
        if v == 0 {
            assert(v / l == 0);
            assert(((v / l) % 2) * l == 0) by (nonlinear_arith)
                requires v / l == 0;
        } else {
            assert(bit_and(v, l) == 2 * bit_and(v / 2, l2));
            assert(2 * (((v / 2 / l2) % 2) * l2) == ((v / 2 / l2) % 2) * l) by (nonlinear_arith)
                requires 2 * l2 == l;
        }
    }
}

// ---------------------------------------------------------------------------
// Laws of extract and deposit
// ---------------------------------------------------------------------------

/// Scattering what was gathered through a mask gives back the masked bits.
pub proof fn lemma_pdep_pext(x: nat, m: nat)
    ensures
        pdep(pext(x, m), m) == bit_and(x, m),
    decreases m,
{
    if m == 0 {
        lemma_and_zero(x);
    } else if m % 2 == 1 {
        let e = pext(x / 2, m / 2);
        lemma_pdep_pext(x / 2, m / 2);
        assert((x % 2 + 2 * e) % 2 == x % 2);
        assert((x % 2 + 2 * e) / 2 == e);
        if x == 0 {
            lemma_pext_zero(m / 2);
            lemma_pdep_zero(m / 2);
        }
        assert((x % 2) * (m % 2) == x % 2) by (nonlinear_arith)
            requires m % 2 == 1;
    } else {
        let e = pext(x / 2, m / 2);
        lemma_pdep_pext(x / 2, m / 2);
        if x == 0 {
            lemma_pext_zero(m / 2);
            lemma_pdep_zero(m / 2);
        }
        assert((x % 2) * (m % 2) == 0) by (nonlinear_arith)
            requires m % 2 == 0;
    }
}

pub proof fn lemma_pext_zero(m: nat)
    ensures
        pext(0, m) == 0,
    decreases m,
{
    if m > 0 {
        lemma_pext_zero(m / 2);
    }
}

pub proof fn lemma_pdep_zero(m: nat)
    ensures
        pdep(0, m) == 0,
    decreases m,
{
    if m > 0 {
        lemma_pdep_zero(m / 2);
    }
}

/// Gathering what was scattered through a mask gives back the low
/// `popcount(m)` bits.
pub proof fn lemma_pext_pdep(x: nat, m: nat)
    ensures
        pext(pdep(x, m), m) == x % pow2(popcount(m)),
    decreases m,
{
    if m == 0 {
    } else if m % 2 == 1 {
        let d = pdep(x / 2, m / 2);
        lemma_pext_pdep(x / 2, m / 2);
        assert((x % 2 + 2 * d) % 2 == x % 2);
        assert((x % 2 + 2 * d) / 2 == d);
        lemma_pow2_pos(popcount(m / 2));
        vstd::arithmetic::div_mod::lemma_mod_breakdown(x as int, 2, pow2(popcount(m / 2)) as int);
    } else {
        let d = pdep(x, m / 2);
        lemma_pext_pdep(x, m / 2);
        assert((2 * d) % 2 == 0);
        assert((2 * d) / 2 == d);
    }
}

/// Extraction through `m` yields at most `popcount(m)` bits.
pub proof fn lemma_pext_bound(x: nat, m: nat)
    ensures
        pext(x, m) < pow2(popcount(m)),
    decreases m,
{
    if m > 0 {
        lemma_pext_bound(x / 2, m / 2);
    }
}

/// Deposit only sets bits that are set in the mask.
pub proof fn lemma_pdep_within_mask(x: nat, m: nat)
    ensures
        bit_and(pdep(x, m), m) == pdep(x, m),
    decreases m,
{
    if m == 0 {
    } else if m % 2 == 1 {
        let d = pdep(x / 2, m / 2);
        lemma_pdep_within_mask(x / 2, m / 2);
        let p = x % 2 + 2 * d;
        assert(p % 2 == x % 2);
        assert(p / 2 == d);
        assert((p % 2) * (m % 2) == p % 2) by (nonlinear_arith)
            requires m % 2 == 1;
    } else {
        let d = pdep(x, m / 2);
        lemma_pdep_within_mask(x, m / 2);
        let p = 2 * d;
        assert(p % 2 == 0);
        assert(p / 2 == d);
        assert((p % 2) * (m % 2) == 0) by (nonlinear_arith)
            requires p % 2 == 0;
    }
}

/// Deposit through a doubled mask is the doubled deposit.
pub proof fn lemma_pdep_shift(y: nat, s: nat)
    ensures
        pdep(y, 2 * s) == 2 * pdep(y, s),
{
    if s > 0 {
        assert((2 * s) / 2 == s);
    }
}

/// Extraction through a doubled mask reads the halved word.
pub proof fn lemma_pext_shift(z: nat, s: nat)
    ensures
        pext(z, 2 * s) == pext(z / 2, s),
{
    if s == 0 {
        lemma_pext_zero_mask(z);
        lemma_pext_zero_mask(z / 2);
    } else {
        assert((2 * s) / 2 == s);
    }
}

pub proof fn lemma_pext_zero_mask(z: nat)
    ensures
        pext(z, 0) == 0,
{
}

/// A low bit `b` below twice `q` adds `b` set bits to those of `q`.
proof fn lemma_popcount_step(b: nat, q: nat)
    requires
        b < 2,
    ensures
        popcount(b + 2 * q) == b + popcount(q),
{
    if b + 2 * q == 0 {
        assert(q == 0);
    } else {
        assert((b + 2 * q) % 2 == b);
        assert((b + 2 * q) / 2 == q);
    }
}

/// Gathering through `m` keeps exactly as many set bits as `x` has inside
/// `m`.
pub proof fn lemma_popcount_pext(x: nat, m: nat)
    ensures
        popcount(pext(x, m)) == popcount(bit_and(x, m)),
    decreases m,
{
    if m == 0 {
        lemma_and_zero(x);
    } else if x == 0 {
        lemma_pext_zero(m);
    } else {
        lemma_popcount_pext(x / 2, m / 2);
        if m % 2 == 1 {
            assert((x % 2) * (m % 2) == x % 2) by (nonlinear_arith)
                requires m % 2 == 1;
            lemma_popcount_step(x % 2, pext(x / 2, m / 2));
            lemma_popcount_step(x % 2, bit_and(x / 2, m / 2));
        } else {
            assert((x % 2) * (m % 2) == 0) by (nonlinear_arith)
                requires m % 2 == 0;
            lemma_popcount_step(0, bit_and(x / 2, m / 2));
        }
    }
}

} // verus!
