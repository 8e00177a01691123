//! Read/write integers from byte slices with explicit endianness. Never
//! panics on short input.

use vstd::prelude::*;
use crate::BitError;

verus! {

/// `256^k`.
pub open spec fn pow256(k: nat) -> nat
    decreases k,
{
    if k == 0 { 1 } else { 256 * pow256((k - 1) as nat) }
}

/// The value of `s` read as a big-endian number (first byte most significant).
pub open spec fn be_value(s: Seq<u8>) -> nat
    decreases s.len(),
{
    if s.len() == 0 { 0 } else { be_value(s.drop_last()) * 256 + s.last() as nat }
}

/// The value of `s` read as a little-endian number (first byte least significant).
pub open spec fn le_value(s: Seq<u8>) -> nat
    decreases s.len(),
{
    if s.len() == 0 { 0 } else { s[0] as nat + 256 * le_value(s.drop_first()) }
}

// ---------------------------------------------------------------------------
// Lemmas
// ---------------------------------------------------------------------------

proof fn lemma_pow256_pos(k: nat)
    ensures
        pow256(k) >= 1,
    decreases k,
{
    if k > 0 {
        lemma_pow256_pos((k - 1) as nat);
    }
}

proof fn lemma_pow256_values()
    ensures
        pow256(1) == 0x100,
        pow256(2) == 0x1_0000,
        pow256(4) == 0x1_0000_0000,
        pow256(8) == 0x1_0000_0000_0000_0000,
        pow256(16) == 0x1_0000_0000_0000_0000_0000_0000_0000_0000,
{
    reveal_with_fuel(pow256, 17);
}

pub proof fn lemma_be_bound(s: Seq<u8>)
    ensures
        be_value(s) < pow256(s.len()),
    decreases s.len(),
{
    if s.len() > 0 {
        lemma_be_bound(s.drop_last());
        let p = pow256((s.len() - 1) as nat);
        assert(be_value(s.drop_last()) * 256 + s.last() < p * 256) by (nonlinear_arith)
            requires be_value(s.drop_last()) < p, s.last() < 256;
    }
}

pub proof fn lemma_le_bound(s: Seq<u8>)
    ensures
        le_value(s) < pow256(s.len()),
    decreases s.len(),
{
    if s.len() > 0 {
        lemma_le_bound(s.drop_first());
        let p = pow256((s.len() - 1) as nat);
        assert(s[0] + 256 * le_value(s.drop_first()) < 256 * p) by (nonlinear_arith)
            requires le_value(s.drop_first()) < p, s[0] < 256;
    }
}

proof fn lemma_be_prepend(b: u8, s: Seq<u8>)
    ensures
        be_value(seq![b] + s) == b * pow256(s.len()) + be_value(s),
    decreases s.len(),
{
    let t = seq![b] + s;
    if s.len() == 0 {
        assert(t.drop_last() =~= Seq::<u8>::empty());
        assert(be_value(t.drop_last()) == 0);
        assert(t.last() == b);
        assert(be_value(t) == be_value(t.drop_last()) * 256 + t.last() as nat);
        assert(pow256(0) == 1);
        assert(b * pow256(0) == b);
    } else {
        assert(t.drop_last() =~= seq![b] + s.drop_last());
        assert(t.last() == s.last());
        let p = pow256((s.len() - 1) as nat);
        assert(pow256(s.len()) == 256 * p);
        lemma_be_prepend(b, s.drop_last());
        let e = be_value(s.drop_last());
        assert(be_value(t) == be_value(t.drop_last()) * 256 + t.last() as nat);
        assert(be_value(t.drop_last()) == b * p + e);
        assert(be_value(s) == e * 256 + s.last() as nat);
        assert((b * p + e) * 256 + s.last() as nat == b * (256 * p) + (e * 256 + s.last() as nat)) by (nonlinear_arith);
    }
}

proof fn lemma_le_append(s: Seq<u8>, b: u8)
    ensures
        le_value(s.push(b)) == le_value(s) + b * pow256(s.len()),
    decreases s.len(),
{
    let t = s.push(b);
    if s.len() == 0 {
        assert(t.drop_first() =~= Seq::<u8>::empty());
        assert(le_value(t.drop_first()) == 0);
        assert(t[0] == b);
        assert(le_value(t) == t[0] as nat + 256 * le_value(t.drop_first()));
        assert(pow256(0) == 1);
        assert(b * pow256(0) == b);
    } else {
        assert(t.drop_first() =~= s.drop_first().push(b));
        assert(t[0] == s[0]);
        let p = pow256((s.len() - 1) as nat);
        assert(pow256(s.len()) == 256 * p);
        lemma_le_append(s.drop_first(), b);
        let e = le_value(s.drop_first());
        assert(le_value(t) == t[0] as nat + 256 * le_value(t.drop_first()));
        assert(le_value(t.drop_first()) == e + b * p);
        assert(le_value(s) == s[0] as nat + 256 * e);
        assert(s[0] as nat + 256 * (e + b * p) == (s[0] as nat + 256 * e) + b * (256 * p)) by (nonlinear_arith);
    }
}

/// Two byte strings of one length with the same big-endian value are equal.
pub proof fn law_be_injective(s: Seq<u8>, t: Seq<u8>)
    requires
        s.len() == t.len(),
        be_value(s) == be_value(t),
    ensures
        s == t,
    decreases s.len(),
{
    if s.len() > 0 {
        let a = be_value(s.drop_last());
        let b = be_value(t.drop_last());
        assert(a == b && s.last() == t.last()) by (nonlinear_arith)
            requires a * 256 + s.last() == b * 256 + t.last(), s.last() < 256, t.last() < 256;
        law_be_injective(s.drop_last(), t.drop_last());
        assert(s =~= s.drop_last().push(s.last()));
        assert(t =~= t.drop_last().push(t.last()));
    } else {
        assert(s =~= t);
    }
}

/// Two byte strings of one length with the same little-endian value are equal.
pub proof fn law_le_injective(s: Seq<u8>, t: Seq<u8>)
    requires
        s.len() == t.len(),
        le_value(s) == le_value(t),
    ensures
        s == t,
    decreases s.len(),
{
    if s.len() > 0 {
        let a = le_value(s.drop_first());
        let b = le_value(t.drop_first());
        assert(a == b && s[0] == t[0]) by (nonlinear_arith)
            requires s[0] + 256 * a == t[0] + 256 * b, s[0] < 256, t[0] < 256;
        law_le_injective(s.drop_first(), t.drop_first());
        assert(s =~= seq![s[0]] + s.drop_first());
        assert(t =~= seq![t[0]] + t.drop_first());
    } else {
        assert(s =~= t);
    }
}

/// Reading the bytes in the other order swaps the endianness.
pub proof fn law_le_is_reversed_be(s: Seq<u8>)
    ensures
        le_value(s) == be_value(s.reverse()),
    decreases s.len(),
{
    if s.len() > 0 {
        law_le_is_reversed_be(s.drop_first());
        let r = s.reverse();
        assert(r.drop_last() =~= s.drop_first().reverse());
        assert(r.last() == s[0]);
    } else {
        assert(s.reverse().len() == 0);
    }
}

// ---------------------------------------------------------------------------
// Core loops
// ---------------------------------------------------------------------------

fn read_be_n(buf: &[u8], n: usize) -> (r: u128)
    requires
        n <= 16,
        n <= buf@.len(),
    ensures
        r as nat == be_value(buf@.take(n as int)),
{
    let mut acc: u128 = 0;
    let mut i: usize = 0;
    proof {
        lemma_pow256_values();
        assert(buf@.take(0) =~= Seq::<u8>::empty());
    }
    while i < n
        invariant
            i <= n <= 16,
            n <= buf@.len(),
            acc as nat == be_value(buf@.take(i as int)),
            pow256(16) == 0x1_0000_0000_0000_0000_0000_0000_0000_0000,
        decreases n - i,
    {
        proof {
            lemma_be_bound(buf@.take(i as int + 1));
            lemma_pow256_mono((i + 1) as nat, 16);
            assert(buf@.take(i as int + 1).drop_last() =~= buf@.take(i as int));
        }
        acc = acc * 256 + buf[i] as u128;
        i = i + 1;
    }
    acc
}

proof fn lemma_pow256_mono(a: nat, b: nat)
    requires
        a <= b,
    ensures
        pow256(a) <= pow256(b),
    decreases b,
{
    if a < b {
        lemma_pow256_mono(a, (b - 1) as nat);
    }
}

fn read_le_n(buf: &[u8], n: usize) -> (r: u128)
    requires
        n <= 16,
        n <= buf@.len(),
    ensures
        r as nat == le_value(buf@.take(n as int)),
{
    let mut acc: u128 = 0;
    let mut i: usize = n;
    proof {
        lemma_pow256_values();
        assert(buf@.subrange(n as int, n as int) =~= Seq::<u8>::empty());
    }
    while i > 0
        invariant
            i <= n <= 16,
            n <= buf@.len(),
            acc as nat == le_value(buf@.subrange(i as int, n as int)),
            pow256(16) == 0x1_0000_0000_0000_0000_0000_0000_0000_0000,
        decreases i,
    {
        proof {
            let s = buf@.subrange(i as int - 1, n as int);
            assert(s.drop_first() =~= buf@.subrange(i as int, n as int));
            lemma_le_bound(s);
            lemma_pow256_mono(s.len(), 16);
        }
        acc = buf[i - 1] as u128 + 256 * acc;
        i = i - 1;
    }
    assert(buf@.subrange(0, n as int) =~= buf@.take(n as int));
    acc
}

fn write_be_n(out: &mut [u8], v: u128, n: usize)
    requires
        n <= 16,
        n <= old(out)@.len(),
        v < pow256(n as nat),
    ensures
        final(out)@.len() == old(out)@.len(),
        be_value(final(out)@.take(n as int)) == v,
        final(out)@.skip(n as int) == old(out)@.skip(n as int),
{
    let mut w: u128 = v;
    let mut i: usize = n;
    proof {
        assert(out@.subrange(n as int, n as int) =~= Seq::<u8>::empty());
        assert(be_value(out@.subrange(n as int, n as int)) == 0);
        assert(pow256(0) == 1);
        assert(w * pow256(0) == w);
    }
    while i > 0
        invariant
            i <= n <= 16,
            out@.len() == old(out)@.len(),
            n <= out@.len(),
            w < pow256(i as nat),
            v == w * pow256((n - i) as nat) + be_value(out@.subrange(i as int, n as int)),
            out@.skip(n as int) == old(out)@.skip(n as int),
        decreases i,
    {
        let b = (w % 256) as u8;
        let ghost rest = out@.subrange(i as int, n as int);
        out[i - 1] = b;
        proof {
            assert(out@.subrange(i as int, n as int) =~= rest);
            assert(out@.subrange(i as int - 1, n as int) =~= seq![b] + rest);
            lemma_be_prepend(b, rest);
            let p = pow256((n - i) as nat);
            assert(w == 256 * (w / 256) + b) by (nonlinear_arith)
                requires b == w % 256;
            assert(w * p == (w / 256) * (256 * p) + b * p) by (nonlinear_arith)
                requires w == 256 * (w / 256) + b;
            assert(pow256((n - (i - 1)) as nat) == 256 * p);
            assert(w / 256 < pow256((i - 1) as nat)) by (nonlinear_arith)
                requires w < 256 * pow256((i - 1) as nat);
            assert(out@.skip(n as int) =~= old(out)@.skip(n as int));
        }
        w = w / 256;
        i = i - 1;
    }
    proof {
        assert(w == 0);
        assert(out@.subrange(0, n as int) =~= out@.take(n as int));
        assert(0 * pow256(n as nat) == 0);
    }
}

fn write_le_n(out: &mut [u8], v: u128, n: usize)
    requires
        n <= 16,
        n <= old(out)@.len(),
        v < pow256(n as nat),
    ensures
        final(out)@.len() == old(out)@.len(),
        le_value(final(out)@.take(n as int)) == v,
        final(out)@.skip(n as int) == old(out)@.skip(n as int),
{
    let mut w: u128 = v;
    let mut i: usize = 0;
    proof {
        assert(out@.take(0) =~= Seq::<u8>::empty());
        lemma_pow256_pos(n as nat);
        assert(pow256(0) == 1);
        assert(w * pow256(0) == w);
        assert(pow256(0) * w == w);
    }
    while i < n
        invariant
            i <= n <= 16,
            out@.len() == old(out)@.len(),
            n <= out@.len(),
            w * pow256(i as nat) < pow256(n as nat),
            v == le_value(out@.take(i as int)) + pow256(i as nat) * w,
            out@.skip(n as int) == old(out)@.skip(n as int),
        decreases n - i,
    {
        let b = (w % 256) as u8;
        let ghost pre = out@.take(i as int);
        out[i] = b;
        proof {
            assert(out@.take(i as int) =~= pre);
            assert(out@.take(i as int + 1) =~= pre.push(b));
            lemma_le_append(pre, b);
            let p = pow256(i as nat);
            assert(w == 256 * (w / 256) + b) by (nonlinear_arith)
                requires b == w % 256;
            assert(p * w == b * p + (256 * p) * (w / 256)) by (nonlinear_arith)
                requires w == 256 * (w / 256) + b;
            assert(pow256((i + 1) as nat) == 256 * p);
            assert((w / 256) * (256 * p) <= w * p) by (nonlinear_arith)
                requires w == 256 * (w / 256) + b;
            assert(out@.skip(n as int) =~= old(out)@.skip(n as int));
        }
        w = w / 256;
        i = i + 1;
    }
    proof {
        lemma_pow256_pos(n as nat);
        assert(w == 0) by (nonlinear_arith)
            requires w * pow256(n as nat) < pow256(n as nat), pow256(n as nat) >= 1;
    }
}

/// Read a big-endian `u16` from the first 2 bytes.
pub fn read_u16_be(buf: &[u8]) -> (r: Result<u16, BitError>)
    ensures
        match r {
            Ok(x) => buf@.len() >= 2 && x as nat == be_value(buf@.take(2)),
            Err(e) => buf@.len() < 2 && e == BitError::InsufficientBytes,
        },
{
    if buf.len() < 2 {
        return Err(BitError::InsufficientBytes);
    }
    let v = read_be_n(buf, 2);
    proof {
        lemma_be_bound(buf@.take(2));
        lemma_pow256_values();
    }
    Ok(v as u16)
}

/// Write `v` big-endian into the first 2 bytes of `out`.
pub fn write_u16_be(out: &mut [u8], v: u16) -> (r: Result<(), BitError>)
    ensures
        final(out)@.len() == old(out)@.len(),
        match r {
            Ok(()) => old(out)@.len() >= 2 && be_value(final(out)@.take(2)) == v
                && final(out)@.skip(2) == old(out)@.skip(2),
            Err(e) => old(out)@.len() < 2 && e == BitError::InsufficientBytes
                && final(out)@ == old(out)@,
        },
{
    if out.len() < 2 {
        return Err(BitError::InsufficientBytes);
    }
    proof {
        lemma_pow256_values();
    }
    write_be_n(out, v as u128, 2);
    Ok(())
}

/// Read a little-endian `u16` from the first 2 bytes.
pub fn read_u16_le(buf: &[u8]) -> (r: Result<u16, BitError>)
    ensures
        match r {
            Ok(x) => buf@.len() >= 2 && x as nat == le_value(buf@.take(2)),
            Err(e) => buf@.len() < 2 && e == BitError::InsufficientBytes,
        },
{
    if buf.len() < 2 {
        return Err(BitError::InsufficientBytes);
    }
    let v = read_le_n(buf, 2);
    proof {
        lemma_le_bound(buf@.take(2));
        lemma_pow256_values();
    }
    Ok(v as u16)
}

/// Write `v` little-endian into the first 2 bytes of `out`.
pub fn write_u16_le(out: &mut [u8], v: u16) -> (r: Result<(), BitError>)
    ensures
        final(out)@.len() == old(out)@.len(),
        match r {
            Ok(()) => old(out)@.len() >= 2 && le_value(final(out)@.take(2)) == v
                && final(out)@.skip(2) == old(out)@.skip(2),
            Err(e) => old(out)@.len() < 2 && e == BitError::InsufficientBytes
                && final(out)@ == old(out)@,
        },
{
    if out.len() < 2 {
        return Err(BitError::InsufficientBytes);
    }
    proof {
        lemma_pow256_values();
    }
    write_le_n(out, v as u128, 2);
    Ok(())
}

/// Read a big-endian `u32` from the first 4 bytes.
pub fn read_u32_be(buf: &[u8]) -> (r: Result<u32, BitError>)
    ensures
        match r {
            Ok(x) => buf@.len() >= 4 && x as nat == be_value(buf@.take(4)),
            Err(e) => buf@.len() < 4 && e == BitError::InsufficientBytes,
        },
{
    if buf.len() < 4 {
        return Err(BitError::InsufficientBytes);
    }
    let v = read_be_n(buf, 4);
    proof {
        lemma_be_bound(buf@.take(4));
        lemma_pow256_values();
    }
    Ok(v as u32)
}

/// Write `v` big-endian into the first 4 bytes of `out`.
pub fn write_u32_be(out: &mut [u8], v: u32) -> (r: Result<(), BitError>)
    ensures
        final(out)@.len() == old(out)@.len(),
        match r {
            Ok(()) => old(out)@.len() >= 4 && be_value(final(out)@.take(4)) == v
                && final(out)@.skip(4) == old(out)@.skip(4),
            Err(e) => old(out)@.len() < 4 && e == BitError::InsufficientBytes
                && final(out)@ == old(out)@,
        },
{
    if out.len() < 4 {
        return Err(BitError::InsufficientBytes);
    }
    proof {
        lemma_pow256_values();
    }
    write_be_n(out, v as u128, 4);
    Ok(())
}

/// Read a little-endian `u32` from the first 4 bytes.
pub fn read_u32_le(buf: &[u8]) -> (r: Result<u32, BitError>)
    ensures
        match r {
            Ok(x) => buf@.len() >= 4 && x as nat == le_value(buf@.take(4)),
            Err(e) => buf@.len() < 4 && e == BitError::InsufficientBytes,
        },
{
    if buf.len() < 4 {
        return Err(BitError::InsufficientBytes);
    }
    let v = read_le_n(buf, 4);
    proof {
        lemma_le_bound(buf@.take(4));
        lemma_pow256_values();
    }
    Ok(v as u32)
}

/// Write `v` little-endian into the first 4 bytes of `out`.
pub fn write_u32_le(out: &mut [u8], v: u32) -> (r: Result<(), BitError>)
    ensures
        final(out)@.len() == old(out)@.len(),
        match r {
            Ok(()) => old(out)@.len() >= 4 && le_value(final(out)@.take(4)) == v
                && final(out)@.skip(4) == old(out)@.skip(4),
            Err(e) => old(out)@.len() < 4 && e == BitError::InsufficientBytes
                && final(out)@ == old(out)@,
        },
{
    if out.len() < 4 {
        return Err(BitError::InsufficientBytes);
    }
    proof {
        lemma_pow256_values();
    }
    write_le_n(out, v as u128, 4);
    Ok(())
}

/// Read a big-endian `u64` from the first 8 bytes.
pub fn read_u64_be(buf: &[u8]) -> (r: Result<u64, BitError>)
    ensures
        match r {
            Ok(x) => buf@.len() >= 8 && x as nat == be_value(buf@.take(8)),
            Err(e) => buf@.len() < 8 && e == BitError::InsufficientBytes,
        },
{
    if buf.len() < 8 {
        return Err(BitError::InsufficientBytes);
    }
    let v = read_be_n(buf, 8);
    proof {
        lemma_be_bound(buf@.take(8));
        lemma_pow256_values();
    }
    Ok(v as u64)
}

/// Write `v` big-endian into the first 8 bytes of `out`.
pub fn write_u64_be(out: &mut [u8], v: u64) -> (r: Result<(), BitError>)
    ensures
        final(out)@.len() == old(out)@.len(),
        match r {
            Ok(()) => old(out)@.len() >= 8 && be_value(final(out)@.take(8)) == v
                && final(out)@.skip(8) == old(out)@.skip(8),
            Err(e) => old(out)@.len() < 8 && e == BitError::InsufficientBytes
                && final(out)@ == old(out)@,
        },
{
    if out.len() < 8 {
        return Err(BitError::InsufficientBytes);
    }
    proof {
        lemma_pow256_values();
    }
    write_be_n(out, v as u128, 8);
    Ok(())
}

/// Read a little-endian `u64` from the first 8 bytes.
pub fn read_u64_le(buf: &[u8]) -> (r: Result<u64, BitError>)
    ensures
        match r {
            Ok(x) => buf@.len() >= 8 && x as nat == le_value(buf@.take(8)),
            Err(e) => buf@.len() < 8 && e == BitError::InsufficientBytes,
        },
{
    if buf.len() < 8 {
        return Err(BitError::InsufficientBytes);
    }
    let v = read_le_n(buf, 8);
    proof {
        lemma_le_bound(buf@.take(8));
        lemma_pow256_values();
    }
    Ok(v as u64)
}

/// Write `v` little-endian into the first 8 bytes of `out`.
pub fn write_u64_le(out: &mut [u8], v: u64) -> (r: Result<(), BitError>)
    ensures
        final(out)@.len() == old(out)@.len(),
        match r {
            Ok(()) => old(out)@.len() >= 8 && le_value(final(out)@.take(8)) == v
                && final(out)@.skip(8) == old(out)@.skip(8),
            Err(e) => old(out)@.len() < 8 && e == BitError::InsufficientBytes
                && final(out)@ == old(out)@,
        },
{
    if out.len() < 8 {
        return Err(BitError::InsufficientBytes);
    }
    proof {
        lemma_pow256_values();
    }
    write_le_n(out, v as u128, 8);
    Ok(())
}

/// Read a big-endian `u128` from the first 16 bytes.
pub fn read_u128_be(buf: &[u8]) -> (r: Result<u128, BitError>)
    ensures
        match r {
            Ok(x) => buf@.len() >= 16 && x as nat == be_value(buf@.take(16)),
            Err(e) => buf@.len() < 16 && e == BitError::InsufficientBytes,
        },
{
    if buf.len() < 16 {
        return Err(BitError::InsufficientBytes);
    }
    let v = read_be_n(buf, 16);
    proof {
        lemma_be_bound(buf@.take(16));
        lemma_pow256_values();
    }
    Ok(v as u128)
}

/// Write `v` big-endian into the first 16 bytes of `out`.
pub fn write_u128_be(out: &mut [u8], v: u128) -> (r: Result<(), BitError>)
    ensures
        final(out)@.len() == old(out)@.len(),
        match r {
            Ok(()) => old(out)@.len() >= 16 && be_value(final(out)@.take(16)) == v
                && final(out)@.skip(16) == old(out)@.skip(16),
            Err(e) => old(out)@.len() < 16 && e == BitError::InsufficientBytes
                && final(out)@ == old(out)@,
        },
{
    if out.len() < 16 {
        return Err(BitError::InsufficientBytes);
    }
    proof {
        lemma_pow256_values();
    }
    write_be_n(out, v as u128, 16);
    Ok(())
}

/// Read a little-endian `u128` from the first 16 bytes.
pub fn read_u128_le(buf: &[u8]) -> (r: Result<u128, BitError>)
    ensures
        match r {
            Ok(x) => buf@.len() >= 16 && x as nat == le_value(buf@.take(16)),
            Err(e) => buf@.len() < 16 && e == BitError::InsufficientBytes,
        },
{
    if buf.len() < 16 {
        return Err(BitError::InsufficientBytes);
    }
    let v = read_le_n(buf, 16);
    proof {
        lemma_le_bound(buf@.take(16));
        lemma_pow256_values();
    }
    Ok(v as u128)
}

/// Write `v` little-endian into the first 16 bytes of `out`.
pub fn write_u128_le(out: &mut [u8], v: u128) -> (r: Result<(), BitError>)
    ensures
        final(out)@.len() == old(out)@.len(),
        match r {
            Ok(()) => old(out)@.len() >= 16 && le_value(final(out)@.take(16)) == v
                && final(out)@.skip(16) == old(out)@.skip(16),
            Err(e) => old(out)@.len() < 16 && e == BitError::InsufficientBytes
                && final(out)@ == old(out)@,
        },
{
    if out.len() < 16 {
        return Err(BitError::InsufficientBytes);
    }
    proof {
        lemma_pow256_values();
    }
    write_le_n(out, v as u128, 16);
    Ok(())
}

/// Read a single byte.
pub fn read_u8(buf: &[u8]) -> (r: Result<u8, BitError>)
    ensures
        match r {
            Ok(x) => buf@.len() >= 1 && x == buf@[0],
            Err(e) => buf@.len() == 0 && e == BitError::InsufficientBytes,
        },
{
    if buf.len() == 0 {
        Err(BitError::InsufficientBytes)
    } else {
        Ok(buf[0])
    }
}

/// Write a single byte.
pub fn write_u8(out: &mut [u8], v: u8) -> (r: Result<(), BitError>)
    ensures
        final(out)@.len() == old(out)@.len(),
        match r {
            Ok(()) => old(out)@.len() >= 1 && final(out)@ == old(out)@.update(0, v),
            Err(e) => old(out)@.len() == 0 && e == BitError::InsufficientBytes
                && final(out)@ == old(out)@,
        },
{
    if out.len() == 0 {
        Err(BitError::InsufficientBytes)
    } else {
        out[0] = v;
        Ok(())
    }
}

} // verus!
