//! Grouped-binary rendering: a value written as `0`/`1` digits, most
//! significant first, with `_` between groups of `group` bits.

use vstd::prelude::*;
use crate::bitspec::{bit, lemma_pow2_pos, pow2};
use crate::text::push_char;

verus! {

/// Renders `value` as `group`-bit groups (`0` = no grouping).
pub struct GroupedBinary<T> {
    value: T,
    group: u32,
}

impl<T> GroupedBinary<T> {
    /// The wrapped value.
    pub closed spec fn value(self) -> T {
        self.value
    }

    /// The group width.
    pub closed spec fn group(self) -> u32 {
        self.group
    }
}

/// Wrap `x` for rendering in `group`-bit groups (`0` = no grouping).
pub fn grouped_binary<T>(x: T, group: u32) -> (r: GroupedBinary<T>)
    ensures
        r.value() == x,
        r.group() == group,
{
    GroupedBinary { value: x, group }
}

/// Whether a `_` precedes the digit of bit `i` in a `bits`-wide rendering.
pub open spec fn separator_before(bits: nat, group: nat, i: nat) -> bool {
    i != bits - 1 && group != 0 && (i + 1) % group == 0
}

/// The digits of bits `n - 1` down to `0` of `v`, with separators.
pub open spec fn grouped_digits(v: nat, bits: nat, group: nat, n: nat) -> Seq<char>
    decreases n,
{
    if n == 0 {
        Seq::empty()
    } else {
        let i = (n - 1) as nat;
        (if separator_before(bits, group, i) { seq!['_'] } else { Seq::empty() })
            + seq![if bit(v, i) == 0 { '0' } else { '1' }]
            + grouped_digits(v, bits, group, i)
    }
}

/// The full rendering of a `bits`-wide value.
pub open spec fn grouped_text(v: nat, bits: nat, group: nat) -> Seq<char> {
    grouped_digits(v, bits, group, bits)
}

proof fn lemma_shr_u128(v: u128, i: u32)
    requires
        i < 128,
    ensures
        (v >> i) as nat == v as nat / pow2(i as nat),
    decreases i,
{
    if i == 0 {
        assert(v >> 0u32 == v) by (bit_vector);
        assert(pow2(0) == 1);
        assert(v as nat / 1 == v as nat);
    } else {
        lemma_shr_u128(v, (i - 1) as u32);
        assert(v >> i == (v >> ((i - 1) as u32)) / 2) by (bit_vector)
            requires 0 < i < 128;
        lemma_pow2_pos((i - 1) as nat);
        vstd::arithmetic::div_mod::lemma_div_denominator(v as int, pow2((i - 1) as nat) as int, 2);
        assert(pow2((i - 1) as nat) * 2 == pow2(i as nat));
        assert((v >> i) as nat == ((v >> ((i - 1) as u32)) as nat) / 2);
    }
}

fn render_grouped(value: u128, bits: u32, group: u32) -> (r: String)
    requires
        1 <= bits <= 128,
    ensures
        r@ == grouped_text(value as nat, bits as nat, group as nat),
{
    let mut s = String::new();
    let mut i: u32 = bits;
    while i > 0
        invariant
            i <= bits <= 128,
            1 <= bits,
            s@ + grouped_digits(value as nat, bits as nat, group as nat, i as nat)
                == grouped_text(value as nat, bits as nat, group as nat),
        decreases i,
    {
        i = i - 1;
        let ghost s0 = s@;
        if i != bits - 1 && group != 0 && (i + 1) % group == 0 {
            push_char(&mut s, '_');
        }
        proof {
            lemma_shr_u128(value, i);
            assert(((value >> i) & 1) == (value >> i) % 2) by (bit_vector);
        }
        if (value >> i) & 1 == 0 {
            push_char(&mut s, '0');
        } else {
            push_char(&mut s, '1');
        }
        proof {
            let sep: Seq<char> = if separator_before(bits as nat, group as nat, i as nat) {
                seq!['_']
            } else {
                Seq::empty()
            };
            let d = if bit(value as nat, i as nat) == 0 { '0' } else { '1' };
            assert(s@ =~= s0 + sep + seq![d]);
            assert(grouped_digits(value as nat, bits as nat, group as nat, (i + 1) as nat)
                == sep + seq![d] + grouped_digits(value as nat, bits as nat, group as nat, i as nat));
            assert(s@ + grouped_digits(value as nat, bits as nat, group as nat, i as nat)
                =~= s0 + (sep + seq![d] + grouped_digits(value as nat, bits as nat, group as nat, i as nat)));
        }
    }
    proof {
        assert(s@ + Seq::<char>::empty() =~= s@);
    }
    s
}

impl GroupedBinary<u8> {
    /// The rendering: every bit of the value, most significant first.
    pub fn to_string(&self) -> (r: String)
        ensures
            r@ == grouped_text(self.value() as nat, 8 as nat, self.group() as nat),
    {
        render_grouped(self.value as u128, 8u32, self.group)
    }
}

impl GroupedBinary<u16> {
    /// The rendering: every bit of the value, most significant first.
    pub fn to_string(&self) -> (r: String)
        ensures
            r@ == grouped_text(self.value() as nat, 16 as nat, self.group() as nat),
    {
        render_grouped(self.value as u128, 16u32, self.group)
    }
}

impl GroupedBinary<u32> {
    /// The rendering: every bit of the value, most significant first.
    pub fn to_string(&self) -> (r: String)
        ensures
            r@ == grouped_text(self.value() as nat, 32 as nat, self.group() as nat),
    {
        render_grouped(self.value as u128, 32u32, self.group)
    }
}

impl GroupedBinary<u64> {
    /// The rendering: every bit of the value, most significant first.
    pub fn to_string(&self) -> (r: String)
        ensures
            r@ == grouped_text(self.value() as nat, 64 as nat, self.group() as nat),
    {
        render_grouped(self.value as u128, 64u32, self.group)
    }
}

impl GroupedBinary<u128> {
    /// The rendering: every bit of the value, most significant first.
    pub fn to_string(&self) -> (r: String)
        ensures
            r@ == grouped_text(self.value() as nat, 128 as nat, self.group() as nat),
    {
        render_grouped(self.value as u128, 128u32, self.group)
    }
}

impl GroupedBinary<usize> {
    /// The rendering: every bit of the value, most significant first.
    pub fn to_string(&self) -> (r: String)
        ensures
            r@ == grouped_text(self.value() as nat, usize::BITS as nat, self.group() as nat),
    {
        render_grouped(self.value as u128, usize::BITS, self.group)
    }
}

} // verus!
