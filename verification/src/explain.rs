//! Educational metadata for common bit hacks.

use vstd::prelude::*;

verus! {

/// Static description of a bit operation.
#[derive(Clone, Copy, Debug, PartialEq, Eq, Hash)]
pub struct Explanation {
    /// Operation name.
    pub name: &'static str,
    /// Closed-form formula.
    pub formula: &'static str,
    /// Short prose intuition.
    pub intuition: &'static str,
    /// Caveats and pitfalls.
    pub caveats: &'static [&'static str],
}

/// Explains `isolate_lowest_set_bit`: `x & -x`.
pub fn isolate_lowest_set_bit() -> (r: Explanation)
    ensures
        r.name@ == "isolate_lowest_set_bit"@,
        r.formula@ == "x & -x"@,
        r.intuition@ == "Two's-complement negation flips bits at and above the lowest set bit; AND preserves only the lowest set bit."@,
        r.caveats@.len() == 1,
        r.caveats@[0]@ == "returns 0 when x == 0"@,
{
    Explanation {
        name: "isolate_lowest_set_bit",
        formula: "x & -x",
        intuition: "Two's-complement negation flips bits at and above the lowest set bit; AND preserves only the lowest set bit.",
        caveats: &["returns 0 when x == 0"],
    }
}

/// Explains `clear_lowest_set_bit`: `x & (x - 1)`.
pub fn clear_lowest_set_bit() -> (r: Explanation)
    ensures
        r.name@ == "clear_lowest_set_bit"@,
        r.formula@ == "x & (x - 1)"@,
        r.intuition@ == "Subtracting 1 flips all bits at or below the lowest set bit; AND clears it."@,
        r.caveats@.len() == 1,
        r.caveats@[0]@ == "returns 0 when x == 0"@,
{
    Explanation {
        name: "clear_lowest_set_bit",
        formula: "x & (x - 1)",
        intuition: "Subtracting 1 flips all bits at or below the lowest set bit; AND clears it.",
        caveats: &["returns 0 when x == 0"],
    }
}

/// Explains `is_power_of_two`: `x != 0 && (x & (x - 1)) == 0`.
pub fn is_power_of_two() -> (r: Explanation)
    ensures
        r.name@ == "is_power_of_two"@,
        r.formula@ == "x != 0 && (x & (x - 1)) == 0"@,
        r.intuition@ == "A power of two has exactly one set bit; clearing it yields zero."@,
        r.caveats@.len() == 1,
        r.caveats@[0]@ == "0 is not considered a power of two"@,
{
    Explanation {
        name: "is_power_of_two",
        formula: "x != 0 && (x & (x - 1)) == 0",
        intuition: "A power of two has exactly one set bit; clearing it yields zero.",
        caveats: &["0 is not considered a power of two"],
    }
}

/// Explains `isolate_lowest_zero_bit`: `!x & -(!x)`.
pub fn isolate_lowest_zero_bit() -> (r: Explanation)
    ensures
        r.name@ == "isolate_lowest_zero_bit"@,
        r.formula@ == "!x & -(!x)"@,
        r.intuition@ == "Bitwise NOT flips zeros to ones; isolating the lowest set bit of !x finds the lowest zero of x."@,
        r.caveats@.len() == 1,
        r.caveats@[0]@ == "returns 0 when x is all ones"@,
{
    Explanation {
        name: "isolate_lowest_zero_bit",
        formula: "!x & -(!x)",
        intuition: "Bitwise NOT flips zeros to ones; isolating the lowest set bit of !x finds the lowest zero of x.",
        caveats: &["returns 0 when x is all ones"],
    }
}

/// Explains `set_lowest_zero_bit`: `x | (x + 1)`.
pub fn set_lowest_zero_bit() -> (r: Explanation)
    ensures
        r.name@ == "set_lowest_zero_bit"@,
        r.formula@ == "x | (x + 1)"@,
        r.intuition@ == "x + 1 flips the trailing run of ones plus the lowest zero; OR sets that zero."@,
        r.caveats@.len() == 1,
        r.caveats@[0]@ == "returns x unchanged when x is all ones"@,
{
    Explanation {
        name: "set_lowest_zero_bit",
        formula: "x | (x + 1)",
        intuition: "x + 1 flips the trailing run of ones plus the lowest zero; OR sets that zero.",
        caveats: &["returns x unchanged when x is all ones"],
    }
}

/// Explains `align::up`: `(value + align - 1) & !(align - 1)`.
pub fn align_up() -> (r: Explanation)
    ensures
        r.name@ == "align::up"@,
        r.formula@ == "(value + align - 1) & !(align - 1)"@,
        r.intuition@ == "Bias upward by `align - 1`, then mask off the low bits."@,
        r.caveats@.len() == 1,
        r.caveats@[0]@ == "value + align - 1 can overflow at the top of the address space"@,
{
    Explanation {
        name: "align::up",
        formula: "(value + align - 1) & !(align - 1)",
        intuition: "Bias upward by `align - 1`, then mask off the low bits.",
        caveats: &["value + align - 1 can overflow at the top of the address space"],
    }
}

/// Explains `align::down`: `value & !(align - 1)`.
pub fn align_down() -> (r: Explanation)
    ensures
        r.name@ == "align::down"@,
        r.formula@ == "value & !(align - 1)"@,
        r.intuition@ == "Mask off the low bits to round down to a multiple of `align`."@,
        r.caveats@.len() == 0,
{
    Explanation {
        name: "align::down",
        formula: "value & !(align - 1)",
        intuition: "Mask off the low bits to round down to a multiple of `align`.",
        caveats: &[],
    }
}

/// Explains `align::padding`: `(-value) & (align - 1)`.
pub fn padding_needed() -> (r: Explanation)
    ensures
        r.name@ == "align::padding"@,
        r.formula@ == "(-value) & (align - 1)"@,
        r.intuition@ == "The two's-complement negation of value modulo `align` is the distance to the next multiple."@,
        r.caveats@.len() == 0,
{
    Explanation {
        name: "align::padding",
        formula: "(-value) & (align - 1)",
        intuition: "The two's-complement negation of value modulo `align` is the distance to the next multiple.",
        caveats: &[],
    }
}

/// Explains `submasks`: `s_{n+1} = (s_n - 1) & mask, s_0 = mask`.
pub fn submasks() -> (r: Explanation)
    ensures
        r.name@ == "submasks"@,
        r.formula@ == "s_{n+1} = (s_n - 1) & mask, s_0 = mask"@,
        r.intuition@ == "Subtract 1, mask back to the mask's bits; visits every submask in descending numeric order."@,
        r.caveats@.len() == 1,
        r.caveats@[0]@ == "visits 2^popcount(mask) values"@,
{
    Explanation {
        name: "submasks",
        formula: "s_{n+1} = (s_n - 1) & mask, s_0 = mask",
        intuition: "Subtract 1, mask back to the mask's bits; visits every submask in descending numeric order.",
        caveats: &["visits 2^popcount(mask) values"],
    }
}

} // verus!
