//! Width-aware bit manipulation (gather/scatter, Morton codes, alignment,
//! endian-aware byte access, flag sets) together with the pure decision
//! logic of a small browser-control command line tool.

use vstd::prelude::*;
use vstd::std_specs::convert::FromSpecImpl;
use vstd::string::StringExecFns;

pub mod accel;
pub mod actions;
pub mod align;
pub mod bitspec;
pub mod bytes;
pub mod cloud;
pub mod daemon;
pub mod cdp;
pub mod cli;
pub mod explain;
pub mod format;
pub mod js;
pub mod json;
pub mod lifecycle;
pub mod morton;
pub mod netidle;
pub mod output;
pub mod prelude;
pub mod report;
pub mod text;
pub mod workspace;

verus! {

// ---------------------------------------------------------------------------
// BitError
// ---------------------------------------------------------------------------

/// Every fallible operation returns `Result<_, BitError>`.
#[derive(Clone, Copy, Debug, PartialEq, Eq, Hash, Structural)]
#[non_exhaustive]
pub enum BitError {
    /// Bit index `>= BITS`.
    IndexOutOfRange,
    /// `start > end`, or `end > BITS`.
    InvalidRange,
    /// Value does not fit in the target field width.
    FieldValueTooLarge,
    /// `align == 0`.
    AlignmentZero,
    /// `align` is not a power of two.
    AlignmentNotPowerOfTwo,
    /// Arithmetic overflow.
    Overflow,
    /// Operation undefined for zero (e.g. `next_power_of_two(0)`).
    UnderflowFromZero,
    /// Byte slice too short.
    InsufficientBytes,
}

impl BitError {
    /// The human-readable description of the error.
    pub open spec fn message(self) -> Seq<char> {
        match self {
            BitError::IndexOutOfRange => "bit index out of range"@,
            BitError::InvalidRange => "invalid bit range"@,
            BitError::FieldValueTooLarge => "value does not fit in target bit field"@,
            BitError::AlignmentZero => "alignment must be nonzero"@,
            BitError::AlignmentNotPowerOfTwo => "alignment must be a power of two"@,
            BitError::Overflow => "arithmetic overflow"@,
            BitError::UnderflowFromZero => "operation undefined for zero"@,
            BitError::InsufficientBytes => "byte slice too short"@,
        }
    }

    /// Renders the error as text.
    pub fn to_string(&self) -> (r: String)
        ensures
            r@ == self.message(),
    {
        match self {
            BitError::IndexOutOfRange => String::from_str("bit index out of range"),
            BitError::InvalidRange => String::from_str("invalid bit range"),
            BitError::FieldValueTooLarge => String::from_str("value does not fit in target bit field"),
            BitError::AlignmentZero => String::from_str("alignment must be nonzero"),
            BitError::AlignmentNotPowerOfTwo => String::from_str("alignment must be a power of two"),
            BitError::Overflow => String::from_str("arithmetic overflow"),
            BitError::UnderflowFromZero => String::from_str("operation undefined for zero"),
            BitError::InsufficientBytes => String::from_str("byte slice too short"),
        }
    }
}

// ---------------------------------------------------------------------------
// IntoBitRange
// ---------------------------------------------------------------------------

/// Accept either `Range<u32>` or `(u32, u32)` for bit-range arguments.
pub trait IntoBitRange: Sized {
    /// The `(start, end)` pair this value denotes.
    spec fn bit_bounds(self) -> (u32, u32);

    /// Lower to `(start, end)`; `start` inclusive, `end` exclusive.
    fn into_bit_range(self) -> (r: (u32, u32))
        ensures
            r == self.bit_bounds(),
    ;
}

impl IntoBitRange for core::ops::Range<u32> {
    open spec fn bit_bounds(self) -> (u32, u32) {
        (self.start, self.end)
    }

    fn into_bit_range(self) -> (r: (u32, u32)) {
        (self.start, self.end)
    }
}

impl IntoBitRange for (u32, u32) {
    open spec fn bit_bounds(self) -> (u32, u32) {
        self
    }

    fn into_bit_range(self) -> (r: (u32, u32)) {
        self
    }
}

// ---------------------------------------------------------------------------
// Flags<T>
// ---------------------------------------------------------------------------

/// Flag set wrapping a primitive unsigned integer.
///
/// For named, fixed sets of flags use the `bitflags` crate. `Flags<T>` is
/// for ad hoc flag manipulation where bit positions are data.
#[derive(Clone, Copy, Debug, Default, PartialEq, Eq, Hash)]
pub struct Flags<T>(pub T);

impl Flags<u8> {
    /// Empty set.
    pub fn empty() -> (r: Self)
        ensures
            r.0 == 0,
    {
        Flags(0)
    }

    /// All bits set.
    pub fn all() -> (r: Self)
        ensures
            r.0 == u8::MAX,
    {
        Flags(u8::MAX)
    }

    /// Wrap raw bits.
    pub fn from_bits(b: u8) -> (r: Self)
        ensures
            r.0 == b,
    {
        Flags(b)
    }

    /// Underlying bits.
    pub fn bits(self) -> (r: u8)
        ensures
            r == self.0,
    {
        self.0
    }

    /// Every bit of `flags` is set in `self`. (`has(0)` is `true`.)
    pub fn has(self, flags: u8) -> (r: bool)
        ensures
            r == (self.0 & flags == flags),
    {
        (self.0 & flags) == flags
    }

    /// Alias for [`has`](Self::has).
    pub fn has_all(self, flags: u8) -> (r: bool)
        ensures
            r == (self.0 & flags == flags),
    {
        Self::has(self, flags)
    }

    /// Any bit of `flags` is set in `self`.
    pub fn has_any(self, flags: u8) -> (r: bool)
        ensures
            r == (self.0 & flags != 0),
    {
        (self.0 & flags) != 0
    }

    /// Copy with `flags` set.
    pub fn with(self, flags: u8) -> (r: Self)
        ensures
            r.0 == self.0 | flags,
    {
        Flags(self.0 | flags)
    }

    /// Copy with `flags` cleared.
    pub fn without(self, flags: u8) -> (r: Self)
        ensures
            r.0 == self.0 & !flags,
    {
        Flags(self.0 & !flags)
    }

    /// Copy with `flags` toggled.
    pub fn toggled(self, flags: u8) -> (r: Self)
        ensures
            r.0 == self.0 ^ flags,
    {
        Flags(self.0 ^ flags)
    }

    /// Set `flags` in place.
    pub fn enable(&mut self, flags: u8)
        ensures
            final(self).0 == old(self).0 | flags,
    {
        self.0 = self.0 | flags;
    }

    /// Clear `flags` in place.
    pub fn disable(&mut self, flags: u8)
        ensures
            final(self).0 == old(self).0 & !flags,
    {
        self.0 = self.0 & !flags;
    }

    /// Toggle `flags` in place.
    pub fn toggle(&mut self, flags: u8)
        ensures
            final(self).0 == old(self).0 ^ flags,
    {
        self.0 = self.0 ^ flags;
    }
}

impl From<u8> for Flags<u8> {
    fn from(v: u8) -> (r: Self) {
        Flags(v)
    }
}

impl FromSpecImpl<u8> for Flags<u8> {
    open spec fn obeys_from_spec() -> bool {
        true
    }

    open spec fn from_spec(v: u8) -> Self {
        Flags(v)
    }
}

impl From<Flags<u8>> for u8 {
    fn from(f: Flags<u8>) -> (r: u8) {
        f.0
    }
}

impl FromSpecImpl<Flags<u8>> for u8 {
    open spec fn obeys_from_spec() -> bool {
        true
    }

    open spec fn from_spec(f: Flags<u8>) -> u8 {
        f.0
    }
}

/// Setting flags makes them present; clearing them makes none of them
/// present; toggling twice restores the set; every set has the empty flag.
pub proof fn law_flags_u8(x: u8, f: u8)
    ensures
        (x | f) & f == f,
        f != 0 ==> (x & !f) & f == 0,
        (x ^ f) ^ f == x,
        x & 0 == 0,
{
    assert((x | f) & f == f && (f != 0 ==> (x & !f) & f == 0) && (x ^ f) ^ f == x && x & 0 == 0)
        by (bit_vector);
}

impl Flags<u16> {
    /// Empty set.
    pub fn empty() -> (r: Self)
        ensures
            r.0 == 0,
    {
        Flags(0)
    }

    /// All bits set.
    pub fn all() -> (r: Self)
        ensures
            r.0 == u16::MAX,
    {
        Flags(u16::MAX)
    }

    /// Wrap raw bits.
    pub fn from_bits(b: u16) -> (r: Self)
        ensures
            r.0 == b,
    {
        Flags(b)
    }

    /// Underlying bits.
    pub fn bits(self) -> (r: u16)
        ensures
            r == self.0,
    {
        self.0
    }

    /// Every bit of `flags` is set in `self`. (`has(0)` is `true`.)
    pub fn has(self, flags: u16) -> (r: bool)
        ensures
            r == (self.0 & flags == flags),
    {
        (self.0 & flags) == flags
    }

    /// Alias for [`has`](Self::has).
    pub fn has_all(self, flags: u16) -> (r: bool)
        ensures
            r == (self.0 & flags == flags),
    {
        Self::has(self, flags)
    }

    /// Any bit of `flags` is set in `self`.
    pub fn has_any(self, flags: u16) -> (r: bool)
        ensures
            r == (self.0 & flags != 0),
    {
        (self.0 & flags) != 0
    }

    /// Copy with `flags` set.
    pub fn with(self, flags: u16) -> (r: Self)
        ensures
            r.0 == self.0 | flags,
    {
        Flags(self.0 | flags)
    }

    /// Copy with `flags` cleared.
    pub fn without(self, flags: u16) -> (r: Self)
        ensures
            r.0 == self.0 & !flags,
    {
        Flags(self.0 & !flags)
    }

    /// Copy with `flags` toggled.
    pub fn toggled(self, flags: u16) -> (r: Self)
        ensures
            r.0 == self.0 ^ flags,
    {
        Flags(self.0 ^ flags)
    }

    /// Set `flags` in place.
    pub fn enable(&mut self, flags: u16)
        ensures
            final(self).0 == old(self).0 | flags,
    {
        self.0 = self.0 | flags;
    }

    /// Clear `flags` in place.
    pub fn disable(&mut self, flags: u16)
        ensures
            final(self).0 == old(self).0 & !flags,
    {
        self.0 = self.0 & !flags;
    }

    /// Toggle `flags` in place.
    pub fn toggle(&mut self, flags: u16)
        ensures
            final(self).0 == old(self).0 ^ flags,
    {
        self.0 = self.0 ^ flags;
    }
}

impl From<u16> for Flags<u16> {
    fn from(v: u16) -> (r: Self) {
        Flags(v)
    }
}

impl FromSpecImpl<u16> for Flags<u16> {
    open spec fn obeys_from_spec() -> bool {
        true
    }

    open spec fn from_spec(v: u16) -> Self {
        Flags(v)
    }
}

impl From<Flags<u16>> for u16 {
    fn from(f: Flags<u16>) -> (r: u16) {
        f.0
    }
}

impl FromSpecImpl<Flags<u16>> for u16 {
    open spec fn obeys_from_spec() -> bool {
        true
    }

    open spec fn from_spec(f: Flags<u16>) -> u16 {
        f.0
    }
}

/// Setting flags makes them present; clearing them makes none of them
/// present; toggling twice restores the set; every set has the empty flag.
pub proof fn law_flags_u16(x: u16, f: u16)
    ensures
        (x | f) & f == f,
        f != 0 ==> (x & !f) & f == 0,
        (x ^ f) ^ f == x,
        x & 0 == 0,
{
    assert((x | f) & f == f && (f != 0 ==> (x & !f) & f == 0) && (x ^ f) ^ f == x && x & 0 == 0)
        by (bit_vector);
}

impl Flags<u32> {
    /// Empty set.
    pub fn empty() -> (r: Self)
        ensures
            r.0 == 0,
    {
        Flags(0)
    }

    /// All bits set.
    pub fn all() -> (r: Self)
        ensures
            r.0 == u32::MAX,
    {
        Flags(u32::MAX)
    }

    /// Wrap raw bits.
    pub fn from_bits(b: u32) -> (r: Self)
        ensures
            r.0 == b,
    {
        Flags(b)
    }

    /// Underlying bits.
    pub fn bits(self) -> (r: u32)
        ensures
            r == self.0,
    {
        self.0
    }

    /// Every bit of `flags` is set in `self`. (`has(0)` is `true`.)
    pub fn has(self, flags: u32) -> (r: bool)
        ensures
            r == (self.0 & flags == flags),
    {
        (self.0 & flags) == flags
    }

    /// Alias for [`has`](Self::has).
    pub fn has_all(self, flags: u32) -> (r: bool)
        ensures
            r == (self.0 & flags == flags),
    {
        Self::has(self, flags)
    }

    /// Any bit of `flags` is set in `self`.
    pub fn has_any(self, flags: u32) -> (r: bool)
        ensures
            r == (self.0 & flags != 0),
    {
        (self.0 & flags) != 0
    }

    /// Copy with `flags` set.
    pub fn with(self, flags: u32) -> (r: Self)
        ensures
            r.0 == self.0 | flags,
    {
        Flags(self.0 | flags)
    }

    /// Copy with `flags` cleared.
    pub fn without(self, flags: u32) -> (r: Self)
        ensures
            r.0 == self.0 & !flags,
    {
        Flags(self.0 & !flags)
    }

    /// Copy with `flags` toggled.
    pub fn toggled(self, flags: u32) -> (r: Self)
        ensures
            r.0 == self.0 ^ flags,
    {
        Flags(self.0 ^ flags)
    }

    /// Set `flags` in place.
    pub fn enable(&mut self, flags: u32)
        ensures
            final(self).0 == old(self).0 | flags,
    {
        self.0 = self.0 | flags;
    }

    /// Clear `flags` in place.
    pub fn disable(&mut self, flags: u32)
        ensures
            final(self).0 == old(self).0 & !flags,
    {
        self.0 = self.0 & !flags;
    }

    /// Toggle `flags` in place.
    pub fn toggle(&mut self, flags: u32)
        ensures
            final(self).0 == old(self).0 ^ flags,
    {
        self.0 = self.0 ^ flags;
    }
}

impl From<u32> for Flags<u32> {
    fn from(v: u32) -> (r: Self) {
        Flags(v)
    }
}

impl FromSpecImpl<u32> for Flags<u32> {
    open spec fn obeys_from_spec() -> bool {
        true
    }

    open spec fn from_spec(v: u32) -> Self {
        Flags(v)
    }
}

impl From<Flags<u32>> for u32 {
    fn from(f: Flags<u32>) -> (r: u32) {
        f.0
    }
}

impl FromSpecImpl<Flags<u32>> for u32 {
    open spec fn obeys_from_spec() -> bool {
        true
    }

    open spec fn from_spec(f: Flags<u32>) -> u32 {
        f.0
    }
}

/// Setting flags makes them present; clearing them makes none of them
/// present; toggling twice restores the set; every set has the empty flag.
pub proof fn law_flags_u32(x: u32, f: u32)
    ensures
        (x | f) & f == f,
        f != 0 ==> (x & !f) & f == 0,
        (x ^ f) ^ f == x,
        x & 0 == 0,
{
    assert((x | f) & f == f && (f != 0 ==> (x & !f) & f == 0) && (x ^ f) ^ f == x && x & 0 == 0)
        by (bit_vector);
}

impl Flags<u64> {
    /// Empty set.
    pub fn empty() -> (r: Self)
        ensures
            r.0 == 0,
    {
        Flags(0)
    }

    /// All bits set.
    pub fn all() -> (r: Self)
        ensures
            r.0 == u64::MAX,
    {
        Flags(u64::MAX)
    }

    /// Wrap raw bits.
    pub fn from_bits(b: u64) -> (r: Self)
        ensures
            r.0 == b,
    {
        Flags(b)
    }

    /// Underlying bits.
    pub fn bits(self) -> (r: u64)
        ensures
            r == self.0,
    {
        self.0
    }

    /// Every bit of `flags` is set in `self`. (`has(0)` is `true`.)
    pub fn has(self, flags: u64) -> (r: bool)
        ensures
            r == (self.0 & flags == flags),
    {
        (self.0 & flags) == flags
    }

    /// Alias for [`has`](Self::has).
    pub fn has_all(self, flags: u64) -> (r: bool)
        ensures
            r == (self.0 & flags == flags),
    {
        Self::has(self, flags)
    }

    /// Any bit of `flags` is set in `self`.
    pub fn has_any(self, flags: u64) -> (r: bool)
        ensures
            r == (self.0 & flags != 0),
    {
        (self.0 & flags) != 0
    }

    /// Copy with `flags` set.
    pub fn with(self, flags: u64) -> (r: Self)
        ensures
            r.0 == self.0 | flags,
    {
        Flags(self.0 | flags)
    }

    /// Copy with `flags` cleared.
    pub fn without(self, flags: u64) -> (r: Self)
        ensures
            r.0 == self.0 & !flags,
    {
        Flags(self.0 & !flags)
    }

    /// Copy with `flags` toggled.
    pub fn toggled(self, flags: u64) -> (r: Self)
        ensures
            r.0 == self.0 ^ flags,
    {
        Flags(self.0 ^ flags)
    }

    /// Set `flags` in place.
    pub fn enable(&mut self, flags: u64)
        ensures
            final(self).0 == old(self).0 | flags,
    {
        self.0 = self.0 | flags;
    }

    /// Clear `flags` in place.
    pub fn disable(&mut self, flags: u64)
        ensures
            final(self).0 == old(self).0 & !flags,
    {
        self.0 = self.0 & !flags;
    }

    /// Toggle `flags` in place.
    pub fn toggle(&mut self, flags: u64)
        ensures
            final(self).0 == old(self).0 ^ flags,
    {
        self.0 = self.0 ^ flags;
    }
}

impl From<u64> for Flags<u64> {
    fn from(v: u64) -> (r: Self) {
        Flags(v)
    }
}

impl FromSpecImpl<u64> for Flags<u64> {
    open spec fn obeys_from_spec() -> bool {
        true
    }

    open spec fn from_spec(v: u64) -> Self {
        Flags(v)
    }
}

impl From<Flags<u64>> for u64 {
    fn from(f: Flags<u64>) -> (r: u64) {
        f.0
    }
}

impl FromSpecImpl<Flags<u64>> for u64 {
    open spec fn obeys_from_spec() -> bool {
        true
    }

    open spec fn from_spec(f: Flags<u64>) -> u64 {
        f.0
    }
}

/// Setting flags makes them present; clearing them makes none of them
/// present; toggling twice restores the set; every set has the empty flag.
pub proof fn law_flags_u64(x: u64, f: u64)
    ensures
        (x | f) & f == f,
        f != 0 ==> (x & !f) & f == 0,
        (x ^ f) ^ f == x,
        x & 0 == 0,
{
    assert((x | f) & f == f && (f != 0 ==> (x & !f) & f == 0) && (x ^ f) ^ f == x && x & 0 == 0)
        by (bit_vector);
}

impl Flags<u128> {
    /// Empty set.
    pub fn empty() -> (r: Self)
        ensures
            r.0 == 0,
    {
        Flags(0)
    }

    /// All bits set.
    pub fn all() -> (r: Self)
        ensures
            r.0 == u128::MAX,
    {
        Flags(u128::MAX)
    }

    /// Wrap raw bits.
    pub fn from_bits(b: u128) -> (r: Self)
        ensures
            r.0 == b,
    {
        Flags(b)
    }

    /// Underlying bits.
    pub fn bits(self) -> (r: u128)
        ensures
            r == self.0,
    {
        self.0
    }

    /// Every bit of `flags` is set in `self`. (`has(0)` is `true`.)
    pub fn has(self, flags: u128) -> (r: bool)
        ensures
            r == (self.0 & flags == flags),
    {
        (self.0 & flags) == flags
    }

    /// Alias for [`has`](Self::has).
    pub fn has_all(self, flags: u128) -> (r: bool)
        ensures
            r == (self.0 & flags == flags),
    {
        Self::has(self, flags)
    }

    /// Any bit of `flags` is set in `self`.
    pub fn has_any(self, flags: u128) -> (r: bool)
        ensures
            r == (self.0 & flags != 0),
    {
        (self.0 & flags) != 0
    }

    /// Copy with `flags` set.
    pub fn with(self, flags: u128) -> (r: Self)
        ensures
            r.0 == self.0 | flags,
    {
        Flags(self.0 | flags)
    }

    /// Copy with `flags` cleared.
    pub fn without(self, flags: u128) -> (r: Self)
        ensures
            r.0 == self.0 & !flags,
    {
        Flags(self.0 & !flags)
    }

    /// Copy with `flags` toggled.
    pub fn toggled(self, flags: u128) -> (r: Self)
        ensures
            r.0 == self.0 ^ flags,
    {
        Flags(self.0 ^ flags)
    }

    /// Set `flags` in place.
    pub fn enable(&mut self, flags: u128)
        ensures
            final(self).0 == old(self).0 | flags,
    {
        self.0 = self.0 | flags;
    }

    /// Clear `flags` in place.
    pub fn disable(&mut self, flags: u128)
        ensures
            final(self).0 == old(self).0 & !flags,
    {
        self.0 = self.0 & !flags;
    }

    /// Toggle `flags` in place.
    pub fn toggle(&mut self, flags: u128)
        ensures
            final(self).0 == old(self).0 ^ flags,
    {
        self.0 = self.0 ^ flags;
    }
}

impl From<u128> for Flags<u128> {
    fn from(v: u128) -> (r: Self) {
        Flags(v)
    }
}

impl FromSpecImpl<u128> for Flags<u128> {
    open spec fn obeys_from_spec() -> bool {
        true
    }

    open spec fn from_spec(v: u128) -> Self {
        Flags(v)
    }
}

impl From<Flags<u128>> for u128 {
    fn from(f: Flags<u128>) -> (r: u128) {
        f.0
    }
}

impl FromSpecImpl<Flags<u128>> for u128 {
    open spec fn obeys_from_spec() -> bool {
        true
    }

    open spec fn from_spec(f: Flags<u128>) -> u128 {
        f.0
    }
}

/// Setting flags makes them present; clearing them makes none of them
/// present; toggling twice restores the set; every set has the empty flag.
pub proof fn law_flags_u128(x: u128, f: u128)
    ensures
        (x | f) & f == f,
        f != 0 ==> (x & !f) & f == 0,
        (x ^ f) ^ f == x,
        x & 0 == 0,
{
    assert((x | f) & f == f && (f != 0 ==> (x & !f) & f == 0) && (x ^ f) ^ f == x && x & 0 == 0)
        by (bit_vector);
}

impl Flags<usize> {
    /// Empty set.
    pub fn empty() -> (r: Self)
        ensures
            r.0 == 0,
    {
        Flags(0)
    }

    /// All bits set.
    pub fn all() -> (r: Self)
        ensures
            r.0 == usize::MAX,
    {
        Flags(usize::MAX)
    }

    /// Wrap raw bits.
    pub fn from_bits(b: usize) -> (r: Self)
        ensures
            r.0 == b,
    {
        Flags(b)
    }

    /// Underlying bits.
    pub fn bits(self) -> (r: usize)
        ensures
            r == self.0,
    {
        self.0
    }

    /// Every bit of `flags` is set in `self`. (`has(0)` is `true`.)
    pub fn has(self, flags: usize) -> (r: bool)
        ensures
            r == (self.0 & flags == flags),
    {
        (self.0 & flags) == flags
    }

    /// Alias for [`has`](Self::has).
    pub fn has_all(self, flags: usize) -> (r: bool)
        ensures
            r == (self.0 & flags == flags),
    {
        Self::has(self, flags)
    }

    /// Any bit of `flags` is set in `self`.
    pub fn has_any(self, flags: usize) -> (r: bool)
        ensures
            r == (self.0 & flags != 0),
    {
        (self.0 & flags) != 0
    }

    /// Copy with `flags` set.
    pub fn with(self, flags: usize) -> (r: Self)
        ensures
            r.0 == self.0 | flags,
    {
        Flags(self.0 | flags)
    }

    /// Copy with `flags` cleared.
    pub fn without(self, flags: usize) -> (r: Self)
        ensures
            r.0 == self.0 & !flags,
    {
        Flags(self.0 & !flags)
    }

    /// Copy with `flags` toggled.
    pub fn toggled(self, flags: usize) -> (r: Self)
        ensures
            r.0 == self.0 ^ flags,
    {
        Flags(self.0 ^ flags)
    }

    /// Set `flags` in place.
    pub fn enable(&mut self, flags: usize)
        ensures
            final(self).0 == old(self).0 | flags,
    {
        self.0 = self.0 | flags;
    }

    /// Clear `flags` in place.
    pub fn disable(&mut self, flags: usize)
        ensures
            final(self).0 == old(self).0 & !flags,
    {
        self.0 = self.0 & !flags;
    }

    /// Toggle `flags` in place.
    pub fn toggle(&mut self, flags: usize)
        ensures
            final(self).0 == old(self).0 ^ flags,
    {
        self.0 = self.0 ^ flags;
    }
}

impl From<usize> for Flags<usize> {
    fn from(v: usize) -> (r: Self) {
        Flags(v)
    }
}

impl FromSpecImpl<usize> for Flags<usize> {
    open spec fn obeys_from_spec() -> bool {
        true
    }

    open spec fn from_spec(v: usize) -> Self {
        Flags(v)
    }
}

impl From<Flags<usize>> for usize {
    fn from(f: Flags<usize>) -> (r: usize) {
        f.0
    }
}

impl FromSpecImpl<Flags<usize>> for usize {
    open spec fn obeys_from_spec() -> bool {
        true
    }

    open spec fn from_spec(f: Flags<usize>) -> usize {
        f.0
    }
}

/// Setting flags makes them present; clearing them makes none of them
/// present; toggling twice restores the set; every set has the empty flag.
pub proof fn law_flags_usize(x: usize, f: usize)
    ensures
        (x | f) & f == f,
        f != 0 ==> (x & !f) & f == 0,
        (x ^ f) ^ f == x,
        x & 0 == 0,
{
    assert((x | f) & f == f && (f != 0 ==> (x & !f) & f == 0) && (x ^ f) ^ f == x && x & 0 == 0)
        by (bit_vector);
}

} // verus!
