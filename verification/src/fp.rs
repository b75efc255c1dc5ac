use vstd::prelude::*;

verus! {

/// Bit pattern of the double-precision number 0.0.
pub const ZERO_BITS: u64 = 0x0;
/// Bit pattern of 1.0.
pub const ONE_BITS: u64 = 0x3ff0000000000000;
/// Bit pattern of 2.0.
pub const TWO_BITS: u64 = 0x4000000000000000;
/// Bit pattern of 4.0.
pub const FOUR_BITS: u64 = 0x4010000000000000;
/// Bit pattern of -4.0.
pub const NEG_FOUR_BITS: u64 = 0xc010000000000000;
/// Bit pattern of 0.5.
pub const HALF_BITS: u64 = 0x3fe0000000000000;
/// Bit pattern of 0.25.
pub const QUARTER_BITS: u64 = 0x3fd0000000000000;
/// Bit pattern of 0.75.
pub const THREE_QUARTER_BITS: u64 = 0x3fe8000000000000;
/// Bit pattern of -1.0.
pub const NEG_ONE_BITS: u64 = 0xbff0000000000000;
/// Bit pattern of -2.0.
pub const NEG_TWO_BITS: u64 = 0xc000000000000000;
/// Bit pattern of 60.0.
pub const SIXTY_BITS: u64 = 0x404e000000000000;
/// Bit pattern of the circle constant used by the sine oscillator's
/// phase divisor.
pub const PI_BITS: u64 = 0x400921fb54442d18;
/// Bit pattern of twice the circle constant, used by the filter.
pub const TWO_PI_BITS: u64 = 0x401921fb54442d18;
/// Bit pattern of 0.15, the value a random oscillator holds before its
/// first draw.
pub const RAND_INIT_BITS: u64 = 0x3fc3333333333333;

/// Host arithmetic on IEEE-754 double-precision bit patterns.
///
/// The engine stores every sample and every scalar parameter as the raw
/// bit pattern of a double.  A host (the audio front end, or a test
/// driver) implements this trait with the machine's floating-point unit;
/// the library composes the operations but treats every result as an
/// opaque bit pattern, so everything proved about the engine holds for
/// any implementation.
///
/// `parse_num` returns both the bit pattern and the host's shortest
/// round-trip decimal rendering of the parsed number; the engine stores
/// that rendering and emits it verbatim when a graph is dumped.
///
/// `rand_unit` draws the next pseudo-random number in `[0, 1)` of the
/// per-node stream `id`; each stream is seeded deterministically.
pub trait Fp {
    /// Bits of `a + b`.
    fn add(&mut self, a: u64, b: u64) -> u64;

    /// Bits of `a - b`.
    fn sub(&mut self, a: u64, b: u64) -> u64;

    /// Bits of `a * b`.
    fn mul(&mut self, a: u64, b: u64) -> u64;

    /// Bits of `a / b`.
    fn div(&mut self, a: u64, b: u64) -> u64;

    /// Bits of the remainder `a % b`.
    fn rem(&mut self, a: u64, b: u64) -> u64;

    /// Bits of the sine of `a`.
    fn sin(&mut self, a: u64) -> u64;

    /// Bits of the cosine of `a`.
    fn cos(&mut self, a: u64) -> u64;

    /// Bits of `a` raised to the integer power `n`.
    fn powi(&mut self, a: u64, n: i32) -> u64;

    /// Bits of the largest integral value not above `a`.
    fn floor(&mut self, a: u64) -> u64;

    /// Bits of the smallest integral value not below `a`.
    fn ceil(&mut self, a: u64) -> u64;

    /// Bits of the fractional part of `a`.
    fn fract(&mut self, a: u64) -> u64;

    /// Whether `a < b`.
    fn lt(&mut self, a: u64, b: u64) -> bool;

    /// Whether `a >= b`.
    fn ge(&mut self, a: u64, b: u64) -> bool;

    /// Bits of `n` converted to a double.
    fn of_int(&mut self, n: u64) -> u64;

    /// The saturating integer cast of the double with bits `a`.
    fn to_int(&mut self, a: u64) -> u64;

    /// The saturating `usize` cast of the double with bits `a`.
    fn to_index(&mut self, a: u64) -> usize;

    /// Parse `s` as a double.  On success, the bit pattern and the
    /// host's canonical decimal rendering of the parsed value.
    fn parse_num(&mut self, s: &str) -> Option<(u64, String)>;

    /// The host's shortest round-trip decimal rendering of the double
    /// with bits `a`.
    fn format_num(&mut self, a: u64) -> String;

    /// The next pseudo-random double in `[0, 1)` of stream `id`.
    fn rand_unit(&mut self, id: usize) -> u64;
}

} // verus!
