//! Colours: three unclamped channels.

use vstd::prelude::*;
use crate::scalar::{Scalar, ONE_BITS};

verus! {

/// The pattern of a tenth, as a binary32 number widened to binary64.
pub const TENTH_BITS: u64 = 0x3FB9_9999_A000_0000;

/// Red, green and blue. A channel may lie outside 0..1; it is clamped only
/// where an image is written.
#[derive(Clone, Copy, Debug)]
pub struct Colour {
    pub r: Scalar,
    pub g: Scalar,
    pub b: Scalar,
}

impl Colour {
    /// Channel by channel, the two are equal as numbers.
    pub open spec fn same(self, other: Colour) -> bool {
        self.r.equals(other.r) && self.g.equals(other.g) && self.b.equals(other.b)
    }

    /// The colour with the three channels given by their bit patterns.
    pub open spec fn of_bits(r: u64, g: u64, b: u64) -> Colour {
        Colour { r: Scalar { bits: r }, g: Scalar { bits: g }, b: Scalar { bits: b } }
    }

    /// No light at all: every channel is positive zero.
    pub open spec fn black_value() -> Colour {
        Colour::of_bits(0, 0, 0)
    }

    /// Full light: every channel is 1.
    pub open spec fn white_value() -> Colour {
        Colour::of_bits(ONE_BITS, ONE_BITS, ONE_BITS)
    }

    pub fn new(r: Scalar, g: Scalar, b: Scalar) -> (c: Self)
        ensures
            c == (Colour { r, g, b }),
    {
        Colour { r, g, b }
    }

    pub fn red() -> (c: Self)
        ensures
            c == Colour::of_bits(ONE_BITS, 0, 0),
    {
        Colour { r: Scalar::one(), g: Scalar::zero(), b: Scalar::zero() }
    }

    pub fn green() -> (c: Self)
        ensures
            c == Colour::of_bits(0, ONE_BITS, 0),
    {
        Colour { r: Scalar::zero(), g: Scalar::one(), b: Scalar::zero() }
    }

    /// A dark blue: the blue channel is a tenth.
    pub fn blue() -> (c: Self)
        ensures
            c == Colour::of_bits(0, 0, TENTH_BITS),
    {
        Colour { r: Scalar::zero(), g: Scalar::zero(), b: Scalar::from_bits(TENTH_BITS) }
    }

    pub fn white() -> (c: Self)
        ensures
            c == Colour::white_value(),
    {
        Colour { r: Scalar::one(), g: Scalar::one(), b: Scalar::one() }
    }

    pub fn cyan() -> (c: Self)
        ensures
            c == Colour::of_bits(0, ONE_BITS, ONE_BITS),
    {
        Colour { r: Scalar::zero(), g: Scalar::one(), b: Scalar::one() }
    }

    pub fn magenta() -> (c: Self)
        ensures
            c == Colour::of_bits(ONE_BITS, 0, ONE_BITS),
    {
        Colour { r: Scalar::one(), g: Scalar::zero(), b: Scalar::one() }
    }

    pub fn yellow() -> (c: Self)
        ensures
            c == Colour::of_bits(ONE_BITS, ONE_BITS, 0),
    {
        Colour { r: Scalar::one(), g: Scalar::one(), b: Scalar::zero() }
    }

    pub fn black() -> (c: Self)
        ensures
            c == Colour::black_value(),
    {
        Colour { r: Scalar::zero(), g: Scalar::zero(), b: Scalar::zero() }
    }

    /// The grey whose three channels are `level`.
    pub fn grey(level: Scalar) -> (c: Self)
        ensures
            c == (Colour { r: level, g: level, b: level }),
    {
        Colour { r: level, g: level, b: level }
    }
}

impl PartialEq for Colour {
    fn eq(&self, other: &Colour) -> (r: bool) {
        self.r == other.r && self.g == other.g && self.b == other.b
    }
}

impl vstd::std_specs::cmp::PartialEqSpecImpl for Colour {
    open spec fn obeys_eq_spec() -> bool {
        true
    }

    open spec fn eq_spec(&self, other: &Colour) -> bool {
        self.same(*other)
    }
}

/// The channel brought into 0..1, as it is before it is scaled to a byte:
/// 0 where it is below 0, 1 where it is above 1. A NaN stays.
pub fn clamp_channel(channel: Scalar) -> (r: Scalar)
    ensures
        r == if channel.less_than(Scalar::zero_value()) {
            Scalar::zero_value()
        } else if Scalar::one_value().less_than(channel) {
            Scalar::one_value()
        } else {
            channel
        },
{
    if channel.lt(&Scalar::zero()) {
        Scalar::zero()
    } else if channel.gt(&Scalar::one()) {
        Scalar::one()
    } else {
        channel
    }
}

/// The colour (r, g, b).
pub fn colour(r: Scalar, g: Scalar, b: Scalar) -> (c: Colour)
    ensures
        c == (Colour { r, g, b }),
{
    Colour::new(r, g, b)
}

} // verus!
