//! Patterns: the colour of a surface as a function of the point on it.
//!
//! A pattern is asked with what the arithmetic made of the point: the number
//! whose parity picks one of two colours, the angular sector, or the colour
//! that was mixed for it.

use vstd::prelude::*;
use crate::colour::Colour;
use crate::matrix::Matrix4;
use crate::scalar::Scalar;

verus! {

/// Squares of two colours in all three directions.
#[derive(Clone, Copy, Debug)]
pub struct CheckerPattern {
    pub a: Colour,
    pub b: Colour,
}

/// How strongly, and from which seed, noise darkens a gradient.
#[derive(Clone, Copy, Debug)]
pub struct Jitter {
    pub seed: u32,
    pub amp: Scalar,
}

/// A blend from one colour to the other along x, anew in every unit.
#[derive(Clone, Copy, Debug)]
pub struct GradientPattern {
    pub a: Colour,
    pub b: Colour,
    pub jitter: Option<Jitter>,
}

/// Sectors of two colours around the y axis, `n` to the half turn.
#[derive(Clone, Copy, Debug)]
pub struct RadialPattern {
    pub a: Colour,
    pub b: Colour,
    pub n: usize,
}

/// Rings of two colours around the y axis.
#[derive(Clone, Copy, Debug)]
pub struct RingPattern {
    pub a: Colour,
    pub b: Colour,
}

/// One colour everywhere.
#[derive(Clone, Copy, Debug)]
pub struct SolidPattern {
    pub colour: Colour,
}

/// Stripes of two colours across x.
#[derive(Clone, Copy, Debug)]
pub struct StripePattern {
    pub a: Colour,
    pub b: Colour,
}

/// A pattern whose colour is the point it is asked for; it tells where a
/// pattern was sampled.
#[derive(Clone, Copy, Debug)]
pub struct TestPattern {}

/// The kinds of pattern.
#[derive(Clone, Copy, Debug)]
pub enum Patterns {
    Checkers(CheckerPattern),
    Gradient(GradientPattern),
    Radial(RadialPattern),
    Rings(RingPattern),
    Solid(SolidPattern),
    Stripes(StripePattern),
    Test(TestPattern),
}

/// A pattern and where it lies on the object that wears it: its own
/// transform, and the inverse of that transform.
#[derive(Clone, Copy, Debug)]
pub struct Pattern {
    pub pattern: Patterns,
    pub transform: Matrix4,
    pub inverse_transform: Matrix4,
}

/// What the arithmetic made of a point in the pattern's own space.
#[derive(Clone, Copy, Debug)]
pub struct Sample {
    /// The number whose parity picks the colour. Stripes: floor(x). Rings:
    /// the floor of the distance from the y axis. Checkers: the sum of the
    /// floors of x, y and z.
    pub cell: Scalar,
    /// Radial: the number of the sector that the point lies in.
    pub sector: usize,
    /// Gradient and test: the colour that was mixed for the point.
    pub blend: Colour,
}

/// The first colour where the count is even, the second where it is not.
pub open spec fn alternate(a: Colour, b: Colour, even: bool) -> Colour {
    if even {
        a
    } else {
        b
    }
}

impl Jitter {
    pub open spec fn same(self, other: Jitter) -> bool {
        self.seed == other.seed && self.amp.equals(other.amp)
    }

    pub fn new(seed: u32, amp: Scalar) -> (r: Self)
        ensures
            r == (Jitter { seed, amp }),
    {
        Jitter { seed, amp }
    }
}

impl CheckerPattern {
    /// The colour of the cell whose three floors add up to `cells`.
    pub fn pattern_at(&self, cells: Scalar) -> (c: Colour)
        ensures
            c == alternate(self.a, self.b, cells.even_integer()),
    {
        if cells.is_even() {
            self.a
        } else {
            self.b
        }
    }
}

impl RadialPattern {
    /// The colour of sector number `sector`.
    pub fn pattern_at(&self, sector: usize) -> (c: Colour)
        ensures
            c == alternate(self.a, self.b, sector % 2 == 0),
    {
        if sector % 2 == 0 {
            self.a
        } else {
            self.b
        }
    }
}

impl RingPattern {
    /// The colour of ring number `ring`, counted from the axis.
    pub fn pattern_at(&self, ring: Scalar) -> (c: Colour)
        ensures
            c == alternate(self.a, self.b, ring.even_integer()),
    {
        if ring.is_even() {
            self.a
        } else {
            self.b
        }
    }
}

impl SolidPattern {
    pub fn pattern_at(&self) -> (c: Colour)
        ensures
            c == self.colour,
    {
        self.colour
    }
}

impl StripePattern {
    /// The colour of stripe number `stripe` = floor(x).
    pub fn pattern_at(&self, stripe: Scalar) -> (c: Colour)
        ensures
            c == alternate(self.a, self.b, stripe.even_integer()),
    {
        if stripe.is_even() {
            self.a
        } else {
            self.b
        }
    }
}

impl Patterns {
    /// The same kind, with parameters that are equal as numbers.
    pub open spec fn same(self, other: Patterns) -> bool {
        match (self, other) {
            (Patterns::Checkers(p), Patterns::Checkers(q)) => p.a.same(q.a) && p.b.same(q.b),
            (Patterns::Gradient(p), Patterns::Gradient(q)) => {
                &&& p.a.same(q.a)
                &&& p.b.same(q.b)
                &&& match (p.jitter, q.jitter) {
                    (Some(j), Some(k)) => j.same(k),
                    (None, None) => true,
                    _ => false,
                }
            },
            (Patterns::Radial(p), Patterns::Radial(q)) => p.a.same(q.a) && p.b.same(q.b) && p.n
                == q.n,
            (Patterns::Rings(p), Patterns::Rings(q)) => p.a.same(q.a) && p.b.same(q.b),
            (Patterns::Solid(p), Patterns::Solid(q)) => p.colour.same(q.colour),
            (Patterns::Stripes(p), Patterns::Stripes(q)) => p.a.same(q.a) && p.b.same(q.b),
            (Patterns::Test(_), Patterns::Test(_)) => true,
            _ => false,
        }
    }

    /// The colour that the kind gives for a sample.
    pub open spec fn colour_of(self, sample: Sample) -> Colour {
        match self {
            Patterns::Checkers(p) => alternate(p.a, p.b, sample.cell.even_integer()),
            Patterns::Gradient(_) => sample.blend,
            Patterns::Radial(p) => alternate(p.a, p.b, sample.sector % 2 == 0),
            Patterns::Rings(p) => alternate(p.a, p.b, sample.cell.even_integer()),
            Patterns::Solid(p) => p.colour,
            Patterns::Stripes(p) => alternate(p.a, p.b, sample.cell.even_integer()),
            Patterns::Test(_) => sample.blend,
        }
    }

    fn matches(&self, other: &Patterns) -> (r: bool)
        ensures
            r == self.same(*other),
    {
        match (self, other) {
            (Patterns::Checkers(p), Patterns::Checkers(q)) => p.a == q.a && p.b == q.b,
            (Patterns::Gradient(p), Patterns::Gradient(q)) => {
                let noise = match (&p.jitter, &q.jitter) {
                    (Some(j), Some(k)) => j.seed == k.seed && j.amp == k.amp,
                    (None, None) => true,
                    _ => false,
                };
                p.a == q.a && p.b == q.b && noise
            },
            (Patterns::Radial(p), Patterns::Radial(q)) => p.a == q.a && p.b == q.b && p.n == q.n,
            (Patterns::Rings(p), Patterns::Rings(q)) => p.a == q.a && p.b == q.b,
            (Patterns::Solid(p), Patterns::Solid(q)) => p.colour == q.colour,
            (Patterns::Stripes(p), Patterns::Stripes(q)) => p.a == q.a && p.b == q.b,
            (Patterns::Test(_), Patterns::Test(_)) => true,
            _ => false,
        }
    }
}

impl Pattern {
    /// The same kind of pattern with equal parameters, under equal transforms.
    pub open spec fn same(self, other: Pattern) -> bool {
        &&& self.pattern.same(other.pattern)
        &&& self.transform.same(other.transform)
        &&& self.inverse_transform.same(other.inverse_transform)
    }

    /// The pattern of the given kind, not moved.
    pub open spec fn plain(pattern: Patterns) -> Pattern {
        Pattern {
            pattern,
            transform: Matrix4::identity_value(),
            inverse_transform: Matrix4::identity_value(),
        }
    }

    fn of(pattern: Patterns) -> (r: Self)
        ensures
            r == Pattern::plain(pattern),
    {
        Pattern { pattern, transform: Matrix4::identity(), inverse_transform: Matrix4::identity() }
    }

    pub fn new_checkers(a: Colour, b: Colour) -> (r: Self)
        ensures
            r == Pattern::plain(Patterns::Checkers(CheckerPattern { a, b })),
    {
        Pattern::of(Patterns::Checkers(CheckerPattern { a, b }))
    }

    pub fn new_gradient(a: Colour, b: Colour) -> (r: Self)
        ensures
            r == Pattern::plain(Patterns::Gradient(GradientPattern { a, b, jitter: None })),
    {
        Pattern::of(Patterns::Gradient(GradientPattern { a, b, jitter: None }))
    }

    pub fn new_radial(a: Colour, b: Colour, n: usize) -> (r: Self)
        ensures
            r == Pattern::plain(Patterns::Radial(RadialPattern { a, b, n })),
    {
        Pattern::of(Patterns::Radial(RadialPattern { a, b, n }))
    }

    pub fn new_rings(a: Colour, b: Colour) -> (r: Self)
        ensures
            r == Pattern::plain(Patterns::Rings(RingPattern { a, b })),
    {
        Pattern::of(Patterns::Rings(RingPattern { a, b }))
    }

    pub fn new_solid(colour: Colour) -> (r: Self)
        ensures
            r == Pattern::plain(Patterns::Solid(SolidPattern { colour })),
    {
        Pattern::of(Patterns::Solid(SolidPattern { colour }))
    }

    pub fn new_stripes(a: Colour, b: Colour) -> (r: Self)
        ensures
            r == Pattern::plain(Patterns::Stripes(StripePattern { a, b })),
    {
        Pattern::of(Patterns::Stripes(StripePattern { a, b }))
    }

    pub fn new_test() -> (r: Self)
        ensures
            r == Pattern::plain(Patterns::Test(TestPattern {  })),
    {
        Pattern::of(Patterns::Test(TestPattern {  }))
    }

    /// The colour of the pattern where the sample was taken.
    pub fn pattern_at(&self, sample: &Sample) -> (c: Colour)
        ensures
            c == self.pattern.colour_of(*sample),
    {
        match &self.pattern {
            Patterns::Checkers(pattern) => pattern.pattern_at(sample.cell),
            Patterns::Gradient(_) => sample.blend,
            Patterns::Radial(pattern) => pattern.pattern_at(sample.sector),
            Patterns::Rings(pattern) => pattern.pattern_at(sample.cell),
            Patterns::Solid(pattern) => pattern.pattern_at(),
            Patterns::Stripes(pattern) => pattern.pattern_at(sample.cell),
            Patterns::Test(_) => sample.blend,
        }
    }

    /// Moves the pattern on its object. A transform is kept with its inverse:
    /// the two are set together. The pattern is changed, and given back.
    pub fn with_transform(&mut self, transform: Matrix4, inverse: Matrix4) -> (r: Self)
        ensures
            *final(self) == (Pattern { transform, inverse_transform: inverse, ..*old(self) }),
            r == *final(self),
    {
        self.transform = transform;
        self.inverse_transform = inverse;
        *self
    }
}

impl Default for Pattern {
    /// Solid white, not moved.
    fn default() -> (r: Self)
        ensures
            r == Pattern::plain(Patterns::Solid(SolidPattern { colour: Colour::white_value() })),
    {
        Pattern::new_solid(Colour::white())
    }
}

impl PartialEq for Pattern {
    fn eq(&self, other: &Pattern) -> (r: bool) {
        self.pattern.matches(&other.pattern) && self.transform == other.transform
            && self.inverse_transform == other.inverse_transform
    }
}

impl vstd::std_specs::cmp::PartialEqSpecImpl for Pattern {
    open spec fn obeys_eq_spec() -> bool {
        true
    }

    open spec fn eq_spec(&self, other: &Pattern) -> bool {
        self.same(*other)
    }
}

} // verus!
