//! The grid of pixels that a picture is drawn on.

use vstd::prelude::*;
use crate::colour::Colour;

verus! {

/// `width` columns and `height` rows of colours, row after row.
#[derive(Debug)]
pub struct Canvas {
    pub width: usize,
    pub height: usize,
    pub pixels: Vec<Colour>,
}

impl Canvas {
    /// The place of column `x`, row `y` in `pixels`.
    pub open spec fn offset(self, x: int, y: int) -> int {
        self.width * y + x
    }

    /// There is a pixel for every place of the grid, and no other.
    pub open spec fn well_formed(self) -> bool {
        self.pixels@.len() == self.width * self.height
    }

    /// The same size, and pixel by pixel the same colours.
    pub open spec fn same(self, other: Canvas) -> bool {
        &&& self.width == other.width
        &&& self.height == other.height
        &&& self.pixels@.len() == other.pixels@.len()
        &&& forall|i: int|
            0 <= i < self.pixels@.len() ==> (#[trigger] self.pixels@[i]).same(other.pixels@[i])
    }

    /// A canvas with every pixel of one colour.
    pub fn new(width: usize, height: usize, colour: Colour) -> (c: Self)
        requires
            width * height <= usize::MAX,
        ensures
            c.width == width,
            c.height == height,
            c.well_formed(),
            forall|i: int| 0 <= i < width * height ==> c.pixels@[i] == colour,
    {
        let mut pixels: Vec<Colour> = Vec::new();
        let count: usize = width * height;
        let mut i: usize = 0;
        while i < count
            invariant
                i <= count,
                pixels@.len() == i,
                forall|j: int| 0 <= j < i ==> pixels@[j] == colour,
            decreases count - i,
        {
            pixels.push(colour);
            i = i + 1;
        }
        Canvas { width, height, pixels }
    }

    /// The colour of the pixel in column `x`, row `y`.
    pub fn read_pix(&self, x: usize, y: usize) -> (c: Colour)
        requires
            0 <= self.offset(x as int, y as int) < self.pixels@.len(),
        ensures
            c == self.pixels@[self.offset(x as int, y as int)],
    {
        let count = self.pixels.len();
        assert(0 <= self.width * y <= self.width * y + x < count) by (nonlinear_arith)
            requires
                self.width * y + x < count,
        ;
        self.pixels[self.width * y + x]
    }

    /// Colours the pixel in column `x`, row `y`; every other pixel stays.
    pub fn write_pix(&mut self, x: usize, y: usize, colour: Colour)
        requires
            0 <= old(self).offset(x as int, y as int) < old(self).pixels@.len(),
        ensures
            final(self).width == old(self).width,
            final(self).height == old(self).height,
            final(self).pixels@ == old(self).pixels@.update(
                old(self).offset(x as int, y as int),
                colour,
            ),
    {
        let count = self.pixels.len();
        assert(0 <= self.width * y <= self.width * y + x < count) by (nonlinear_arith)
            requires
                self.width * y + x < count,
        ;
        let at = self.width * y + x;
        self.pixels[at] = colour;
    }
}

impl PartialEq for Canvas {
    fn eq(&self, other: &Canvas) -> (r: bool) {
        if self.width != other.width || self.height != other.height || self.pixels.len()
            != other.pixels.len() {
            return false;
        }
        let mut i: usize = 0;
        while i < self.pixels.len()
            invariant
                i <= self.pixels@.len(),
                self.pixels@.len() == other.pixels@.len(),
                self.width == other.width,
                self.height == other.height,
                forall|j: int| 0 <= j < i ==> (#[trigger] self.pixels@[j]).same(other.pixels@[j]),
            decreases self.pixels@.len() - i,
        {
            if !(self.pixels[i] == other.pixels[i]) {
                return false;
            }
            i = i + 1;
        }
        true
    }
}

impl vstd::std_specs::cmp::PartialEqSpecImpl for Canvas {
    open spec fn obeys_eq_spec() -> bool {
        true
    }

    open spec fn eq_spec(&self, other: &Canvas) -> bool {
        self.same(*other)
    }
}

/// A black canvas.
pub fn canvas(width: usize, height: usize) -> (c: Canvas)
    requires
        width * height <= usize::MAX,
    ensures
        c.width == width,
        c.height == height,
        c.well_formed(),
        forall|i: int| 0 <= i < width * height ==> c.pixels@[i] == Colour::black_value(),
{
    Canvas::new(width, height, Colour::black())
}

/// Inside the grid, each place has an offset of its own, within `pixels`.
pub proof fn lemma_offsets_apart(c: Canvas, x1: int, y1: int, x2: int, y2: int)
    requires
        c.well_formed(),
        0 <= x1 < c.width,
        0 <= y1 < c.height,
        0 <= x2 < c.width,
        0 <= y2 < c.height,
    ensures
        0 <= c.offset(x1, y1) < c.pixels@.len(),
        c.offset(x1, y1) == c.offset(x2, y2) ==> x1 == x2 && y1 == y2,
{
    let w = c.width as int;
    let h = c.height as int;
    assert(w * y1 + x1 < w * h && w * y1 >= 0) by (nonlinear_arith)
        requires
            0 <= x1 < w,
            0 <= y1 < h,
    ;
    if y1 < y2 {
        assert(w * y2 >= w * y1 + w) by (nonlinear_arith)
            requires
                y1 < y2,
                w > 0,
        ;
    } else if y2 < y1 {
        assert(w * y1 >= w * y2 + w) by (nonlinear_arith)
            requires
                y2 < y1,
                w > 0,
        ;
    }
}

} // verus!
