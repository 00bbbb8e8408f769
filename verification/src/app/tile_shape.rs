//! The shapes a mosaic's tiles can take.

use vstd::prelude::*;

verus! {

#[derive(PartialEq, Eq, Structural, Clone, Copy, Debug, Hash)]
pub enum TileShape {
    Landscape16x9,
    Square,
    Portrait9x16,
}

/// Width and height of the shape, in lowest terms.
pub open spec fn aspect_of(shape: TileShape) -> (u8, u8) {
    match shape {
        TileShape::Landscape16x9 => (16, 9),
        TileShape::Square => (1, 1),
        TileShape::Portrait9x16 => (9, 16),
    }
}

impl TileShape {
    pub fn aspect_dimensions(&self) -> (r: (u8, u8))
        ensures
            r == aspect_of(*self),
    {
        match self {
            Self::Landscape16x9 => (16, 9),
            Self::Square => (1, 1),
            Self::Portrait9x16 => (9, 16),
        }
    }

    /// Whether a `width` x `height` image has exactly this shape's proportions.
    pub fn matches_proportions(&self, width: u32, height: u32) -> (b: bool)
        ensures
            b == (width * aspect_of(*self).1 == height * aspect_of(*self).0),
    {
        let (dim_x, dim_y) = self.aspect_dimensions();
        proof {
            assert((width as u64) * (dim_y as u64) <= 4294967295 * 255 && (height as u64) * (dim_x as u64) <= 4294967295 * 255)
                by (nonlinear_arith) requires width <= 4294967295, height <= 4294967295, dim_x <= 255, dim_y <= 255;
        }
        (width as u64) * (dim_y as u64) == (height as u64) * (dim_x as u64)
    }

    /// The name printed for the shape.
    pub open spec fn name_text(self) -> Seq<char> {
        match self {
            Self::Landscape16x9 => "Landscape (16:9)"@,
            Self::Square => "Square"@,
            Self::Portrait9x16 => "Portrait (9:16)"@,
        }
    }

    /// The name of the shape as shown to the user.
    pub fn name(&self) -> (s: &'static str)
        ensures
            s@ == self.name_text(),
    {
        match self {
            Self::Landscape16x9 => "Landscape (16:9)",
            Self::Square => "Square",
            Self::Portrait9x16 => "Portrait (9:16)",
        }
    }
}

} // verus!
