//! ISO 216 paper sizes that a mosaic can be printed at.

use vstd::prelude::*;
use crate::numeric::{
    lemma_two_to_adds, lemma_two_to_divides, lemma_two_to_positive, nearest_double, product_side, quotient_side, ratio_double, round_div, shift_up, significand_floor, two_to,
};

verus! {

#[derive(Debug, Clone, Copy, PartialEq, Eq, Structural)]
pub enum PrintSize {
    A0,
    A1,
    A2,
    A3,
    A4,
    A5,
    A6,
    PostageStamp,
}

/// Width and height of the paper in portrait orientation, in millimetres.
pub open spec fn portrait_mm(size: PrintSize) -> (u32, u32) {
    match size {
        PrintSize::A0 => (841, 1189),
        PrintSize::A1 => (594, 841),
        PrintSize::A2 => (420, 594),
        PrintSize::A3 => (297, 420),
        PrintSize::A4 => (210, 297),
        PrintSize::A5 => (148, 210),
        PrintSize::A6 => (105, 148),
        PrintSize::PostageStamp => (20, 28),
    }
}

/// The paper for a mosaic whose longer side has `n` tiles.
pub open spec fn size_for_tiles(n: int) -> PrintSize {
    if n < 2 {
        PrintSize::PostageStamp
    } else if n < 8 {
        PrintSize::A6
    } else if n < 15 {
        PrintSize::A5
    } else if n < 25 {
        PrintSize::A4
    } else if n < 42 {
        PrintSize::A3
    } else if n < 50 {
        PrintSize::A2
    } else if n < 60 {
        PrintSize::A1
    } else {
        PrintSize::A0
    }
}

/// The paper's width and height turned like the image: landscape for a wider image.
pub open spec fn oriented_mm(size: PrintSize, width: int, height: int) -> (int, int) {
    if width > height {
        (portrait_mm(size).1 as int, portrait_mm(size).0 as int)
    } else {
        (portrait_mm(size).0 as int, portrait_mm(size).1 as int)
    }
}

/// The largest area with the image's proportions that fits on the paper turned like the
/// image, computed in doubles: the image's ratio `width / height` and the paper's are each
/// the nearest double; where the paper's is the larger, the width is the paper's height times
/// the image's ratio, else the height is the paper's width over it, each the nearest double
/// and then the nearest millimetre, halves up. A zero height makes the ratio infinite or
/// undefined and the height zero; a zero width makes the width zero.
pub open spec fn contained_mm(size: PrintSize, width: int, height: int) -> (int, int) {
    let (pw, ph) = oriented_mm(size, width, height);
    if height == 0 {
        (pw, 0)
    } else if width == 0 {
        (0, ph)
    } else {
        let r = nearest_double(width as nat, height as nat);
        let p = nearest_double(pw as nat, ph as nat);
        if p.0 * r.1 > r.0 * p.1 {
            let x = nearest_double((ph * r.0) as nat, r.1);
            (round_div(x.0 as int, x.1 as int), ph)
        } else {
            let y = nearest_double((pw * r.1) as nat, r.0);
            (pw, round_div(y.0 as int, y.1 as int))
        }
    }
}

impl PrintSize {
    pub fn measurements_portrait(&self) -> (r: (u32, u32))
        ensures
            r == portrait_mm(*self),
    {
        match self {
            Self::A0 => (841, 1189),
            Self::A1 => (594, 841),
            Self::A2 => (420, 594),
            Self::A3 => (297, 420),
            Self::A4 => (210, 297),
            Self::A5 => (148, 210),
            Self::A6 => (105, 148),
            Self::PostageStamp => (20, 28),
        }
    }

    pub fn measurements_landscape(&self) -> (r: (u32, u32))
        ensures
            r == (portrait_mm(*self).1, portrait_mm(*self).0),
    {
        let (width, height) = self.measurements_portrait();
        (height, width)
    }

    /// The paper for a mosaic of `num_x` x `num_y` tiles, chosen by its longer side.
    pub fn from_mosaic_tile_layout(num_x: u8, num_y: u8) -> (r: Self)
        ensures
            r == size_for_tiles(if num_x >= num_y { num_x as int } else { num_y as int }),
    {
        let longest_side_tiles = if num_x >= num_y { num_x } else { num_y };
        if longest_side_tiles < 2 {
            Self::PostageStamp
        } else if longest_side_tiles < 8 {
            Self::A6
        } else if longest_side_tiles < 15 {
            Self::A5
        } else if longest_side_tiles < 25 {
            Self::A4
        } else if longest_side_tiles < 42 {
            Self::A3
        } else if longest_side_tiles < 50 {
            Self::A2
        } else if longest_side_tiles < 60 {
            Self::A1
        } else {
            Self::A0
        }
    }

    /// Millimetres that a `width` x `height` image covers when printed as large as it fits.
    pub fn measurements_for_contained_image(&self, width: u32, height: u32) -> (r: (u32, u32))
        ensures
            r.0 == contained_mm(*self, width as int, height as int).0,
            r.1 == contained_mm(*self, width as int, height as int).1,
    {
        let is_landscape = width > height;
        let (mm_width, mm_height) = if is_landscape { self.measurements_landscape() } else { self.measurements_portrait() };
        assert((mm_width as int, mm_height as int) == oriented_mm(*self, width as int, height as int));
        if height == 0 {
            return (mm_width, 0);
        }
        if width == 0 {
            return (0, mm_height);
        }
        let (rm, rs) = ratio_double(width, height);
        let (pm, ps) = ratio_double(mm_width, mm_height);
        proof {
            let (w0, h0) = (mm_width as int, mm_height as int);
            assert(20 <= w0 <= 1189 && 20 <= h0 <= 1189);
            assert(significand_floor() / 64 <= ps) by (nonlinear_arith)
                requires significand_floor() * h0 <= w0 * ps, h0 >= 20, w0 <= 1189, significand_floor() == 4_503_599_627_370_496;
            assert(ps <= 2 * significand_floor() * 1189) by (nonlinear_arith)
                requires w0 * ps < 2 * significand_floor() * h0, h0 <= 1189, w0 >= 1;
        }
        let paper_wider = paper_ratio_larger(pm, ps, rm, rs, Ghost(shift_up(mm_width as nat, mm_height as nat)),
            Ghost(shift_up(width as nat, height as nat)));
        let pw = mm_width as u128;
        let ph = mm_height as u128;
        proof {
            assert(20 <= pw <= 1189 && 20 <= ph <= 1189);
        }
        if paper_wider {
            proof {
                assert(ph * rm * ps < ph * pm * rs) by (nonlinear_arith)
                    requires pm * rs > rm * ps, ph >= 1;
                assert(pm * rs <= 2 * significand_floor() * rs) by (nonlinear_arith)
                    requires pm <= 2 * significand_floor(), rs >= 0;
                assert(ph * (pm * rs) <= ph * (2 * significand_floor() * rs)) by (nonlinear_arith)
                    requires pm * rs <= 2 * significand_floor() * rs, ph >= 0;
                assert(ph * significand_floor() <= pw * ps);
                assert(ph * rm * ps < 2 * pw * rs * ps) by (nonlinear_arith)
                    requires ph * rm * ps < ph * pm * rs, ph * (pm * rs) <= ph * (2 * significand_floor() * rs),
                        significand_floor() * ph <= pw * ps, rs >= 1, ps >= 1, ph >= 1;
                assert(ph * rm <= 2 * pw * rs) by (nonlinear_arith)
                    requires ph * rm * ps < 2 * pw * rs * ps, ps >= 1;
            }
            let w = product_side(ph, rm, rs, Ghost(shift_up(width as nat, height as nat)), 2 * pw);
            (w as u32, mm_height)
        } else {
            proof {
                assert(pm * rs <= rm * ps);
                assert(pw * ps < 2 * significand_floor() * ph);
                assert(pw * rs * pm <= pw * rm * ps) by (nonlinear_arith)
                    requires pm * rs <= rm * ps, pw >= 0;
                assert(pw * rm * ps <= rm * (2 * significand_floor() * ph)) by (nonlinear_arith)
                    requires pw * ps < 2 * significand_floor() * ph, rm >= 0;
                assert(pw * rs * pm <= 2 * ph * rm * pm) by (nonlinear_arith)
                    requires pw * rs * pm <= rm * (2 * significand_floor() * ph), significand_floor() <= pm;
                assert(pw * rs <= 2 * ph * rm) by (nonlinear_arith)
                    requires pw * rs * pm <= 2 * ph * rm * pm, pm >= 1;
            }
            let h = quotient_side(pw, rm, rs, 2 * ph);
            (mm_width, h as u32)
        }
    }

    /// The name printed for the size.
    pub open spec fn name_text(self) -> Seq<char> {
        match self {
            Self::A0 => "A0"@,
            Self::A1 => "A1"@,
            Self::A2 => "A2"@,
            Self::A3 => "A3"@,
            Self::A4 => "A4"@,
            Self::A5 => "A5"@,
            Self::A6 => "A6"@,
            Self::PostageStamp => "Postage Stamp"@,
        }
    }

    /// The name of the size as shown to the user.
    pub fn name(&self) -> (s: &'static str)
        ensures
            s@ == self.name_text(),
    {
        match self {
            Self::A0 => "A0",
            Self::A1 => "A1",
            Self::A2 => "A2",
            Self::A3 => "A3",
            Self::A4 => "A4",
            Self::A5 => "A5",
            Self::A6 => "A6",
            Self::PostageStamp => "Postage Stamp",
        }
    }
}

/// Whether the paper's ratio `pm / ps` exceeds the image's `rm / rs`, both denominators
/// powers of two.
fn paper_ratio_larger(pm: u128, ps: u128, rm: u128, rs: u128, Ghost(a): Ghost<nat>, Ghost(b): Ghost<nat>) -> (larger: bool)
    requires
        ps == two_to(a),
        rs == two_to(b),
        1 <= pm <= 2 * significand_floor(),
        1 <= rm <= 2 * significand_floor(),
        significand_floor() / 64 <= ps <= 2 * significand_floor() * 1189,
        1 <= rs <= 2 * significand_floor() * 0xffff_ffff,
    ensures
        larger == (pm * rs > rm * ps),
{
    if rs >= ps {
        proof {
            lemma_two_to_divides(b, a);
        }
        let q = rs / ps;
        proof {
            assert(rs == ps * q);
            assert(q * (significand_floor() / 64) <= q * ps) by (nonlinear_arith)
                requires ps >= significand_floor() / 64, q >= 0;
            assert(q <= 2 * 64 * 0xffff_ffff + 64) by (nonlinear_arith)
                requires q * (significand_floor() / 64) <= rs, rs <= 2 * significand_floor() * 0xffff_ffff,
                    significand_floor() == 4_503_599_627_370_496;
            assert(pm <= 9_007_199_254_740_992);
            assert(pm * q <= 9_007_199_254_740_992 * (2 * 64 * 0xffff_ffff + 64)) by (nonlinear_arith)
                requires pm <= 9_007_199_254_740_992, q <= 2 * 64 * 0xffff_ffff + 64;
            assert((pm * rs > rm * ps) == (pm * q > rm)) by (nonlinear_arith)
                requires rs == ps * q, ps >= 1;
        }
        pm * q > rm
    } else {
        proof {
            lemma_two_to_divides(a, b);
        }
        let q = ps / rs;
        proof {
            assert(ps == rs * q);
            assert(q <= ps) by (nonlinear_arith)
                requires q == ps / rs, rs >= 1;
            assert(rm <= 9_007_199_254_740_992 && q <= 9_007_199_254_740_992 * 1189);
            assert(rm * q <= 9_007_199_254_740_992 * (9_007_199_254_740_992 * 1189)) by (nonlinear_arith)
                requires rm <= 9_007_199_254_740_992, q <= 9_007_199_254_740_992 * 1189;
            assert((pm * rs > rm * ps) == (pm > rm * q)) by (nonlinear_arith)
                requires ps == rs * q, rs >= 1;
        }
        pm > rm * q
    }
}




} // verus!
