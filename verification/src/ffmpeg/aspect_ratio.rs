//! Classification of frame shapes by their width-to-height ratio rounded to
//! two decimal places.

use vstd::prelude::*;
use crate::text::{fixed_point_text, push_fixed_point, string_from_chars};
use crate::numeric::{
    nearest_double, nearest_double_below_floor, product_side, quotient_side, ratio_double, round_div, shift_up, significand_floor,
};

verus! {

/// A frame shape. `Custom` holds the ratio in hundredths (150 is 1.5:1).
/// `Unbounded` is the infinite ratio of a frame of positive width and no height,
/// `Undetermined` the ratio of a frame with neither width nor height.
#[derive(PartialEq, Eq, Structural, Clone, Copy, Debug)]
pub enum AspectRatio {
    Square1x1,
    Landscape4x3,
    Landscape16x9,
    Landscape21x9,
    Portrait9x16,
    Custom(u64),
    Unbounded,
    Undetermined,
}

/// `width / height` in hundredths as doubles give it: the nearest double to the ratio,
/// times a hundred, rounded to the nearest double and then to the nearest integer with
/// halves up.
pub open spec fn ratio_hundredths(width: nat, height: nat) -> nat {
    if width == 0 {
        0
    } else {
        let r = nearest_double(width, height);
        let x = nearest_double(100 * r.0, r.1);
        round_div(x.0 as int, x.1 as int) as nat
    }
}

/// The shape that a ratio of `r` hundredths is classified as.
pub open spec fn classify_hundredths(r: nat) -> AspectRatio {
    if r == 100 {
        AspectRatio::Square1x1
    } else if r == 133 {
        AspectRatio::Landscape4x3
    } else if r == 178 {
        AspectRatio::Landscape16x9
    } else if 230 <= r <= 240 {
        AspectRatio::Landscape21x9
    } else if r == 56 {
        AspectRatio::Portrait9x16
    } else {
        AspectRatio::Custom(r as u64)
    }
}

/// The shape of a `width` x `height` frame.
pub open spec fn shape_of(width: nat, height: nat) -> AspectRatio {
    if height == 0 {
        if width == 0 {
            AspectRatio::Undetermined
        } else {
            AspectRatio::Unbounded
        }
    } else {
        classify_hundredths(ratio_hundredths(width, height))
    }
}

/// `width / height` in hundredths as doubles give it (see `ratio_hundredths`).
pub fn hundredths_of(width: u32, height: u32) -> (r: u64)
    requires
        height > 0,
    ensures
        r == ratio_hundredths(width as nat, height as nat),
{
    if width == 0 {
        0
    } else {
        let (m, scale) = ratio_double(width, height);
        proof {
            let (w, h) = (width as int, height as int);
            assert(m * (significand_floor() * h) <= 2 * significand_floor() * (w * scale)) by (nonlinear_arith)
                requires m <= 2 * significand_floor(), significand_floor() * h <= w * scale, h >= 1, significand_floor() > 0;
            assert(m * h <= 2 * w * scale) by (nonlinear_arith)
                requires m * (significand_floor() * h) <= 2 * significand_floor() * (w * scale), significand_floor() > 0;
            assert(100 * m <= (200 * 0xffff_ffff) * scale) by (nonlinear_arith)
                requires m * h <= 2 * w * scale, h >= 1, w <= 0xffff_ffff, m >= 0;
        }
        product_side(100, m, scale, Ghost(shift_up(width as nat, height as nat)), 200 * 0xffff_ffff) as u64
    }
}

impl AspectRatio {
    /// Classifies a `width` x `height` frame.
    pub fn new(width: u32, height: u32) -> (r: Self)
        ensures
            r == shape_of(width as nat, height as nat),
    {
        if height == 0 {
            return if width == 0 { AspectRatio::Undetermined } else { AspectRatio::Unbounded };
        }
        let ratio = hundredths_of(width, height);
        if ratio == 100 {
            AspectRatio::Square1x1
        } else if ratio == 133 {
            AspectRatio::Landscape4x3
        } else if ratio == 178 {
            AspectRatio::Landscape16x9
        } else if 230 <= ratio && ratio <= 240 {
            AspectRatio::Landscape21x9
        } else if ratio == 56 {
            AspectRatio::Portrait9x16
        } else {
            AspectRatio::Custom(ratio)
        }
    }

    /// Whether frames of this shape are taller than wide.
    pub fn is_vertical(&self) -> (b: bool)
        ensures
            b == match *self {
                AspectRatio::Portrait9x16 => true,
                AspectRatio::Custom(r) => r < 100,
                _ => false,
            },
    {
        match self {
            AspectRatio::Portrait9x16 => true,
            AspectRatio::Custom(ratio) => *ratio < 100,
            _ => false,
        }
    }

    /// The ratio that frame heights are computed from, as the fraction `num / den` whose
    /// nearest double it is (`1.7777777778` for 16:9); a custom ratio is its hundredths. An
    /// unbounded or undetermined ratio has none.
    pub open spec fn ratio_fraction(self) -> Option<(nat, nat)> {
        match self {
            AspectRatio::Square1x1 => Some((1, 1)),
            AspectRatio::Landscape4x3 => Some((13_333_333_333, 10_000_000_000)),
            AspectRatio::Landscape16x9 => Some((17_777_777_778, 10_000_000_000)),
            AspectRatio::Landscape21x9 => Some((23_333_333_333, 10_000_000_000)),
            AspectRatio::Portrait9x16 => Some((5_625, 10_000)),
            AspectRatio::Custom(r) => Some((r as nat, 100)),
            AspectRatio::Unbounded => None,
            AspectRatio::Undetermined => None,
        }
    }

    /// The ratio as a fraction (see `ratio_fraction`).
    pub fn ratio_parts(&self) -> (r: Option<(u64, u64)>)
        ensures
            r matches Some(v) ==> self.ratio_fraction() == Some((v.0 as nat, v.1 as nat)),
            r is None ==> self.ratio_fraction() is None,
    {
        match self {
            AspectRatio::Square1x1 => Some((1, 1)),
            AspectRatio::Landscape4x3 => Some((13_333_333_333, 10_000_000_000)),
            AspectRatio::Landscape16x9 => Some((17_777_777_778, 10_000_000_000)),
            AspectRatio::Landscape21x9 => Some((23_333_333_333, 10_000_000_000)),
            AspectRatio::Portrait9x16 => Some((5_625, 10_000)),
            AspectRatio::Custom(r) => Some((*r, 100)),
            AspectRatio::Unbounded => None,
            AspectRatio::Undetermined => None,
        }
    }

    /// The height of a frame `width` pixels wide of this shape, computed in doubles: `width`
    /// over the ratio's double, rounded to the nearest double and then to the nearest integer
    /// with halves up; `u32::MAX` when that does not fit or the ratio is zero, and zero for a
    /// zero width, for a ratio that is unbounded or undetermined, and for a ratio of at least
    /// `2^52`, which leaves less than a millionth of a pixel.
    pub open spec fn height_for(self, width: nat) -> nat {
        if width == 0 {
            0
        } else {
            match self.ratio_fraction() {
                None => 0,
                Some(f) => if f.0 == 0 {
                    u32::MAX as nat
                } else if f.0 >= significand_floor() * f.1 {
                    0
                } else {
                    let r = nearest_double(f.0, f.1);
                    let q = nearest_double(width * r.1, r.0);
                    let h = round_div(q.0 as int, q.1 as int);
                    if h > u32::MAX { u32::MAX as nat } else { h as nat }
                },
            }
        }
    }

    /// The height of a frame `width` pixels wide of this shape (see `height_for`).
    pub fn frame_height(&self, width: u32) -> (h: u32)
        ensures
            h == self.height_for(width as nat),
    {
        if width == 0 {
            return 0;
        }
        let (num, den) = match self.ratio_parts() {
            None => {
                return 0;
            },
            Some(f) => f,
        };
        if num == 0 {
            return u32::MAX;
        }
        assert(den <= 100 * num && den >= 1);
        if num as u128 >= 4_503_599_627_370_496 * den as u128 {
            return 0;
        }
        let (rm, rs) = nearest_double_below_floor(num as u128, den as u128);
        proof {
            let (w, n, d) = (width as int, num as int, den as int);
            assert(n * rs < 2 * significand_floor() * d);
            assert(rs * n < 2 * significand_floor() * d) by (nonlinear_arith)
                requires n * rs < 2 * significand_floor() * d;
            assert(w * rs * n <= w * (2 * significand_floor() * d)) by (nonlinear_arith)
                requires rs * n < 2 * significand_floor() * d, w >= 0;
            assert(w * (2 * significand_floor() * d) <= w * (200 * significand_floor() * n)) by (nonlinear_arith)
                requires d <= 100 * n, w >= 0, significand_floor() >= 0;
            assert(w * 200 * significand_floor() <= 0xff_ffff_ffff * rm) by (nonlinear_arith)
                requires w <= 0xffff_ffff, rm >= significand_floor(), significand_floor() >= 0;
            assert(w * rs * n <= 0xff_ffff_ffff * rm * n) by (nonlinear_arith)
                requires w * rs * n <= w * (200 * significand_floor() * n), w * 200 * significand_floor() <= 0xff_ffff_ffff * rm, n >= 0;
            assert(w * rs <= 0xff_ffff_ffff * rm) by (nonlinear_arith)
                requires w * rs * n <= 0xff_ffff_ffff * rm * n, n >= 1;
        }
        let q = quotient_side(width as u128, rm, rs, 0xff_ffff_ffff);
        if q > u32::MAX as u128 { u32::MAX } else { q as u32 }
    }

    /// The text that names the shape, such as `16:9` or, for a custom ratio, `1.5:1`.
    pub open spec fn label_text(self) -> Seq<char> {
        match self {
            AspectRatio::Square1x1 => seq!['1', ':', '1'],
            AspectRatio::Landscape4x3 => seq!['4', ':', '3'],
            AspectRatio::Landscape16x9 => seq!['1', '6', ':', '9'],
            AspectRatio::Landscape21x9 => seq!['2', '1', ':', '9'],
            AspectRatio::Portrait9x16 => seq!['9', ':', '1', '6'],
            AspectRatio::Custom(r) => fixed_point_text(r as nat, 2) + seq![':', '1'],
            AspectRatio::Unbounded => seq!['i', 'n', 'f', ':', '1'],
            AspectRatio::Undetermined => seq!['N', 'a', 'N', ':', '1'],
        }
    }

    /// The name of the shape as shown to the user.
    pub fn label(&self) -> (s: String)
        ensures
            s@ == self.label_text(),
    {
        let mut out: Vec<char> = Vec::new();
        match self {
            AspectRatio::Square1x1 => {
                out.push('1');
                out.push(':');
                out.push('1');
            },
            AspectRatio::Landscape4x3 => {
                out.push('4');
                out.push(':');
                out.push('3');
            },
            AspectRatio::Landscape16x9 => {
                out.push('1');
                out.push('6');
                out.push(':');
                out.push('9');
            },
            AspectRatio::Landscape21x9 => {
                out.push('2');
                out.push('1');
                out.push(':');
                out.push('9');
            },
            AspectRatio::Portrait9x16 => {
                out.push('9');
                out.push(':');
                out.push('1');
                out.push('6');
            },
            AspectRatio::Custom(ratio) => {
                push_fixed_point(&mut out, *ratio, 2);
                out.push(':');
                out.push('1');
            },
            AspectRatio::Unbounded => {
                out.push('i');
                out.push('n');
                out.push('f');
                out.push(':');
                out.push('1');
            },
            AspectRatio::Undetermined => {
                out.push('N');
                out.push('a');
                out.push('N');
                out.push(':');
                out.push('1');
            },
        }
        assert(out@ == self.label_text());
        string_from_chars(&out)
    }
}

} // verus!
