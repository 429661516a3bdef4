//! The plain value types the filter works on: pixels, sector colors,
//! the shape mode and the error of the configuration guard.

use vstd::prelude::*;
use vstd::string::StrSliceExecFns;

verus! {

/// One input pixel: an RGB triple of 8-bit channel values.
#[derive(Clone, Copy, PartialEq, Eq, Structural, Debug)]
pub struct Rgb {
    pub r: u8,
    pub g: u8,
    pub b: u8,
}

/// One output pixel: an RGBA quadruple of 8-bit channel values.
#[derive(Clone, Copy, PartialEq, Eq, Structural, Debug)]
pub struct Rgba {
    pub r: u8,
    pub g: u8,
    pub b: u8,
    pub a: u8,
}

/// The truncated per-channel mean color of one sector.
#[derive(Clone, Copy, PartialEq, Eq, Structural, Debug)]
pub struct SectorColor {
    pub r: u8,
    pub g: u8,
    pub b: u8,
}

/// The kind of shape each sector is rendered as.
#[derive(Clone, Copy, PartialEq, Eq, Structural, Debug)]
pub enum Mode {
    /// Fill the whole sector with its mean color.
    Quad,
    /// Fill only the circle inscribed in the sector; the rest of the
    /// sector is the transparent background.
    Circle,
}

/// The one error the filter itself raises: the sector size is zero, or
/// larger than one of the image's dimensions, so that no full sector fits.
#[derive(Clone, Copy, PartialEq, Eq, Structural, Debug)]
pub enum MosaicError {
    InvalidConfiguration,
}

/// The names that select `Mode::Quad`.
pub open spec fn is_quad_name(s: Seq<char>) -> bool {
    s == "Quad"@ || s == "quad"@
}

/// The names that select `Mode::Circle`.
pub open spec fn is_circle_name(s: Seq<char>) -> bool {
    s == "Circle"@ || s == "circle"@
}

impl Mode {
    /// Parses a shape-mode name. Exactly `Quad`/`quad` and
    /// `Circle`/`circle` are recognized.
    pub fn from_str(s: &str) -> (r: Option<Mode>)
        ensures
            r == if is_quad_name(s@) {
                Some(Mode::Quad)
            } else if is_circle_name(s@) {
                Some(Mode::Circle)
            } else {
                None::<Mode>
            },
    {
        proof {
            reveal_strlit("Quad");
            reveal_strlit("quad");
            reveal_strlit("Circle");
            reveal_strlit("circle");
        }
        let n = s.unicode_len();
        if n == 4 {
            let c0 = s.get_char(0);
            let c1 = s.get_char(1);
            let c2 = s.get_char(2);
            let c3 = s.get_char(3);
            if (c0 == 'Q' || c0 == 'q') && c1 == 'u' && c2 == 'a' && c3 == 'd' {
                proof {
                    if c0 == 'Q' {
                        assert(s@ =~= "Quad"@);
                    } else {
                        assert(s@ =~= "quad"@);
                    }
                }
                Some(Mode::Quad)
            } else {
                assert(!is_quad_name(s@) && !is_circle_name(s@));
                None
            }
        } else if n == 6 {
            let c0 = s.get_char(0);
            let c1 = s.get_char(1);
            let c2 = s.get_char(2);
            let c3 = s.get_char(3);
            let c4 = s.get_char(4);
            let c5 = s.get_char(5);
            if (c0 == 'C' || c0 == 'c') && c1 == 'i' && c2 == 'r' && c3 == 'c' && c4 == 'l'
                && c5 == 'e' {
                proof {
                    if c0 == 'C' {
                        assert(s@ =~= "Circle"@);
                    } else {
                        assert(s@ =~= "circle"@);
                    }
                }
                Some(Mode::Circle)
            } else {
                assert(!is_quad_name(s@) && !is_circle_name(s@));
                None
            }
        } else {
            assert(!is_quad_name(s@) && !is_circle_name(s@));
            None
        }
    }
}

} // verus!
