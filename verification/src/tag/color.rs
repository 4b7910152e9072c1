//! Hotcue and track color helpers.
//!
//! Hotcue colors stored in the metadata use the palette of the legacy Serato
//! DJ Intro; Serato DJ Pro and Lite map them to their own palette on screen.
//! Track colors are stored as the color-picker value, which differs from the
//! color shown in the library column.

use vstd::prelude::*;

verus! {

/// A 3-byte RGB color value.
#[derive(Debug, Clone, Copy, PartialEq, Eq, Structural)]
pub struct Color {
    pub red: u8,
    pub green: u8,
    pub blue: u8,
}

/// The 24-bit code `red << 16 | green << 8 | blue` of a color.
pub open spec fn color_code(c: Color) -> int {
    (c.red as int) * 0x10000 + (c.green as int) * 0x100 + (c.blue as int)
}

/// The color whose 24-bit code is `code` (higher bits are dropped).
pub open spec fn spec_color_from_code(code: int) -> Color {
    Color {
        red: ((code / 0x10000) % 0x100) as u8,
        green: ((code / 0x100) % 0x100) as u8,
        blue: (code % 0x100) as u8,
    }
}

/// Maps a stored (Serato DJ Intro palette) hotcue color code to the
/// corresponding Serato DJ Pro palette code; codes outside the palette map to
/// themselves.
pub open spec fn pro_hotcue_code(code: int) -> int {
    if code == 0xCC0000 {
        0xC02626
    } else if code == 0xCC4400 {
        0xDB4E27
    } else if code == 0xCC8800 {
        0xF8821A
    } else if code == 0xCCCC00 {
        0xFAC313
    } else if code == 0x88CC00 {
        0x4EB648
    } else if code == 0x44CC00 {
        0x006838
    } else if code == 0x00CC00 {
        0x1FAD26
    } else if code == 0x00CC44 {
        0x8DC63F
    } else if code == 0x00CC88 {
        0x2B3673
    } else if code == 0x00CCCC {
        0x1DBEBD
    } else if code == 0x0088CC {
        0x0F88CA
    } else if code == 0x0044CC {
        0x16308B
    } else if code == 0x0000CC {
        0x173BA2
    } else if code == 0x4400CC {
        0x5C3F97
    } else if code == 0x8800CC {
        0x6823B6
    } else if code == 0xCC00CC {
        0xCE359E
    } else if code == 0xCC0088 {
        0xDC1D49
    } else if code == 0xCC0044 {
        0xC71136
    } else {
        code
    }
}

/// Maps a Serato DJ Pro palette hotcue color code back to the stored (Serato
/// DJ Intro palette) code; codes outside the palette map to themselves.
pub open spec fn intro_hotcue_code(code: int) -> int {
    if code == 0xC02626 {
        0xCC0000
    } else if code == 0xDB4E27 {
        0xCC4400
    } else if code == 0xF8821A {
        0xCC8800
    } else if code == 0xFAC313 {
        0xCCCC00
    } else if code == 0x4EB648 {
        0x88CC00
    } else if code == 0x006838 {
        0x44CC00
    } else if code == 0x1FAD26 {
        0x00CC00
    } else if code == 0x8DC63F {
        0x00CC44
    } else if code == 0x2B3673 {
        0x00CC88
    } else if code == 0x1DBEBD {
        0x00CCCC
    } else if code == 0x0F88CA {
        0x0088CC
    } else if code == 0x16308B {
        0x0044CC
    } else if code == 0x173BA2 {
        0x0000CC
    } else if code == 0x5C3F97 {
        0x4400CC
    } else if code == 0x6823B6 {
        0x8800CC
    } else if code == 0xCE359E {
        0xCC00CC
    } else if code == 0xDC1D49 {
        0xCC0088
    } else if code == 0xC71136 {
        0xCC0044
    } else {
        code
    }
}

/// Maps a displayed track color code to the stored code.
pub open spec fn displayed_to_stored_code(code: int) -> int {
    if code == 0x090909 {
        0x999999
    } else if code == 0x333333 {
        0x000000
    } else if code == 0x999999 {
        0x999998
    } else if code == 0x99999A {
        0x99999B
    } else if code < 0x99999A {
        code + 0x666666
    } else {
        code - 0x99999A
    }
}

/// Maps a stored track color code to the displayed code.
pub open spec fn stored_to_displayed_code(code: int) -> int {
    if code == 0x999999 {
        0x090909
    } else if code == 0x000000 {
        0x333333
    } else if code < 0x666666 {
        code + 0x99999A
    } else {
        code - 0x666666
    }
}

/// Maps a displayed track color code to the stored code.
pub fn displayed_to_stored_track_color_code(code: u32) -> (r: u32)
    requires
        code <= 0xFFFFFF,
    ensures
        r == displayed_to_stored_code(code as int),
        r <= 0xFFFFFF,
{
    if code == 0x090909 {
        0x999999
    } else if code == 0x333333 {
        0x000000
    } else if code == 0x999999 {
        0x999998
    } else if code == 0x99999A {
        0x99999B
    } else if code < 0x99999A {
        code + 0x666666
    } else {
        code - 0x99999A
    }
}

/// Maps a stored track color code to the displayed code.
pub fn stored_to_displayed_track_color_code(code: u32) -> (r: u32)
    requires
        code <= 0xFFFFFF,
    ensures
        r == stored_to_displayed_code(code as int),
        r <= 0xFFFFFF,
{
    if code == 0x999999 {
        0x090909
    } else if code == 0x000000 {
        0x333333
    } else if code < 0x666666 {
        code + 0x99999A
    } else {
        code - 0x666666
    }
}

impl Color {
    /// The 24-bit code of this color.
    pub fn to_code(self) -> (code: u32)
        ensures
            code == color_code(self),
            code <= 0xFFFFFF,
    {
        (self.red as u32) * 0x10000 + (self.green as u32) * 0x100 + (self.blue as u32)
    }

    /// The color with the given 24-bit code (higher bits are dropped).
    pub fn from_code(code: u32) -> (c: Color)
        ensures
            c == spec_color_from_code(code as int),
    {
        Color {
            red: ((code / 0x10000) % 0x100) as u8,
            green: ((code / 0x100) % 0x100) as u8,
            blue: (code % 0x100) as u8,
        }
    }

    /// Returns the corresponding Serato DJ Pro hotcue color for this color;
    /// colors outside the stored (Serato DJ Intro) palette are returned
    /// unchanged.
    pub fn into_pro_hotcue_color(self) -> (r: Color)
        ensures
            color_code(r) == pro_hotcue_code(color_code(self)),
    {
        let code = self.to_code();
        let mapped = if code == 0xCC0000 {
            0xC02626
        } else if code == 0xCC4400 {
            0xDB4E27
        } else if code == 0xCC8800 {
            0xF8821A
        } else if code == 0xCCCC00 {
            0xFAC313
        } else if code == 0x88CC00 {
            0x4EB648
        } else if code == 0x44CC00 {
            0x006838
        } else if code == 0x00CC00 {
            0x1FAD26
        } else if code == 0x00CC44 {
            0x8DC63F
        } else if code == 0x00CC88 {
            0x2B3673
        } else if code == 0x00CCCC {
            0x1DBEBD
        } else if code == 0x0088CC {
            0x0F88CA
        } else if code == 0x0044CC {
            0x16308B
        } else if code == 0x0000CC {
            0x173BA2
        } else if code == 0x4400CC {
            0x5C3F97
        } else if code == 0x8800CC {
            0x6823B6
        } else if code == 0xCC00CC {
            0xCE359E
        } else if code == 0xCC0088 {
            0xDC1D49
        } else if code == 0xCC0044 {
            0xC71136
        } else {
            code
        };
        let r = Color::from_code(mapped);
        proof {
            lemma_code_roundtrip(mapped as int);
        }
        r
    }

    /// Returns the corresponding stored (Serato DJ Intro) hotcue color for
    /// this color; colors outside the Serato DJ Pro palette are returned
    /// unchanged.
    pub fn into_intro_hotcue_color(self) -> (r: Color)
        ensures
            color_code(r) == intro_hotcue_code(color_code(self)),
    {
        let code = self.to_code();
        let mapped = if code == 0xC02626 {
            0xCC0000
        } else if code == 0xDB4E27 {
            0xCC4400
        } else if code == 0xF8821A {
            0xCC8800
        } else if code == 0xFAC313 {
            0xCCCC00
        } else if code == 0x4EB648 {
            0x88CC00
        } else if code == 0x006838 {
            0x44CC00
        } else if code == 0x1FAD26 {
            0x00CC00
        } else if code == 0x8DC63F {
            0x00CC44
        } else if code == 0x2B3673 {
            0x00CC88
        } else if code == 0x1DBEBD {
            0x00CCCC
        } else if code == 0x0F88CA {
            0x0088CC
        } else if code == 0x16308B {
            0x0044CC
        } else if code == 0x173BA2 {
            0x0000CC
        } else if code == 0x5C3F97 {
            0x4400CC
        } else if code == 0x6823B6 {
            0x8800CC
        } else if code == 0xCE359E {
            0xCC00CC
        } else if code == 0xDC1D49 {
            0xCC0088
        } else if code == 0xC71136 {
            0xCC0044
        } else {
            code
        };
        let r = Color::from_code(mapped);
        proof {
            lemma_code_roundtrip(mapped as int);
        }
        r
    }

    /// Returns the displayed track color for this stored track color; the
    /// stored white `#FFFFFF` means "no color set" and yields `None`.
    pub fn into_displayed_track_color(self) -> (r: Option<Color>)
        ensures
            match r {
                Some(c) => color_code(self) != 0xFFFFFF && color_code(c) == stored_to_displayed_code(
                    color_code(self),
                ),
                None => color_code(self) == 0xFFFFFF,
            },
    {
        if self.red == 0xFF && self.green == 0xFF && self.blue == 0xFF {
            None
        } else {
            let code = stored_to_displayed_track_color_code(self.to_code());
            let r = Color::from_code(code);
            proof {
                lemma_code_roundtrip(code as int);
            }
            Some(r)
        }
    }

    /// Returns the stored track color for a displayed track color; `None`
    /// (no color set) is stored as white `#FFFFFF`.
    pub fn from_displayed_track_color(color: Option<Color>) -> (r: Color)
        ensures
            match color {
                Some(c) => color_code(r) == displayed_to_stored_code(color_code(c)),
                None => r == (Color { red: 0xFF, green: 0xFF, blue: 0xFF }),
            },
    {
        match color {
            Some(c) => {
                let code = displayed_to_stored_track_color_code(c.to_code());
                let r = Color::from_code(code);
                proof {
                    lemma_code_roundtrip(code as int);
                }
                r
            },
            None => Color { red: 0xFF, green: 0xFF, blue: 0xFF },
        }
    }
}

/// For codes that fit in 24 bits, `spec_color_from_code` inverts
/// `color_code`.
pub proof fn lemma_code_roundtrip(code: int)
    requires
        0 <= code <= 0xFFFFFF,
    ensures
        color_code(spec_color_from_code(code)) == code,
{
    assert(color_code(spec_color_from_code(code)) == code) by (nonlinear_arith)
        requires
            0 <= code <= 0xFFFFFF,
    ;
}

} // verus!
