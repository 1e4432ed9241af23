//! The finished palette: sixteen ANSI slots, and the extended variant
//! that additionally carries seven named semantic colors.

use vstd::prelude::*;
use crate::color::Rgb;

verus! {

/// A 16-slot terminal palette. Slot 0 is the background, 1 through 6 the
/// ANSI red/green/yellow/blue/magenta/cyan accents, 7 the foreground,
/// 8 bright-black, 9 through 14 the bright accents, 15 bright-white.
#[derive(Clone, Copy, Debug, PartialEq)]
pub struct Palette {
    pub colors: [Rgb; 16],
}

impl View for Palette {
    type V = Seq<Rgb>;

    open spec fn view(&self) -> Seq<Rgb> {
        self.colors@
    }
}

/// The built-in palette used when no samples are available.
pub open spec fn spec_default_palette() -> Seq<Rgb> {
    seq![
        Rgb { r: 0x1a, g: 0x1b, b: 0x26 },
        Rgb { r: 0xf7, g: 0x76, b: 0x8e },
        Rgb { r: 0x9e, g: 0xce, b: 0x6a },
        Rgb { r: 0xe0, g: 0xaf, b: 0x68 },
        Rgb { r: 0x7a, g: 0xa2, b: 0xf7 },
        Rgb { r: 0xbb, g: 0x9a, b: 0xf7 },
        Rgb { r: 0x7d, g: 0xcf, b: 0xff },
        Rgb { r: 0xa9, g: 0xb1, b: 0xd6 },
        Rgb { r: 0x41, g: 0x48, b: 0x68 },
        Rgb { r: 0xf7, g: 0x76, b: 0x8e },
        Rgb { r: 0x9e, g: 0xce, b: 0x6a },
        Rgb { r: 0xe0, g: 0xaf, b: 0x68 },
        Rgb { r: 0x7a, g: 0xa2, b: 0xf7 },
        Rgb { r: 0xbb, g: 0x9a, b: 0xf7 },
        Rgb { r: 0x7d, g: 0xcf, b: 0xff },
        Rgb { r: 0xc0, g: 0xca, b: 0xf5 },
    ]
}

impl Palette {
    /// Wraps sixteen slots as a palette.
    pub fn new(colors: [Rgb; 16]) -> (p: Palette)
        ensures
            p.colors == colors,
            p@ == colors@,
    {
        Palette { colors }
    }

    /// The background slot.
    pub fn background(&self) -> (c: Rgb)
        ensures
            c == self@[0],
    {
        self.colors[0]
    }

    /// The foreground slot.
    pub fn foreground(&self) -> (c: Rgb)
        ensures
            c == self@[15],
    {
        self.colors[15]
    }
}

impl Default for Palette {
    /// The built-in palette used when no samples are available.
    fn default() -> (p: Palette)
        ensures
            p@ == spec_default_palette(),
    {
        let colors: [Rgb; 16] = [
            Rgb::new(0x1a, 0x1b, 0x26),
            Rgb::new(0xf7, 0x76, 0x8e),
            Rgb::new(0x9e, 0xce, 0x6a),
            Rgb::new(0xe0, 0xaf, 0x68),
            Rgb::new(0x7a, 0xa2, 0xf7),
            Rgb::new(0xbb, 0x9a, 0xf7),
            Rgb::new(0x7d, 0xcf, 0xff),
            Rgb::new(0xa9, 0xb1, 0xd6),
            Rgb::new(0x41, 0x48, 0x68),
            Rgb::new(0xf7, 0x76, 0x8e),
            Rgb::new(0x9e, 0xce, 0x6a),
            Rgb::new(0xe0, 0xaf, 0x68),
            Rgb::new(0x7a, 0xa2, 0xf7),
            Rgb::new(0xbb, 0x9a, 0xf7),
            Rgb::new(0x7d, 0xcf, 0xff),
            Rgb::new(0xc0, 0xca, 0xf5),
        ];
        proof {
            assert(colors@ =~= spec_default_palette());
        }
        Palette { colors }
    }
}

/// A palette together with the seven named semantic colors of the
/// extended variant. The semantic colors are independent values, not
/// aliases into the sixteen slots.
#[derive(Clone, Copy, Debug, PartialEq)]
pub struct ExtendedPalette {
    pub palette: Palette,
    pub accent: Rgb,
    pub accent_dim: Rgb,
    pub accent_bright: Rgb,
    pub secondary: Rgb,
    pub surface: Rgb,
    pub on_accent: Rgb,
    pub on_surface: Rgb,
}

} // verus!
