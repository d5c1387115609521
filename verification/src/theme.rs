//! The colour theme: the default colours, the sixteen ANSI colours, and the
//! xterm colour cube and grey ramp for the other indexed colours.
use vstd::prelude::*;

use crate::grid::Color;

verus! {

#[derive(Debug, Clone, Copy, PartialEq, Eq)]
pub struct Theme {
    pub foreground: [u8; 3],
    pub background: [u8; 3],
    pub cursor: [u8; 3],
    pub ansi: [[u8; 3]; 16],
}

/// The sixteen ANSI colours of the default theme.
pub open spec fn default_ansi() -> Seq<Seq<u8>> {
    seq![
        seq![12u8, 12, 12],
        seq![197u8, 15, 31],
        seq![19u8, 161, 14],
        seq![193u8, 156, 0],
        seq![0u8, 55, 218],
        seq![136u8, 23, 152],
        seq![58u8, 150, 221],
        seq![204u8, 204, 204],
        seq![118u8, 118, 118],
        seq![231u8, 72, 86],
        seq![22u8, 198, 12],
        seq![249u8, 241, 165],
        seq![59u8, 120, 255],
        seq![180u8, 0, 158],
        seq![97u8, 214, 214],
        seq![242u8, 242, 242],
    ]
}

impl Default for Theme {
    fn default() -> (r: Self)
        ensures
            r.foreground@ == seq![220u8, 224, 232],
            r.background@ == seq![16u8, 18, 24],
            r.cursor@ == seq![245u8, 224, 220],
            forall|i: int| 0 <= i < 16 ==> #[trigger] r.ansi@[i]@ == default_ansi()[i],
    {
        let r = Theme {
            foreground: [220, 224, 232],
            background: [16, 18, 24],
            cursor: [245, 224, 220],
            ansi: [
                [12, 12, 12],
                [197, 15, 31],
                [19, 161, 14],
                [193, 156, 0],
                [0, 55, 218],
                [136, 23, 152],
                [58, 150, 221],
                [204, 204, 204],
                [118, 118, 118],
                [231, 72, 86],
                [22, 198, 12],
                [249, 241, 165],
                [59, 120, 255],
                [180, 0, 158],
                [97, 214, 214],
                [242, 242, 242],
            ],
        };
        assert(r.foreground@ =~= seq![220u8, 224, 232]);
        assert(r.background@ =~= seq![16u8, 18, 24]);
        assert(r.cursor@ =~= seq![245u8, 224, 220]);
        assert forall|i: int| 0 <= i < 16 implies #[trigger] r.ansi@[i]@ == default_ansi()[i] by {
            assert(r.ansi@[i]@ =~= default_ansi()[i]);
        }
        r
    }
}

/// One channel of the 6x6x6 colour cube: 0, then 95 to 255 in steps of 40.
pub open spec fn cube_channel(value: int) -> int {
    if value == 0 {
        0
    } else {
        55 + value * 40
    }
}

/// The colour of palette entry `index`: the theme's ANSI colours for 0 to
/// 15, the colour cube for 16 to 231, the grey ramp for 232 to 255.
pub open spec fn indexed_rgb(theme: Theme, index: u8) -> Seq<u8> {
    if index < 16 {
        theme.ansi@[index as int]@
    } else if index < 232 {
        let c = index - 16;
        seq![cube_channel(c / 36) as u8, cube_channel((c / 6) % 6) as u8, cube_channel(c % 6) as u8]
    } else {
        let level = (8 + (index - 232) * 10) as u8;
        seq![level, level, level]
    }
}

/// The colour a cell colour shows in.
pub open spec fn color_rgb(theme: Theme, color: Color) -> Seq<u8> {
    match color {
        Color::DefaultForeground => theme.foreground@,
        Color::DefaultBackground => theme.background@,
        Color::Indexed(index) => indexed_rgb(theme, index),
        Color::Rgb(r, g, b) => seq![r, g, b],
    }
}

impl Theme {
    pub fn color(self, color: Color) -> (r: [u8; 3])
        ensures
            r@ == color_rgb(self, color),
    {
        match color {
            Color::DefaultForeground => self.foreground,
            Color::DefaultBackground => self.background,
            Color::Indexed(index) => self.indexed_color(index),
            Color::Rgb(r, g, b) => {
                let out = [r, g, b];
                assert(out@ =~= seq![r, g, b]);
                out
            },
        }
    }

    pub fn indexed_color(self, index: u8) -> (r: [u8; 3])
        ensures
            r@ == indexed_rgb(self, index),
    {
        if index < 16 {
            return self.ansi[index as usize];
        }
        if index < 232 {
            let cube_index = index - 16;
            let out = [
                color_cube_channel(cube_index / 36),
                color_cube_channel((cube_index / 6) % 6),
                color_cube_channel(cube_index % 6),
            ];
            assert(out@ =~= indexed_rgb(self, index));
            return out;
        }
        let level = 8 + (index - 232) * 10;
        let out = [level, level, level];
        assert(out@ =~= indexed_rgb(self, index));
        out
    }
}

/// One channel of the colour cube, for a cube coordinate of 0 to 5.
pub fn color_cube_channel(value: u8) -> (r: u8)
    requires
        value <= 5,
    ensures
        r == cube_channel(value as int),
{
    if value == 0 {
        0
    } else {
        55 + value * 40
    }
}

} // verus!
