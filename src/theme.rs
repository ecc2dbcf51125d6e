use vstd::prelude::*;

verus! {

/// A color by its red, green and blue components.
#[derive(Debug, Default, Clone, Copy, PartialEq, Eq, Structural)]
pub struct Color(pub u8, pub u8, pub u8);

impl Color {
    /// The color as `0xRRGGBB`.
    pub fn into_u32(self) -> (r: u32)
        ensures
            r == self.0 as int * 65536 + self.1 as int * 256 + self.2 as int,
    {
        let r = self.0 as u32;
        let g = self.1 as u32;
        let b = self.2 as u32;
        proof {
            assert(r << 16u32 == r * 65536) by (bit_vector)
                requires
                    r < 256,
            ;
            assert(g << 8u32 == g * 256) by (bit_vector)
                requires
                    g < 256,
            ;
            assert((r << 16u32 | g << 8u32 | b) == (r << 16u32) + (g << 8u32) + b) by (bit_vector)
                requires
                    r < 256,
                    g < 256,
                    b < 256,
            ;
        }
        r << 16 | g << 8 | b
    }

    /// The color of `0xRRGGBB`; higher bits are ignored.
    pub fn from_u32(hex: u32) -> (r: Color)
        ensures
            r.0 == (hex / 65536) % 256,
            r.1 == (hex / 256) % 256,
            r.2 == hex % 256,
    {
        proof {
            assert((hex >> 16u32) & 0xffu32 == (hex / 65536) % 256) by (bit_vector);
            assert((hex >> 8u32) & 0xffu32 == (hex / 256) % 256) by (bit_vector);
            assert(hex & 0xffu32 == hex % 256) by (bit_vector);
        }
        Color(((hex >> 16) & 0xff) as u8, ((hex >> 8) & 0xff) as u8, (hex & 0xff) as u8)
    }
}

pub struct Theme {
    pub normal_background: Color,
    pub active_background: Color,
    pub breakpoint_background: Color,
    pub highlight: Color,
    pub normal_cursor: Color,
    pub select_cursor: Color,
    pub insert_cursor: Color,
    pub inactive_cursor: Color,
    pub statusbar_active_background: Color,
    pub statusbar_inactive_background: Color,
    pub token_whitespace: Color,
    pub token_text: Color,
    pub token_comment: Color,
    pub token_keyword: Color,
    pub token_type: Color,
    pub token_symbol: Color,
    pub token_string: Color,
    pub token_literal: Color,
}

pub open spec fn hex_color(hex: u32) -> Color {
    Color(((hex / 65536) % 256) as u8, ((hex / 256) % 256) as u8, (hex % 256) as u8)
}

/// The default theme.
pub fn gruvbox_theme() -> (r: Theme)
    ensures
        r.normal_background == hex_color(0x1d2021),
        r.active_background == hex_color(0x282828),
        r.breakpoint_background == hex_color(0x3d2021),
        r.highlight == hex_color(0xfabd2f),
        r.normal_cursor == hex_color(0xcc241d),
        r.insert_cursor == hex_color(0xfabd2f),
        r.select_cursor == hex_color(0x458588),
        r.inactive_cursor == hex_color(0x504945),
        r.statusbar_active_background == hex_color(0x504945),
        r.statusbar_inactive_background == hex_color(0x282828),
        r.token_whitespace == hex_color(0x504945),
        r.token_text == hex_color(0xebdbb2),
        r.token_comment == hex_color(0x7c6f64),
        r.token_keyword == hex_color(0xfe8019),
        r.token_type == hex_color(0x8ec07c),
        r.token_symbol == hex_color(0xa89984),
        r.token_string == hex_color(0xb8bb26),
        r.token_literal == hex_color(0xd3869b),
{
    Theme {
        normal_background: Color::from_u32(0x1d2021),
        active_background: Color::from_u32(0x282828),
        breakpoint_background: Color::from_u32(0x3d2021),
        highlight: Color::from_u32(0xfabd2f),
        normal_cursor: Color::from_u32(0xcc241d),
        insert_cursor: Color::from_u32(0xfabd2f),
        select_cursor: Color::from_u32(0x458588),
        inactive_cursor: Color::from_u32(0x504945),
        statusbar_active_background: Color::from_u32(0x504945),
        statusbar_inactive_background: Color::from_u32(0x282828),
        token_whitespace: Color::from_u32(0x504945),
        token_text: Color::from_u32(0xebdbb2),
        token_comment: Color::from_u32(0x7c6f64),
        token_keyword: Color::from_u32(0xfe8019),
        token_type: Color::from_u32(0x8ec07c),
        token_symbol: Color::from_u32(0xa89984),
        token_string: Color::from_u32(0xb8bb26),
        token_literal: Color::from_u32(0xd3869b),
    }
}

impl Default for Theme {
    fn default() -> (r: Theme)
        ensures
            r.normal_background == hex_color(0x1d2021),
            r.token_text == hex_color(0xebdbb2),
    {
        gruvbox_theme()
    }
}

} // verus!
