//! Rendered colours: 8-bit sRGB triples, terminal colour values, the theme
//! palette the chrome reads, and the styles painted onto sidebar rows and tabs.
use vstd::prelude::*;

verus! {

/// A rendered sRGB colour, 8 bits per channel.
#[derive(Clone, Copy, Debug, PartialEq, Eq, Hash)]
pub struct Rgb(pub [u8; 3]);

/// A terminal colour, as a cell's foreground or background holds it.
#[derive(Clone, Copy, Debug, PartialEq, Eq, Structural)]
pub enum Colour {
    Reset,
    Black,
    Red,
    Green,
    Yellow,
    Blue,
    Magenta,
    Cyan,
    Gray,
    DarkGray,
    LightRed,
    LightGreen,
    LightYellow,
    LightBlue,
    LightMagenta,
    LightCyan,
    White,
    Rgb(u8, u8, u8),
    Indexed(u8),
}

/// The terminal colour of an sRGB triple.
pub open spec fn rgb_colour(c: Rgb) -> Colour {
    Colour::Rgb(c.0[0], c.0[1], c.0[2])
}

/// The packed form a frame cell holds for an RGB colour: tag 2 in the top byte,
/// then red, green and blue; 0 is the terminal's default colour.
pub open spec fn packed_rgb(c: Rgb) -> u32 {
    (0x0200_0000 + c.0[0] as int * 0x1_0000 + c.0[1] as int * 0x100 + c.0[2] as int) as u32
}

impl Rgb {
    /// The packed frame colour of this triple.
    pub fn packed(self) -> (p: u32)
        ensures
            p == packed_rgb(self),
    {
        0x0200_0000u32 + (self.0[0] as u32) * 0x1_0000 + (self.0[1] as u32) * 0x100 + self.0[2] as u32
    }

    /// The terminal colour that draws this triple.
    pub fn color(self) -> (c: Colour)
        ensures
            c == rgb_colour(self),
    {
        Colour::Rgb(self.0[0], self.0[1], self.0[2])
    }
}

/// The triple of a terminal colour given as RGB; other colours have none.
pub open spec fn colour_rgb(c: Colour) -> Option<Rgb> {
    match c {
        Colour::Rgb(r, g, b) => Some(Rgb([r, g, b])),
        _ => None,
    }
}

/// The triple of a terminal colour given as RGB.
pub fn as_rgb(c: Colour) -> (out: Option<Rgb>)
    ensures
        out == colour_rgb(c),
{
    match c {
        Colour::Rgb(r, g, b) => Some(Rgb([r, g, b])),
        _ => None,
    }
}

/// The colours of the active theme that the workspace chrome reads.
#[derive(Clone, Copy, Debug)]
pub struct Palette {
    pub text: Colour,
    pub accent: Colour,
    pub mauve: Colour,
    pub green: Colour,
    pub yellow: Colour,
    pub red: Colour,
    pub blue: Colour,
    pub teal: Colour,
    pub peach: Colour,
    pub overlay0: Colour,
    pub panel_bg: Colour,
    pub sidebar_bg: Colour,
    pub active_row_bg: Colour,
}

/// The colours of one family's sidebar row or tab.
#[derive(Clone, Copy, Debug, PartialEq, Eq)]
pub struct SidebarStyle {
    pub background: Rgb,
    pub selected: Rgb,
    pub title: Rgb,
    pub detail: Rgb,
}

/// One channel of the selected-row colour: nine parts active row, one part header.
pub open spec fn blend_channel(active: u8, header: u8) -> u8 {
    ((active as int * 9 + header as int) / 10) as u8
}

/// The selected-row colour for a family: the active row colour with a tenth of
/// the family's header colour mixed in, channel by channel, rounded down.
pub fn blend_selected(active: Rgb, header: Rgb) -> (out: Rgb)
    ensures
        forall|i: int| 0 <= i < 3 ==> out.0[i] == blend_channel(active.0[i], header.0[i]),
{
    let mut channels: [u8; 3] = [0u8; 3];
    let mut i: usize = 0;
    while i < 3
        invariant
            i <= 3,
            forall|j: int| 0 <= j < i ==> channels[j] == blend_channel(active.0[j], header.0[j]),
        decreases 3 - i,
    {
        let mixed: u16 = (active.0[i] as u16 * 9 + header.0[i] as u16) / 10;
        channels[i] = mixed as u8;
        i += 1;
    }
    Rgb(channels)
}

/// An sRGB triple draws as the RGB terminal colour with the same channels in
/// the same order, and reading a terminal colour back gives the triple exactly
/// when the colour is RGB.
pub proof fn lemma_rgb_round_trip(r: u8, g: u8, b: u8, c: Colour)
    ensures
        rgb_colour(Rgb([r, g, b])) == Colour::Rgb(r, g, b),
        colour_rgb(Colour::Rgb(r, g, b)) == Some(Rgb([r, g, b])),
        !(c is Rgb) ==> colour_rgb(c) is None,
        colour_rgb(c) matches Some(t) ==> rgb_colour(t) == c,
{
}

/// A selected-row channel is nine tenths of the active row's and one tenth of
/// the header's, rounded down: ten times it lies within ten of `9 * active + header`.
pub proof fn lemma_blend_is_nine_to_one(active: u8, header: u8)
    ensures
        10 * blend_channel(active, header) <= 9 * active + header < 10 * blend_channel(active, header) + 10,
        active == header ==> blend_channel(active, header) == active,
{
    let m = 9 * active as int + header as int;
    assert(0 <= m / 10 <= 255);
    assert(10 * (m / 10) <= m < 10 * (m / 10) + 10);
}

/// The sidebar colours for a theme: the sidebar background (else the panel
/// background, else `fallback`), the active row colour (else that
/// background), and the tab background (the panel background, else that background).
pub open spec fn sidebar_colours(palette: Palette, fallback: Rgb) -> (Rgb, Rgb, Rgb) {
    let background = match colour_rgb(palette.sidebar_bg) {
        Some(c) => c,
        None => match colour_rgb(palette.panel_bg) {
            Some(c) => c,
            None => fallback,
        },
    };
    let active = match colour_rgb(palette.active_row_bg) {
        Some(c) => c,
        None => background,
    };
    let tab_background = match colour_rgb(palette.panel_bg) {
        Some(c) => c,
        None => background,
    };
    (background, active, tab_background)
}

/// Where the sidebar colours come from: the theme's sidebar background wins,
/// the panel background stands in only when the theme gives no RGB sidebar
/// background, and the fallback only when it gives neither; the active row
/// colour is the theme's when it is RGB, else the background; the tab bar sits
/// on the panel background whenever it is RGB, whatever the sidebar background,
/// else on the background.
pub proof fn lemma_sidebar_colour_sources(palette: Palette, fallback: Rgb)
    ensures
        forall|r: u8, g: u8, b: u8| #![auto]
            palette.sidebar_bg == Colour::Rgb(r, g, b) ==> sidebar_colours(palette, fallback).0 == Rgb([r, g, b]),
        forall|r: u8, g: u8, b: u8| #![auto]
            !(palette.sidebar_bg is Rgb) && palette.panel_bg == Colour::Rgb(r, g, b) ==> sidebar_colours(
                palette,
                fallback,
            ).0 == Rgb([r, g, b]),
        !(palette.sidebar_bg is Rgb) && !(palette.panel_bg is Rgb) ==> sidebar_colours(palette, fallback).0
            == fallback,
        forall|r: u8, g: u8, b: u8| #![auto]
            palette.active_row_bg == Colour::Rgb(r, g, b) ==> sidebar_colours(palette, fallback).1 == Rgb([r, g, b]),
        !(palette.active_row_bg is Rgb) ==> sidebar_colours(palette, fallback).1 == sidebar_colours(
            palette,
            fallback,
        ).0,
        forall|r: u8, g: u8, b: u8| #![auto]
            palette.panel_bg == Colour::Rgb(r, g, b) ==> sidebar_colours(palette, fallback).2 == Rgb([r, g, b]),
        !(palette.panel_bg is Rgb) ==> sidebar_colours(palette, fallback).2 == sidebar_colours(palette, fallback).0,
{
}

/// The sidebar colours for a theme; `fallback` is the built-in sidebar colour
/// for the host's light or dark background.
pub fn sidebar_theme(palette: &Palette, fallback: Rgb) -> (out: (Rgb, Rgb, Rgb))
    ensures
        out == sidebar_colours(*palette, fallback),
{
    let background = match as_rgb(palette.sidebar_bg) {
        Some(c) => c,
        None => match as_rgb(palette.panel_bg) {
            Some(c) => c,
            None => fallback,
        },
    };
    let active = match as_rgb(palette.active_row_bg) {
        Some(c) => c,
        None => background,
    };
    let tab_background = match as_rgb(palette.panel_bg) {
        Some(c) => c,
        None => background,
    };
    (background, active, tab_background)
}

} // verus!
