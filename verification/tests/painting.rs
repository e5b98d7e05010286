use workspace_colours::colour::{blend_selected, sidebar_theme, Colour, Palette, Rgb, SidebarStyle};
use workspace_colours::paint::{
    paint_sidebar, paint_sidebar_row, paint_tab, semantic_cell, tint_default, Buffer, Cell, CellData, Rect, BOLD,
    DIM, ITALIC, UNDERLINED,
};

fn palette() -> Palette {
    Palette {
        text: Colour::Rgb(200, 200, 200),
        accent: Colour::Rgb(1, 2, 3),
        mauve: Colour::Rgb(150, 100, 200),
        green: Colour::Rgb(0, 200, 0),
        yellow: Colour::Rgb(200, 200, 0),
        red: Colour::Rgb(200, 0, 0),
        blue: Colour::Rgb(0, 0, 200),
        teal: Colour::Rgb(0, 150, 150),
        peach: Colour::Rgb(250, 180, 130),
        overlay0: Colour::Rgb(110, 110, 120),
        panel_bg: Colour::Rgb(30, 30, 46),
        sidebar_bg: Colour::Reset,
        active_row_bg: Colour::Rgb(49, 50, 68),
    }
}

fn style() -> SidebarStyle {
    SidebarStyle {
        background: Rgb([10, 10, 10]),
        selected: Rgb([20, 20, 20]),
        title: Rgb([200, 150, 100]),
        detail: Rgb([150, 120, 90]),
    }
}

fn cell(symbol: &str, fg: Colour, modifier: u16) -> Cell {
    Cell { symbol: symbol.into(), fg, bg: Colour::Reset, modifier, skip: false }
}

fn buffer(width: u16, height: u16) -> Buffer {
    Buffer {
        area: Rect { x: 0, y: 0, width, height },
        content: (0..width * height).map(|_| cell("x", Colour::Reset, UNDERLINED | DIM | ITALIC)).collect(),
    }
}

#[test]
fn rgb_draws_as_an_rgb_colour() {
    assert_eq!(Rgb([12, 34, 56]).color(), Colour::Rgb(12, 34, 56));
    assert_eq!(Rgb([0x11, 0x22, 0x33]).packed(), 0x02112233);
    assert_eq!(Rgb([0xff, 0x11, 0x22]).packed(), 0x02ff1122);
}

#[test]
fn selection_blends_a_tenth_of_the_header() {
    assert_eq!(blend_selected(Rgb([100, 0, 255]), Rgb([0, 255, 255])), Rgb([90, 25, 255]));
}

#[test]
fn sidebar_theme_falls_back_in_order() {
    let p = palette();
    assert_eq!(
        sidebar_theme(&p, Rgb([1, 1, 1])),
        (Rgb([30, 30, 46]), Rgb([49, 50, 68]), Rgb([30, 30, 46]))
    );
    let mut bare = p;
    bare.panel_bg = Colour::Black;
    bare.active_row_bg = Colour::Black;
    assert_eq!(sidebar_theme(&bare, Rgb([1, 1, 1])), (Rgb([1, 1, 1]), Rgb([1, 1, 1]), Rgb([1, 1, 1])));
}

#[test]
fn focused_tab_uses_bold_without_extra_decorations() {
    let p = palette();
    let mut b = buffer(4, 2);
    paint_tab(&mut b, Rect { x: 0, y: 0, width: 2, height: 1 }, style(), true, &p);
    paint_tab(&mut b, Rect { x: 2, y: 0, width: 2, height: 1 }, style(), false, &p);
    let (focused, other, untouched) = (&b.content[1], &b.content[2], &b.content[4]);
    assert_eq!(focused.modifier, BOLD | ITALIC);
    assert_eq!(focused.bg, Colour::Rgb(20, 20, 20));
    assert_eq!(focused.fg, Colour::Rgb(200, 150, 100));
    assert_eq!(other.modifier, ITALIC);
    assert_eq!(other.bg, Colour::Rgb(10, 10, 10));
    assert_eq!(other.fg, Colour::Rgb(150, 120, 90));
    assert_eq!(untouched.modifier, UNDERLINED | DIM | ITALIC);
    assert_eq!(untouched.bg, Colour::Reset);
}

#[test]
fn status_glyphs_keep_their_colour() {
    let p = palette();
    let mut b = buffer(6, 1);
    b.content[0] = cell("●", p.yellow, 0);
    b.content[1] = cell("✓", p.teal, 0);
    b.content[2] = cell("a", p.text, 0);
    b.content[3] = cell("b", p.overlay0, 0);
    b.content[4] = cell(" ", p.yellow, 0);
    b.content[5] = cell("w", Colour::White, 0);
    assert!(semantic_cell(&b.content[0], &p));
    assert!(!semantic_cell(&b.content[1], &p));
    assert!(!semantic_cell(&b.content[2], &p));
    assert!(!semantic_cell(&b.content[4], &p));
    assert!(!semantic_cell(&b.content[5], &p));
    paint_sidebar_row(&mut b, Rect { x: 0, y: 0, width: 6, height: 1 }, style(), false, &p, &vec![]);
    assert_eq!(b.content[0].fg, p.yellow);
    assert_eq!(b.content[1].fg, p.teal);
    assert_eq!(b.content[2].fg, Colour::Rgb(200, 150, 100));
    assert_eq!(b.content[3].fg, Colour::Rgb(200, 150, 100));
    assert_eq!(b.content[4].fg, Colour::Rgb(200, 150, 100));
    assert_eq!(b.content[5].fg, Colour::Rgb(200, 150, 100));
}

#[test]
fn selected_first_line_bolds_status_glyphs_too() {
    let p = palette();
    let mut b = buffer(3, 2);
    b.content[0] = cell("●", p.yellow, 0);
    b.content[1] = cell("✓", p.teal, 0);
    b.content[2] = cell("w", Colour::White, 0);
    b.content[3] = cell("●", p.yellow, 0);
    paint_sidebar_row(&mut b, Rect { x: 0, y: 0, width: 3, height: 2 }, style(), true, &p, &vec![]);
    assert_eq!((b.content[0].fg, b.content[0].modifier), (p.yellow, BOLD));
    assert_eq!((b.content[1].fg, b.content[1].modifier), (p.teal, BOLD));
    assert_eq!((b.content[2].fg, b.content[2].modifier), (Colour::Rgb(200, 150, 100), BOLD));
    assert_eq!((b.content[3].fg, b.content[3].modifier), (p.yellow, 0));
    assert_eq!(b.content[4].fg, Colour::Rgb(150, 120, 90));
    assert_eq!(b.content[4].modifier, DIM | ITALIC);
}

#[test]
fn workspace_colours_respect_explicit_sidebar_token_styles_and_done_status() {
    let p = palette();
    let token = Colour::Rgb(0x12, 0x34, 0x56);
    // A selected workspace row: a Done status icon, then a label in an explicit token style.
    let mut row = Buffer {
        area: Rect { x: 0, y: 0, width: 6, height: 2 },
        content: vec![
            cell("✓", p.teal, 0),
            cell("Z", token, DIM),
            cell("Z", token, DIM),
            cell("Z", token, DIM),
            cell("Z", token, DIM),
            cell(" ", Colour::Reset, 0),
            cell("d", p.overlay0, 0),
            cell("e", p.overlay0, 0),
            cell("t", p.overlay0, 0),
            cell("a", p.overlay0, 0),
            cell("i", p.overlay0, 0),
            cell("l", p.overlay0, 0),
        ],
    };
    let mut agent = row.clone();
    let explicit = vec![token];
    paint_sidebar_row(&mut row, Rect { x: 0, y: 0, width: 6, height: 2 }, style(), true, &p, &explicit);
    paint_sidebar_row(&mut agent, Rect { x: 0, y: 0, width: 6, height: 2 }, style(), true, &p, &explicit);
    for painted in [&row, &agent] {
        assert_eq!(painted.content[0].fg, p.teal);
        for z in &painted.content[1..5] {
            assert_eq!(z.fg, token, "explicit token foreground wins");
            assert_eq!(z.modifier & BOLD, 0);
            assert_ne!(z.modifier & DIM, 0);
            assert_eq!(z.bg, Colour::Rgb(20, 20, 20));
        }
        assert_eq!(painted.content[5].fg, Colour::Rgb(200, 150, 100));
        assert_ne!(painted.content[5].modifier & BOLD, 0);
        assert_eq!(painted.content[7].fg, Colour::Rgb(150, 120, 90));
    }
}

#[test]
fn tabs_recolour_all_but_semantic_glyphs() {
    let p = palette();
    let token = Colour::Rgb(0x12, 0x34, 0x56);
    let mut tab = Buffer {
        area: Rect { x: 0, y: 0, width: 6, height: 1 },
        content: vec![
            cell("●", p.yellow, DIM),
            cell("✓", p.teal, 0),
            cell("Z", token, DIM),
            cell("w", Colour::White, BOLD),
            cell("t", p.text, DIM | UNDERLINED | ITALIC),
            cell(" ", p.red, 0),
        ],
    };
    let mut other = tab.clone();
    paint_tab(&mut tab, Rect { x: 0, y: 0, width: 6, height: 1 }, style(), true, &p);
    paint_tab(&mut other, Rect { x: 0, y: 0, width: 6, height: 1 }, style(), false, &p);
    assert_eq!((tab.content[0].fg, tab.content[0].modifier), (p.yellow, BOLD));
    for c in &tab.content[1..4] {
        assert_eq!((c.fg, c.modifier), (Colour::Rgb(200, 150, 100), BOLD));
    }
    assert_eq!((tab.content[4].fg, tab.content[4].modifier), (Colour::Rgb(200, 150, 100), BOLD | ITALIC));
    assert_eq!(tab.content[5].fg, Colour::Rgb(200, 150, 100));
    assert_eq!((other.content[0].fg, other.content[0].modifier), (p.yellow, 0));
    for c in &other.content[1..4] {
        assert_eq!((c.fg, c.modifier), (Colour::Rgb(150, 120, 90), 0));
    }
    assert_eq!((other.content[4].fg, other.content[4].modifier), (Colour::Rgb(150, 120, 90), ITALIC));
    assert_eq!(other.content[3].bg, Colour::Rgb(10, 10, 10));
}

#[test]
fn rows_use_the_title_colour_on_their_first_line_only() {
    let p = palette();
    let mut b = buffer(2, 3);
    paint_sidebar_row(&mut b, Rect { x: 0, y: 1, width: 2, height: 5 }, style(), true, &p, &vec![]);
    assert_eq!(b.content[0].fg, Colour::Reset);
    assert_eq!(b.content[2].fg, Colour::Rgb(200, 150, 100));
    assert_eq!(b.content[2].modifier, DIM | ITALIC | BOLD);
    assert_eq!(b.content[4].fg, Colour::Rgb(150, 120, 90));
    assert_eq!(b.content[4].modifier, DIM | ITALIC);
    assert_eq!(b.content[5].bg, Colour::Rgb(20, 20, 20));
}

#[test]
fn sidebar_background_restores_control_typography() {
    let p = palette();
    let mut b = Buffer {
        area: Rect { x: 5, y: 5, width: 2, height: 2 },
        content: vec![cell("a", p.mauve, 0), cell("b", Colour::White, 0), cell("c", p.mauve, 0), cell("d", Colour::White, 0)],
    };
    paint_sidebar(&mut b, Rect { x: 0, y: 0, width: 6, height: 100 }, Colour::Rgb(9, 9, 9), &p);
    assert_eq!(b.content[0].fg, p.overlay0);
    assert_eq!(b.content[0].bg, Colour::Rgb(9, 9, 9));
    assert_eq!(b.content[1].bg, Colour::Reset);
    assert_eq!(b.content[2].fg, p.overlay0);
    assert_eq!(b.content[3].fg, Colour::White);
}

#[test]
fn rendering_tint_preserves_explicit_background() {
    let base = CellData { symbol: "N".into(), fg: 7, bg: 0, modifier: 3, skip: false, hyperlink: Some(0) };
    let mut default_bg = base.clone();
    tint_default(&mut default_bg, Some(0x02112233));
    assert_eq!(default_bg.bg, 0x02112233);
    assert_eq!(default_bg.fg, 7);
    assert_eq!(default_bg.hyperlink, Some(0));
    let mut explicit = base.clone();
    explicit.bg = 0x02ff1122;
    tint_default(&mut explicit, Some(0x02112233));
    assert_eq!(explicit.bg, 0x02ff1122);
    let mut untinted = base.clone();
    tint_default(&mut untinted, None);
    assert_eq!(untinted, base);
}
