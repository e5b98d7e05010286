//! Painting family colours onto an already rendered terminal buffer: the
//! sidebar background, workspace and agent rows, and tabs. Drawing only looks
//! up ready styles; no colour is computed here.
use vstd::prelude::*;
use vstd::string::StrSliceExecFns;
use crate::colour::{Colour, Palette, SidebarStyle, rgb_colour};

verus! {

/// Text attribute bits of a cell.
pub const BOLD: u16 = 0b0000_0000_0001;
pub const DIM: u16 = 0b0000_0000_0010;
pub const ITALIC: u16 = 0b0000_0000_0100;
pub const UNDERLINED: u16 = 0b0000_0000_1000;

/// One cell of a terminal buffer.
#[derive(Clone, Debug)]
pub struct Cell {
    pub symbol: String,
    pub fg: Colour,
    pub bg: Colour,
    pub modifier: u16,
    pub skip: bool,
}

/// A rectangle of cells.
#[derive(Clone, Copy, Debug)]
pub struct Rect {
    pub x: u16,
    pub y: u16,
    pub width: u16,
    pub height: u16,
}

/// A rendered grid of cells covering `area`, row by row.
#[derive(Clone, Debug)]
pub struct Buffer {
    pub area: Rect,
    pub content: Vec<Cell>,
}

/// The column just right of `r`, saturating at the edge of the coordinate space.
pub open spec fn right_of(r: Rect) -> int {
    if r.x + r.width > u16::MAX {
        u16::MAX as int
    } else {
        r.x + r.width
    }
}

/// The row just below `r`, saturating at the edge of the coordinate space.
pub open spec fn bottom_of(r: Rect) -> int {
    if r.y + r.height > u16::MAX {
        u16::MAX as int
    } else {
        r.y + r.height
    }
}

/// Whether `r` holds the cell at `(x, y)`.
pub open spec fn covers(r: Rect, x: int, y: int) -> bool {
    r.x <= x < right_of(r) && r.y <= y < bottom_of(r)
}

/// The column of the `k`-th cell of a buffer over `area`.
pub open spec fn column_of(area: Rect, k: int) -> int {
    area.x + k % (area.width as int)
}

/// The row of the `k`-th cell of a buffer over `area`.
pub open spec fn row_of(area: Rect, k: int) -> int {
    area.y + k / (area.width as int)
}

impl Rect {
    /// The column just right of the rectangle.
    pub fn right(&self) -> (r: u16)
        ensures
            r == right_of(*self),
    {
        self.x.saturating_add(self.width)
    }

    /// The row just below the rectangle.
    pub fn bottom(&self) -> (b: u16)
        ensures
            b == bottom_of(*self),
    {
        self.y.saturating_add(self.height)
    }
}

impl Buffer {
    /// The buffer holds one cell per position of an area that fits the coordinate space.
    pub open spec fn wf(&self) -> bool {
        &&& self.area.x + self.area.width <= u16::MAX
        &&& self.area.y + self.area.height <= u16::MAX
        &&& self.content@.len() == self.area.width as int * self.area.height as int
    }

    /// The position of the `k`-th cell.
    fn position(&self, k: usize) -> (p: (u16, u16))
        requires
            self.wf(),
            k < self.content@.len(),
        ensures
            p.0 == column_of(self.area, k as int),
            p.1 == row_of(self.area, k as int),
    {
        let w = self.area.width as usize;
        let h = self.area.height as usize;
        proof {
            assert(w > 0) by (nonlinear_arith)
                requires k < w * h, w >= 0, h >= 0;
            vstd::arithmetic::div_mod::lemma_multiply_divide_lt(k as int, w as int, h as int);
        }
        let col = k % w;
        let row = k / w;
        (self.area.x + col as u16, self.area.y + row as u16)
    }
}

/// Whether `symbol` is a single blank.
pub open spec fn is_blank(symbol: Seq<char>) -> bool {
    symbol == seq![' ']
}

/// Whether the cell is a semantic glyph: a visible symbol in one of the
/// theme's status colours (green, yellow, red, blue or peach).
pub open spec fn is_semantic(cell: Cell, palette: Palette) -> bool {
    &&& (cell.fg == palette.green || cell.fg == palette.yellow || cell.fg == palette.red
        || cell.fg == palette.blue || cell.fg == palette.peach)
    &&& !is_blank(cell.symbol@)
}

/// Whether a sidebar row keeps the cell's colour: a semantic glyph, the done
/// glyph (a visible symbol in teal), or text drawn in one of the `explicit`
/// colours that the row's token styles set.
pub open spec fn keeps_row_colour(cell: Cell, palette: Palette, explicit: Seq<Colour>) -> bool {
    ||| is_semantic(cell, palette)
    ||| (cell.fg == palette.teal && !is_blank(cell.symbol@))
    ||| explicit.contains(cell.fg)
}

/// Whether the symbol is a single blank.
fn blank_symbol(symbol: &String) -> (r: bool)
    ensures
        r == is_blank(symbol@),
{
    let s = symbol.as_str();
    if s.unicode_len() != 1 {
        return false;
    }
    let c = s.get_char(0);
    proof {
        if c == ' ' {
            assert(s@ =~= seq![' ']);
        }
    }
    c == ' '
}

/// Whether the cell is a semantic glyph, whose colour painting keeps.
pub fn semantic_cell(cell: &Cell, palette: &Palette) -> (r: bool)
    ensures
        r == is_semantic(*cell, *palette),
{
    let fg = cell.fg;
    let status = fg == palette.green || fg == palette.yellow || fg == palette.red || fg == palette.blue
        || fg == palette.peach;
    status && !blank_symbol(&cell.symbol)
}

/// Whether `c` is one of the `explicit` colours.
fn explicit_colour(explicit: &Vec<Colour>, c: Colour) -> (r: bool)
    ensures
        r == explicit@.contains(c),
{
    let mut i: usize = 0;
    while i < explicit.len()
        invariant
            i <= explicit@.len(),
            forall|j: int| 0 <= j < i ==> explicit@[j] != c,
        decreases explicit@.len() - i,
    {
        if explicit[i] == c {
            return true;
        }
        i += 1;
    }
    false
}

/// A tab cell after painting: the tab's (selected) background; every cell but
/// a semantic glyph takes the title (selected) or detail colour; every cell
/// loses underline, bold and dimming, and is bold exactly on the selected tab.
pub open spec fn tab_cell(cell: Cell, style: SidebarStyle, selected: bool, palette: Palette) -> Cell {
    let plain = cell.modifier & !(UNDERLINED | BOLD | DIM);
    Cell {
        symbol: cell.symbol,
        fg: if is_semantic(cell, palette) {
            cell.fg
        } else if selected {
            rgb_colour(style.title)
        } else {
            rgb_colour(style.detail)
        },
        bg: rgb_colour(if selected { style.selected } else { style.background }),
        modifier: if selected { plain | BOLD } else { plain },
        skip: cell.skip,
    }
}

/// A sidebar row cell after painting: the row's (selected) background and no
/// underline. A cell whose colour the row keeps (`keeps_row_colour`) keeps
/// it; every other cell takes the title colour on the first line and the
/// detail colour below. On the selected row's first line every cell is bold
/// except text in an explicit token colour, whose weight is its own.
pub open spec fn row_cell(
    cell: Cell,
    style: SidebarStyle,
    selected: bool,
    first_line: bool,
    palette: Palette,
    explicit: Seq<Colour>,
) -> Cell {
    let plain = cell.modifier & !UNDERLINED;
    Cell {
        symbol: cell.symbol,
        fg: if keeps_row_colour(cell, palette, explicit) {
            cell.fg
        } else if first_line {
            rgb_colour(style.title)
        } else {
            rgb_colour(style.detail)
        },
        bg: rgb_colour(if selected { style.selected } else { style.background }),
        modifier: if selected && first_line && !explicit.contains(cell.fg) { plain | BOLD } else { plain },
        skip: cell.skip,
    }
}

/// A sidebar cell after painting its background: control text in the accent
/// colour returns to the normal typography colour.
pub open spec fn sidebar_cell(cell: Cell, background: Colour, palette: Palette) -> Cell {
    Cell {
        symbol: cell.symbol,
        fg: if cell.fg == palette.mauve { palette.overlay0 } else { cell.fg },
        bg: background,
        modifier: cell.modifier,
        skip: cell.skip,
    }
}

/// Paints one tab cell.
fn paint_tab_cell(cell: Cell, style: &SidebarStyle, selected: bool, palette: &Palette) -> (out: Cell)
    ensures
        out == tab_cell(cell, *style, selected, *palette),
{
    let semantic = semantic_cell(&cell, palette);
    let bg = if selected { style.selected } else { style.background }.color();
    let fg = if semantic {
        cell.fg
    } else if selected {
        style.title.color()
    } else {
        style.detail.color()
    };
    let plain = cell.modifier & !(UNDERLINED | BOLD | DIM);
    let modifier = if selected { plain | BOLD } else { plain };
    Cell { symbol: cell.symbol, fg, bg, modifier, skip: cell.skip }
}

/// Paints one sidebar row cell.
fn paint_row_cell(
    cell: Cell,
    style: &SidebarStyle,
    selected: bool,
    first_line: bool,
    palette: &Palette,
    explicit: &Vec<Colour>,
) -> (out: Cell)
    ensures
        out == row_cell(cell, *style, selected, first_line, *palette, explicit@),
{
    let styled = explicit_colour(explicit, cell.fg);
    let keep = semantic_cell(&cell, palette) || (cell.fg == palette.teal && !blank_symbol(&cell.symbol)) || styled;
    let bg = if selected { style.selected } else { style.background }.color();
    let fg = if keep {
        cell.fg
    } else if first_line {
        style.title.color()
    } else {
        style.detail.color()
    };
    let plain = cell.modifier & !UNDERLINED;
    let modifier = if selected && first_line && !styled { plain | BOLD } else { plain };
    Cell { symbol: cell.symbol, fg, bg, modifier, skip: cell.skip }
}

/// Paints one sidebar background cell.
fn paint_sidebar_cell(cell: Cell, background: Colour, palette: &Palette) -> (out: Cell)
    ensures
        out == sidebar_cell(cell, background, *palette),
{
    let fg = if cell.fg == palette.mauve { palette.overlay0 } else { cell.fg };
    Cell { symbol: cell.symbol, fg, bg: background, modifier: cell.modifier, skip: cell.skip }
}

/// Takes the `k`-th cell out of the buffer, leaving a placeholder.
fn take_cell(content: &mut Vec<Cell>, k: usize) -> (cell: Cell)
    requires
        k < old(content)@.len(),
    ensures
        cell == old(content)@[k as int],
        final(content)@.len() == old(content)@.len(),
        forall|j: int| 0 <= j < old(content)@.len() && j != k ==> final(content)@[j] == old(content)@[j],
{
    let blank = Cell { symbol: String::new(), fg: Colour::Reset, bg: Colour::Reset, modifier: 0, skip: false };
    let mut cell = blank;
    std::mem::swap(&mut cell, &mut content[k]);
    cell
}

/// Paints a tab: every cell of the buffer inside `rect` becomes its `tab_cell`.
pub fn paint_tab(buffer: &mut Buffer, rect: Rect, style: SidebarStyle, selected: bool, palette: &Palette)
    requires
        old(buffer).wf(),
    ensures
        final(buffer).area == old(buffer).area,
        final(buffer).content@.len() == old(buffer).content@.len(),
        forall|k: int| 0 <= k < old(buffer).content@.len() ==> #[trigger] final(buffer).content@[k] == if covers(
            rect,
            column_of(old(buffer).area, k),
            row_of(old(buffer).area, k),
        ) {
            tab_cell(old(buffer).content@[k], style, selected, *palette)
        } else {
            old(buffer).content@[k]
        },
{
    let right = rect.right();
    let bottom = rect.bottom();
    let mut k: usize = 0;
    while k < buffer.content.len()
        invariant
            buffer.wf(),
            buffer.area == old(buffer).area,
            buffer.content@.len() == old(buffer).content@.len(),
            k <= buffer.content@.len(),
            right == right_of(rect),
            bottom == bottom_of(rect),
            forall|j: int| k <= j < buffer.content@.len() ==> #[trigger] buffer.content@[j] == old(buffer).content@[j],
            forall|j: int| 0 <= j < k ==> #[trigger] buffer.content@[j] == if covers(
                rect,
                column_of(old(buffer).area, j),
                row_of(old(buffer).area, j),
            ) {
                tab_cell(old(buffer).content@[j], style, selected, *palette)
            } else {
                old(buffer).content@[j]
            },
        decreases buffer.content@.len() - k,
    {
        let (x, y) = buffer.position(k);
        if rect.x <= x && x < right && rect.y <= y && y < bottom {
            let cell = take_cell(&mut buffer.content, k);
            let painted = paint_tab_cell(cell, &style, selected, palette);
            buffer.content.set(k, painted);
        }
        k += 1;
    }
}

/// Paints a workspace or agent row: every cell of the buffer inside `rect`
/// becomes its `row_cell`, the first line of `rect` taking the title colour.
/// `explicit` holds the colours that the row's token styles set, which
/// painting leaves as they are.
pub fn paint_sidebar_row(
    buffer: &mut Buffer,
    rect: Rect,
    style: SidebarStyle,
    selected: bool,
    palette: &Palette,
    explicit: &Vec<Colour>,
)
    requires
        old(buffer).wf(),
    ensures
        final(buffer).area == old(buffer).area,
        final(buffer).content@.len() == old(buffer).content@.len(),
        forall|k: int| 0 <= k < old(buffer).content@.len() ==> #[trigger] final(buffer).content@[k] == if covers(
            rect,
            column_of(old(buffer).area, k),
            row_of(old(buffer).area, k),
        ) {
            row_cell(
                old(buffer).content@[k],
                style,
                selected,
                row_of(old(buffer).area, k) == rect.y,
                *palette,
                explicit@,
            )
        } else {
            old(buffer).content@[k]
        },
{
    let right = rect.right();
    let bottom = rect.bottom();
    let mut k: usize = 0;
    while k < buffer.content.len()
        invariant
            buffer.wf(),
            buffer.area == old(buffer).area,
            buffer.content@.len() == old(buffer).content@.len(),
            k <= buffer.content@.len(),
            right == right_of(rect),
            bottom == bottom_of(rect),
            forall|j: int| k <= j < buffer.content@.len() ==> #[trigger] buffer.content@[j] == old(buffer).content@[j],
            forall|j: int| 0 <= j < k ==> #[trigger] buffer.content@[j] == if covers(
                rect,
                column_of(old(buffer).area, j),
                row_of(old(buffer).area, j),
            ) {
                row_cell(
                    old(buffer).content@[j],
                    style,
                    selected,
                    row_of(old(buffer).area, j) == rect.y,
                    *palette,
                    explicit@,
                )
            } else {
                old(buffer).content@[j]
            },
        decreases buffer.content@.len() - k,
    {
        let (x, y) = buffer.position(k);
        if rect.x <= x && x < right && rect.y <= y && y < bottom {
            let cell = take_cell(&mut buffer.content, k);
            let painted = paint_row_cell(cell, &style, selected, y == rect.y, palette, explicit);
            buffer.content.set(k, painted);
        }
        k += 1;
    }
}

/// Paints the sidebar area with its background: every cell of the buffer
/// inside `area` becomes its `sidebar_cell`.
pub fn paint_sidebar(buffer: &mut Buffer, area: Rect, background: Colour, palette: &Palette)
    requires
        old(buffer).wf(),
    ensures
        final(buffer).area == old(buffer).area,
        final(buffer).content@.len() == old(buffer).content@.len(),
        forall|k: int| 0 <= k < old(buffer).content@.len() ==> #[trigger] final(buffer).content@[k] == if covers(
            area,
            column_of(old(buffer).area, k),
            row_of(old(buffer).area, k),
        ) {
            sidebar_cell(old(buffer).content@[k], background, *palette)
        } else {
            old(buffer).content@[k]
        },
{
    let right = area.right();
    let bottom = area.bottom();
    let mut k: usize = 0;
    while k < buffer.content.len()
        invariant
            buffer.wf(),
            buffer.area == old(buffer).area,
            buffer.content@.len() == old(buffer).content@.len(),
            k <= buffer.content@.len(),
            right == right_of(area),
            bottom == bottom_of(area),
            forall|j: int| k <= j < buffer.content@.len() ==> #[trigger] buffer.content@[j] == old(buffer).content@[j],
            forall|j: int| 0 <= j < k ==> #[trigger] buffer.content@[j] == if covers(
                area,
                column_of(old(buffer).area, j),
                row_of(old(buffer).area, j),
            ) {
                sidebar_cell(old(buffer).content@[j], background, *palette)
            } else {
                old(buffer).content@[j]
            },
        decreases buffer.content@.len() - k,
    {
        let (x, y) = buffer.position(k);
        if area.x <= x && x < right && area.y <= y && y < bottom {
            let cell = take_cell(&mut buffer.content, k);
            let painted = paint_sidebar_cell(cell, background, palette);
            buffer.content.set(k, painted);
        }
        k += 1;
    }
}

/// One cell of a composed frame, as sent to the terminal: colours packed into `u32`s.
#[derive(Clone, Debug, PartialEq, Eq)]
pub struct CellData {
    pub symbol: String,
    pub fg: u32,
    pub bg: u32,
    pub modifier: u16,
    pub skip: bool,
    pub hyperlink: Option<u32>,
}

/// Gives a cell with the default background (0) the workspace tint; a cell with
/// an explicit background, or no tint, is left alone.
pub fn tint_default(cell: &mut CellData, tint: Option<u32>)
    ensures
        final(cell).bg == if old(cell).bg == 0 && tint is Some {
            tint->0
        } else {
            old(cell).bg
        },
        final(cell).symbol == old(cell).symbol,
        final(cell).fg == old(cell).fg,
        final(cell).modifier == old(cell).modifier,
        final(cell).skip == old(cell).skip,
        final(cell).hyperlink == old(cell).hyperlink,
{
    if cell.bg == 0 {
        if let Some(bg) = tint {
            cell.bg = bg;
        }
    }
}

/// Painted tabs carry no underline and no dimming, keep their italics and
/// symbols, and are bold exactly on the selected tab. A semantic glyph keeps
/// its colour; every other cell takes the title colour on the selected tab
/// and the detail colour on the others.
pub proof fn lemma_tab_focus_is_bold_only(cell: Cell, style: SidebarStyle, selected: bool, palette: Palette)
    ensures
        tab_cell(cell, style, selected, palette).modifier & UNDERLINED == 0,
        tab_cell(cell, style, selected, palette).modifier & DIM == 0,
        (tab_cell(cell, style, selected, palette).modifier & BOLD != 0) == selected,
        tab_cell(cell, style, selected, palette).modifier & ITALIC == cell.modifier & ITALIC,
        tab_cell(cell, style, selected, palette).symbol == cell.symbol,
        is_semantic(cell, palette) ==> tab_cell(cell, style, selected, palette).fg == cell.fg,
        !is_semantic(cell, palette) ==> tab_cell(cell, style, selected, palette).fg == rgb_colour(
            if selected { style.title } else { style.detail },
        ),
{
    let m = cell.modifier;
    assert((m & !(8u16 | 1u16 | 2u16)) & 8u16 == 0u16) by (bit_vector);
    assert((m & !(8u16 | 1u16 | 2u16)) & 2u16 == 0u16) by (bit_vector);
    assert((m & !(8u16 | 1u16 | 2u16)) & 1u16 == 0u16) by (bit_vector);
    assert((m & !(8u16 | 1u16 | 2u16)) & 4u16 == m & 4u16) by (bit_vector);
    assert(((m & !(8u16 | 1u16 | 2u16)) | 1u16) & 8u16 == 0u16) by (bit_vector);
    assert(((m & !(8u16 | 1u16 | 2u16)) | 1u16) & 2u16 == 0u16) by (bit_vector);
    assert(((m & !(8u16 | 1u16 | 2u16)) | 1u16) & 1u16 != 0u16) by (bit_vector);
    assert(((m & !(8u16 | 1u16 | 2u16)) | 1u16) & 4u16 == m & 4u16) by (bit_vector);
}

/// Painted sidebar rows carry no underline and keep dimming and italics. On
/// the selected row's first line every cell is bold but text in an explicit
/// token colour, which keeps its colour and its own weight everywhere.
pub proof fn lemma_row_focus_is_bold(
    cell: Cell,
    style: SidebarStyle,
    selected: bool,
    first_line: bool,
    palette: Palette,
    explicit: Seq<Colour>,
)
    ensures
        row_cell(cell, style, selected, first_line, palette, explicit).modifier & UNDERLINED == 0,
        row_cell(cell, style, selected, first_line, palette, explicit).modifier & DIM == cell.modifier & DIM,
        row_cell(cell, style, selected, first_line, palette, explicit).modifier & ITALIC == cell.modifier & ITALIC,
        selected && first_line && !explicit.contains(cell.fg) ==> row_cell(
            cell,
            style,
            selected,
            first_line,
            palette,
            explicit,
        ).modifier & BOLD != 0,
        !(selected && first_line) ==> row_cell(cell, style, selected, first_line, palette, explicit).modifier & BOLD
            == cell.modifier & BOLD,
        explicit.contains(cell.fg) ==> {
            &&& row_cell(cell, style, selected, first_line, palette, explicit).fg == cell.fg
            &&& row_cell(cell, style, selected, first_line, palette, explicit).modifier & BOLD == cell.modifier & BOLD
        },
{
    let m = cell.modifier;
    assert((m & !8u16) & 8u16 == 0u16) by (bit_vector);
    assert((m & !8u16) & 1u16 == m & 1u16) by (bit_vector);
    assert((m & !8u16) & 2u16 == m & 2u16) by (bit_vector);
    assert((m & !8u16) & 4u16 == m & 4u16) by (bit_vector);
    assert(((m & !8u16) | 1u16) & 8u16 == 0u16) by (bit_vector);
    assert(((m & !8u16) | 1u16) & 1u16 != 0u16) by (bit_vector);
    assert(((m & !8u16) | 1u16) & 2u16 == m & 2u16) by (bit_vector);
    assert(((m & !8u16) | 1u16) & 4u16 == m & 4u16) by (bit_vector);
}

/// Painting backgrounds: a painted tab or sidebar row cell sits on the
/// style's selected colour exactly when the tab or row is selected, and on the
/// style's background colour otherwise; painting the sidebar puts every cell on
/// the given background.
pub proof fn lemma_painted_backgrounds(
    cell: Cell,
    style: SidebarStyle,
    selected: bool,
    first_line: bool,
    palette: Palette,
    explicit: Seq<Colour>,
    background: Colour,
)
    ensures
        selected ==> tab_cell(cell, style, selected, palette).bg == Colour::Rgb(
            style.selected.0[0],
            style.selected.0[1],
            style.selected.0[2],
        ),
        !selected ==> tab_cell(cell, style, selected, palette).bg == Colour::Rgb(
            style.background.0[0],
            style.background.0[1],
            style.background.0[2],
        ),
        selected ==> row_cell(cell, style, selected, first_line, palette, explicit).bg == Colour::Rgb(
            style.selected.0[0],
            style.selected.0[1],
            style.selected.0[2],
        ),
        !selected ==> row_cell(cell, style, selected, first_line, palette, explicit).bg == Colour::Rgb(
            style.background.0[0],
            style.background.0[1],
            style.background.0[2],
        ),
        sidebar_cell(cell, background, palette).bg == background,
{
}

/// Status glyphs keep their meaning: a visible symbol drawn in the theme's
/// green, yellow, red, blue or peach keeps that colour on every tab and every
/// sidebar row, selected or not.
pub proof fn lemma_status_glyphs_keep_colour(
    cell: Cell,
    style: SidebarStyle,
    selected: bool,
    first_line: bool,
    palette: Palette,
    explicit: Seq<Colour>,
)
    requires
        cell.fg == palette.green || cell.fg == palette.yellow || cell.fg == palette.red || cell.fg == palette.blue
            || cell.fg == palette.peach,
        cell.symbol@ != seq![' '],
    ensures
        tab_cell(cell, style, selected, palette).fg == cell.fg,
        row_cell(cell, style, selected, first_line, palette, explicit).fg == cell.fg,
{
}

/// Everything else takes the family's text colours: on a tab, a cell that is
/// not a visible status glyph takes the title colour when the tab is selected
/// and the detail colour otherwise; on a row, a cell in no status colour, not
/// the done glyph's teal and in no explicit token colour takes the title colour
/// on the first line and the detail colour below.
pub proof fn lemma_family_text_colours(
    cell: Cell,
    style: SidebarStyle,
    selected: bool,
    first_line: bool,
    palette: Palette,
    explicit: Seq<Colour>,
)
    ensures
        !(cell.fg == palette.green || cell.fg == palette.yellow || cell.fg == palette.red || cell.fg == palette.blue
            || cell.fg == palette.peach) || cell.symbol@ == seq![' '] ==> tab_cell(cell, style, selected, palette).fg
            == if selected {
            Colour::Rgb(style.title.0[0], style.title.0[1], style.title.0[2])
        } else {
            Colour::Rgb(style.detail.0[0], style.detail.0[1], style.detail.0[2])
        },
        !(cell.fg == palette.green || cell.fg == palette.yellow || cell.fg == palette.red || cell.fg == palette.blue
            || cell.fg == palette.peach || cell.fg == palette.teal) && !explicit.contains(cell.fg) ==> row_cell(
            cell,
            style,
            selected,
            first_line,
            palette,
            explicit,
        ).fg == if first_line {
            Colour::Rgb(style.title.0[0], style.title.0[1], style.title.0[2])
        } else {
            Colour::Rgb(style.detail.0[0], style.detail.0[1], style.detail.0[2])
        },
{
}

/// Painting the sidebar background changes nothing but the background and
/// the accent foreground: symbols, attributes and every other foreground stay,
/// and text in the accent colour (mauve) returns to the muted text colour.
pub proof fn lemma_sidebar_keeps_cells(cell: Cell, background: Colour, palette: Palette)
    ensures
        sidebar_cell(cell, background, palette).symbol == cell.symbol,
        sidebar_cell(cell, background, palette).modifier == cell.modifier,
        sidebar_cell(cell, background, palette).skip == cell.skip,
        sidebar_cell(cell, background, palette).bg == background,
        cell.fg == palette.mauve ==> sidebar_cell(cell, background, palette).fg == palette.overlay0,
        cell.fg != palette.mauve ==> sidebar_cell(cell, background, palette).fg == cell.fg,
{
}

/// Painting a tab or a sidebar row never changes what a cell shows or whether
/// it is skipped, and a row keeps the done glyph (a visible teal symbol) and
/// text in an explicit token colour in their own colours.
pub proof fn lemma_painting_keeps_symbols(
    cell: Cell,
    style: SidebarStyle,
    selected: bool,
    first_line: bool,
    palette: Palette,
    explicit: Seq<Colour>,
)
    ensures
        tab_cell(cell, style, selected, palette).symbol == cell.symbol,
        tab_cell(cell, style, selected, palette).skip == cell.skip,
        row_cell(cell, style, selected, first_line, palette, explicit).symbol == cell.symbol,
        row_cell(cell, style, selected, first_line, palette, explicit).skip == cell.skip,
        cell.fg == palette.teal && cell.symbol@ != seq![' '] ==> row_cell(
            cell,
            style,
            selected,
            first_line,
            palette,
            explicit,
        ).fg == cell.fg,
        explicit.contains(cell.fg) ==> row_cell(cell, style, selected, first_line, palette, explicit).fg == cell.fg,
{
}

/// A rectangle that fits the coordinate space covers exactly the cells from
/// its corner up to, not including, its right edge and bottom edge.
pub proof fn lemma_covers_exactly(r: Rect, x: int, y: int)
    requires
        r.x + r.width <= u16::MAX,
        r.y + r.height <= u16::MAX,
    ensures
        covers(r, x, y) <==> (r.x <= x < r.x + r.width && r.y <= y < r.y + r.height),
{
}

/// Cells are stored row by row: the cell `dx` columns right of and `dy` rows
/// below the buffer's corner is the `dy * width + dx`-th.
pub proof fn lemma_cells_row_by_row(area: Rect, dx: int, dy: int)
    requires
        0 <= dx < area.width,
        0 <= dy,
    ensures
        column_of(area, dy * area.width + dx) == area.x + dx,
        row_of(area, dy * area.width + dx) == area.y + dy,
{
    vstd::arithmetic::div_mod::lemma_fundamental_div_mod_converse(
        dy * area.width + dx,
        area.width as int,
        dy,
        dx,
    );
}

/// Tinting only fills a default background: an explicit background, and
/// everything but the background, are kept; with no tint nothing changes.
pub proof fn lemma_tint_keeps_explicit(before: CellData, after: CellData, tint: Option<u32>)
    requires
        after.bg == (if before.bg == 0 && tint is Some { tint->0 } else { before.bg }),
        after.symbol == before.symbol,
        after.fg == before.fg,
        after.modifier == before.modifier,
        after.skip == before.skip,
        after.hyperlink == before.hyperlink,
    ensures
        before.bg != 0 ==> after == before,
        tint is None ==> after == before,
{
}

} // verus!
