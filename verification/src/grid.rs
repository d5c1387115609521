//! The character grid of a terminal: cells, cursor, scroll region, the rows
//! that scrolled off the top, and the damage that every change records.
use vstd::prelude::*;

use crate::damage::{
    collapsed_state, drained_regions, empty_state, mark_state, max16, min16, sat_add16, sat_sub16,
    DamageBatch, DamageRegion, DamageState, DamageTracker, Generation,
};
use crate::parser::EraseMode;
use crate::row;
use crate::row::{
    blank_span, clear_for_write_row, clear_range_row, replace_row, sanitize_row_spec, shift_row,
    span_dirty,
};
use crate::reflow;
use crate::width::{char_width, spec_char_width};

verus! {

pub const SCROLLED_ROW_POOL_LIMIT: usize = 1024;

pub const STYLE_BOLD: u8 = 1;

pub const STYLE_ITALIC: u8 = 2;

pub const STYLE_UNDERLINE: u8 = 4;

#[derive(Debug, Clone, Copy, PartialEq, Eq, Structural)]
pub enum Color {
    DefaultForeground,
    DefaultBackground,
    Indexed(u8),
    Rgb(u8, u8, u8),
}

/// The attribute bits of a style: `STYLE_BOLD`, `STYLE_ITALIC` and
/// `STYLE_UNDERLINE`, and no other.
#[derive(Debug, Clone, Copy, PartialEq, Eq, Structural)]
struct AttributeBits(u8);

impl AttributeBits {
    #[verifier::type_invariant]
    spec fn only_known_bits(self) -> bool {
        self.0 < 8
    }
}

#[derive(Debug, Clone, Copy, PartialEq, Eq, Structural)]
pub struct Style {
    pub foreground: Color,
    pub background: Color,
    flags: AttributeBits,
}

/// The style of a cell that nothing has drawn.
pub open spec fn default_style() -> Style {
    Style::default_spec()
}

impl Style {
    /// The default colours and no attribute.
    pub closed spec fn default_spec() -> Style {
        Style {
            foreground: Color::DefaultForeground,
            background: Color::DefaultBackground,
            flags: AttributeBits(0),
        }
    }

    /// The foreground colour.
    pub closed spec fn fg(self) -> Color {
        self.foreground
    }

    /// The background colour.
    pub closed spec fn bg(self) -> Color {
        self.background
    }

    /// The attribute bits.
    pub closed spec fn bits(self) -> u8 {
        self.flags.0
    }

    pub open spec fn has_flag(self, flag: u8) -> bool {
        self.bits() & flag != 0
    }

    /// `self` with `flag` set or cleared.
    pub closed spec fn with_flag(self, flag: u8, enabled: bool) -> Style {
        Style {
            flags: AttributeBits(
                if enabled {
                    self.flags.0 | flag
                } else {
                    self.flags.0 & !flag
                },
            ),
            ..self
        }
    }

    /// `self` with the foreground `color`.
    pub closed spec fn with_foreground(self, color: Color) -> Style {
        Style { foreground: color, ..self }
    }

    /// `self` with the background `color`.
    pub closed spec fn with_background(self, color: Color) -> Style {
        Style { background: color, ..self }
    }

    /// Two styles are equal exactly when their colours and bits are.
    pub proof fn lemma_style_eq(a: Style, b: Style)
        ensures
            a == b <==> (a.fg() == b.fg() && a.bg() == b.bg() && a.bits()
                == b.bits()),
    {
    }

    /// Attribute bits below eight (those of every style value, by the type
    /// invariant of its bits) are its bold, italic and underline flags, from
    /// the lowest bit.
    pub proof fn lemma_attribute_bits(self)
        requires
            self.bits() < 8,
        ensures
            self.bits() == (if self.has_flag(STYLE_BOLD) {
                1u8
            } else {
                0u8
            }) | (if self.has_flag(STYLE_ITALIC) {
                2u8
            } else {
                0u8
            }) | (if self.has_flag(STYLE_UNDERLINE) {
                4u8
            } else {
                0u8
            }),
    {
        let b = self.flags.0;
        assert(b == (if b & 1u8 != 0 {
            1u8
        } else {
            0u8
        }) | (if b & 2u8 != 0 {
            2u8
        } else {
            0u8
        }) | (if b & 4u8 != 0 {
            4u8
        } else {
            0u8
        })) by (bit_vector)
            requires
                b < 8u8,
        ;
    }

    /// The foreground colour.
    pub fn foreground_color(self) -> (r: Color)
        ensures
            r == self.fg(),
    {
        self.foreground
    }

    /// The background colour.
    pub fn background_color(self) -> (r: Color)
        ensures
            r == self.bg(),
    {
        self.background
    }

    /// Sets the foreground colour.
    pub fn set_foreground(&mut self, color: Color)
        ensures
            *final(self) == old(self).with_foreground(color),
    {
        self.foreground = color;
    }

    /// Sets the background colour.
    pub fn set_background(&mut self, color: Color)
        ensures
            *final(self) == old(self).with_background(color),
    {
        self.background = color;
    }

    pub fn bold(self) -> (r: bool)
        ensures
            r == self.has_flag(STYLE_BOLD),
    {
        self.flags.0 & STYLE_BOLD != 0
    }

    pub fn italic(self) -> (r: bool)
        ensures
            r == self.has_flag(STYLE_ITALIC),
    {
        self.flags.0 & STYLE_ITALIC != 0
    }

    pub fn underline(self) -> (r: bool)
        ensures
            r == self.has_flag(STYLE_UNDERLINE),
    {
        self.flags.0 & STYLE_UNDERLINE != 0
    }

    pub fn set_bold(&mut self, enabled: bool)
        ensures
            *final(self) == old(self).with_flag(STYLE_BOLD, enabled),
            final(self).bits() < 8,
            final(self).has_flag(STYLE_BOLD) == enabled,
            final(self).has_flag(STYLE_ITALIC) == old(self).has_flag(STYLE_ITALIC),
            final(self).has_flag(STYLE_UNDERLINE) == old(self).has_flag(STYLE_UNDERLINE),
    {
        self.set_flag(STYLE_BOLD, enabled);
    }

    pub fn set_italic(&mut self, enabled: bool)
        ensures
            *final(self) == old(self).with_flag(STYLE_ITALIC, enabled),
            final(self).bits() < 8,
            final(self).has_flag(STYLE_ITALIC) == enabled,
            final(self).has_flag(STYLE_BOLD) == old(self).has_flag(STYLE_BOLD),
            final(self).has_flag(STYLE_UNDERLINE) == old(self).has_flag(STYLE_UNDERLINE),
    {
        self.set_flag(STYLE_ITALIC, enabled);
    }

    pub fn set_underline(&mut self, enabled: bool)
        ensures
            *final(self) == old(self).with_flag(STYLE_UNDERLINE, enabled),
            final(self).bits() < 8,
            final(self).has_flag(STYLE_UNDERLINE) == enabled,
            final(self).has_flag(STYLE_BOLD) == old(self).has_flag(STYLE_BOLD),
            final(self).has_flag(STYLE_ITALIC) == old(self).has_flag(STYLE_ITALIC),
    {
        self.set_flag(STYLE_UNDERLINE, enabled);
    }

    fn set_flag(&mut self, flag: u8, enabled: bool)
        requires
            flag == STYLE_BOLD || flag == STYLE_ITALIC || flag == STYLE_UNDERLINE,
        ensures
            *final(self) == old(self).with_flag(flag, enabled),
            final(self).bits() < 8,
            final(self).has_flag(flag) == enabled,
            forall|other: u8|
                (other == STYLE_BOLD || other == STYLE_ITALIC || other == STYLE_UNDERLINE) && other
                    != flag ==> final(self).has_flag(other) == old(self).has_flag(other),
    {
        proof {
            use_type_invariant(&self.flags);
        }
        let before = self.flags.0;
        let after = if enabled {
            before | flag
        } else {
            before & !flag
        };
        assert(before < 8 ==> after < 8) by (bit_vector)
            requires
                (flag == 1u8 || flag == 2u8 || flag == 4u8),
                after == (if enabled {
                    before | flag
                } else {
                    before & !flag
                }),
        ;
        self.flags = AttributeBits(after);
        assert(after & flag != 0 <==> enabled) by (bit_vector)
            requires
                (flag == 1u8 || flag == 2u8 || flag == 4u8),
                after == (if enabled {
                    before | flag
                } else {
                    before & !flag
                }),
        ;
        assert forall|other: u8|
            (other == STYLE_BOLD || other == STYLE_ITALIC || other == STYLE_UNDERLINE) && other
                != flag implies (after & other != 0) == (before & other != 0) by {
            assert((after & other != 0) == (before & other != 0)) by (bit_vector)
                requires
                    (flag == 1u8 || flag == 2u8 || flag == 4u8),
                    (other == 1u8 || other == 2u8 || other == 4u8),
                    other != flag,
                    after == (if enabled {
                        before | flag
                    } else {
                        before & !flag
                    }),
            ;
        }
    }

    /// The attribute bits: bold, italic and underline, in that order from
    /// the lowest bit.
    pub fn attribute_bits(self) -> (r: u8)
        ensures
            r == self.bits(),
            r < 8,
            r == (if self.has_flag(STYLE_BOLD) {
                1u8
            } else {
                0u8
            }) | (if self.has_flag(STYLE_ITALIC) {
                2u8
            } else {
                0u8
            }) | (if self.has_flag(STYLE_UNDERLINE) {
                4u8
            } else {
                0u8
            }),
    {
        proof {
            use_type_invariant(&self.flags);
            self.lemma_attribute_bits();
        }
        self.flags.0
    }
}

impl Default for Style {
    fn default() -> (r: Self)
        ensures
            r == Style::default_spec(),
            r.bits() == 0,
    {
        Style {
            foreground: Color::DefaultForeground,
            background: Color::DefaultBackground,
            flags: AttributeBits(0),
        }
    }
}

/// The default style has the default colours and no attribute bits.
pub broadcast proof fn lemma_default_style_parts()
    ensures
        #[trigger] Style::default_spec().fg() == Color::DefaultForeground,
        Style::default_spec().bg() == Color::DefaultBackground,
        Style::default_spec().bits() == 0,
{
}

/// Setting or clearing a flag changes only the attribute bits.
pub broadcast proof fn lemma_with_flag_parts(s: Style, flag: u8, enabled: bool)
    ensures
        (#[trigger] s.with_flag(flag, enabled)).fg() == s.fg(),
        s.with_flag(flag, enabled).bg() == s.bg(),
        s.with_flag(flag, enabled).bits() == (if enabled {
            s.bits() | flag
        } else {
            s.bits() & !flag
        }),
{
}

/// Setting the foreground changes only the foreground.
pub broadcast proof fn lemma_with_foreground_parts(s: Style, color: Color)
    ensures
        (#[trigger] s.with_foreground(color)).fg() == color,
        s.with_foreground(color).bg() == s.bg(),
        s.with_foreground(color).bits() == s.bits(),
{
}

/// Setting the background changes only the background.
pub broadcast proof fn lemma_with_background_parts(s: Style, color: Color)
    ensures
        (#[trigger] s.with_background(color)).bg() == color,
        s.with_background(color).fg() == s.fg(),
        s.with_background(color).bits() == s.bits(),
{
}

/// The facts about the parts of styles.
pub broadcast group group_style_parts {
    lemma_default_style_parts,
    lemma_with_flag_parts,
    lemma_with_foreground_parts,
    lemma_with_background_parts,
}

#[derive(Debug, Clone, Copy, PartialEq, Eq, Structural)]
pub struct Cell {
    pub ch: char,
    pub style: Style,
    pub wide: bool,
    pub spacer: bool,
}

/// The cell that a cleared position holds.
pub open spec fn blank_cell() -> Cell {
    Cell { ch: ' ', style: default_style(), wide: false, spacer: false }
}

impl Default for Cell {
    fn default() -> (r: Self)
        ensures
            r == blank_cell(),
    {
        Cell { ch: ' ', style: Style::default(), wide: false, spacer: false }
    }
}

#[derive(Debug, Clone, Copy, PartialEq, Eq, Structural)]
pub enum CursorShape {
    Block,
    Beam,
    Underline,
}

impl Default for CursorShape {
    fn default() -> (r: Self)
        ensures
            r == CursorShape::Block,
    {
        CursorShape::Block
    }
}

#[derive(Debug, Clone, Copy, PartialEq, Eq, Structural)]
pub struct Cursor {
    pub x: u16,
    pub y: u16,
    pub visible: bool,
    pub shape: CursorShape,
}

impl Default for Cursor {
    fn default() -> (r: Self)
        ensures
            r == (Cursor { x: 0, y: 0, visible: false, shape: CursorShape::Block }),
    {
        Cursor { x: 0, y: 0, visible: false, shape: CursorShape::Block }
    }
}

/// Abstract state of a grid. `rows[y][x]` is the cell in column `x` of
/// screen row `y`; `scrolled` holds the rows that scrolled off the top of the
/// screen since the last drain, trimmed of trailing blank cells.
#[verifier::ext_equal]
pub struct GridState {
    pub width: u16,
    pub height: u16,
    pub rows: Seq<Seq<Cell>>,
    pub cursor: Cursor,
    pub synchronized: bool,
    pub scroll_top: u16,
    pub scroll_bottom: u16,
    pub wrap: bool,
    pub pending_wrap: bool,
    pub scrolled: Seq<Seq<Cell>>,
    pub pool_len: nat,
    pub generation: u64,
    pub damage: DamageState,
}

#[derive(Debug)]
pub struct Grid {
    width: u16,
    height: u16,
    rows: Vec<Vec<Cell>>,
    cursor: Cursor,
    synchronized: bool,
    scroll_top: u16,
    scroll_bottom: u16,
    wrap: bool,
    pending_wrap: bool,
    scrolled_rows: Vec<Vec<Cell>>,
    scrolled_row_pool: Vec<Vec<Cell>>,
    generation: u64,
    damage: DamageTracker,
}

pub open spec fn rows_view(rows: Seq<Vec<Cell>>) -> Seq<Seq<Cell>> {
    Seq::new(rows.len(), |i: int| rows[i]@)
}

impl View for Grid {
    type V = GridState;

    closed spec fn view(&self) -> GridState {
        GridState {
            width: self.width,
            height: self.height,
            rows: rows_view(self.rows@),
            cursor: self.cursor,
            synchronized: self.synchronized,
            scroll_top: self.scroll_top,
            scroll_bottom: self.scroll_bottom,
            wrap: self.wrap,
            pending_wrap: self.pending_wrap,
            scrolled: rows_view(self.scrolled_rows@),
            pool_len: self.scrolled_row_pool@.len(),
            generation: self.generation,
            damage: self.damage@,
        }
    }
}

/// The largest column (or row) index of a dimension, zero for an empty one.
pub open spec fn last_index(size: u16) -> u16 {
    sat_sub16(size, 1)
}

/// `g` is a consistent grid state: `height` rows of `width` cells, the cursor
/// and scroll region on screen, and a well-formed damage tracker.
pub open spec fn state_wf(g: GridState) -> bool {
    &&& g.rows.len() == g.height
    &&& forall|y: int| 0 <= y < g.rows.len() ==> #[trigger] g.rows[y].len() == g.width
    &&& g.cursor.x <= last_index(g.width)
    &&& g.cursor.y <= last_index(g.height)
    &&& g.scroll_top <= g.scroll_bottom
    &&& g.scroll_bottom <= last_index(g.height)
    &&& g.pool_len <= SCROLLED_ROW_POOL_LIMIT
    &&& crate::damage::state_wf(g.damage)
}

/// A grid of at least one cell has its cursor on a cell. Every change of a
/// grid keeps it at least one cell (see the `ensures` of each), so from
/// `Grid::new` with both sides at least one the cursor never leaves the grid.
pub proof fn lemma_cursor_on_grid(g: GridState)
    requires
        state_wf(g),
        g.width >= 1,
        g.height >= 1,
    ensures
        g.cursor.x < g.width,
        g.cursor.y < g.height,
{
}

/// A row of `width` blank cells.
pub open spec fn blank_row(width: u16) -> Seq<Cell> {
    Seq::new(width as nat, |i: int| blank_cell())
}

pub open spec fn bump(generation: u64, amount: u64) -> u64 {
    if generation + amount > u64::MAX {
        u64::MAX
    } else {
        (generation + amount) as u64
    }
}

/// A grid state of `width` by `height` blank cells, as `Grid::new` makes it.
pub open spec fn new_state(width: u16, height: u16) -> GridState {
    GridState {
        width,
        height,
        rows: Seq::new(height as nat, |i: int| blank_row(width)),
        cursor: Cursor { x: 0, y: 0, visible: true, shape: CursorShape::Block },
        synchronized: false,
        scroll_top: 0,
        scroll_bottom: last_index(height),
        wrap: true,
        pending_wrap: false,
        scrolled: Seq::empty(),
        pool_len: 0,
        generation: 1,
        damage: collapsed_state(),
    }
}

/// After a cursor change from `old`: a new generation and cursor damage when
/// the cursor differs.
pub open spec fn note_cursor(g: GridState, old: Cursor) -> GridState {
    if old != g.cursor {
        GridState {
            generation: bump(g.generation, 1),
            damage: mark_state(
                g.damage,
                DamageRegion::Cursor { old: Some((old.x, old.y)), new: (g.cursor.x, g.cursor.y) },
            ),
            ..g
        }
    } else {
        g
    }
}

/// Damage of `width` cells of row `y` from column `x`.
pub open spec fn line_damage(g: GridState, y: u16, x: u16, width: u16) -> GridState {
    GridState {
        generation: bump(g.generation, max16(width, 1) as u64),
        damage: mark_state(g.damage, DamageRegion::Cells { x, y, width, height: 1 }),
        ..g
    }
}

/// A change that the whole viewport shows.
pub open spec fn viewport_damage(g: GridState) -> GridState {
    GridState {
        generation: bump(g.generation, 1),
        damage: mark_state(g.damage, DamageRegion::Viewport),
        ..g
    }
}

/// The position that a cursor move to `(x, y)` reaches: clamped to the screen.
pub open spec fn clamped_cursor(g: GridState, x: u16, y: u16) -> Cursor {
    Cursor {
        x: min16(x, last_index(g.width)),
        y: min16(y, last_index(g.height)),
        visible: g.cursor.visible,
        shape: g.cursor.shape,
    }
}

pub open spec fn move_cursor_state(g: GridState, x: u16, y: u16) -> GridState {
    let new = clamped_cursor(g, x, y);
    if new == g.cursor {
        g
    } else {
        note_cursor(GridState { cursor: new, pending_wrap: false, ..g }, g.cursor)
    }
}

/// `value + delta`, clamped to `0..limit` (to zero when `limit` is zero).
pub open spec fn spec_clamp_add(value: u16, delta: i16, limit: u16) -> u16 {
    let max = sat_sub16(limit, 1);
    if delta < 0 {
        let magnitude = (-delta) as int;
        let lowered = if value >= magnitude {
            (value - magnitude) as u16
        } else {
            0u16
        };
        min16(lowered, max)
    } else {
        min16(sat_add16(value, delta as u16), max)
    }
}

pub fn clamp_add(value: u16, delta: i16, limit: u16) -> (r: u16)
    ensures
        r == spec_clamp_add(value, delta, limit),
{
    let max = limit.saturating_sub(1);
    if delta < 0 {
        let magnitude: u16 = if delta == i16::MIN {
            32768u16
        } else {
            (-delta) as u16
        };
        let lowered = value.saturating_sub(magnitude);
        if lowered <= max {
            lowered
        } else {
            max
        }
    } else {
        let raised = value.saturating_add(delta as u16);
        if raised <= max {
            raised
        } else {
            max
        }
    }
}

pub open spec fn cursor_visible_state(g: GridState, visible: bool) -> GridState {
    if g.cursor.visible == visible {
        g
    } else {
        note_cursor(GridState { cursor: Cursor { visible, ..g.cursor }, ..g }, g.cursor)
    }
}

pub open spec fn cursor_shape_state(g: GridState, shape: CursorShape) -> GridState {
    if g.cursor.shape == shape {
        g
    } else {
        note_cursor(GridState { cursor: Cursor { shape, ..g.cursor }, ..g }, g.cursor)
    }
}

pub open spec fn reset_scroll_region_state(g: GridState) -> GridState {
    GridState { scroll_top: 0, scroll_bottom: last_index(g.height), ..g }
}

pub open spec fn set_scroll_region_state(g: GridState, top: u16, bottom: u16) -> GridState {
    let top = min16(top, last_index(g.height));
    let bottom = min16(bottom, last_index(g.height));
    if top < bottom {
        move_cursor_state(GridState { scroll_top: top, scroll_bottom: bottom, ..g }, 0, 0)
    } else {
        reset_scroll_region_state(g)
    }
}

/// The cursor after advancing `amount` columns from `g.cursor`, and whether a
/// wrap is then pending.
pub open spec fn advance_cursor_state(g: GridState, amount: u16) -> GridState {
    let moved = if g.cursor.x + amount < g.width {
        GridState {
            cursor: Cursor { x: (g.cursor.x + amount) as u16, ..g.cursor },
            pending_wrap: false,
            ..g
        }
    } else if !g.wrap {
        GridState {
            cursor: Cursor { x: last_index(g.width), ..g.cursor },
            pending_wrap: false,
            ..g
        }
    } else {
        GridState { cursor: Cursor { x: last_index(g.width), ..g.cursor }, pending_wrap: true, ..g }
    };
    note_cursor(moved, g.cursor)
}

impl Grid {
    pub closed spec fn wf(&self) -> bool {
        &&& state_wf(self@)
        &&& self.rows@.len() == self.height
        &&& forall|y: int| 0 <= y < self.rows@.len() ==> #[trigger] self.rows@[y]@.len() == self.width
        &&& self.damage.wf()
    }

    /// A well-formed grid has a consistent abstract state.
    pub proof fn lemma_wf_state(&self)
        requires
            self.wf(),
        ensures
            state_wf(self@),
    {
    }

    proof fn lemma_wf_rows(&self)
        requires
            self.wf(),
        ensures
            forall|y: int| 0 <= y < self.height ==> #[trigger] self.rows@[y]@ == self@.rows[y],
            self@.rows.len() == self.height,
    {
    }

    pub fn new(width: u16, height: u16) -> (r: Self)
        ensures
            r.wf(),
            r@ == new_state(width, height),
    {
        let mut damage = DamageTracker::new();
        damage.mark(DamageRegion::Viewport);
        let mut rows: Vec<Vec<Cell>> = Vec::new();
        let mut y: u16 = 0;
        while y < height
            invariant
                y <= height,
                rows@.len() == y,
                forall|i: int| 0 <= i < y ==> #[trigger] rows@[i]@ == blank_row(width),
            decreases height - y,
        {
            rows.push(new_blank_row(width));
            y = y + 1;
        }
        let r = Grid {
            width,
            height,
            rows,
            cursor: Cursor { x: 0, y: 0, visible: true, shape: CursorShape::Block },
            synchronized: false,
            scroll_top: 0,
            scroll_bottom: height.saturating_sub(1),
            wrap: true,
            pending_wrap: false,
            scrolled_rows: Vec::new(),
            scrolled_row_pool: Vec::new(),
            generation: 1,
            damage,
        };
        assert(r@.rows =~= new_state(width, height).rows);
        r
    }

    pub fn width(&self) -> (r: u16)
        ensures
            r == self@.width,
    {
        self.width
    }

    pub fn height(&self) -> (r: u16)
        ensures
            r == self@.height,
    {
        self.height
    }

    pub fn generation(&self) -> (r: Generation)
        ensures
            r == self@.generation,
    {
        self.generation
    }

    pub fn cursor(&self) -> (r: Cursor)
        ensures
            r == self@.cursor,
    {
        self.cursor
    }

    pub fn is_synchronized(&self) -> (r: bool)
        ensures
            r == self@.synchronized,
    {
        self.synchronized
    }

    /// The cell at `(x, y)`, if that is on screen.
    pub fn cell(&self, x: u16, y: u16) -> (r: Option<Cell>)
        requires
            self.wf(),
        ensures
            r == (if x < self@.width && y < self@.height {
                Some(self@.rows[y as int][x as int])
            } else {
                None
            }),
    {
        if x < self.width && y < self.height {
            proof {
                self.lemma_wf_rows();
            }
            Some(self.rows[y as usize][x as usize])
        } else {
            None
        }
    }

    /// All visible cells, row by row.
    pub fn visible_cells(&self) -> (r: Vec<Cell>)
        requires
            self.wf(),
        ensures
            r@.len() == self@.width * self@.height,
            forall|y: int, x: int|
                0 <= y < self@.height && 0 <= x < self@.width ==> r@[y * self@.width + x]
                    == self@.rows[y][x],
    {
        let mut out: Vec<Cell> = Vec::new();
        let mut y: usize = 0;
        let width = self.width as usize;
        proof {
            self.lemma_wf_rows();
        }
        while y < self.rows.len()
            invariant
                self.wf(),
                width == self@.width,
                y <= self@.height,
                out@.len() == y * width,
                forall|yy: int, x: int|
                    0 <= yy < y && 0 <= x < width ==> out@[yy * width + x] == self@.rows[yy][x],
            decreases self@.height - y,
        {
            proof {
                self.lemma_wf_rows();
            }
            let row = &self.rows[y];
            let mut x: usize = 0;
            let ghost base = out@.len();
            while x < row.len()
                invariant
                    self.wf(),
                    row@ == self@.rows[y as int],
                    row@.len() == width,
                    width == self@.width,
                    y < self@.height,
                    x <= width,
                    base == y * width,
                    out@.len() == base + x,
                    forall|yy: int, xx: int|
                        0 <= yy < y && 0 <= xx < width ==> out@[yy * width + xx]
                            == self@.rows[yy][xx],
                    forall|xx: int| 0 <= xx < x ==> out@[base + xx] == self@.rows[y as int][xx],
                decreases width - x,
            {
                out.push(row[x]);
                x = x + 1;
                proof {
                    assert forall|yy: int, xx: int|
                        0 <= yy < y && 0 <= xx < width implies out@[yy * width + xx]
                        == self@.rows[yy][xx] by {
                        assert(yy * width + xx < y * width) by (nonlinear_arith)
                            requires
                                0 <= yy < y,
                                0 <= xx < width,
                        ;
                    }
                }
            }
            proof {
                assert((y + 1) * width == y * width + width) by (nonlinear_arith);
                assert forall|yy: int, xx: int|
                    0 <= yy < y + 1 && 0 <= xx < width implies out@[yy * width + xx]
                    == self@.rows[yy][xx] by {
                    if yy == y {
                    } else {
                        assert(yy * width + xx < y * width) by (nonlinear_arith)
                            requires
                                0 <= yy < y,
                                0 <= xx < width,
                        ;
                    }
                }
            }
            y = y + 1;
        }
        proof {
            let w = self@.width as int;
            let h = self@.height as int;
            assert(h * w == w * h) by (nonlinear_arith);
        }
        out
    }

    /// The cells of row `y`, if that row is on screen.
    pub fn row(&self, y: u16) -> (r: Option<&[Cell]>)
        requires
            self.wf(),
        ensures
            y < self@.height ==> (r matches Some(s) && s@ == self@.rows[y as int]),
            y >= self@.height ==> r is None,
    {
        if y >= self.height {
            return None;
        }
        proof {
            self.lemma_wf_rows();
        }
        Some(self.rows[y as usize].as_slice())
    }

    pub fn set_synchronized(&mut self, synchronized: bool)
        requires
            old(self).wf(),
        ensures
            final(self).wf(),
            final(self)@.generation >= old(self)@.generation,
            grid_whole(old(self)@) && old(self)@.width >= 2 && old(self)@.height >= 1 ==> grid_whole(final(self)@),
            generation_follows(old(self)@, final(self)@),
            old(self)@.width >= 1 && old(self)@.height >= 1 ==> final(self)@.width >= 1 && final(self)@.height >= 1,
            final(self)@.width == old(self)@.width,
            final(self)@.height == old(self)@.height,
            final(self)@ == (GridState { synchronized, ..old(self)@ }),
    {
        self.synchronized = synchronized;
    }

    pub fn set_wrap(&mut self, enabled: bool)
        requires
            old(self).wf(),
        ensures
            final(self).wf(),
            final(self)@.generation >= old(self)@.generation,
            grid_whole(old(self)@) && old(self)@.width >= 2 && old(self)@.height >= 1 ==> grid_whole(final(self)@),
            generation_follows(old(self)@, final(self)@),
            old(self)@.width >= 1 && old(self)@.height >= 1 ==> final(self)@.width >= 1 && final(self)@.height >= 1,
            final(self)@.width == old(self)@.width,
            final(self)@.height == old(self)@.height,
            final(self)@ == (GridState {
                wrap: enabled,
                pending_wrap: if enabled {
                    old(self)@.pending_wrap
                } else {
                    false
                },
                ..old(self)@
            }),
    {
        self.wrap = enabled;
        if !enabled {
            self.pending_wrap = false;
        }
    }

    pub fn move_cursor(&mut self, x: u16, y: u16) -> (r: Option<(Cursor, Cursor)>)
        requires
            old(self).wf(),
        ensures
            final(self).wf(),
            final(self)@.generation >= old(self)@.generation,
            grid_whole(old(self)@) && old(self)@.width >= 2 && old(self)@.height >= 1 ==> grid_whole(final(self)@),
            generation_follows(old(self)@, final(self)@),
            old(self)@.width >= 1 && old(self)@.height >= 1 ==> final(self)@.width >= 1 && final(self)@.height >= 1,
            final(self)@.width == old(self)@.width,
            final(self)@.height == old(self)@.height,
            final(self)@ == move_cursor_state(old(self)@, x, y),
            r == (if clamped_cursor(old(self)@, x, y) == old(self)@.cursor {
                None
            } else {
                Some((old(self)@.cursor, clamped_cursor(old(self)@, x, y)))
            }),
    {
        let new = Cursor {
            x: if x <= self.width.saturating_sub(1) {
                x
            } else {
                self.width.saturating_sub(1)
            },
            y: if y <= self.height.saturating_sub(1) {
                y
            } else {
                self.height.saturating_sub(1)
            },
            visible: self.cursor.visible,
            shape: self.cursor.shape,
        };
        if new == self.cursor {
            return None;
        }
        let old = self.cursor;
        self.cursor = new;
        self.pending_wrap = false;
        self.generation = self.generation.saturating_add(1);
        self.damage.mark(
            DamageRegion::Cursor { old: Some((old.x, old.y)), new: (new.x, new.y) },
        );
        Some((old, new))
    }

    pub fn move_cursor_relative(&mut self, dx: i16, dy: i16) -> (r: Option<(Cursor, Cursor)>)
        requires
            old(self).wf(),
        ensures
            final(self).wf(),
            final(self)@.generation >= old(self)@.generation,
            grid_whole(old(self)@) && old(self)@.width >= 2 && old(self)@.height >= 1 ==> grid_whole(final(self)@),
            generation_follows(old(self)@, final(self)@),
            old(self)@.width >= 1 && old(self)@.height >= 1 ==> final(self)@.width >= 1 && final(self)@.height >= 1,
            final(self)@.width == old(self)@.width,
            final(self)@.height == old(self)@.height,
            final(self)@ == move_cursor_relative_state(old(self)@, dx, dy),
            ({
                let target = clamped_cursor(
                    old(self)@,
                    spec_clamp_add(old(self)@.cursor.x, dx, old(self)@.width),
                    spec_clamp_add(old(self)@.cursor.y, dy, old(self)@.height),
                );
                r == (if target == old(self)@.cursor {
                    None
                } else {
                    Some((old(self)@.cursor, target))
                })
            }),
    {
        let x = clamp_add(self.cursor.x, dx, self.width);
        let y = clamp_add(self.cursor.y, dy, self.height);
        self.move_cursor(x, y)
    }

    pub fn set_cursor_visible(&mut self, visible: bool)
        requires
            old(self).wf(),
        ensures
            final(self).wf(),
            final(self)@.generation >= old(self)@.generation,
            grid_whole(old(self)@) && old(self)@.width >= 2 && old(self)@.height >= 1 ==> grid_whole(final(self)@),
            generation_follows(old(self)@, final(self)@),
            old(self)@.width >= 1 && old(self)@.height >= 1 ==> final(self)@.width >= 1 && final(self)@.height >= 1,
            final(self)@.width == old(self)@.width,
            final(self)@.height == old(self)@.height,
            final(self)@ == cursor_visible_state(old(self)@, visible),
    {
        if self.cursor.visible == visible {
            return;
        }
        let old = self.cursor;
        self.cursor.visible = visible;
        self.generation = self.generation.saturating_add(1);
        self.damage.mark(
            DamageRegion::Cursor { old: Some((old.x, old.y)), new: (self.cursor.x, self.cursor.y) },
        );
    }

    pub fn set_cursor_shape(&mut self, shape: CursorShape)
        requires
            old(self).wf(),
        ensures
            final(self).wf(),
            final(self)@.generation >= old(self)@.generation,
            grid_whole(old(self)@) && old(self)@.width >= 2 && old(self)@.height >= 1 ==> grid_whole(final(self)@),
            generation_follows(old(self)@, final(self)@),
            old(self)@.width >= 1 && old(self)@.height >= 1 ==> final(self)@.width >= 1 && final(self)@.height >= 1,
            final(self)@.width == old(self)@.width,
            final(self)@.height == old(self)@.height,
            final(self)@ == cursor_shape_state(old(self)@, shape),
    {
        if self.cursor.shape == shape {
            return;
        }
        let old = self.cursor;
        self.cursor.shape = shape;
        self.generation = self.generation.saturating_add(1);
        self.damage.mark(
            DamageRegion::Cursor { old: Some((old.x, old.y)), new: (self.cursor.x, self.cursor.y) },
        );
    }

    pub fn set_scroll_region(&mut self, top: u16, bottom: u16)
        requires
            old(self).wf(),
        ensures
            final(self).wf(),
            final(self)@.generation >= old(self)@.generation,
            grid_whole(old(self)@) && old(self)@.width >= 2 && old(self)@.height >= 1 ==> grid_whole(final(self)@),
            generation_follows(old(self)@, final(self)@),
            old(self)@.width >= 1 && old(self)@.height >= 1 ==> final(self)@.width >= 1 && final(self)@.height >= 1,
            final(self)@.width == old(self)@.width,
            final(self)@.height == old(self)@.height,
            final(self)@ == set_scroll_region_state(old(self)@, top, bottom),
    {
        let last = self.height.saturating_sub(1);
        let top = if top <= last {
            top
        } else {
            last
        };
        let bottom = if bottom <= last {
            bottom
        } else {
            last
        };
        if top < bottom {
            self.scroll_top = top;
            self.scroll_bottom = bottom;
            let _ = self.move_cursor(0, 0);
        } else {
            self.reset_scroll_region();
        }
    }

    pub fn reset_scroll_region(&mut self)
        requires
            old(self).wf(),
        ensures
            final(self).wf(),
            final(self)@.generation >= old(self)@.generation,
            grid_whole(old(self)@) && old(self)@.width >= 2 && old(self)@.height >= 1 ==> grid_whole(final(self)@),
            generation_follows(old(self)@, final(self)@),
            old(self)@.width >= 1 && old(self)@.height >= 1 ==> final(self)@.width >= 1 && final(self)@.height >= 1,
            final(self)@.width == old(self)@.width,
            final(self)@.height == old(self)@.height,
            final(self)@ == reset_scroll_region_state(old(self)@),
    {
        self.scroll_top = 0;
        self.scroll_bottom = self.height.saturating_sub(1);
    }

    /// Marks the whole viewport damaged.
    pub fn invalidate(&mut self)
        requires
            old(self).wf(),
        ensures
            final(self).wf(),
            final(self)@.generation >= old(self)@.generation,
            grid_whole(old(self)@) && old(self)@.width >= 2 && old(self)@.height >= 1 ==> grid_whole(final(self)@),
            generation_follows(old(self)@, final(self)@),
            old(self)@.width >= 1 && old(self)@.height >= 1 ==> final(self)@.width >= 1 && final(self)@.height >= 1,
            final(self)@.width == old(self)@.width,
            final(self)@.height == old(self)@.height,
            final(self)@ == viewport_damage(old(self)@),
    {
        self.generation = self.generation.saturating_add(1);
        self.damage.mark(DamageRegion::Viewport);
    }

    pub fn drain_damage(&mut self) -> (batch: DamageBatch)
        requires
            old(self).wf(),
        ensures
            final(self).wf(),
            final(self)@.generation >= old(self)@.generation,
            grid_whole(old(self)@) && old(self)@.width >= 2 && old(self)@.height >= 1 ==> grid_whole(final(self)@),
            generation_follows(old(self)@, final(self)@),
            old(self)@.width >= 1 && old(self)@.height >= 1 ==> final(self)@.width >= 1 && final(self)@.height >= 1,
            final(self)@.width == old(self)@.width,
            final(self)@.height == old(self)@.height,
            final(self)@ == (GridState { damage: empty_state(), ..old(self)@ }),
            batch.generation == old(self)@.generation,
            batch.regions@ == drained_regions(old(self)@.damage),
    {
        self.damage.drain(self.generation)
    }

    fn mark_line_damage(&mut self, y: u16, x: u16, width: u16)
        requires
            old(self).wf(),
        ensures
            final(self).wf(),
            final(self)@.generation >= old(self)@.generation,
            final(self)@ == line_damage(old(self)@, y, x, width),
    {
        let amount: u64 = if width >= 1 {
            width as u64
        } else {
            1
        };
        self.generation = self.generation.saturating_add(amount);
        self.damage.mark(DamageRegion::Cells { x, y, width, height: 1 });
    }

    /// A blank row, built in a recycled buffer when one is at hand.
    fn take_blank_row(&mut self) -> (r: Vec<Cell>)
        requires
            old(self).wf(),
        ensures
            final(self).wf(),
            final(self)@.generation >= old(self)@.generation,
            r@ == blank_row(old(self)@.width),
            final(self)@ == (GridState {
                pool_len: (old(self)@.pool_len - min_nat(1, old(self)@.pool_len)) as nat,
                ..old(self)@
            }),
    {
        let mut row = match self.scrolled_row_pool.pop() {
            Some(buffer) => buffer,
            None => Vec::new(),
        };
        row.clear();
        let mut x: u16 = 0;
        while x < self.width
            invariant
                x <= self.width,
                row@.len() == x,
                forall|i: int| 0 <= i < x ==> #[trigger] row@[i] == blank_cell(),
            decreases self.width - x,
        {
            row.push(Cell::default());
            x = x + 1;
        }
        assert(row@ =~= blank_row(self.width));
        row
    }

    fn shift_lines(&mut self, top: u16, bottom: u16, count: u16, down: bool)
        requires
            old(self).wf(),
        ensures
            final(self).wf(),
            final(self)@.generation >= old(self)@.generation,
            final(self)@ == shift_lines_state(old(self)@, top, bottom, count, down),
    {
        if top < self.scroll_top || bottom > self.scroll_bottom || top > bottom {
            return;
        }
        let span = bottom - top + 1;
        let n = if count <= span {
            count
        } else {
            span
        };
        if n == 0 {
            return;
        }
        let full = !down && top == 0 && bottom == self.height.saturating_sub(1);
        let ghost old_rows = self@.rows;
        let ghost old_scrolled = self@.scrolled;
        let ghost old_pool = self@.pool_len;
        let ghost w = self.width;
        if self.height > 0 {
            let mut i: u16 = 0;
            while i < n
                invariant
                    self.wf() || true,
                    i <= n,
                    n <= span,
                    span == bottom - top + 1,
                    top <= bottom,
                    bottom < self.height,
                    self.width == w,
                    self.height == old(self).height,
                    self.rows@.len() == self.height,
                    forall|y: int|
                        0 <= y < self.rows@.len() ==> #[trigger] self.rows@[y]@.len() == self.width,
                    rows_view(self.rows@) == shifted_rows(
                        old_rows,
                        w,
                        top as int,
                        bottom as int,
                        i as int,
                        down,
                    ),
                    old_rows.len() == self.height,
                    forall|y: int| 0 <= y < old_rows.len() ==> #[trigger] old_rows[y].len() == w,
                    full == (!down && top == 0 && bottom == last_index(self.height)),
                    rows_view(self.scrolled_rows@) == if full {
                        old_scrolled + scrolled_off(old_rows, i as int)
                    } else {
                        old_scrolled
                    },
                    self.scrolled_row_pool@.len() == old_pool - min_nat(i as nat, old_pool),
                    old_pool <= SCROLLED_ROW_POOL_LIMIT,
                    self.width == old(self).width,
                    self.cursor == old(self).cursor,
                    self.synchronized == old(self).synchronized,
                    self.scroll_top == old(self).scroll_top,
                    self.scroll_bottom == old(self).scroll_bottom,
                    self.wrap == old(self).wrap,
                    self.pending_wrap == old(self).pending_wrap,
                    self.generation == old(self).generation,
                    self.damage == old(self).damage,
                decreases n - i,
            {
                let blank = self.take_blank_row_raw();
                let ghost before_vec = self.rows@;
                let ghost before = rows_view(self.rows@);
                let ghost blank_view = blank@;
                if down {
                    let _ = self.rows.remove(bottom as usize);
                    self.rows.insert(top as usize, blank);
                    proof {
                        lemma_remove_insert_down(before_vec, top as int, bottom as int, blank);
                    }
                } else {
                    let mut removed = self.rows.remove(top as usize);
                    self.rows.insert(bottom as usize, blank);
                    proof {
                        lemma_remove_insert_up(before_vec, top as int, bottom as int, blank);
                    }
                    if full {
                        proof {
                            assert(removed@ == before[0]);
                            assert(before[0] == old_rows[i as int]);
                        }
                        let ghost prev_scrolled = self.scrolled_rows@;
                        trim_row_in_place(&mut removed);
                        self.scrolled_rows.push(removed);
                        proof {
                            assert(rows_view(self.scrolled_rows@) =~= rows_view(prev_scrolled).push(
                                trim_row(old_rows[i as int]),
                            ));
                            assert(scrolled_off(old_rows, i + 1) =~= scrolled_off(
                                old_rows,
                                i as int,
                            ).push(trim_row(old_rows[i as int])));
                            assert(rows_view(self.scrolled_rows@) =~= old_scrolled + scrolled_off(
                                old_rows,
                                i + 1,
                            ));
                        }
                    }
                }
                proof {
                    assert(blank_view == blank_row(w));
                    let target = shifted_rows(old_rows, w, top as int, bottom as int, i + 1, down);
                    assert forall|y: int| 0 <= y < self.rows@.len() implies #[trigger] rows_view(
                        self.rows@,
                    )[y] == target[y] by {
                        assert(before[y] == shifted_rows(
                            old_rows,
                            w,
                            top as int,
                            bottom as int,
                            i as int,
                            down,
                        )[y]);
                        if !down && top <= y < bottom {
                            assert(before[y + 1] == shifted_rows(
                                old_rows,
                                w,
                                top as int,
                                bottom as int,
                                i as int,
                                down,
                            )[y + 1]);
                        }
                        if down && top < y <= bottom {
                            assert(before[y - 1] == shifted_rows(
                                old_rows,
                                w,
                                top as int,
                                bottom as int,
                                i as int,
                                down,
                            )[y - 1]);
                        }
                    }
                    assert(rows_view(self.rows@) =~= target);
                    assert forall|y: int| 0 <= y < self.rows@.len() implies #[trigger] self.rows@[
                        y
                    ]@.len() == self.width by {
                        assert(rows_view(self.rows@)[y] == self.rows@[y]@);
                    }
                }
                i = i + 1;
            }
        }
        proof {
            if self.height == 0 {
                assert(rows_view(self.rows@) =~= shifted_rows(
                    old_rows,
                    w,
                    top as int,
                    bottom as int,
                    n as int,
                    down,
                ));
                assert(scrolled_off(old_rows, 0) =~= Seq::<Seq<Cell>>::empty());
                assert(old_scrolled + scrolled_off(old_rows, 0) =~= old_scrolled);
            }
        }
        self.generation = self.generation.saturating_add(1);
        self.damage.mark(DamageRegion::Scroll { top, bottom, count: n, down });
    }

    /// `take_blank_row` for callers that hold the grid only partly consistent.
    fn take_blank_row_raw(&mut self) -> (r: Vec<Cell>)
        ensures
            r@ == blank_row(old(self).width),
            final(self).scrolled_row_pool@.len() == old(self).scrolled_row_pool@.len() - min_nat(
                1,
                old(self).scrolled_row_pool@.len(),
            ),
            final(self).rows == old(self).rows,
            final(self).scrolled_rows == old(self).scrolled_rows,
            final(self).width == old(self).width,
            final(self).height == old(self).height,
            final(self).cursor == old(self).cursor,
            final(self).synchronized == old(self).synchronized,
            final(self).scroll_top == old(self).scroll_top,
            final(self).scroll_bottom == old(self).scroll_bottom,
            final(self).wrap == old(self).wrap,
            final(self).pending_wrap == old(self).pending_wrap,
            final(self).generation == old(self).generation,
            final(self).damage == old(self).damage,
    {
        let mut row = match self.scrolled_row_pool.pop() {
            Some(buffer) => buffer,
            None => Vec::new(),
        };
        row.clear();
        let mut x: u16 = 0;
        while x < self.width
            invariant
                x <= self.width,
                row@.len() == x,
                forall|i: int| 0 <= i < x ==> #[trigger] row@[i] == blank_cell(),
            decreases self.width - x,
        {
            row.push(Cell::default());
            x = x + 1;
        }
        assert(row@ =~= blank_row(self.width));
        row
    }

    pub fn delete_lines(&mut self, count: u16)
        requires
            old(self).wf(),
        ensures
            final(self).wf(),
            final(self)@.generation >= old(self)@.generation,
            grid_whole(old(self)@) && old(self)@.width >= 2 && old(self)@.height >= 1 ==> grid_whole(final(self)@),
            generation_follows(old(self)@, final(self)@),
            old(self)@.width >= 1 && old(self)@.height >= 1 ==> final(self)@.width >= 1 && final(self)@.height >= 1,
            final(self)@.width == old(self)@.width,
            final(self)@.height == old(self)@.height,
            final(self)@ == delete_lines_state(old(self)@, count),
    {
        self.shift_lines(self.cursor.y, self.scroll_bottom, count, false);
    }

    pub fn insert_blank_lines(&mut self, count: u16)
        requires
            old(self).wf(),
        ensures
            final(self).wf(),
            final(self)@.generation >= old(self)@.generation,
            grid_whole(old(self)@) && old(self)@.width >= 2 && old(self)@.height >= 1 ==> grid_whole(final(self)@),
            generation_follows(old(self)@, final(self)@),
            old(self)@.width >= 1 && old(self)@.height >= 1 ==> final(self)@.width >= 1 && final(self)@.height >= 1,
            final(self)@.width == old(self)@.width,
            final(self)@.height == old(self)@.height,
            final(self)@ == insert_blank_lines_state(old(self)@, count),
    {
        self.shift_lines(self.cursor.y, self.scroll_bottom, count, true);
    }

    pub fn scroll_up(&mut self, count: u16)
        requires
            old(self).wf(),
        ensures
            final(self).wf(),
            final(self)@.generation >= old(self)@.generation,
            grid_whole(old(self)@) && old(self)@.width >= 2 && old(self)@.height >= 1 ==> grid_whole(final(self)@),
            generation_follows(old(self)@, final(self)@),
            old(self)@.width >= 1 && old(self)@.height >= 1 ==> final(self)@.width >= 1 && final(self)@.height >= 1,
            final(self)@.width == old(self)@.width,
            final(self)@.height == old(self)@.height,
            final(self)@ == scroll_up_state(old(self)@, count),
    {
        self.shift_lines(self.scroll_top, self.scroll_bottom, count, false);
    }

    pub fn scroll_down(&mut self, count: u16)
        requires
            old(self).wf(),
        ensures
            final(self).wf(),
            final(self)@.generation >= old(self)@.generation,
            grid_whole(old(self)@) && old(self)@.width >= 2 && old(self)@.height >= 1 ==> grid_whole(final(self)@),
            generation_follows(old(self)@, final(self)@),
            old(self)@.width >= 1 && old(self)@.height >= 1 ==> final(self)@.width >= 1 && final(self)@.height >= 1,
            final(self)@.width == old(self)@.width,
            final(self)@.height == old(self)@.height,
            final(self)@ == scroll_down_state(old(self)@, count),
    {
        self.shift_lines(self.scroll_top, self.scroll_bottom, count, true);
    }

    fn line_feed(&mut self)
        requires
            old(self).wf(),
        ensures
            final(self).wf(),
            final(self)@.generation >= old(self)@.generation,
            final(self)@ == line_feed_state(old(self)@),
    {
        let old = self.cursor;
        self.pending_wrap = false;
        if self.cursor.y == self.scroll_bottom {
            self.scroll_up(1);
        } else {
            let next = self.cursor.y + 1;
            let last = self.height - 1;
            self.cursor.y = if next <= last {
                next
            } else {
                last
            };
        }
        if old != self.cursor {
            self.generation = self.generation.saturating_add(1);
            self.damage.mark(
                DamageRegion::Cursor {
                    old: Some((old.x, old.y)),
                    new: (self.cursor.x, self.cursor.y),
                },
            );
        }
    }

    pub fn carriage_return_line_feed(&mut self)
        requires
            old(self).wf(),
        ensures
            final(self).wf(),
            final(self)@.generation >= old(self)@.generation,
            grid_whole(old(self)@) && old(self)@.width >= 2 && old(self)@.height >= 1 ==> grid_whole(final(self)@),
            generation_follows(old(self)@, final(self)@),
            old(self)@.width >= 1 && old(self)@.height >= 1 ==> final(self)@.width >= 1 && final(self)@.height >= 1,
            final(self)@.width == old(self)@.width,
            final(self)@.height == old(self)@.height,
            final(self)@ == crlf_state(old(self)@),
    {
        let old = self.cursor;
        self.pending_wrap = false;
        self.cursor.x = 0;
        if self.cursor.y == self.scroll_bottom {
            self.scroll_up(1);
        } else {
            let next = self.cursor.y + 1;
            let last = self.height - 1;
            self.cursor.y = if next <= last {
                next
            } else {
                last
            };
        }
        if old != self.cursor {
            self.generation = self.generation.saturating_add(1);
            self.damage.mark(
                DamageRegion::Cursor {
                    old: Some((old.x, old.y)),
                    new: (self.cursor.x, self.cursor.y),
                },
            );
        }
    }

    fn print_linewrap(&mut self)
        requires
            old(self).wf(),
        ensures
            final(self).wf(),
            final(self)@.generation >= old(self)@.generation,
            final(self)@ == linewrap_state(old(self)@),
    {
        if !self.pending_wrap {
            return;
        }
        self.carriage_return_line_feed();
    }

    pub fn reverse_index(&mut self)
        requires
            old(self).wf(),
        ensures
            final(self).wf(),
            final(self)@.generation >= old(self)@.generation,
            grid_whole(old(self)@) && old(self)@.width >= 2 && old(self)@.height >= 1 ==> grid_whole(final(self)@),
            generation_follows(old(self)@, final(self)@),
            old(self)@.width >= 1 && old(self)@.height >= 1 ==> final(self)@.width >= 1 && final(self)@.height >= 1,
            final(self)@.width == old(self)@.width,
            final(self)@.height == old(self)@.height,
            final(self)@ == reverse_index_state(old(self)@),
    {
        let old = self.cursor;
        self.pending_wrap = false;
        if self.cursor.y == self.scroll_top {
            self.scroll_down(1);
        } else {
            self.cursor.y = self.cursor.y.saturating_sub(1);
        }
        if old != self.cursor {
            self.generation = self.generation.saturating_add(1);
            self.damage.mark(
                DamageRegion::Cursor {
                    old: Some((old.x, old.y)),
                    new: (self.cursor.x, self.cursor.y),
                },
            );
        }
    }

    /// Hands out the rows that scrolled off the screen since the last call.
    pub fn drain_scrolled_rows(&mut self) -> (r: Vec<Vec<Cell>>)
        requires
            old(self).wf(),
        ensures
            final(self).wf(),
            final(self)@.generation >= old(self)@.generation,
            grid_whole(old(self)@) && old(self)@.width >= 2 && old(self)@.height >= 1 ==> grid_whole(final(self)@),
            generation_follows(old(self)@, final(self)@),
            old(self)@.width >= 1 && old(self)@.height >= 1 ==> final(self)@.width >= 1 && final(self)@.height >= 1,
            final(self)@.width == old(self)@.width,
            final(self)@.height == old(self)@.height,
            rows_view(r@) == old(self)@.scrolled,
            final(self)@ == (GridState { scrolled: Seq::empty(), ..old(self)@ }),
    {
        let mut rows = Vec::new();
        std::mem::swap(&mut rows, &mut self.scrolled_rows);
        assert(rows_view(self.scrolled_rows@) =~= Seq::<Seq<Cell>>::empty());
        rows
    }

    /// Keeps the buffers of `rows` for reuse, up to `SCROLLED_ROW_POOL_LIMIT` of them.
    pub fn recycle_scrolled_rows(&mut self, rows: Vec<Vec<Cell>>)
        requires
            old(self).wf(),
        ensures
            final(self).wf(),
            final(self)@.generation >= old(self)@.generation,
            grid_whole(old(self)@) && old(self)@.width >= 2 && old(self)@.height >= 1 ==> grid_whole(final(self)@),
            generation_follows(old(self)@, final(self)@),
            old(self)@.width >= 1 && old(self)@.height >= 1 ==> final(self)@.width >= 1 && final(self)@.height >= 1,
            final(self)@.width == old(self)@.width,
            final(self)@.height == old(self)@.height,
            final(self)@ == (GridState {
                pool_len: min_nat(
                    old(self)@.pool_len + rows@.len(),
                    SCROLLED_ROW_POOL_LIMIT as nat,
                ),
                ..old(self)@
            }),
    {
        let mut pending = rows;
        let ghost total = pending@.len();
        let ghost start = self@.pool_len;
        let mut taken: usize = 0;
        while pending.len() > 0
            invariant
                self.wf(),
                total == rows@.len(),
                start == old(self)@.pool_len,
                pending@.len() + taken == total,
                self@ == (GridState {
                    pool_len: min_nat(start + taken as nat, SCROLLED_ROW_POOL_LIMIT as nat),
                    ..old(self)@
                }),
            decreases pending@.len(),
        {
            if self.scrolled_row_pool.len() >= SCROLLED_ROW_POOL_LIMIT {
                proof {
                    assert(start + taken >= SCROLLED_ROW_POOL_LIMIT);
                    assert(self@ =~= (GridState {
                        pool_len: min_nat(start + total, SCROLLED_ROW_POOL_LIMIT as nat),
                        ..old(self)@
                    }));
                }
                return;
            }
            let mut row = pending.pop().unwrap();
            row.clear();
            self.scrolled_row_pool.push(row);
            taken = taken + 1;
        }
    }

    /// Fills the screen with `E` (the DEC alignment test).
    pub fn screen_alignment(&mut self, style: Style)
        requires
            old(self).wf(),
        ensures
            final(self).wf(),
            final(self)@.generation >= old(self)@.generation,
            grid_whole(old(self)@) && old(self)@.width >= 2 && old(self)@.height >= 1 ==> grid_whole(final(self)@),
            generation_follows(old(self)@, final(self)@),
            old(self)@.width >= 1 && old(self)@.height >= 1 ==> final(self)@.width >= 1 && final(self)@.height >= 1,
            final(self)@.width == old(self)@.width,
            final(self)@.height == old(self)@.height,
            final(self)@ == screen_alignment_state(old(self)@, style),
    {
        let cell = Cell { ch: 'E', style, wide: false, spacer: false };
        let mut rows: Vec<Vec<Cell>> = Vec::new();
        let mut y: u16 = 0;
        while y < self.height
            invariant
                y <= self.height,
                rows@.len() == y,
                cell == alignment_cell(style),
                forall|i: int|
                    0 <= i < y ==> #[trigger] rows@[i]@ == Seq::new(
                        self.width as nat,
                        |x: int| alignment_cell(style),
                    ),
            decreases self.height - y,
        {
            let mut row: Vec<Cell> = Vec::new();
            let mut x: u16 = 0;
            while x < self.width
                invariant
                    x <= self.width,
                    row@.len() == x,
                    cell == alignment_cell(style),
                    forall|i: int| 0 <= i < x ==> #[trigger] row@[i] == alignment_cell(style),
                decreases self.width - x,
            {
                row.push(cell);
                x = x + 1;
            }
            assert(row@ =~= Seq::new(self.width as nat, |x: int| alignment_cell(style)));
            rows.push(row);
            y = y + 1;
        }
        self.rows = rows;
        assert(rows_view(self.rows@) =~= screen_alignment_state(old(self)@, style).rows);
        self.generation = self.generation.saturating_add(1);
        self.damage.mark(DamageRegion::Viewport);
    }

    /// Takes row `y` out of the grid, leaving an empty row in its place.
    fn take_row(&mut self, y: usize) -> (row: Vec<Cell>)
        requires
            y < old(self).rows@.len(),
        ensures
            row@ == old(self).rows@[y as int]@,
            final(self).rows@.len() == old(self).rows@.len(),
            forall|i: int|
                0 <= i < old(self).rows@.len() && i != y ==> #[trigger] final(self).rows@[i]
                    == old(self).rows@[i],
            final(self).width == old(self).width,
            final(self).height == old(self).height,
            final(self).cursor == old(self).cursor,
            final(self).synchronized == old(self).synchronized,
            final(self).scroll_top == old(self).scroll_top,
            final(self).scroll_bottom == old(self).scroll_bottom,
            final(self).wrap == old(self).wrap,
            final(self).pending_wrap == old(self).pending_wrap,
            final(self).scrolled_rows == old(self).scrolled_rows,
            final(self).scrolled_row_pool == old(self).scrolled_row_pool,
            final(self).generation == old(self).generation,
            final(self).damage == old(self).damage,
    {
        let mut row = Vec::new();
        std::mem::swap(&mut row, &mut self.rows[y]);
        row
    }

    /// Puts `row` back as row `y`.
    fn put_row(&mut self, y: usize, row: Vec<Cell>)
        requires
            y < old(self).rows@.len(),
            row@.len() == old(self).width,
            old(self).rows@.len() == old(self).height,
            forall|i: int|
                0 <= i < old(self).rows@.len() && i != y ==> #[trigger] old(self).rows@[i]@.len()
                    == old(self).width,
            state_wf(GridState { rows: rows_view(old(self).rows@).update(y as int, row@), ..old(self)@ }),
            old(self).damage.wf(),
        ensures
            final(self).wf(),
            final(self)@.generation >= old(self)@.generation,
            final(self)@ == (GridState { rows: rows_view(old(self).rows@).update(y as int, row@), ..old(self)@ }),
    {
        let ghost before = self.rows@;
        self.rows.set(y, row);
        assert(rows_view(self.rows@) =~= rows_view(before).update(y as int, row@));
    }

    fn fill_line_range(&mut self, y: u16, x_start: u16, x_end: u16)
        requires
            old(self).wf(),
            x_end <= old(self)@.width,
        ensures
            final(self).wf(),
            final(self)@.generation >= old(self)@.generation,
            final(self)@ == fill_line_range_state(old(self)@, y, x_start, x_end),
    {
        if y >= self.height || x_start >= x_end {
            return;
        }
        proof {
            self.lemma_wf_rows();
        }
        let mut row = self.take_row(y as usize);
        let end = if x_end <= self.width {
            x_end
        } else {
            self.width
        };
        let changed = row::clear_range(&mut row, x_start as usize, end as usize);
        self.put_row(y as usize, row);
        if changed {
            self.mark_line_damage(y, x_start, x_end.saturating_sub(x_start));
        }
    }

    pub fn erase_chars(&mut self, count: u16)
        requires
            old(self).wf(),
        ensures
            final(self).wf(),
            final(self)@.generation >= old(self)@.generation,
            grid_whole(old(self)@) && old(self)@.width >= 2 && old(self)@.height >= 1 ==> grid_whole(final(self)@),
            generation_follows(old(self)@, final(self)@),
            old(self)@.width >= 1 && old(self)@.height >= 1 ==> final(self)@.width >= 1 && final(self)@.height >= 1,
            final(self)@.width == old(self)@.width,
            final(self)@.height == old(self)@.height,
            final(self)@ == erase_chars_state(old(self)@, count),
    {
        proof {
            if grid_whole(self@) && self@.width >= 2 && self@.height >= 1 {
                assert(grid_shape(self@));
                lemma_clear_whole(self@, 0, 0, 0, count, EraseMode::All);
            }
        }
        proof {
            lemma_erase_chars_follows(self@, count);
        }
        let raised = self.cursor.x.saturating_add(count);
        let end = if raised <= self.width {
            raised
        } else {
            self.width
        };
        self.fill_line_range(self.cursor.y, self.cursor.x, end);
    }

    pub fn clear_line(&mut self, mode: EraseMode)
        requires
            old(self).wf(),
            old(self)@.width > 0 || mode != EraseMode::ToCursor,
        ensures
            final(self).wf(),
            final(self)@.generation >= old(self)@.generation,
            grid_whole(old(self)@) && old(self)@.width >= 2 && old(self)@.height >= 1 ==> grid_whole(final(self)@),
            generation_follows(old(self)@, final(self)@),
            old(self)@.width >= 1 && old(self)@.height >= 1 ==> final(self)@.width >= 1 && final(self)@.height >= 1,
            final(self)@.width == old(self)@.width,
            final(self)@.height == old(self)@.height,
            final(self)@ == clear_line_state(old(self)@, mode),
    {
        proof {
            if grid_whole(self@) && self@.width >= 2 && self@.height >= 1 {
                assert(grid_shape(self@));
                lemma_clear_whole(self@, 0, 0, 0, 0, mode);
            }
        }
        let ghost g = self@;
        proof {
            lemma_clear_line_follows(g, mode);
        }
        if self.height == 0 {
            return;
        }
        let (start, end, x, width): (usize, usize, u16, u16) = match mode {
            EraseMode::FromCursor => (
                if self.cursor.x <= self.width {
                    self.cursor.x as usize
                } else {
                    self.width as usize
                },
                self.width as usize,
                self.cursor.x,
                self.width.saturating_sub(self.cursor.x),
            ),
            EraseMode::ToCursor => (0, self.cursor.x as usize + 1, 0, self.cursor.x.saturating_add(1)),
            EraseMode::All => (0, self.width as usize, 0, self.width),
        };
        let y = self.cursor.y;
        proof {
            self.lemma_wf_rows();
        }
        let mut row = self.take_row(y as usize);
        let changed = row::clear_range(&mut row, start, end);
        self.put_row(y as usize, row);
        if changed {
            self.mark_line_damage(y, x, width);
        }
        assert(self@ == clear_line_state(g, mode));
    }

    /// Blanks row `y`; tells whether it held a cell that was not blank.
    fn blank_whole_row(&mut self, y: u16) -> (changed: bool)
        requires
            old(self).wf(),
            y < old(self)@.height,
        ensures
            final(self).wf(),
            final(self)@.generation >= old(self)@.generation,
            changed == row_dirty(old(self)@, y as int),
            final(self)@ == with_row(old(self)@, y as int, blank_row(old(self)@.width)),
    {
        proof {
            self.lemma_wf_rows();
        }
        let changed = row::any_dirty(&self.rows[y as usize], 0, self.width as usize);
        let row = new_blank_row(self.width);
        let ghost before = self.rows@;
        self.rows.set(y as usize, row);
        assert(rows_view(self.rows@) =~= rows_view(before).update(y as int, blank_row(self.width)));
        changed
    }

    pub fn clear_screen(&mut self, mode: EraseMode)
        requires
            old(self).wf(),
            old(self)@.width > 0 || mode != EraseMode::ToCursor,
        ensures
            final(self).wf(),
            final(self)@.generation >= old(self)@.generation,
            grid_whole(old(self)@) && old(self)@.width >= 2 && old(self)@.height >= 1 ==> grid_whole(final(self)@),
            generation_follows(old(self)@, final(self)@),
            old(self)@.width >= 1 && old(self)@.height >= 1 ==> final(self)@.width >= 1 && final(self)@.height >= 1,
            final(self)@.width == old(self)@.width,
            final(self)@.height == old(self)@.height,
            final(self)@ == clear_screen_state(old(self)@, mode),
    {
        proof {
            if grid_whole(self@) && self@.width >= 2 && self@.height >= 1 {
                assert(grid_shape(self@));
                lemma_clear_whole(self@, 0, 0, 0, 0, mode);
            }
        }
        proof {
            lemma_clear_screen_follows(self@, mode);
        }
        let ghost g = self@;
        let mut changed = false;
        match mode {
            EraseMode::All => {
                let mut y: u16 = 0;
                while y < self.height
                    invariant
                        self.wf(),
                        y <= self@.height,
                        self@ == (GridState {
                            rows: Seq::new(
                                g.height as nat,
                                |i: int|
                                    if i < y {
                                        blank_row(g.width)
                                    } else {
                                        g.rows[i]
                                    },
                            ),
                            ..g
                        }),
                        state_wf(g),
                        changed == exists|i: int| 0 <= i < y && row_dirty(g, i),
                    decreases self@.height - y,
                {
                    let ghost prev = self@;
                    let c = self.blank_whole_row(y);
                    proof {
                        assert(prev.rows[y as int] == g.rows[y as int]);
                        assert(self@.rows =~= Seq::new(
                            g.height as nat,
                            |i: int|
                                if i < y + 1 {
                                    blank_row(g.width)
                                } else {
                                    g.rows[i]
                                },
                        ));
                        if c {
                            assert(row_dirty(g, y as int));
                        }
                    }
                    changed = changed || c;
                    y = y + 1;
                }
            },
            EraseMode::FromCursor => {
                if self.height == 0 {
                    return;
                }
                let cy = self.cursor.y;
                proof {
                    self.lemma_wf_rows();
                }
                let mut row = self.take_row(cy as usize);
                let start = if self.cursor.x <= self.width {
                    self.cursor.x as usize
                } else {
                    self.width as usize
                };
                let c1 = row::clear_range(&mut row, start, self.width as usize);
                self.put_row(cy as usize, row);
                changed = c1;
                let mut y: u16 = cy + 1;
                let ghost g1 = self@;
                while y < self.height
                    invariant
                        self.wf(),
                        cy < y <= self@.height,
                        g1.height == g.height,
                        g1.width == g.width,
                        state_wf(g1),
                        forall|i: int| cy < i < g.height ==> #[trigger] g1.rows[i] == g.rows[i],
                        self@ == (GridState {
                            rows: Seq::new(
                                g.height as nat,
                                |i: int|
                                    if cy < i < y {
                                        blank_row(g.width)
                                    } else {
                                        g1.rows[i]
                                    },
                            ),
                            ..g1
                        }),
                        changed == (c1 || exists|i: int| cy < i < y && row_dirty(g, i)),
                    decreases self@.height - y,
                {
                    let ghost prev = self@;
                    let c = self.blank_whole_row(y);
                    proof {
                        assert(g1.rows[y as int] == g.rows[y as int]);
                        assert(prev.rows[y as int] == g1.rows[y as int]);
                        assert(self@.rows =~= Seq::new(
                            g.height as nat,
                            |i: int|
                                if cy < i < y + 1 {
                                    blank_row(g.width)
                                } else {
                                    g1.rows[i]
                                },
                        ));
                        assert(c == row_dirty(g, y as int));
                        if c {
                            assert(exists|i: int| cy < i < y + 1 && row_dirty(g, i));
                        } else {
                            assert((exists|i: int| cy < i < y + 1 && row_dirty(g, i)) == (exists|
                                i: int,
                            | cy < i < y && row_dirty(g, i)));
                        }
                    }
                    changed = changed || c;
                    y = y + 1;
                }
            },
            EraseMode::ToCursor => {
                if self.height == 0 {
                    return;
                }
                let cy = self.cursor.y;
                let mut y: u16 = 0;
                while y < cy
                    invariant
                        self.wf(),
                        y <= cy,
                        cy == g.cursor.y,
                        cy < g.height,
                        state_wf(g),
                        self@ == (GridState {
                            rows: Seq::new(
                                g.height as nat,
                                |i: int|
                                    if i < y {
                                        blank_row(g.width)
                                    } else {
                                        g.rows[i]
                                    },
                            ),
                            ..g
                        }),
                        changed == exists|i: int| 0 <= i < y && row_dirty(g, i),
                    decreases cy - y,
                {
                    let ghost prev = self@;
                    let c = self.blank_whole_row(y);
                    proof {
                        assert(prev.rows[y as int] == g.rows[y as int]);
                        assert(self@.rows =~= Seq::new(
                            g.height as nat,
                            |i: int|
                                if i < y + 1 {
                                    blank_row(g.width)
                                } else {
                                    g.rows[i]
                                },
                        ));
                        assert(c == row_dirty(g, y as int));
                        if c {
                            assert(exists|i: int| 0 <= i < y + 1 && row_dirty(g, i));
                        } else {
                            assert((exists|i: int| 0 <= i < y + 1 && row_dirty(g, i)) == (exists|
                                i: int,
                            | 0 <= i < y && row_dirty(g, i)));
                        }
                    }
                    changed = changed || c;
                    y = y + 1;
                }
                proof {
                    self.lemma_wf_rows();
                }
                let mut row = self.take_row(cy as usize);
                let c1 = row::clear_range(&mut row, 0, self.cursor.x as usize + 1);
                self.put_row(cy as usize, row);
                changed = changed || c1;
            },
        }
        proof {
            assert(self@.rows =~= clear_screen_state(g, mode).rows);
        }
        if changed {
            self.generation = self.generation.saturating_add(1);
            self.damage.mark(DamageRegion::Viewport);
        }
    }

    fn shift_chars(&mut self, count: u16, right: bool)
        requires
            old(self).wf(),
            old(self)@.height > 0 || old(self)@.width == 0,
        ensures
            final(self).wf(),
            final(self)@.generation >= old(self)@.generation,
            final(self)@ == shift_chars_state(old(self)@, count, right),
    {
        if self.cursor.x >= self.width {
            return;
        }
        let room = self.width - self.cursor.x;
        let n = if count <= room {
            count
        } else {
            room
        };
        if n == 0 {
            return;
        }
        let x = self.cursor.x;
        let y = self.cursor.y;
        proof {
            self.lemma_wf_rows();
        }
        let mut row = self.take_row(y as usize);
        let dirty = row::any_dirty(&row, x as usize, self.width as usize);
        let mut boundary = false;
        if !right || row[x as usize].spacer {
            let (_, _, b) = row::clear_for_write(&mut row, x as usize);
            boundary = b;
        }
        row::shift(&mut row, x as usize, n as usize, right);
        let sanitized = row::sanitize(&mut row);
        self.put_row(y as usize, row);
        if dirty || boundary || sanitized {
            self.mark_line_damage(y, x, self.width - x);
        }
    }

    pub fn delete_chars(&mut self, count: u16)
        requires
            old(self).wf(),
            old(self)@.height > 0 || old(self)@.width == 0,
        ensures
            final(self).wf(),
            final(self)@.generation >= old(self)@.generation,
            grid_whole(old(self)@) && old(self)@.width >= 2 && old(self)@.height >= 1 ==> grid_whole(final(self)@),
            generation_follows(old(self)@, final(self)@),
            old(self)@.width >= 1 && old(self)@.height >= 1 ==> final(self)@.width >= 1 && final(self)@.height >= 1,
            final(self)@.width == old(self)@.width,
            final(self)@.height == old(self)@.height,
            final(self)@ == delete_chars_state(old(self)@, count),
    {
        proof {
            if grid_whole(self@) && self@.width >= 2 && self@.height >= 1 {
                assert(grid_shape(self@));
                lemma_shift_chars_whole(self@, count, false);
            }
        }
        proof {
            if self@.height >= 1 {
                lemma_shift_chars_follows(self@, count, false);
            }
        }
        self.shift_chars(count, false);
    }

    pub fn insert_blank_chars(&mut self, count: u16)
        requires
            old(self).wf(),
            old(self)@.height > 0 || old(self)@.width == 0,
        ensures
            final(self).wf(),
            final(self)@.generation >= old(self)@.generation,
            grid_whole(old(self)@) && old(self)@.width >= 2 && old(self)@.height >= 1 ==> grid_whole(final(self)@),
            generation_follows(old(self)@, final(self)@),
            old(self)@.width >= 1 && old(self)@.height >= 1 ==> final(self)@.width >= 1 && final(self)@.height >= 1,
            final(self)@.width == old(self)@.width,
            final(self)@.height == old(self)@.height,
            final(self)@ == insert_blank_chars_state(old(self)@, count),
    {
        proof {
            if grid_whole(self@) && self@.width >= 2 && self@.height >= 1 {
                assert(grid_shape(self@));
                lemma_shift_chars_whole(self@, count, true);
            }
        }
        proof {
            if self@.height >= 1 {
                lemma_shift_chars_follows(self@, count, true);
            }
        }
        self.shift_chars(count, true);
    }

    fn wide_wrap(&mut self, style: Style)
        requires
            old(self).wf(),
        ensures
            final(self).wf(),
            final(self)@.generation >= old(self)@.generation,
            final(self)@ == wide_wrap_state(old(self)@, style),
    {
        let x = self.cursor.x;
        let y = self.cursor.y;
        let mut changed = false;
        if y < self.height {
            proof {
                self.lemma_wf_rows();
            }
            let mut row = self.take_row(y as usize);
            changed = row::replace(&mut row, x as usize, Cell { ch: ' ', style, wide: false, spacer: false });
            self.put_row(y as usize, row);
        }
        self.pending_wrap = true;
        if changed {
            self.mark_line_damage(y, x, self.width.saturating_sub(x));
        }
        self.print_linewrap();
    }

    fn write_char(&mut self, ch: char, style: Style, width: u16)
        requires
            old(self).wf(),
            old(self)@.cursor.x + width <= u16::MAX,
        ensures
            final(self).wf(),
            final(self)@ == write_char_state(old(self)@, ch, style, width),
    {
        let x = self.cursor.x;
        let y = self.cursor.y;
        if y >= self.height {
            self.advance_cursor(width);
            return;
        }
        proof {
            self.lemma_wf_rows();
        }
        let ghost row0 = self@.rows[y as int];
        let mut row = self.take_row(y as usize);
        let (s1, e1, c1) = row::clear_for_write(&mut row, x as usize);
        let ghost r1 = row@;
        let second = width > 1 && x + 1 < self.width;
        let mut ds = s1;
        let mut de = e1;
        let mut changed = c1;
        let ghost mut c2 = false;
        let ghost mut s2: int = s1 as int;
        let ghost mut e2: int = e1 as int;
        if second {
            let (s, e, c) = row::clear_for_write(&mut row, x as usize + 1);
            proof {
                c2 = c;
                s2 = s as int;
                e2 = e as int;
            }
            if s < ds {
                ds = s;
            }
            if e > de {
                de = e;
            }
            changed = changed || c;
        }
        let cell = Cell { ch, style, wide: width > 1, spacer: false };
        let c3 = row::replace(&mut row, x as usize, cell);
        changed = changed || c3;
        if (x as usize) < ds {
            ds = x as usize;
        }
        if (x as usize) > de {
            de = x as usize;
        }
        if second {
            let c4 = row::replace(
                &mut row,
                x as usize + 1,
                Cell { ch: ' ', style, wide: false, spacer: true },
            );
            changed = changed || c4;
            if x as usize + 1 > de {
                de = x as usize + 1;
            }
        }
        proof {
            let (rr1, ss1, ee1, cc1) = clear_for_write_row(row0, x as int);
            assert(rr1 == r1);
        }
        self.put_row(y as usize, row);
        if changed {
            self.mark_line_damage(y, ds as u16, (de - ds + 1) as u16);
        }
        self.advance_cursor(width);
    }

    /// Prints `ch` at the cursor with `style`; tells where it wrote which cell.
    #[verifier::spinoff_prover]
    #[verifier::rlimit(50)]
    pub fn put_char(&mut self, ch: char, style: Style) -> (r: Option<(u16, u16, Cell)>)
        requires
            old(self).wf(),
        ensures
            final(self).wf(),
            final(self)@.generation >= old(self)@.generation,
            grid_whole(old(self)@) && old(self)@.width >= 2 && old(self)@.height >= 1 && !wrap_pads_spacer(
                old(self)@,
                ch,
            ) ==> grid_whole(final(self)@),
            0x20 <= ch as u32 <= 0x7e ==> !wrap_pads_spacer(old(self)@, ch),
            generation_follows(old(self)@, final(self)@),
            old(self)@.width >= 1 && old(self)@.height >= 1 ==> final(self)@.width >= 1 && final(self)@.height >= 1,
            final(self)@.width == old(self)@.width,
            final(self)@.height == old(self)@.height,
            final(self)@ == put_char_state(old(self)@, ch, style),
            r == put_char_result(old(self)@, ch, style),
    {
        proof {
            if grid_whole(self@) && self@.width >= 2 && self@.height >= 1 {
                assert(grid_shape(self@));
                if !wrap_pads_spacer(self@, ch) {
                    lemma_put_char_whole(self@, ch, style);
                }
            }
        }
        proof {
            lemma_put_char_dims(self@, ch, style);
            lemma_put_char_generation(self@, ch, style);
        }
        if ch == '\n' {
            self.line_feed();
            return None;
        }
        self.print_linewrap();
        let mut width = char_width(ch);
        if width == 0 {
            return None;
        }
        if width > 1 && (self.cursor.x as u32) + (width as u32) > self.width as u32 {
            if self.wrap {
                self.wide_wrap(style);
                proof {
                    assert(self@.cursor.x == 0);
                }
            } else {
                width = 1;
            }
        }
        let x = self.cursor.x;
        let y = self.cursor.y;
        proof {
            lemma_write_char_generation(self@, ch, style, width);
        }
        self.write_char(ch, style, width);
        Some((x, y, Cell { ch, style, wide: width > 1, spacer: false }))
    }

    /// Prints spaces up to the next tab stop (every eighth column).
    pub fn put_tab(&mut self, style: Style)
        requires
            old(self).wf(),
        ensures
            final(self).wf(),
            final(self)@.generation >= old(self)@.generation,
            grid_whole(old(self)@) && old(self)@.width >= 2 && old(self)@.height >= 1 ==> grid_whole(final(self)@),
            generation_follows(old(self)@, final(self)@),
            old(self)@.width >= 1 && old(self)@.height >= 1 ==> final(self)@.width >= 1 && final(self)@.height >= 1,
            final(self)@.width == old(self)@.width,
            final(self)@.height == old(self)@.height,
            final(self)@ == put_tab_state(old(self)@, style),
    {
        proof {
            lemma_repeat_put_dims(self@, ' ', style, tab_spaces(self@.cursor.x) as nat);
        }
        let x = self.cursor.x as u32;
        let next_stop: u32 = (x / 8 + 1) * 8;
        let spaces = (next_stop - x) as u16;
        let ghost g = self@;
        let mut i: u16 = 0;
        while i < spaces
            invariant
                self.wf(),
                i <= spaces,
                self@ == repeat_put_state(g, ' ', style, i as nat),
                self@.generation >= g.generation,
                self@.width == g.width,
                self@.height == g.height,
                generation_follows(g, self@),
                grid_whole(g) && g.width >= 2 && g.height >= 1 ==> grid_whole(self@),
            decreases spaces - i,
        {
            let ghost before = self@;
            let _ = self.put_char(' ', style);
            proof {
                lemma_generation_follows_trans(g, before, self@);
            }
            i = i + 1;
        }
    }

    /// Prints a run of printable ASCII bytes.
    pub fn put_ascii_run(&mut self, bytes: &[u8], style: Style)
        requires
            old(self).wf(),
        ensures
            final(self).wf(),
            final(self)@.generation >= old(self)@.generation,
            grid_whole(old(self)@) && old(self)@.width >= 2 && old(self)@.height >= 1 && (forall|i: int|
                0 <= i < bytes@.len() ==> 0x20 <= #[trigger] bytes@[i] <= 0x7e) ==> grid_whole(final(self)@),
            generation_follows(old(self)@, final(self)@),
            old(self)@.width >= 1 && old(self)@.height >= 1 ==> final(self)@.width >= 1 && final(self)@.height >= 1,
            final(self)@.width == old(self)@.width,
            final(self)@.height == old(self)@.height,
            final(self)@ == ascii_run_state(old(self)@, bytes@, style, 0),
    {
        proof {
            lemma_ascii_run_dims(self@, bytes@, style, 0);
        }
        self.put_ascii_runs(bytes, style);
    }

    fn put_ascii_runs(&mut self, bytes: &[u8], style: Style)
        requires
            old(self).wf(),
        ensures
            final(self).wf(),
            final(self)@.generation >= old(self)@.generation,
            generation_follows(old(self)@, final(self)@),
            final(self)@.width == old(self)@.width,
            final(self)@.height == old(self)@.height,
            final(self)@ == ascii_run_state(old(self)@, bytes@, style, 0),
            grid_whole(old(self)@) && old(self)@.width >= 2 && old(self)@.height >= 1 && (forall|i: int|
                0 <= i < bytes@.len() ==> 0x20 <= #[trigger] bytes@[i] <= 0x7e) ==> grid_whole(final(self)@),
    {
        let mut offset: usize = 0;
        while offset < bytes.len()
            invariant
                self.wf(),
                offset <= bytes@.len(),
                ascii_run_state(self@, bytes@, style, offset as nat) == ascii_run_state(
                    old(self)@,
                    bytes@,
                    style,
                    0,
                ),
                self@.generation >= old(self)@.generation,
                self@.width == old(self)@.width,
                self@.height == old(self)@.height,
                generation_follows(old(self)@, self@),
                grid_whole(old(self)@) && old(self)@.width >= 2 && old(self)@.height >= 1 && (forall|i: int|
                    0 <= i < bytes@.len() ==> 0x20 <= #[trigger] bytes@[i] <= 0x7e) ==> grid_whole(self@),
            decreases bytes@.len() - offset,
        {
            let ghost before = self@;
            let step = self.ascii_run_step(bytes, style, offset);
            proof {
                lemma_generation_follows_trans(old(self)@, before, self@);
            }
            match step {
                Some(next) => {
                    offset = next;
                },
                None => {
                    return;
                },
            }
        }
    }

    /// One step of `put_ascii_run` from `offset`: the offset to go on from,
    /// or `None` when the run stops.
    #[verifier::rlimit(100)]
    #[verifier::spinoff_prover]
    fn ascii_run_step(&mut self, bytes: &[u8], style: Style, offset: usize) -> (r: Option<usize>)
        requires
            old(self).wf(),
            offset < bytes@.len(),
        ensures
            final(self).wf(),
            final(self)@.generation >= old(self)@.generation,
            grid_whole(old(self)@) && old(self)@.width >= 2 && old(self)@.height >= 1 && (forall|i: int|
                offset <= i < bytes@.len() ==> 0x20 <= #[trigger] bytes@[i] <= 0x7e) ==> grid_whole(final(self)@),
            generation_follows(old(self)@, final(self)@),
            final(self)@.width == old(self)@.width,
            final(self)@.height == old(self)@.height,
            match r {
                Some(next) => offset < next <= bytes@.len() && ascii_run_state(
                    final(self)@,
                    bytes@,
                    style,
                    next as nat,
                ) == ascii_run_state(old(self)@, bytes@, style, offset as nat),
                None => final(self)@ == ascii_run_state(old(self)@, bytes@, style, offset as nat),
            },
    {
        let ghost g0 = self@;
        self.print_linewrap();
        let ghost g1 = self@;
        proof {
            lemma_linewrap_generation(g0);
            if grid_whole(g0) {
                lemma_shift_lines_whole(g0, 0, 0, 0, false);
            }
        }
        let x = self.cursor.x;
        let y = self.cursor.y;
        let room = self.width.saturating_sub(x);
        let available: usize = if room >= 1 {
            room as usize
        } else {
            1
        };
        let count = if available < bytes.len() - offset {
            available
        } else {
            bytes.len() - offset
        };
        proof {
            assert(count == ascii_run_count(g1, bytes@, offset as nat));
        }
        if y < self.height {
            proof {
                self.lemma_wf_rows();
            }
            if range_has_wide(&self.rows[y as usize], x as usize, count) {
                let b = bytes[offset];
                proof {
                    assert(0x20 <= bytes@[offset as int] <= 0x7e ==> 0x20 <= (b as char) as u32 <= 0x7e);
                }
                let _ = self.put_char(b as char, style);
                proof {
                    lemma_generation_follows_trans(g0, g1, self@);
                }
                return Some(offset + 1);
            }
        }
        if !(x < self.width && y < self.height) {
            return None;
        }
        proof {
            self.lemma_wf_rows();
        }
        let mut row = self.take_row(y as usize);
        write_ascii(&mut row, x as usize, bytes, offset, count, style);
        self.put_row(y as usize, row);
        self.mark_line_damage(y, x, count as u16);
        self.advance_cursor(count as u16);
        proof {
            assert(self@ == ascii_run_write(g1, bytes@, style, offset as nat));
            let row = write_ascii_row(
                g1.rows[y as int],
                x as int,
                bytes@,
                offset as int,
                count as int,
                style,
            );
            let w = with_row(g1, y as int, row);
            let d = line_damage(w, y, x, count as u16);
            assert(self@ == advance_cursor_state(d, count as u16));
            assert(generation_follows(g1, d));
            lemma_advance_generation(d, count as u16);
            lemma_generation_follows_trans(g1, d, self@);
            lemma_generation_follows_trans(g0, g1, self@);
            if grid_whole(g1) && g1.width >= 2 && g1.height >= 1 {
                assert(grid_shape(g1));
                lemma_ascii_write_whole(g1, bytes@, style, offset as nat);
            }
        }
        Some(offset + count)
    }

    /// Prints a run of printable ASCII bytes that ends a line, followed by a
    /// carriage return and line feed, when the run fits the row as it is;
    /// tells whether it did.
    pub fn put_ascii_run_crlf(&mut self, bytes: &[u8], style: Style) -> (r: bool)
        requires
            old(self).wf(),
        ensures
            final(self).wf(),
            final(self)@.generation >= old(self)@.generation,
            grid_whole(old(self)@) && old(self)@.width >= 2 && old(self)@.height >= 1 ==> grid_whole(final(self)@),
            generation_follows(old(self)@, final(self)@),
            old(self)@.width >= 1 && old(self)@.height >= 1 ==> final(self)@.width >= 1 && final(self)@.height >= 1,
            final(self)@.width == old(self)@.width,
            final(self)@.height == old(self)@.height,
            r == ascii_crlf_fits(old(self)@, bytes@),
            final(self)@ == ascii_crlf_state(old(self)@, bytes@, style),
    {
        let ghost g = self@;
        if bytes.len() == 0 || self.pending_wrap {
            return false;
        }
        let x = self.cursor.x;
        let y = self.cursor.y;
        let count = bytes.len();
        let available = self.width.saturating_sub(x) as usize;
        if count > available {
            return false;
        }
        if y < self.height {
            proof {
                self.lemma_wf_rows();
            }
            if range_has_wide(&self.rows[y as usize], x as usize, count) {
                return false;
            }
        }
        if !(x < self.width && y < self.height) {
            return false;
        }
        proof {
            self.lemma_wf_rows();
        }
        let mut row = self.take_row(y as usize);
        write_ascii(&mut row, x as usize, bytes, 0, count, style);
        self.put_row(y as usize, row);
        self.mark_line_damage(y, x, count as u16);
        self.carriage_return_line_feed();
        proof {
            assert(self@ == ascii_crlf_state(g, bytes@, style));
            if grid_whole(g) && g.width >= 1 && g.height >= 1 {
                lemma_ascii_crlf_whole(g, bytes@, style);
            }
        }
        true
    }

    /// Resizes to `width` by `height` (each at least one), rewrapping lines
    /// to the new width; rows that no longer fit scroll off the top.
    #[verifier::spinoff_prover]
    #[verifier::rlimit(50)]
    pub fn resize_reflow(&mut self, width: u16, height: u16) -> (r: bool)
        requires
            old(self).wf(),
        ensures
            final(self).wf(),
            final(self)@.generation >= old(self)@.generation,
            grid_whole(old(self)@) && old(self)@.width >= 2 && old(self)@.height >= 1 ==> grid_whole(final(self)@),
            generation_follows(old(self)@, final(self)@),
            old(self)@.width >= 1 && old(self)@.height >= 1 ==> final(self)@.width >= 1 && final(self)@.height >= 1,
            final(self)@ == reflow::reflow_state(old(self)@, width, height),
            final(self)@.width == max16(width, 1),
            final(self)@.height == max16(height, 1),
            r == (max16(width, 1) != old(self)@.width || max16(height, 1) != old(self)@.height),
    {
        let width = if width >= 1 {
            width
        } else {
            1
        };
        let height = if height >= 1 {
            height
        } else {
            1
        };
        if width == self.width && height == self.height {
            return false;
        }
        let ghost g = self@;
        let (lines, cursor_row, cursor_x) = self.collect_reflow(width);
        let ghost lv = reflow::lines_view(lines@);
        let total = lines.len();
        let h = height as usize;
        let scroll = if total > h {
            total - h
        } else {
            0
        };
        let mut scrolled: Vec<Vec<Cell>> = Vec::new();
        std::mem::swap(&mut scrolled, &mut self.scrolled_rows);
        let mut pool: Vec<Vec<Cell>> = Vec::new();
        std::mem::swap(&mut pool, &mut self.scrolled_row_pool);
        push_scrolled_lines(&lines, scroll, &mut scrolled, &mut pool);
        proof {
            assert(Seq::new(scroll as nat, |k: int| trim_row(lines@[k]@)) =~= Seq::new(
                scroll as nat,
                |k: int| trim_row(lv[k]),
            ));
        }
        let ghost lines_g = lines@;
        let rows = window_rows(lines, scroll, h, width);
        self.width = width;
        self.height = height;
        self.rows = rows;
        self.scrolled_rows = scrolled;
        self.scrolled_row_pool = pool;
        self.cursor.x = if cursor_x <= width - 1 {
            cursor_x
        } else {
            width - 1
        };
        let above = if cursor_row > scroll {
            cursor_row - scroll
        } else {
            0
        };
        self.cursor.y = if above < h - 1 {
            above as u16
        } else {
            height - 1
        };
        self.pending_wrap = false;
        self.scroll_top = 0;
        self.scroll_bottom = height - 1;
        self.generation = self.generation.saturating_add(1);
        self.damage.mark(DamageRegion::Viewport);
        proof {
            let target = reflow::reflow_state(g, width, height);
            assert forall|k: int| 0 <= k < h implies #[trigger] rows_view(self.rows@)[k] == target.rows[k] by {
                if scroll + k < total {
                    assert(lv[scroll + k] == lines_g[scroll + k]@);
                }
            }
            assert(rows_view(self.rows@) =~= target.rows);
            assert(self@ =~= target);
            if grid_whole(g) {
                reflow::lemma_reflow_whole(g, width, height);
            }
        }
        true
    }

    /// The reflowed rows of the grid at `width`, and where the cursor lands.
    fn collect_reflow(&self, width: u16) -> (r: (Vec<Vec<Cell>>, usize, u16))
        requires
            self.wf(),
            width >= 1,
        ensures
            reflow::lines_view(r.0@) == reflow::reflow_rows(self@, width),
            forall|i: int| 0 <= i < r.0@.len() ==> #[trigger] r.0@[i]@.len() == width,
            r.1 as int == reflow::reflow_cursor(self@, width).0,
            r.2 as int == reflow::reflow_cursor(self@, width).1,
            r.2 < width,
    {
        proof {
            self.lemma_wf_rows();
        }
        let ghost g = self@;
        let limit = reflow::reflow_row_limit(&self.rows, self.height, self.cursor.y);
        let mut lines: Vec<Vec<Cell>> = Vec::new();
        let mut cursor_row: usize = 0;
        let mut cursor_x: u16 = 0;
        let mut y: u16 = 0;
        assert(reflow::lines_view(lines@) =~= reflow::reflowed_lines(g.rows, width, 0));
        while y < limit
            invariant
                self.wf(),
                g == self@,
                width >= 1,
                y <= limit,
                limit == reflow::reflow_limit(g.rows, g.height, g.cursor.y),
                limit <= g.height,
                g.rows.len() == g.height,
                forall|k: int| 0 <= k < g.height ==> #[trigger] self.rows@[k]@ == g.rows[k],
                reflow::lines_view(lines@) == reflow::reflowed_lines(g.rows, width, y as int),
                forall|i: int| 0 <= i < lines@.len() ==> #[trigger] lines@[i]@.len() == width,
                cursor_x < width,
                y > g.cursor.y ==> cursor_row as int == reflow::reflow_cursor(g, width).0
                    && cursor_x as int == reflow::reflow_cursor(g, width).1,
                y <= g.cursor.y ==> cursor_row == 0 && cursor_x == 0,
            decreases limit - y,
        {
            let row = &self.rows[y as usize];
            let mut more = reflow::reflow_line(row, width);
            proof {
                reflow::lemma_reflowed_line_width(g.rows[y as int], width);
            }
            let line_start = lines.len();
            let ghost before = lines@;
            let ghost added = more@.len();
            lines.append(&mut more);
            let total = lines.len();
            proof {
                assert(reflow::lines_view(lines@) =~= reflow::lines_view(before) + reflow::reflowed_line(
                    g.rows[y as int],
                    width,
                ));
                assert(reflow::reflowed_lines(g.rows, width, y + 1) == reflow::reflowed_lines(
                    g.rows,
                    width,
                    y as int,
                ) + reflow::reflowed_line(g.rows[y as int], width));
                assert forall|i: int| 0 <= i < lines@.len() implies #[trigger] lines@[i]@.len() == width by {
                    if i >= before.len() {
                        assert(lines@[i]@ == reflow::reflowed_line(g.rows[y as int], width)[i - before.len()]);
                    } else {
                        assert(lines@[i] == before[i]);
                    }
                }
            }
            if y == self.cursor.y {
                let (r, x) = reflow::cursor_position_for_row(row, self.cursor.x, width);
                proof {
                    reflow::lemma_reflowed_line_width(g.rows[y as int], width);
                    reflow::lemma_cursor_row_bound(g.rows[y as int], g.cursor.x, width);
                    assert(line_start + r < total);
                }
                cursor_row = line_start + r;
                cursor_x = x;
            }
            y = y + 1;
        }
        if lines.len() == 0 {
            lines.push(reflow::blank_line(width));
            assert(reflow::lines_view(lines@) =~= seq![blank_row(width)]);
        }
        (lines, cursor_row, cursor_x)
    }

    pub fn resize(&mut self, width: u16, height: u16) -> (r: bool)
        requires
            old(self).wf(),
        ensures
            final(self).wf(),
            final(self)@.generation >= old(self)@.generation,
            grid_whole(old(self)@) && old(self)@.width >= 2 && old(self)@.height >= 1 ==> grid_whole(final(self)@),
            generation_follows(old(self)@, final(self)@),
            old(self)@.width >= 1 && old(self)@.height >= 1 ==> final(self)@.width >= 1 && final(self)@.height >= 1,
            final(self)@ == resize_state(old(self)@, width, height),
            final(self)@.width == max16(width, 1),
            final(self)@.height == max16(height, 1),
            r == (max16(width, 1) != old(self)@.width || max16(height, 1) != old(self)@.height),
    {
        proof {
            if grid_whole(self@) && self@.width >= 2 && self@.height >= 1 {
                assert(grid_shape(self@));
                lemma_alignment_and_resize_whole(self@, Style::default_spec(), width, height);
            }
        }
        let width = if width >= 1 {
            width
        } else {
            1
        };
        let height = if height >= 1 {
            height
        } else {
            1
        };
        if width == self.width && height == self.height {
            return false;
        }
        let ghost g = self@;
        proof {
            self.lemma_wf_rows();
        }
        let mut rows: Vec<Vec<Cell>> = Vec::new();
        let mut y: u16 = 0;
        while y < height
            invariant
                self@ == g,
                self.wf(),
                y <= height,
                rows@.len() == y,
                forall|i: int|
                    0 <= i < y ==> #[trigger] rows@[i]@ == sanitize_row_spec(
                        resized_row(g.rows, g.width, width, i),
                    ),
                forall|i: int| 0 <= i < y ==> #[trigger] rows@[i]@.len() == width,
            decreases height - y,
        {
            let mut row: Vec<Cell> = Vec::new();
            let mut x: u16 = 0;
            while x < width
                invariant
                    self@ == g,
                    self.wf(),
                    y < height,
                    x <= width,
                    row@.len() == x,
                    forall|k: int|
                        0 <= k < x ==> #[trigger] row@[k] == resized_row(g.rows, g.width, width, y as int)[k],
                decreases width - x,
            {
                proof {
                    self.lemma_wf_rows();
                }
                let cell = if y < self.height && x < self.width {
                    self.rows[y as usize][x as usize]
                } else {
                    Cell::default()
                };
                row.push(cell);
                x = x + 1;
            }
            assert(row@ =~= resized_row(g.rows, g.width, width, y as int));
            row::sanitize(&mut row);
            rows.push(row);
            y = y + 1;
        }
        self.width = width;
        self.height = height;
        self.rows = rows;
        let cx = self.cursor.x;
        let cy = self.cursor.y;
        self.cursor.x = if cx <= width - 1 {
            cx
        } else {
            width - 1
        };
        self.cursor.y = if cy <= height - 1 {
            cy
        } else {
            height - 1
        };
        self.pending_wrap = false;
        self.scroll_top = 0;
        self.scroll_bottom = height - 1;
        proof {
            assert(rows_view(self.rows@) =~= resize_state(g, width, height).rows);
        }
        self.generation = self.generation.saturating_add(1);
        self.damage.mark(DamageRegion::Viewport);
        true
    }

    fn advance_cursor(&mut self, amount: u16)
        requires
            old(self).wf(),
            old(self).cursor.x + amount <= u16::MAX,
        ensures
            final(self).wf(),
            final(self)@.generation >= old(self)@.generation,
            final(self)@ == advance_cursor_state(old(self)@, amount),
    {
        let old = self.cursor;
        if self.cursor.x + amount < self.width {
            self.cursor.x = self.cursor.x + amount;
            self.pending_wrap = false;
        } else if !self.wrap {
            self.cursor.x = self.width.saturating_sub(1);
            self.pending_wrap = false;
        } else {
            self.cursor.x = self.width.saturating_sub(1);
            self.pending_wrap = true;
        }
        if old != self.cursor {
            self.generation = self.generation.saturating_add(1);
            self.damage.mark(
                DamageRegion::Cursor {
                    old: Some((old.x, old.y)),
                    new: (self.cursor.x, self.cursor.y),
                },
            );
        }
    }
}


/// One past the last column of `row` that is not blank (zero for a blank row).
pub open spec fn logical_row_end(row: Seq<Cell>) -> nat
    decreases row.len(),
{
    if row.len() == 0 {
        0
    } else if row.last() != blank_cell() {
        row.len()
    } else {
        logical_row_end(row.drop_last())
    }
}

/// `row` without its trailing blank cells.
pub open spec fn trim_row(row: Seq<Cell>) -> Seq<Cell> {
    row.subrange(0, logical_row_end(row) as int)
}

/// Rows `top..=bottom` of `rows` moved `n` rows up (or down), the vacated rows
/// blank; the other rows as they were.
pub open spec fn shifted_rows(
    rows: Seq<Seq<Cell>>,
    width: u16,
    top: int,
    bottom: int,
    n: int,
    down: bool,
) -> Seq<Seq<Cell>> {
    Seq::new(
        rows.len(),
        |y: int|
            if top <= y <= bottom {
                if !down {
                    if y + n <= bottom {
                        rows[y + n]
                    } else {
                        blank_row(width)
                    }
                } else {
                    if y - n >= top {
                        rows[y - n]
                    } else {
                        blank_row(width)
                    }
                }
            } else {
                rows[y]
            },
    )
}

/// The first `n` rows of `rows`, trimmed: what scrolls off a full screen.
pub open spec fn scrolled_off(rows: Seq<Seq<Cell>>, n: int) -> Seq<Seq<Cell>> {
    Seq::new(n as nat, |k: int| trim_row(rows[k]))
}

pub open spec fn min_nat(a: nat, b: nat) -> nat {
    if a <= b {
        a
    } else {
        b
    }
}

/// Moving rows `top..=bottom` by `count` rows (at most the height of that
/// range); rows that a full-screen upward move pushes off the top join
/// `scrolled`. Nothing happens unless the range lies in the scroll region.
pub open spec fn shift_lines_state(
    g: GridState,
    top: u16,
    bottom: u16,
    count: u16,
    down: bool,
) -> GridState {
    if top < g.scroll_top || bottom > g.scroll_bottom || top > bottom {
        g
    } else {
        let n = min16(count, (bottom - top + 1) as u16);
        if n == 0 {
            g
        } else {
            let full = !down && top == 0 && bottom == last_index(g.height);
            let moves: nat = if g.height == 0 {
                0
            } else {
                n as nat
            };
            GridState {
                rows: shifted_rows(g.rows, g.width, top as int, bottom as int, n as int, down),
                scrolled: if full {
                    g.scrolled + scrolled_off(g.rows, moves as int)
                } else {
                    g.scrolled
                },
                pool_len: (g.pool_len - min_nat(moves, g.pool_len)) as nat,
                generation: bump(g.generation, 1),
                damage: mark_state(
                    g.damage,
                    DamageRegion::Scroll { top, bottom, count: n, down },
                ),
                ..g
            }
        }
    }
}

/// A line feed: down one row, scrolling the region at its bottom margin.
pub open spec fn line_feed_state(g: GridState) -> GridState {
    let g1 = GridState { pending_wrap: false, ..g };
    let g2 = if g.cursor.y == g.scroll_bottom {
        shift_lines_state(g1, g.scroll_top, g.scroll_bottom, 1, false)
    } else {
        GridState {
            cursor: Cursor { y: min16((g.cursor.y + 1) as u16, last_index(g.height)), ..g.cursor },
            ..g1
        }
    };
    note_cursor(g2, g.cursor)
}

/// A carriage return and a line feed.
pub open spec fn crlf_state(g: GridState) -> GridState {
    let g1 = GridState { pending_wrap: false, cursor: Cursor { x: 0, ..g.cursor }, ..g };
    let g2 = if g.cursor.y == g.scroll_bottom {
        shift_lines_state(g1, g.scroll_top, g.scroll_bottom, 1, false)
    } else {
        GridState {
            cursor: Cursor {
                y: min16((g.cursor.y + 1) as u16, last_index(g.height)),
                ..g1.cursor
            },
            ..g1
        }
    };
    note_cursor(g2, g.cursor)
}

/// The wrap that a print performs when the previous print filled the last column.
pub open spec fn linewrap_state(g: GridState) -> GridState {
    if !g.pending_wrap {
        g
    } else {
        crlf_state(g)
    }
}

/// Up one row, scrolling the region down at its top margin.
pub open spec fn reverse_index_state(g: GridState) -> GridState {
    let g1 = GridState { pending_wrap: false, ..g };
    let g2 = if g.cursor.y == g.scroll_top {
        shift_lines_state(g1, g.scroll_top, g.scroll_bottom, 1, true)
    } else {
        GridState { cursor: Cursor { y: sat_sub16(g.cursor.y, 1), ..g.cursor }, ..g1 }
    };
    note_cursor(g2, g.cursor)
}

/// The alignment-test cell that fills the screen.
pub open spec fn alignment_cell(style: Style) -> Cell {
    Cell { ch: 'E', style, wide: false, spacer: false }
}

pub open spec fn screen_alignment_state(g: GridState, style: Style) -> GridState {
    viewport_damage(
        GridState {
            rows: Seq::new(
                g.height as nat,
                |y: int| Seq::new(g.width as nat, |x: int| alignment_cell(style)),
            ),
            ..g
        },
    )
}


/// `g` with row `y` replaced.
pub open spec fn with_row(g: GridState, y: int, row: Seq<Cell>) -> GridState {
    GridState { rows: g.rows.update(y, row), ..g }
}

/// Clearing columns `xs..xe` of row `y` (nothing when `y` is off screen).
pub open spec fn fill_line_range_state(g: GridState, y: u16, xs: u16, xe: u16) -> GridState {
    if y >= g.height || xs >= xe {
        g
    } else {
        let (row, changed) = clear_range_row(g.rows[y as int], xs as int, min16(xe, g.width) as int);
        let g1 = with_row(g, y as int, row);
        if changed {
            line_damage(g1, y, xs, sat_sub16(xe, xs))
        } else {
            g1
        }
    }
}

pub open spec fn erase_chars_state(g: GridState, count: u16) -> GridState {
    fill_line_range_state(
        g,
        g.cursor.y,
        g.cursor.x,
        min16(sat_add16(g.cursor.x, count), g.width),
    )
}

/// The span of the cursor row that an erase in `mode` clears, and the span
/// that its damage names.
pub open spec fn clear_line_span(g: GridState, mode: EraseMode) -> (int, int, u16, u16) {
    match mode {
        EraseMode::FromCursor => (
            min16(g.cursor.x, g.width) as int,
            g.width as int,
            g.cursor.x,
            sat_sub16(g.width, g.cursor.x),
        ),
        EraseMode::ToCursor => (0, g.cursor.x + 1, 0, sat_add16(g.cursor.x, 1)),
        EraseMode::All => (0, g.width as int, 0, g.width),
    }
}

pub open spec fn clear_line_state(g: GridState, mode: EraseMode) -> GridState {
    if g.height == 0 {
        g
    } else {
        let (s, e, x, width) = clear_line_span(g, mode);
        let y = g.cursor.y;
        let (row, changed) = clear_range_row(g.rows[y as int], s, e);
        let g1 = with_row(g, y as int, row);
        if changed {
            line_damage(g1, y, x, width)
        } else {
            g1
        }
    }
}

/// Whether row `y` of `g` holds a cell that is not blank.
pub open spec fn row_dirty(g: GridState, y: int) -> bool {
    span_dirty(g.rows[y], 0, g.width as int)
}

pub open spec fn clear_screen_state(g: GridState, mode: EraseMode) -> GridState {
    let h = g.height as int;
    let w = g.width;
    let cy = g.cursor.y as int;
    let (rows, changed) = match mode {
        EraseMode::All => (
            Seq::new(g.height as nat, |y: int| blank_row(w)),
            exists|y: int| 0 <= y < h && row_dirty(g, y),
        ),
        EraseMode::FromCursor => if h == 0 {
            (g.rows, false)
        } else {
            let (crow, c1) = clear_range_row(
                g.rows[cy],
                min16(g.cursor.x, w) as int,
                w as int,
            );
            (
                Seq::new(
                    g.height as nat,
                    |y: int|
                        if y == cy {
                            crow
                        } else if y > cy {
                            blank_row(w)
                        } else {
                            g.rows[y]
                        },
                ),
                c1 || exists|y: int| cy < y < h && row_dirty(g, y),
            )
        },
        EraseMode::ToCursor => if h == 0 {
            (g.rows, false)
        } else {
            let (crow, c1) = clear_range_row(g.rows[cy], 0, g.cursor.x + 1);
            (
                Seq::new(
                    g.height as nat,
                    |y: int|
                        if y == cy {
                            crow
                        } else if y < cy {
                            blank_row(w)
                        } else {
                            g.rows[y]
                        },
                ),
                c1 || exists|y: int| 0 <= y < cy && row_dirty(g, y),
            )
        },
    };
    let g1 = GridState { rows, ..g };
    if changed {
        viewport_damage(g1)
    } else {
        g1
    }
}

/// Deleting (`right == false`) or inserting `count` blank characters at the
/// cursor, within the cursor row.
pub open spec fn shift_chars_state(g: GridState, count: u16, right: bool) -> GridState {
    let x = g.cursor.x as int;
    let y = g.cursor.y as int;
    if x >= g.width {
        g
    } else {
        let n = min16(count, (g.width - x) as u16) as int;
        if n == 0 {
            g
        } else {
            let row = g.rows[y];
            let dirty = span_dirty(row, x, g.width as int);
            let (r1, _s, _e, boundary) = if !right || row[x].spacer {
                clear_for_write_row(row, x)
            } else {
                (row, x, x, false)
            };
            let r2 = shift_row(r1, x, n, right);
            let r3 = sanitize_row_spec(r2);
            let g1 = with_row(g, y, r3);
            if dirty || boundary || r3 != r2 {
                line_damage(g1, y as u16, x as u16, (g.width - x) as u16)
            } else {
                g1
            }
        }
    }
}

/// The cell that pads the last column before a wide character wraps.
pub open spec fn pad_cell(style: Style) -> Cell {
    Cell { ch: ' ', style, wide: false, spacer: false }
}

/// The second half of a wide character.
pub open spec fn spacer_cell(style: Style) -> Cell {
    Cell { ch: ' ', style, wide: false, spacer: true }
}

/// The cell that printing `ch` `width` columns wide writes.
pub open spec fn printed_cell(ch: char, style: Style, width: u16) -> Cell {
    Cell { ch, style, wide: width > 1, spacer: false }
}

/// A wide character that does not fit before the right margin: the rest of
/// the row is padded and the cursor wraps.
pub open spec fn wide_wrap_state(g: GridState, style: Style) -> GridState {
    let x = g.cursor.x;
    let y = g.cursor.y;
    let (row, changed) = if y < g.height {
        replace_row(g.rows[y as int], x as int, pad_cell(style))
    } else {
        (Seq::empty(), false)
    };
    let g1 = if y < g.height {
        with_row(g, y as int, row)
    } else {
        g
    };
    let g2 = GridState { pending_wrap: true, ..g1 };
    let g3 = if changed {
        line_damage(g2, y, x, sat_sub16(g.width, x))
    } else {
        g2
    };
    linewrap_state(g3)
}

/// The row that writing `ch` at column `x` of `row`, `width` columns wide,
/// leaves (what `write_char_state` does to the cursor row).
pub open spec fn written_row(row: Seq<Cell>, x: int, ch: char, style: Style, width: u16) -> Seq<Cell> {
    let (r1, s1, e1, c1) = clear_for_write_row(row, x);
    let second = width > 1 && x + 1 < row.len();
    let (r2, s2, e2, c2) = if second {
        clear_for_write_row(r1, x + 1)
    } else {
        (r1, s1, e1, false)
    };
    let (r3, c3) = replace_row(r2, x, printed_cell(ch, style, width));
    let (r4, c4) = if second {
        replace_row(r3, x + 1, spacer_cell(style))
    } else {
        (r3, false)
    };
    r4
}

/// Writing a character never lowers the generation.
proof fn lemma_write_char_generation(g: GridState, ch: char, style: Style, width: u16)
    ensures
        write_char_state(g, ch, style, width).generation >= g.generation,
{
}

/// Writing a character keeps the row's wide characters whole, as long as a
/// wide character has room for its second half.
#[verifier::spinoff_prover]
#[verifier::rlimit(40)]
pub proof fn lemma_written_row_whole(row: Seq<Cell>, x: int, ch: char, style: Style, width: u16)
    requires
        row::row_whole(row),
        0 <= x < row.len(),
        width > 1 ==> x + 1 < row.len(),
    ensures
        row::row_whole(written_row(row, x, ch, style, width)),
        written_row(row, x, ch, style, width).len() == row.len(),
{
    let (r1, s1, e1, c1) = clear_for_write_row(row, x);
    let second = width > 1 && x + 1 < row.len();
    let (r2, s2, e2, c2) = if second {
        clear_for_write_row(r1, x + 1)
    } else {
        (r1, s1, e1, false)
    };
    let (r3, c3) = replace_row(r2, x, printed_cell(ch, style, width));
    let out = written_row(row, x, ch, style, width);
    assert forall|i: int| 0 <= i < out.len() implies (#[trigger] out[i].wide ==> i + 1 < out.len()
        && out[i + 1].spacer) && (out[i].spacer ==> i > 0 && out[i - 1].wide) && !(out[i].wide
        && out[i].spacer) by {
        row::lemma_row_whole_at(row, x);
        row::lemma_row_whole_at(row, i);
        if x + 1 < row.len() {
            row::lemma_row_whole_at(row, x + 1);
        }
        if x > 0 {
            row::lemma_row_whole_at(row, x - 1);
        }
        if i + 1 < row.len() {
            row::lemma_row_whole_at(row, i + 1);
        }
        if i > 0 {
            row::lemma_row_whole_at(row, i - 1);
        }
    }
}

/// Writing `ch` at the cursor, `width` columns wide: the cells it covers are
/// made writable, the character (and a spacer for its second half) written,
/// and the cursor advanced.
pub open spec fn write_char_state(g: GridState, ch: char, style: Style, width: u16) -> GridState {
    let x = g.cursor.x as int;
    let y = g.cursor.y as int;
    if y >= g.height {
        advance_cursor_state(g, width)
    } else {
        let row0 = g.rows[y];
        let (r1, s1, e1, c1) = clear_for_write_row(row0, x);
        let second = width > 1 && x + 1 < g.width;
        let (r2, s2, e2, c2) = if second {
            clear_for_write_row(r1, x + 1)
        } else {
            (r1, s1, e1, false)
        };
        let ds = if second && s2 < s1 {
            s2
        } else {
            s1
        };
        let de = if second && e2 > e1 {
            e2
        } else {
            e1
        };
        let (r3, c3) = replace_row(r2, x, printed_cell(ch, style, width));
        let ds2 = if x < ds {
            x
        } else {
            ds
        };
        let de2 = if x > de {
            x
        } else {
            de
        };
        let (r4, c4) = if second {
            replace_row(r3, x + 1, spacer_cell(style))
        } else {
            (r3, false)
        };
        let de3 = if second && x + 1 > de2 {
            x + 1
        } else {
            de2
        };
        let g1 = with_row(g, y, r4);
        let g2 = if c1 || c2 || c3 || c4 {
            line_damage(g1, y as u16, ds2 as u16, (de3 - ds2 + 1) as u16)
        } else {
            g1
        };
        advance_cursor_state(g2, width)
    }
}

/// The state in which printing `ch` writes it, and the width it is written
/// with: after a pending wrap, and after the wrap of a wide character that
/// does not fit.
pub open spec fn put_char_pre(g: GridState, ch: char, style: Style) -> (GridState, u16) {
    let g1 = linewrap_state(g);
    let w0 = spec_char_width(ch);
    if w0 > 1 && g1.cursor.x + w0 > g1.width {
        if g1.wrap {
            (wide_wrap_state(g1, style), w0)
        } else {
            (g1, 1)
        }
    } else {
        (g1, w0)
    }
}

/// Printing `ch`: a newline feeds a line, a character of no width does
/// nothing beyond a pending wrap, any other is written at the cursor.
pub open spec fn put_char_state(g: GridState, ch: char, style: Style) -> GridState {
    if ch == '\n' {
        line_feed_state(g)
    } else if spec_char_width(ch) == 0 {
        linewrap_state(g)
    } else {
        let (p, width) = put_char_pre(g, ch, style);
        write_char_state(p, ch, style, width)
    }
}

/// What `put_char` returns: where it wrote which cell.
pub open spec fn put_char_result(g: GridState, ch: char, style: Style) -> Option<(u16, u16, Cell)> {
    if ch == '\n' || spec_char_width(ch) == 0 {
        None
    } else {
        let (p, width) = put_char_pre(g, ch, style);
        Some((p.cursor.x, p.cursor.y, printed_cell(ch, style, width)))
    }
}

/// Printing `ch` `n` times.
pub open spec fn repeat_put_state(g: GridState, ch: char, style: Style, n: nat) -> GridState
    decreases n,
{
    if n == 0 {
        g
    } else {
        put_char_state(repeat_put_state(g, ch, style, (n - 1) as nat), ch, style)
    }
}

/// Printing a character keeps the size of the grid.
pub proof fn lemma_put_char_dims(g: GridState, ch: char, style: Style)
    ensures
        put_char_state(g, ch, style).width == g.width,
        put_char_state(g, ch, style).height == g.height,
{
    let g1 = linewrap_state(g);
    assert(g1.width == g.width && g1.height == g.height);
    if ch != '\n' && spec_char_width(ch) != 0 {
        let (p, width) = put_char_pre(g, ch, style);
        assert(p.width == g.width && p.height == g.height);
    }
}

/// Printing a character `n` times keeps the size of the grid.
pub proof fn lemma_repeat_put_dims(g: GridState, ch: char, style: Style, n: nat)
    ensures
        repeat_put_state(g, ch, style, n).width == g.width,
        repeat_put_state(g, ch, style, n).height == g.height,
    decreases n,
{
    if n > 0 {
        lemma_repeat_put_dims(g, ch, style, (n - 1) as nat);
        lemma_put_char_dims(repeat_put_state(g, ch, style, (n - 1) as nat), ch, style);
    }
}

/// Printing an ASCII run keeps the size of the grid.
pub proof fn lemma_ascii_run_dims(g: GridState, bytes: Seq<u8>, style: Style, offset: nat)
    ensures
        ascii_run_state(g, bytes, style, offset).width == g.width,
        ascii_run_state(g, bytes, style, offset).height == g.height,
    decreases bytes.len() - offset,
{
    if offset < bytes.len() {
        let g1 = linewrap_state(g);
        let x = g1.cursor.x;
        let y = g1.cursor.y;
        let count = ascii_run_count(g1, bytes, offset);
        if y < g1.height && range_has_wide_state(g1.rows[y as int], x as int, count) {
            let g2 = put_char_state(g1, bytes[offset as int] as char, style);
            lemma_put_char_dims(g1, bytes[offset as int] as char, style);
            lemma_ascii_run_dims(g2, bytes, style, offset + 1);
        } else if !(x < g1.width && y < g1.height) {
        } else {
            let g2 = ascii_run_write(g1, bytes, style, offset);
            lemma_ascii_run_dims(g2, bytes, style, (offset + count) as nat);
        }
    }
}

/// The number of spaces that a tab prints: up to the next multiple of eight,
/// at least one.
pub open spec fn tab_spaces(x: u16) -> u16 {
    ((x / 8 + 1) * 8 - x) as u16
}

pub open spec fn put_tab_state(g: GridState, style: Style) -> GridState {
    repeat_put_state(g, ' ', style, tab_spaces(g.cursor.x) as nat)
}

/// Whether columns `x..x + count` of `row` touch a wide character.
pub open spec fn range_has_wide_state(row: Seq<Cell>, x: int, count: int) -> bool {
    let end = if x + count < row.len() {
        x + count
    } else {
        row.len() as int
    };
    if count == 0 {
        false
    } else {
        ||| (0 < x < row.len() && row[x].spacer)
        ||| (exists|i: int| x <= i < end && 0 <= i && (row[i].wide || row[i].spacer))
        ||| (0 <= end < row.len() && row[end].spacer)
    }
}

/// The cell that printing the ASCII byte `b` writes.
pub open spec fn ascii_cell(b: u8, style: Style) -> Cell {
    Cell { ch: b as char, style, wide: false, spacer: false }
}

/// `row` with `bytes[offset..offset + count]` written from column `x`.
pub open spec fn write_ascii_row(
    row: Seq<Cell>,
    x: int,
    bytes: Seq<u8>,
    offset: int,
    count: int,
    style: Style,
) -> Seq<Cell> {
    Seq::new(
        row.len(),
        |i: int|
            if x <= i < x + count {
                ascii_cell(bytes[offset + i - x], style)
            } else {
                row[i]
            },
    )
}

/// Printing `bytes[offset..]` (printable ASCII) as runs that fill the rest
/// of the row at a time; a run that meets a wide character is printed one
/// character at a time.
pub open spec fn ascii_run_state(g: GridState, bytes: Seq<u8>, style: Style, offset: nat) -> GridState
    decreases bytes.len() - offset,
{
    if offset >= bytes.len() {
        g
    } else {
        let g1 = linewrap_state(g);
        let x = g1.cursor.x;
        let y = g1.cursor.y;
        let count = ascii_run_count(g1, bytes, offset);
        if y < g1.height && range_has_wide_state(g1.rows[y as int], x as int, count) {
            ascii_run_state(
                put_char_state(g1, bytes[offset as int] as char, style),
                bytes,
                style,
                offset + 1,
            )
        } else if !(x < g1.width && y < g1.height) {
            g1
        } else {
            ascii_run_state(ascii_run_write(g1, bytes, style, offset), bytes, style, (offset + count) as nat)
        }
    }
}

/// How many bytes from `offset` a run writes at once: the rest of the row
/// (at least one column), or what is left.
pub open spec fn ascii_run_count(g: GridState, bytes: Seq<u8>, offset: nat) -> int {
    let available = max16(sat_sub16(g.width, g.cursor.x), 1) as int;
    if available < bytes.len() - offset {
        available
    } else {
        bytes.len() - offset
    }
}

/// Writing one run at the cursor.
pub open spec fn ascii_run_write(g: GridState, bytes: Seq<u8>, style: Style, offset: nat) -> GridState {
    let x = g.cursor.x;
    let y = g.cursor.y;
    let count = ascii_run_count(g, bytes, offset);
    let row = write_ascii_row(g.rows[y as int], x as int, bytes, offset as int, count, style);
    advance_cursor_state(line_damage(with_row(g, y as int, row), y, x, count as u16), count as u16)
}

/// Whether `put_ascii_run_crlf` takes `bytes`: the run fits before the right
/// margin, no wrap is pending, and no wide character is in the way.
pub open spec fn ascii_crlf_fits(g: GridState, bytes: Seq<u8>) -> bool {
    &&& bytes.len() > 0
    &&& !g.pending_wrap
    &&& bytes.len() <= sat_sub16(g.width, g.cursor.x)
    &&& !(g.cursor.y < g.height && range_has_wide_state(
        g.rows[g.cursor.y as int],
        g.cursor.x as int,
        bytes.len() as int,
    ))
    &&& g.cursor.x < g.width
    &&& g.cursor.y < g.height
}

pub open spec fn ascii_crlf_state(g: GridState, bytes: Seq<u8>, style: Style) -> GridState {
    if !ascii_crlf_fits(g, bytes) {
        g
    } else {
        let x = g.cursor.x;
        let y = g.cursor.y;
        let row = write_ascii_row(g.rows[y as int], x as int, bytes, 0, bytes.len() as int, style);
        crlf_state(line_damage(with_row(g, y as int, row), y, x, bytes.len() as u16))
    }
}

/// Row `y` of a grid resized from `rows` (`old_width` wide) to `width`:
/// the old cells that fit, blank cells beyond.
pub open spec fn resized_row(rows: Seq<Seq<Cell>>, old_width: u16, width: u16, y: int) -> Seq<Cell> {
    if y < rows.len() {
        Seq::new(width as nat, |x: int| if x < old_width { rows[y][x] } else { blank_cell() })
    } else {
        blank_row(width)
    }
}

/// A resize to `width` by `height` (each at least one): cells keep their
/// coordinates, the cursor is clamped, the scroll region reset.
pub open spec fn resize_state(g: GridState, width: u16, height: u16) -> GridState {
    let w = max16(width, 1);
    let h = max16(height, 1);
    if w == g.width && h == g.height {
        g
    } else {
        viewport_damage(
            GridState {
                width: w,
                height: h,
                rows: Seq::new(
                    h as nat,
                    |y: int| sanitize_row_spec(resized_row(g.rows, g.width, w, y)),
                ),
                cursor: Cursor { x: min16(g.cursor.x, (w - 1) as u16), y: min16(g.cursor.y, (h - 1) as u16), ..g.cursor },
                pending_wrap: false,
                scroll_top: 0,
                scroll_bottom: (h - 1) as u16,
                ..g
            },
        )
    }
}

/// Resizing keeps every cell at its coordinates: a cell that is neither half
/// of a wide character and lies inside both sizes stays where it was, a cell
/// outside the old grid comes out blank, and every row of a resized grid has
/// each wide character whole.
pub proof fn lemma_resize_keeps_cells(g: GridState, width: u16, height: u16, x: int, y: int)
    requires
        state_wf(g),
        0 <= y < max16(height, 1),
        0 <= x < max16(width, 1),
    ensures
        y < g.height && x < g.width && row::is_plain(g.rows[y][x]) ==> resize_state(
            g,
            width,
            height,
        ).rows[y][x] == g.rows[y][x],
        (max16(width, 1) != g.width || max16(height, 1) != g.height) ==> row::row_sane(
            resize_state(g, width, height).rows[y],
        ),
        (max16(width, 1) != g.width || max16(height, 1) != g.height) && (y >= g.height
            || x >= g.width) ==> resize_state(g, width, height).rows[y][x] == blank_cell(),
{
    let w = max16(width, 1);
    let row = resized_row(g.rows, g.width, w, y);
    row::lemma_sanitize_row(row);
    assert(row.len() == w);
    if y >= g.height || x >= g.width {
        assert(row[x] == blank_cell());
    }
}

/// Whether every row of a grid keeps its wide characters whole.
pub open spec fn grid_whole(g: GridState) -> bool {
    forall|y: int| 0 <= y < g.rows.len() ==> row::row_whole(#[trigger] g.rows[y])
}

proof fn lemma_blank_row_whole(width: u16)
    ensures
        row::row_whole(blank_row(width)),
{
    row::lemma_blank_cells_whole(blank_row(width));
}

proof fn lemma_with_row_whole(g: GridState, y: int, row: Seq<Cell>)
    requires
        grid_whole(g),
        row::row_whole(row),
        0 <= y < g.rows.len(),
    ensures
        grid_whole(with_row(g, y, row)),
{
    assert forall|i: int| 0 <= i < with_row(g, y, row).rows.len() implies row::row_whole(
        #[trigger] with_row(g, y, row).rows[i],
    ) by {
        if i != y {
            assert(with_row(g, y, row).rows[i] == g.rows[i]);
        }
    }
}

proof fn lemma_shifted_rows_whole(g: GridState, top: u16, bottom: u16, count: u16, down: bool)
    requires
        grid_whole(g),
        state_wf(g),
    ensures
        grid_whole(shift_lines_state(g, top, bottom, count, down)),
{
    lemma_blank_row_whole(g.width);
    let out = shift_lines_state(g, top, bottom, count, down);
    if !(top < g.scroll_top || bottom > g.scroll_bottom || top > bottom) {
        let n = min16(count, (bottom - top + 1) as u16) as int;
        if n != 0 {
            assert forall|y: int| 0 <= y < out.rows.len() implies row::row_whole(#[trigger] out.rows[y]) by {
                let v = shifted_rows(g.rows, g.width, top as int, bottom as int, n, down);
                assert(out.rows[y] == v[y]);
                if top <= y <= bottom {
                    if !down && y + n <= bottom {
                        assert(row::row_whole(g.rows[y + n]));
                    } else if down && y - n >= top {
                        assert(row::row_whole(g.rows[y - n]));
                    }
                } else {
                    assert(row::row_whole(g.rows[y]));
                }
            }
        }
    }
}

/// Moving lines keeps wide characters whole: rows move whole and the rows
/// uncovered are blank.
pub proof fn lemma_shift_lines_whole(g: GridState, top: u16, bottom: u16, count: u16, down: bool)
    requires
        grid_whole(g),
        state_wf(g),
    ensures
        grid_whole(shift_lines_state(g, top, bottom, count, down)),
        grid_whole(line_feed_state(g)),
        grid_whole(crlf_state(g)),
        grid_whole(linewrap_state(g)),
        grid_whole(reverse_index_state(g)),
{
    lemma_shifted_rows_whole(g, top, bottom, count, down);
    let g1 = GridState { pending_wrap: false, ..g };
    let g2 = GridState { pending_wrap: false, cursor: Cursor { x: 0, ..g.cursor }, ..g };
    lemma_shifted_rows_whole(g1, g.scroll_top, g.scroll_bottom, 1, false);
    lemma_shifted_rows_whole(g2, g.scroll_top, g.scroll_bottom, 1, false);
    lemma_shifted_rows_whole(g1, g.scroll_top, g.scroll_bottom, 1, true);
}

/// The shape of a grid that printing relies on: `height` rows of `width`
/// cells (both at least one), the cursor and the scroll region on screen.
pub open spec fn grid_shape(g: GridState) -> bool {
    &&& g.width > 0
    &&& g.height > 0
    &&& g.rows.len() == g.height
    &&& forall|y: int| 0 <= y < g.rows.len() ==> #[trigger] g.rows[y].len() == g.width
    &&& g.cursor.x < g.width
    &&& g.cursor.y < g.height
    &&& g.scroll_top <= g.scroll_bottom < g.height
}

proof fn lemma_shape_kept(g: GridState)
    requires
        grid_shape(g),
    ensures
        grid_shape(line_feed_state(g)),
        grid_shape(crlf_state(g)),
        grid_shape(linewrap_state(g)),
        forall|amount: u16| grid_shape(#[trigger] advance_cursor_state(g, amount)),
{
    let g1 = GridState { pending_wrap: false, ..g };
    let g2 = GridState { pending_wrap: false, cursor: Cursor { x: 0, ..g.cursor }, ..g };
    assert forall|h: GridState| grid_shape(h) && h.width == g.width implies grid_shape(
        #[trigger] shift_lines_state(h, h.scroll_top, h.scroll_bottom, 1, false),
    ) by {
        let out = shift_lines_state(h, h.scroll_top, h.scroll_bottom, 1, false);
        assert forall|y: int| 0 <= y < out.rows.len() implies #[trigger] out.rows[y].len() == out.width by {
            if h.scroll_top <= h.scroll_bottom {
                let v = shifted_rows(h.rows, h.width, h.scroll_top as int, h.scroll_bottom as int, 1, false);
                assert(out.rows[y] == v[y]);
            }
        }
    }
    assert(grid_shape(g1) && grid_shape(g2));
}

/// Writing a character keeps wide characters whole when a wide character
/// has room for its second half.
pub proof fn lemma_write_char_whole(g: GridState, ch: char, style: Style, width: u16)
    requires
        grid_whole(g),
        grid_shape(g),
        width > 1 ==> g.cursor.x + 1 < g.width,
    ensures
        grid_whole(write_char_state(g, ch, style, width)),
        grid_shape(write_char_state(g, ch, style, width)),
{
    let x = g.cursor.x as int;
    let y = g.cursor.y as int;
    let row0 = g.rows[y];
    lemma_written_row_whole(row0, x, ch, style, width);
    let r4 = written_row(row0, x, ch, style, width);
    lemma_with_row_whole(g, y, r4);
    let out = write_char_state(g, ch, style, width);
    assert(out.rows == with_row(g, y, r4).rows);
    assert forall|i: int| 0 <= i < out.rows.len() implies #[trigger] out.rows[i].len() == out.width by {
        if i != y {
            assert(out.rows[i] == g.rows[i]);
        }
    }
}

/// Writing a plain cell over a plain cell keeps wide characters whole.
proof fn lemma_replace_plain_whole(row: Seq<Cell>, x: int, cell: Cell)
    requires
        row::row_whole(row),
        0 <= x < row.len(),
        row::is_plain(row[x]),
        row::is_plain(cell),
    ensures
        row::row_whole(replace_row(row, x, cell).0),
{
    let out = replace_row(row, x, cell).0;
    assert forall|i: int| 0 <= i < out.len() implies (#[trigger] out[i].wide ==> i + 1 < out.len()
        && out[i + 1].spacer) && (out[i].spacer ==> i > 0 && out[i - 1].wide) && !(out[i].wide
        && out[i].spacer) by {
        row::lemma_row_whole_at(row, i);
        if i + 1 < row.len() {
            row::lemma_row_whole_at(row, i + 1);
        }
        if i > 0 {
            row::lemma_row_whole_at(row, i - 1);
        }
    }
}

/// Whether printing `ch` pads the last column over the second half of a
/// wide character (which that leaves without it): a wide character that
/// does not fit, with autowrap on, while the cursor sits on a spacer.
pub open spec fn wrap_pads_spacer(g: GridState, ch: char) -> bool {
    let g1 = linewrap_state(g);
    &&& spec_char_width(ch) > 1
    &&& g1.cursor.x + spec_char_width(ch) > g1.width
    &&& g1.wrap
    &&& g1.cursor.y < g1.height
    &&& g1.rows[g1.cursor.y as int][g1.cursor.x as int].spacer
}

/// Printing keeps wide characters whole, in a grid at least two columns
/// wide, unless it pads a spacer at the right margin.
pub proof fn lemma_put_char_whole(g: GridState, ch: char, style: Style)
    requires
        grid_whole(g),
        grid_shape(g),
        g.width >= 2,
        !wrap_pads_spacer(g, ch),
    ensures
        grid_whole(put_char_state(g, ch, style)),
        grid_shape(put_char_state(g, ch, style)),
{
    lemma_shift_lines_whole_shape(g);
    lemma_shape_kept(g);
    if ch != '\n' && spec_char_width(ch) != 0 {
        let g1 = linewrap_state(g);
        let w0 = spec_char_width(ch);
        if w0 > 1 && g1.cursor.x + w0 > g1.width && g1.wrap {
            let x = g1.cursor.x;
            let y = g1.cursor.y;
            let row = g1.rows[y as int];
            row::lemma_row_whole_at(row, x as int);
            lemma_replace_plain_whole(row, x as int, pad_cell(style));
            let (r, changed) = replace_row(row, x as int, pad_cell(style));
            lemma_with_row_whole(g1, y as int, r);
            let ga = with_row(g1, y as int, r);
            let gb = GridState { pending_wrap: true, ..ga };
            let gc = if changed {
                line_damage(gb, y, x, sat_sub16(g1.width, x))
            } else {
                gb
            };
            assert(grid_shape(gc)) by {
                assert forall|i: int| 0 <= i < gc.rows.len() implies #[trigger] gc.rows[i].len() == gc.width by {
                    if i != y {
                        assert(gc.rows[i] == g1.rows[i]);
                    }
                }
            }
            lemma_shift_lines_whole_shape(gc);
            lemma_shape_kept(gc);
            let p = wide_wrap_state(g1, style);
            assert(p == linewrap_state(gc));
            lemma_write_char_whole(p, ch, style, w0);
        } else if w0 > 1 && g1.cursor.x + w0 > g1.width {
            lemma_write_char_whole(g1, ch, style, 1);
        } else {
            lemma_write_char_whole(g1, ch, style, w0);
        }
    }
}

proof fn lemma_shift_lines_whole_shape(g: GridState)
    requires
        grid_whole(g),
        grid_shape(g),
    ensures
        grid_whole(line_feed_state(g)),
        grid_whole(crlf_state(g)),
        grid_whole(linewrap_state(g)),
        grid_whole(reverse_index_state(g)),
{
    let g1 = GridState { pending_wrap: false, ..g };
    let g2 = GridState { pending_wrap: false, cursor: Cursor { x: 0, ..g.cursor }, ..g };
    assert forall|h: GridState, d: bool| grid_whole(h) && grid_shape(h) implies grid_whole(
        #[trigger] shift_lines_state(h, h.scroll_top, h.scroll_bottom, 1, d),
    ) by {
        lemma_blank_row_whole(h.width);
        let out = shift_lines_state(h, h.scroll_top, h.scroll_bottom, 1, d);
        assert forall|y: int| 0 <= y < out.rows.len() implies row::row_whole(#[trigger] out.rows[y]) by {
            let v = shifted_rows(h.rows, h.width, h.scroll_top as int, h.scroll_bottom as int, 1, d);
            assert(out.rows[y] == v[y]);
            if h.scroll_top <= y <= h.scroll_bottom {
                if !d && y + 1 <= h.scroll_bottom {
                    assert(row::row_whole(h.rows[y + 1]));
                } else if d && y - 1 >= h.scroll_top {
                    assert(row::row_whole(h.rows[y - 1]));
                }
            } else {
                assert(row::row_whole(h.rows[y]));
            }
        }
    }
    assert(grid_whole(shift_lines_state(g1, g1.scroll_top, g1.scroll_bottom, 1, false)));
    assert(grid_whole(shift_lines_state(g2, g2.scroll_top, g2.scroll_bottom, 1, false)));
    assert(grid_whole(shift_lines_state(g1, g1.scroll_top, g1.scroll_bottom, 1, true)));
}

/// Deleting or inserting characters keeps wide characters whole: the row
/// is mended after the shift.
pub proof fn lemma_shift_chars_whole(g: GridState, count: u16, right: bool)
    requires
        grid_whole(g),
        grid_shape(g),
    ensures
        grid_whole(shift_chars_state(g, count, right)),
{
    let x = g.cursor.x as int;
    let y = g.cursor.y as int;
    let n = min16(count, (g.width - x) as u16) as int;
    if x < g.width && n != 0 {
        let row = g.rows[y];
        let r1 = if !right || row[x].spacer {
            clear_for_write_row(row, x).0
        } else {
            row
        };
        let r2 = shift_row(r1, x, n, right);
        assert forall|i: int| 0 <= i < r1.len() implies !(#[trigger] r1[i].wide && r1[i].spacer) by {
            row::lemma_row_whole_at(row, i);
        }
        assert forall|i: int| 0 <= i < r2.len() implies !(#[trigger] r2[i].wide && r2[i].spacer) by {
            if i >= x {
                if right && i - x >= n {
                    assert(!(r1[i - n].wide && r1[i - n].spacer));
                } else if !right && i + n < r1.len() {
                    assert(!(r1[i + n].wide && r1[i + n].spacer));
                }
            }
        }
        row::lemma_sanitize_whole(r2);
        lemma_with_row_whole(g, y, sanitize_row_spec(r2));
    }
}

/// The alignment test and a resize leave every wide character whole.
pub proof fn lemma_alignment_and_resize_whole(g: GridState, style: Style, width: u16, height: u16)
    requires
        grid_whole(g),
        grid_shape(g),
    ensures
        grid_whole(screen_alignment_state(g, style)),
        grid_whole(resize_state(g, width, height)),
{
    let a = screen_alignment_state(g, style);
    assert forall|y: int| 0 <= y < a.rows.len() implies row::row_whole(#[trigger] a.rows[y]) by {
        let row = a.rows[y];
        assert forall|i: int| 0 <= i < row.len() implies (#[trigger] row[i].wide ==> i + 1 < row.len()
            && row[i + 1].spacer) && (row[i].spacer ==> i > 0 && row[i - 1].wide) by {}
    }
    let r = resize_state(g, width, height);
    let w = max16(width, 1);
    assert forall|y: int| 0 <= y < r.rows.len() implies row::row_whole(#[trigger] r.rows[y]) by {
        if !(w == g.width && max16(height, 1) == g.height) {
            let src = resized_row(g.rows, g.width, w, y);
            assert forall|i: int| 0 <= i < src.len() implies !(#[trigger] src[i].wide && src[i].spacer) by {
                if y < g.rows.len() && i < g.width {
                    row::lemma_row_whole_at(g.rows[y], i);
                }
            }
            row::lemma_sanitize_whole(src);
        }
    }
}

/// Writing a run of ASCII characters where it touches no wide character
/// keeps wide characters whole.
pub proof fn lemma_ascii_write_whole(g: GridState, bytes: Seq<u8>, style: Style, offset: nat)
    requires
        grid_whole(g),
        grid_shape(g),
        offset < bytes.len(),
        !range_has_wide_state(
            g.rows[g.cursor.y as int],
            g.cursor.x as int,
            ascii_run_count(g, bytes, offset),
        ),
    ensures
        grid_whole(ascii_run_write(g, bytes, style, offset)),
{
    let x = g.cursor.x as int;
    let y = g.cursor.y as int;
    let count = ascii_run_count(g, bytes, offset);
    let row = g.rows[y];
    let out = write_ascii_row(row, x, bytes, offset as int, count, style);
    let end = if x + count < row.len() {
        x + count
    } else {
        row.len() as int
    };
    assert forall|i: int| 0 <= i < out.len() implies (#[trigger] out[i].wide ==> i + 1 < out.len()
        && out[i + 1].spacer) && (out[i].spacer ==> i > 0 && out[i - 1].wide) && !(out[i].wide
        && out[i].spacer) by {
        row::lemma_row_whole_at(row, i);
        if i + 1 < row.len() {
            row::lemma_row_whole_at(row, i + 1);
        }
        if i > 0 {
            row::lemma_row_whole_at(row, i - 1);
        }
        if x <= i < x + count && count > 0 {
            assert(!(row[i].wide || row[i].spacer));
        }
    }
    lemma_with_row_whole(g, y, out);
}

/// What a grid shows and holds, without its damage and generation.
pub open spec fn content(g: GridState) -> GridState {
    GridState { generation: 0, damage: crate::damage::empty_state(), ..g }
}

/// Printing the characters `bytes[offset..]` one at a time.
pub open spec fn put_chars(g: GridState, bytes: Seq<u8>, style: Style, offset: nat) -> GridState
    decreases bytes.len() - offset,
{
    if offset >= bytes.len() {
        g
    } else {
        put_chars(put_char_state(g, bytes[offset as int] as char, style), bytes, style, offset + 1)
    }
}

proof fn lemma_damage_only(g: GridState, old: Cursor, y: u16, x: u16, w: u16)
    ensures
        content(note_cursor(g, old)) == content(g),
        content(line_damage(g, y, x, w)) == content(g),
        content(viewport_damage(g)) == content(g),
{
    assert(content(note_cursor(g, old)) =~= content(g));
    assert(content(line_damage(g, y, x, w)) =~= content(g));
    assert(content(viewport_damage(g)) =~= content(g));
}

proof fn lemma_shift_lines_congruent(a: GridState, b: GridState, top: u16, bottom: u16, count: u16, down: bool)
    requires
        content(a) == content(b),
    ensures
        content(shift_lines_state(a, top, bottom, count, down)) == content(
            shift_lines_state(b, top, bottom, count, down),
        ),
{
    assert(a.rows == b.rows && a.scroll_top == b.scroll_top && a.scroll_bottom == b.scroll_bottom
        && a.height == b.height && a.width == b.width && a.scrolled == b.scrolled && a.pool_len
        == b.pool_len) by {
        assert(content(a).rows == content(b).rows);
    }
    assert(content(shift_lines_state(a, top, bottom, count, down)) =~= content(
        shift_lines_state(b, top, bottom, count, down),
    ));
}

proof fn lemma_wrap_congruent(a: GridState, b: GridState)
    requires
        content(a) == content(b),
    ensures
        content(crlf_state(a)) == content(crlf_state(b)),
        content(line_feed_state(a)) == content(line_feed_state(b)),
        content(linewrap_state(a)) == content(linewrap_state(b)),
{
    assert(a.cursor == b.cursor && a.scroll_top == b.scroll_top && a.scroll_bottom == b.scroll_bottom
        && a.height == b.height && a.pending_wrap == b.pending_wrap) by {
        assert(content(a).cursor == content(b).cursor);
    }
    let a1 = GridState { pending_wrap: false, cursor: Cursor { x: 0, ..a.cursor }, ..a };
    let b1 = GridState { pending_wrap: false, cursor: Cursor { x: 0, ..b.cursor }, ..b };
    assert(content(a1) =~= content(b1));
    lemma_shift_lines_congruent(a1, b1, a.scroll_top, a.scroll_bottom, 1, false);
    let a2 = GridState { pending_wrap: false, ..a };
    let b2 = GridState { pending_wrap: false, ..b };
    assert(content(a2) =~= content(b2));
    lemma_shift_lines_congruent(a2, b2, a.scroll_top, a.scroll_bottom, 1, false);
    let ca = if a.cursor.y == a.scroll_bottom {
        shift_lines_state(a1, a.scroll_top, a.scroll_bottom, 1, false)
    } else {
        GridState { cursor: Cursor { y: min16((a.cursor.y + 1) as u16, last_index(a.height)), ..a1.cursor }, ..a1 }
    };
    let cb = if b.cursor.y == b.scroll_bottom {
        shift_lines_state(b1, b.scroll_top, b.scroll_bottom, 1, false)
    } else {
        GridState { cursor: Cursor { y: min16((b.cursor.y + 1) as u16, last_index(b.height)), ..b1.cursor }, ..b1 }
    };
    assert(content(ca) =~= content(cb));
    lemma_damage_only(ca, a.cursor, 0, 0, 0);
    lemma_damage_only(cb, b.cursor, 0, 0, 0);
    assert(ca.cursor == cb.cursor) by {
        assert(content(ca).cursor == content(cb).cursor);
    }
    let fa = if a.cursor.y == a.scroll_bottom {
        shift_lines_state(a2, a.scroll_top, a.scroll_bottom, 1, false)
    } else {
        GridState { cursor: Cursor { y: min16((a.cursor.y + 1) as u16, last_index(a.height)), ..a.cursor }, ..a2 }
    };
    let fb = if b.cursor.y == b.scroll_bottom {
        shift_lines_state(b2, b.scroll_top, b.scroll_bottom, 1, false)
    } else {
        GridState { cursor: Cursor { y: min16((b.cursor.y + 1) as u16, last_index(b.height)), ..b.cursor }, ..b2 }
    };
    assert(content(fa) =~= content(fb));
    lemma_damage_only(fa, a.cursor, 0, 0, 0);
    lemma_damage_only(fb, b.cursor, 0, 0, 0);
    assert(fa.cursor == fb.cursor) by {
        assert(content(fa).cursor == content(fb).cursor);
    }
    assert(content(note_cursor(ca, a.cursor)) == content(note_cursor(cb, b.cursor)));
    assert(content(note_cursor(fa, a.cursor)) == content(note_cursor(fb, b.cursor)));
}


proof fn lemma_advance_congruent(a: GridState, b: GridState, amount: u16)
    requires
        content(a) == content(b),
    ensures
        content(advance_cursor_state(a, amount)) == content(advance_cursor_state(b, amount)),
{
    assert(a.cursor == b.cursor && a.width == b.width && a.wrap == b.wrap) by {
        assert(content(a).cursor == content(b).cursor);
    }
    let ma = if a.cursor.x + amount < a.width {
        GridState { cursor: Cursor { x: (a.cursor.x + amount) as u16, ..a.cursor }, pending_wrap: false, ..a }
    } else if !a.wrap {
        GridState { cursor: Cursor { x: last_index(a.width), ..a.cursor }, pending_wrap: false, ..a }
    } else {
        GridState { cursor: Cursor { x: last_index(a.width), ..a.cursor }, pending_wrap: true, ..a }
    };
    let mb = if b.cursor.x + amount < b.width {
        GridState { cursor: Cursor { x: (b.cursor.x + amount) as u16, ..b.cursor }, pending_wrap: false, ..b }
    } else if !b.wrap {
        GridState { cursor: Cursor { x: last_index(b.width), ..b.cursor }, pending_wrap: false, ..b }
    } else {
        GridState { cursor: Cursor { x: last_index(b.width), ..b.cursor }, pending_wrap: true, ..b }
    };
    assert(content(ma) =~= content(mb));
    lemma_damage_only(ma, a.cursor, 0, 0, 0);
    lemma_damage_only(mb, b.cursor, 0, 0, 0);
    assert(ma.cursor == mb.cursor) by {
        assert(content(ma).cursor == content(mb).cursor);
    }
}

proof fn lemma_write_char_congruent(a: GridState, b: GridState, ch: char, style: Style, width: u16)
    requires
        content(a) == content(b),
    ensures
        content(write_char_state(a, ch, style, width)) == content(write_char_state(b, ch, style, width)),
{
    assert(a.cursor == b.cursor && a.width == b.width && a.rows == b.rows && a.height == b.height) by {
        assert(content(a).cursor == content(b).cursor);
        assert(content(a).rows == content(b).rows);
    }
    if a.cursor.y >= a.height {
        lemma_advance_congruent(a, b, width);
    } else {
        let y = a.cursor.y as int;
        let x = a.cursor.x as int;
        let (r1, s1, e1, c1) = clear_for_write_row(a.rows[y], x);
        let second = width > 1 && x + 1 < a.width;
        let (r2, s2, e2, c2) = if second {
            clear_for_write_row(r1, x + 1)
        } else {
            (r1, s1, e1, false)
        };
        let ds = if second && s2 < s1 {
            s2
        } else {
            s1
        };
        let de = if second && e2 > e1 {
            e2
        } else {
            e1
        };
        let (r3, c3) = replace_row(r2, x, printed_cell(ch, style, width));
        let ds2 = if x < ds {
            x
        } else {
            ds
        };
        let de2 = if x > de {
            x
        } else {
            de
        };
        let (r4b, c4) = if second {
            replace_row(r3, x + 1, spacer_cell(style))
        } else {
            (r3, false)
        };
        let de3 = if second && x + 1 > de2 {
            x + 1
        } else {
            de2
        };
        let ga = with_row(a, y, r4b);
        let gb = with_row(b, y, r4b);
        assert(content(ga) =~= content(gb));
        let ha = if c1 || c2 || c3 || c4 {
            line_damage(ga, y as u16, ds2 as u16, (de3 - ds2 + 1) as u16)
        } else {
            ga
        };
        let hb = if c1 || c2 || c3 || c4 {
            line_damage(gb, y as u16, ds2 as u16, (de3 - ds2 + 1) as u16)
        } else {
            gb
        };
        lemma_damage_only(ga, a.cursor, y as u16, ds2 as u16, (de3 - ds2 + 1) as u16);
        lemma_damage_only(gb, a.cursor, y as u16, ds2 as u16, (de3 - ds2 + 1) as u16);
        assert(content(ha) == content(hb));
        lemma_advance_congruent(ha, hb, width);
        assert(write_char_state(a, ch, style, width) == advance_cursor_state(ha, width));
        assert(write_char_state(b, ch, style, width) == advance_cursor_state(hb, width));
    }
}

proof fn lemma_wide_wrap_congruent(a: GridState, b: GridState, style: Style)
    requires
        content(a) == content(b),
    ensures
        content(wide_wrap_state(a, style)) == content(wide_wrap_state(b, style)),
{
    assert(a.cursor == b.cursor && a.width == b.width && a.rows == b.rows && a.height == b.height) by {
        assert(content(a).cursor == content(b).cursor);
        assert(content(a).rows == content(b).rows);
    }
    let x = a.cursor.x;
    let y = a.cursor.y;
    let (row, changed) = if y < a.height {
        replace_row(a.rows[y as int], x as int, pad_cell(style))
    } else {
        (Seq::empty(), false)
    };
    let a1 = if y < a.height {
        with_row(a, y as int, row)
    } else {
        a
    };
    let b1 = if y < b.height {
        with_row(b, y as int, row)
    } else {
        b
    };
    let a2 = GridState { pending_wrap: true, ..a1 };
    let b2 = GridState { pending_wrap: true, ..b1 };
    assert(content(a2) =~= content(b2));
    let a3 = if changed {
        line_damage(a2, y, x, sat_sub16(a.width, x))
    } else {
        a2
    };
    let b3 = if changed {
        line_damage(b2, y, x, sat_sub16(b.width, x))
    } else {
        b2
    };
    lemma_damage_only(a2, a.cursor, y, x, sat_sub16(a.width, x));
    lemma_damage_only(b2, b.cursor, y, x, sat_sub16(b.width, x));
    assert(content(a3) == content(b3));
    lemma_wrap_congruent(a3, b3);
}

proof fn lemma_put_char_congruent(a: GridState, b: GridState, ch: char, style: Style)
    requires
        content(a) == content(b),
    ensures
        content(put_char_state(a, ch, style)) == content(put_char_state(b, ch, style)),
{
    lemma_wrap_congruent(a, b);
    let la = linewrap_state(a);
    let lb = linewrap_state(b);
    assert(la.cursor == lb.cursor && la.wrap == lb.wrap && la.width == lb.width) by {
        assert(content(la).cursor == content(lb).cursor);
    }
    lemma_wide_wrap_congruent(la, lb, style);
    let (pa, wa) = put_char_pre(a, ch, style);
    let (pb, wb) = put_char_pre(b, ch, style);
    assert(content(pa) == content(pb) && wa == wb);
    lemma_write_char_congruent(pa, pb, ch, style, wa);
}

proof fn lemma_put_chars_congruent(a: GridState, b: GridState, bytes: Seq<u8>, style: Style, offset: nat)
    requires
        content(a) == content(b),
    ensures
        content(put_chars(a, bytes, style, offset)) == content(put_chars(b, bytes, style, offset)),
    decreases bytes.len() - offset,
{
    if offset < bytes.len() {
        let c = bytes[offset as int] as char;
        lemma_put_char_congruent(a, b, c, style);
        lemma_put_chars_congruent(put_char_state(a, c, style), put_char_state(b, c, style), bytes, style, offset + 1);
    }
}

/// Printing `k` characters of `bytes` from `offset`, one at a time.
pub open spec fn put_chars_n(g: GridState, bytes: Seq<u8>, style: Style, offset: nat, k: nat) -> GridState
    decreases k,
{
    if k == 0 {
        g
    } else {
        put_chars_n(put_char_state(g, bytes[offset as int] as char, style), bytes, style, offset + 1, (k - 1) as nat)
    }
}

proof fn lemma_put_chars_split(g: GridState, bytes: Seq<u8>, style: Style, offset: nat, k: nat)
    requires
        offset + k <= bytes.len(),
    ensures
        put_chars(g, bytes, style, offset) == put_chars(put_chars_n(g, bytes, style, offset, k), bytes, style, offset + k),
    decreases k,
{
    if k > 0 {
        lemma_put_chars_split(put_char_state(g, bytes[offset as int] as char, style), bytes, style, offset + 1, (k - 1) as nat);
    }
}

/// Whether `b` is printable ASCII that takes one column.
pub open spec fn single_column_ascii(b: u8) -> bool {
    0x20 <= b < 0x7f && spec_char_width(b as char) == 1
}

/// The content after the first `k` characters of a run at the cursor.
pub open spec fn run_content(g: GridState, bytes: Seq<u8>, style: Style, offset: nat, k: int) -> GridState {
    let x = g.cursor.x as int;
    let y = g.cursor.y as int;
    let row = write_ascii_row(g.rows[y], x, bytes, offset as int, k, style);
    content(
        GridState {
            rows: g.rows.update(y, row),
            cursor: Cursor {
                x: if x + k < g.width {
                    (x + k) as u16
                } else {
                    last_index(g.width)
                },
                ..g.cursor
            },
            pending_wrap: k > 0 && x + k >= g.width && g.wrap,
            ..g
        },
    )
}

proof fn lemma_put_chars_n_last(g: GridState, bytes: Seq<u8>, style: Style, offset: nat, k: nat)
    ensures
        put_chars_n(g, bytes, style, offset, k + 1) == put_char_state(
            put_chars_n(g, bytes, style, offset, k),
            bytes[offset + k as int] as char,
            style,
        ),
    decreases k,
{
    let g1 = put_char_state(g, bytes[offset as int] as char, style);
    assert(put_chars_n(g, bytes, style, offset, k + 1) == put_chars_n(g1, bytes, style, offset + 1, k));
    if k > 0 {
        lemma_put_chars_n_last(g1, bytes, style, offset + 1, (k - 1) as nat);
        assert(put_chars_n(g, bytes, style, offset, k) == put_chars_n(g1, bytes, style, offset + 1, (k - 1) as nat));
        assert(offset + 1 + (k - 1) == offset + k);
    } else {
        assert(put_chars_n(g1, bytes, style, offset + 1, 0) == g1);
    }
}

proof fn lemma_run_step(g: GridState, bytes: Seq<u8>, style: Style, offset: nat, k: nat)
    requires
        grid_shape(g),
        !g.pending_wrap,
        offset < bytes.len(),
        k < ascii_run_count(g, bytes, offset),
        single_column_ascii(bytes[offset + k as int]),
        !range_has_wide_state(
            g.rows[g.cursor.y as int],
            g.cursor.x as int,
            ascii_run_count(g, bytes, offset),
        ),
    ensures
        content(put_char_state(run_content(g, bytes, style, offset, k as int), bytes[offset + k as int] as char, style))
            == run_content(g, bytes, style, offset, k + 1 as int),
{
    let x = g.cursor.x as int;
    let y = g.cursor.y as int;
    let count = ascii_run_count(g, bytes, offset);
    let row = g.rows[y];
    let r = run_content(g, bytes, style, offset, k as int);
    let c = bytes[offset + k as int] as char;
    let xk = x + k;
    assert(row.len() == g.width);
    assert(xk < g.width);
    assert(!r.pending_wrap);
    assert(linewrap_state(r) == r);
    assert(c != '\n');
    let (p, w) = put_char_pre(r, c, style);
    assert(p == r && w == 1);
    let row0 = write_ascii_row(row, x, bytes, offset as int, k as int, style);
    assert(r.rows[y] == row0);
    let end = if x + count < row.len() {
        x + count
    } else {
        row.len() as int
    };
    assert(!(row[xk].wide || row[xk].spacer));
    assert(row0[xk] == row[xk]);
    if xk + 1 < row.len() {
        assert(row0[xk + 1] == row[xk + 1]);
        if xk + 1 < x + count {
            assert(!(row[xk + 1].wide || row[xk + 1].spacer));
        } else {
            assert(xk + 1 == end);
            assert(!row[end].spacer);
        }
    }
    let (r1, s1, e1, c1) = clear_for_write_row(row0, xk);
    assert(r1 == row0);
    let cell = printed_cell(c, style, 1);
    assert(cell == ascii_cell(bytes[offset + k as int], style));
    let (r3, c3) = replace_row(row0, xk, cell);
    let row1 = write_ascii_row(row, x, bytes, offset as int, k + 1 as int, style);
    assert(r3 =~= row1);
    let out = put_char_state(r, c, style);
    assert(content(out) =~= run_content(g, bytes, style, offset, k + 1 as int));
}

proof fn lemma_run_steps(g: GridState, bytes: Seq<u8>, style: Style, offset: nat, k: nat)
    requires
        grid_shape(g),
        !g.pending_wrap,
        offset < bytes.len(),
        k <= ascii_run_count(g, bytes, offset),
        forall|i: int| offset <= i < bytes.len() ==> single_column_ascii(#[trigger] bytes[i]),
        !range_has_wide_state(
            g.rows[g.cursor.y as int],
            g.cursor.x as int,
            ascii_run_count(g, bytes, offset),
        ),
    ensures
        content(put_chars_n(g, bytes, style, offset, k)) == run_content(g, bytes, style, offset, k as int),
    decreases k,
{
    let x = g.cursor.x as int;
    let y = g.cursor.y as int;
    let row = g.rows[y];
    if k == 0 {
        assert(write_ascii_row(row, x, bytes, offset as int, 0, style) =~= row);
        assert(g.rows.update(y, row) =~= g.rows);
        assert(run_content(g, bytes, style, offset, 0) =~= content(g));
    } else {
        let j = (k - 1) as nat;
        lemma_run_steps(g, bytes, style, offset, j);
        lemma_put_chars_n_last(g, bytes, style, offset, j);
        let sj = put_chars_n(g, bytes, style, offset, j);
        let rj = run_content(g, bytes, style, offset, j as int);
        assert(content(rj) == rj);
        lemma_put_char_congruent(sj, rj, bytes[offset + j as int] as char, style);
        assert(single_column_ascii(bytes[offset + j as int]));
        lemma_run_step(g, bytes, style, offset, j);
    }
}

proof fn lemma_run_write(g: GridState, bytes: Seq<u8>, style: Style, offset: nat)
    requires
        grid_shape(g),
        !g.pending_wrap,
        offset < bytes.len(),
    ensures
        content(ascii_run_write(g, bytes, style, offset)) == run_content(
            g,
            bytes,
            style,
            offset,
            ascii_run_count(g, bytes, offset),
        ),
        grid_shape(run_content(g, bytes, style, offset, ascii_run_count(g, bytes, offset))),
{
    let x = g.cursor.x;
    let y = g.cursor.y;
    let count = ascii_run_count(g, bytes, offset);
    let row = write_ascii_row(g.rows[y as int], x as int, bytes, offset as int, count, style);
    let a = line_damage(with_row(g, y as int, row), y, x, count as u16);
    lemma_damage_only(with_row(g, y as int, row), g.cursor, y, x, count as u16);
    lemma_advance_congruent(a, content(a), count as u16);
    assert(content(content(a)) == content(a));
    assert(content(advance_cursor_state(content(a), count as u16)) =~= run_content(g, bytes, style, offset, count));
    let r = run_content(g, bytes, style, offset, count);
    assert forall|i: int| 0 <= i < r.rows.len() implies #[trigger] r.rows[i].len() == r.width by {
        if i != y {
            assert(r.rows[i] == g.rows[i]);
        }
    }
}

proof fn lemma_put_char_shape(g: GridState, ch: char, style: Style)
    requires
        grid_shape(g),
        spec_char_width(ch) <= 1,
    ensures
        grid_shape(put_char_state(g, ch, style)),
{
    lemma_shape_kept(g);
    if ch != '\n' && spec_char_width(ch) != 0 {
        let g1 = linewrap_state(g);
        lemma_shape_kept(g1);
        let out = write_char_state(g1, ch, style, 1);
        let y = g1.cursor.y as int;
        assert forall|i: int| 0 <= i < out.rows.len() implies #[trigger] out.rows[i].len() == out.width by {
            if i != y {
                assert(out.rows[i] == g1.rows[i]);
            }
        }
    }
}

/// The ASCII fast path agrees with printing character by character: a run
/// of printable ASCII characters one column wide leaves the same cells,
/// cursor, pending wrap and scrolled rows as printing them one at a time
/// (only how the damage is cut into regions may differ).
pub proof fn lemma_ascii_run_matches_put_chars(g: GridState, bytes: Seq<u8>, style: Style, offset: nat)
    requires
        grid_shape(g),
        forall|i: int| offset <= i < bytes.len() ==> single_column_ascii(#[trigger] bytes[i]),
    ensures
        content(ascii_run_state(g, bytes, style, offset)) == content(put_chars(g, bytes, style, offset)),
    decreases bytes.len() - offset,
{
    if offset < bytes.len() {
        let g1 = linewrap_state(g);
        lemma_shape_kept(g);
        let b0 = bytes[offset as int];
        assert(single_column_ascii(b0));
        let c0 = b0 as char;
        assert(put_char_state(g, c0, style) == put_char_state(g1, c0, style));
        let x = g1.cursor.x;
        let y = g1.cursor.y;
        let count = ascii_run_count(g1, bytes, offset);
        if y < g1.height && range_has_wide_state(g1.rows[y as int], x as int, count) {
            let g2 = put_char_state(g1, c0, style);
            lemma_put_char_shape(g1, c0, style);
            lemma_ascii_run_matches_put_chars(g2, bytes, style, offset + 1);
        } else {
            let a = ascii_run_write(g1, bytes, style, offset);
            lemma_run_write(g1, bytes, style, offset);
            lemma_run_steps(g1, bytes, style, offset, count as nat);
            let r = run_content(g1, bytes, style, offset, count);
            assert(grid_shape(a)) by {
                assert(content(a).rows == r.rows);
                assert(content(a).cursor == r.cursor);
            }
            lemma_ascii_run_matches_put_chars(a, bytes, style, (offset + count) as nat);
            let n = put_chars_n(g1, bytes, style, offset, count as nat);
            lemma_put_chars_congruent(a, n, bytes, style, (offset + count) as nat);
            lemma_put_chars_split(g1, bytes, style, offset, count as nat);
        }
    }
}

/// Clearing spans keeps wide characters whole: erasing characters, a line
/// or the screen clears any wide character that the span cuts.
pub proof fn lemma_clear_whole(g: GridState, y: u16, xs: u16, xe: u16, count: u16, mode: EraseMode)
    requires
        grid_whole(g),
        state_wf(g),
    ensures
        grid_whole(fill_line_range_state(g, y, xs, xe)),
        grid_whole(erase_chars_state(g, count)),
        grid_whole(clear_line_state(g, mode)),
        grid_whole(clear_screen_state(g, mode)),
{
    lemma_blank_row_whole(g.width);
    assert forall|yy: u16, a: u16, b: u16| true implies grid_whole(
        #[trigger] fill_line_range_state(g, yy, a, b),
    ) by {
        if !(yy >= g.height || a >= b) {
            let row = g.rows[yy as int];
            row::lemma_clear_range_whole(row, a as int, min16(b, g.width) as int);
            let (r, changed) = clear_range_row(row, a as int, min16(b, g.width) as int);
            lemma_with_row_whole(g, yy as int, r);
        }
    }
    assert(grid_whole(erase_chars_state(g, count)));
    if g.height > 0 {
        let (s1, e1, x1, w1) = clear_line_span(g, mode);
        let cy = g.cursor.y as int;
        let row = g.rows[cy];
        let e_clip = if e1 <= row.len() {
            e1
        } else {
            row.len() as int
        };
        row::lemma_clear_range_whole(row, s1, e_clip);
        if e1 > row.len() {
            assert(clear_range_row(row, s1, e1).0 == clear_range_row(row, s1, e_clip).0) by {
                if s1 < e1 {
                    assert(row::clear_end(row, e1) == e1);
                    assert(row::blank_span(row, row::clear_start(row, s1), e1) =~= row::blank_span(
                        row,
                        row::clear_start(row, s1),
                        row::clear_end(row, e_clip),
                    ));
                }
            }
        }
        let (r, changed) = clear_range_row(row, s1, e1);
        lemma_with_row_whole(g, cy, r);
        let w = g.width;
        row::lemma_clear_range_whole(row, min16(g.cursor.x, w) as int, w as int);
        let cx1 = if g.cursor.x + 1 <= w {
            g.cursor.x + 1
        } else {
            w as int
        };
        row::lemma_clear_range_whole(row, 0, cx1);
        if g.cursor.x + 1 > w {
            assert(clear_range_row(row, 0, g.cursor.x + 1).0 == clear_range_row(row, 0, cx1).0) by {
                assert(row::clear_end(row, g.cursor.x + 1) == g.cursor.x + 1);
                assert(row::blank_span(row, row::clear_start(row, 0), g.cursor.x + 1)
                    =~= row::blank_span(row, row::clear_start(row, 0), row::clear_end(row, cx1)));
            }
        }
    }
    let out = clear_screen_state(g, mode);
    assert forall|yy: int| 0 <= yy < out.rows.len() implies row::row_whole(#[trigger] out.rows[yy]) by {
        if g.height > 0 && yy == g.cursor.y {
        } else {
        }
    }
}

/// Removing the element at `top` and inserting `x` at `bottom` moves the
/// elements between them one place toward the front.
pub proof fn lemma_remove_insert_up<A>(s: Seq<A>, top: int, bottom: int, x: A)
    requires
        0 <= top <= bottom < s.len(),
    ensures
        s.remove(top).insert(bottom, x).len() == s.len(),
        forall|y: int|
            0 <= y < s.len() ==> #[trigger] s.remove(top).insert(bottom, x)[y] == if y < top {
                s[y]
            } else if y < bottom {
                s[y + 1]
            } else if y == bottom {
                x
            } else {
                s[y]
            },
{
    s.remove_ensures(top);
    s.remove(top).insert_ensures(bottom, x);
}

/// Removing the element at `bottom` and inserting `x` at `top` moves the
/// elements between them one place toward the back.
pub proof fn lemma_remove_insert_down<A>(s: Seq<A>, top: int, bottom: int, x: A)
    requires
        0 <= top <= bottom < s.len(),
    ensures
        s.remove(bottom).insert(top, x).len() == s.len(),
        forall|y: int|
            0 <= y < s.len() ==> #[trigger] s.remove(bottom).insert(top, x)[y] == if y < top {
                s[y]
            } else if y == top {
                x
            } else if y <= bottom {
                s[y - 1]
            } else {
                s[y]
            },
{
    s.remove_ensures(bottom);
    s.remove(bottom).insert_ensures(top, x);
}

/// Appends the first `count` lines, trimmed, to `scrolled`, taking buffers
/// from `pool` while it has any.
fn push_scrolled_lines(
    lines: &Vec<Vec<Cell>>,
    count: usize,
    scrolled: &mut Vec<Vec<Cell>>,
    pool: &mut Vec<Vec<Cell>>,
)
    requires
        count <= lines@.len(),
    ensures
        rows_view(final(scrolled)@) == rows_view(old(scrolled)@) + Seq::new(
            count as nat,
            |k: int| trim_row(lines@[k]@),
        ),
        final(pool)@.len() == old(pool)@.len() - min_nat(count as nat, old(pool)@.len() as nat),
{
    let ghost start = rows_view(scrolled@);
    let ghost pool_len = pool@.len();
    let mut i: usize = 0;
    while i < count
        invariant
            i <= count,
            count <= lines@.len(),
            rows_view(scrolled@) == start + Seq::new(i as nat, |k: int| trim_row(lines@[k]@)),
            pool@.len() == pool_len - min_nat(i as nat, pool_len as nat),
        decreases count - i,
    {
        let buffer = match pool.pop() {
            Some(b) => b,
            None => Vec::new(),
        };
        let row = trimmed_copy(&lines[i], buffer);
        let ghost before = rows_view(scrolled@);
        scrolled.push(row);
        proof {
            assert(rows_view(scrolled@) =~= before.push(trim_row(lines@[i as int]@)));
            assert(start + Seq::new((i + 1) as nat, |k: int| trim_row(lines@[k]@)) =~= (start
                + Seq::new(i as nat, |k: int| trim_row(lines@[k]@))).push(trim_row(lines@[i as int]@)));
        }
        i = i + 1;
    }
}

/// The `height` rows of the window that starts at line `scroll`, blank past
/// the last line, each with its wide-character halves mended.
fn window_rows(lines: Vec<Vec<Cell>>, scroll: usize, height: usize, width: u16) -> (r: Vec<Vec<Cell>>)
    requires
        scroll <= lines@.len(),
        forall|k: int| 0 <= k < lines@.len() ==> #[trigger] lines@[k]@.len() == width,
    ensures
        r@.len() == height,
        forall|k: int| 0 <= k < height ==> #[trigger] r@[k]@.len() == width,
        forall|k: int|
            0 <= k < height ==> #[trigger] r@[k]@ == sanitize_row_spec(
                if scroll + k < lines@.len() {
                    lines@[scroll + k]@
                } else {
                    blank_row(width)
                },
            ),
{
    let ghost orig = lines@;
    let total = lines.len();
    let mut lines = lines;
    let mut rows: Vec<Vec<Cell>> = Vec::new();
    let mut y: usize = 0;
    while y < height
        invariant
            y <= height,
            total == orig.len(),
            lines@.len() == total,
            scroll <= total,
            forall|k: int| scroll + y <= k < total ==> #[trigger] lines@[k] == orig[k],
            forall|k: int| 0 <= k < total ==> #[trigger] orig[k]@.len() == width,
            rows@.len() == y,
            forall|k: int| 0 <= k < y ==> #[trigger] rows@[k]@.len() == width,
            forall|k: int|
                0 <= k < y ==> #[trigger] rows@[k]@ == sanitize_row_spec(
                    if scroll + k < total {
                        orig[scroll + k]@
                    } else {
                        blank_row(width)
                    },
                ),
        decreases height - y,
    {
        let mut row = if y < total - scroll {
            let mut taken: Vec<Cell> = Vec::new();
            let ghost before = lines@;
            std::mem::swap(&mut taken, &mut lines[scroll + y]);
            proof {
                assert(taken == orig[scroll + y]);
                assert forall|k: int| scroll + y + 1 <= k < total implies #[trigger] lines@[k] == orig[k] by {
                    assert(lines@[k] == before[k]);
                }
            }
            taken
        } else {
            reflow::blank_line(width)
        };
        row::sanitize(&mut row);
        rows.push(row);
        y = y + 1;
    }
    rows
}

/// `row` without its trailing blank cells, in the buffer `buffer`.
fn trimmed_copy(row: &Vec<Cell>, buffer: Vec<Cell>) -> (r: Vec<Cell>)
    ensures
        r@ == trim_row(row@),
{
    let end = reflow::logical_end(row);
    let mut out = buffer;
    out.clear();
    let mut i: usize = 0;
    while i < end
        invariant
            i <= end,
            end <= row@.len(),
            end == logical_row_end(row@),
            out@ == row@.subrange(0, i as int),
        decreases end - i,
    {
        out.push(row[i]);
        i = i + 1;
        assert(out@ =~= row@.subrange(0, i as int));
    }
    out
}

pub fn trim_row_in_place(row: &mut Vec<Cell>)
    ensures
        final(row)@ == trim_row(old(row)@),
{
    let mut end = row.len();
    assert(row@.subrange(0, end as int) =~= row@);
    while end > 0 && row[end - 1] == Cell::default()
        invariant
            end <= row@.len(),
            logical_row_end(row@) == logical_row_end(row@.subrange(0, end as int)),
        decreases end,
    {
        proof {
            let s = row@.subrange(0, end as int);
            assert(s.drop_last() =~= row@.subrange(0, end - 1));
        }
        end = end - 1;
    }
    proof {
        let s = row@.subrange(0, end as int);
        if end > 0 {
            assert(s.last() == row@[end - 1]);
        }
    }
    row.truncate(end);
    assert(row@ =~= trim_row(old(row)@));
}


/// Whether columns `x..x + count` of `row` touch a wide character.
pub fn range_has_wide(row: &Vec<Cell>, x: usize, count: usize) -> (r: bool)
    ensures
        r == range_has_wide_state(row@, x as int, count as int),
{
    if count == 0 {
        return false;
    }
    let len = row.len();
    let end = if count < len && x < len - count {
        x + count
    } else {
        len
    };
    if x > 0 && x < len && row[x].spacer {
        return true;
    }
    let mut i = x;
    let mut found = false;
    while i < end && !found
        invariant
            x <= i,
            end <= len,
            len == row@.len(),
            found ==> (x <= i - 1 < end && (row@[i - 1].wide || row@[i - 1].spacer)),
            !found ==> forall|k: int| x <= k < i ==> !(#[trigger] row@[k].wide || row@[k].spacer),
        decreases end - i,
    {
        let c = row[i];
        assert(c == row@[i as int]);
        let ghost old_i = i;
        if c.wide || c.spacer {
            found = true;
        }
        i = i + 1;
        proof {
            if !found {
                assert forall|k: int| x <= k < i implies !(#[trigger] row@[k].wide || row@[k].spacer) by {
                    if k < old_i {
                    } else {
                        assert(k == old_i);
                    }
                }
            }
        }
    }
    if found {
        assert(x <= i - 1 < end && 0 <= i - 1 && (row@[i - 1].wide || row@[i - 1].spacer));
        return true;
    }
    let r = end < len && row[end].spacer;
    proof {
        if !r {
            assert(!(exists|k: int| x <= k < end && 0 <= k && (row@[k].wide || row@[k].spacer)));
        }
    }
    r
}


/// Writes `bytes[offset..offset + count]` into `row` from column `x`.
pub fn write_ascii(row: &mut Vec<Cell>, x: usize, bytes: &[u8], offset: usize, count: usize, style: Style)
    requires
        x + count <= old(row)@.len(),
        offset + count <= bytes@.len(),
    ensures
        final(row)@ == write_ascii_row(old(row)@, x as int, bytes@, offset as int, count as int, style),
{
    let ghost before = row@;
    let len = row.len();
    let blen = bytes.len();
    let mut i: usize = 0;
    while i < count
        invariant
            i <= count,
            len == before.len(),
            blen == bytes@.len(),
            x + count <= before.len(),
            offset + count <= bytes@.len(),
            row@ == Seq::new(
                before.len(),
                |k: int|
                    if x <= k < x + i {
                        ascii_cell(bytes@[offset + k - x], style)
                    } else {
                        before[k]
                    },
            ),
        decreases count - i,
    {
        row.set(x + i, Cell { ch: bytes[offset + i] as char, style, wide: false, spacer: false });
        i = i + 1;
        assert(row@ =~= Seq::new(
            before.len(),
            |k: int|
                if x <= k < x + i {
                    ascii_cell(bytes@[offset + k - x], style)
                } else {
                    before[k]
                },
        ));
    }
    assert(row@ =~= write_ascii_row(before, x as int, bytes@, offset as int, count as int, style));
}

/// A row of `width` blank cells.
pub fn new_blank_row(width: u16) -> (r: Vec<Cell>)
    ensures
        r@ == blank_row(width),
{
    let mut row: Vec<Cell> = Vec::new();
    let mut x: u16 = 0;
    while x < width
        invariant
            x <= width,
            row@.len() == x,
            forall|i: int| 0 <= i < x ==> #[trigger] row@[i] == blank_cell(),
        decreases width - x,
    {
        row.push(Cell::default());
        x = x + 1;
    }
    assert(row@ =~= blank_row(width));
    row
}


/// A run that `put_ascii_run_crlf` takes leaves the same cells, cursor,
/// pending wrap and scrolled rows as printing it with `put_ascii_run` and
/// then a carriage return and line feed (only the generation and how the
/// damage is cut into regions may differ). A run it refuses leaves the grid
/// as it was (its `ensures`).
pub proof fn lemma_ascii_crlf_matches_run_then_crlf(g: GridState, bytes: Seq<u8>, style: Style)
    requires
        state_wf(g),
        ascii_crlf_fits(g, bytes),
    ensures
        content(ascii_crlf_state(g, bytes, style)) == content(
            crlf_state(ascii_run_state(g, bytes, style, 0)),
        ),
{
    let len = bytes.len();
    assert(linewrap_state(g) == g);
    assert(ascii_run_count(g, bytes, 0) == len);
    let w = ascii_run_write(g, bytes, style, 0);
    reveal_with_fuel(ascii_run_state, 2);
    assert(ascii_run_state(w, bytes, style, len) == w);
    assert(ascii_run_state(g, bytes, style, 0) == w);
    let x = g.cursor.x;
    let y = g.cursor.y;
    let row = write_ascii_row(g.rows[y as int], x as int, bytes, 0, len as int, style);
    let a = line_damage(with_row(g, y as int, row), y, x, len as u16);
    assert(w == advance_cursor_state(a, len as u16));
    assert(w.cursor.y == a.cursor.y);
    assert(w.rows == a.rows);
    let l = crlf_state(a);
    let r = crlf_state(w);
    assert(l.rows == r.rows);
    assert(l.cursor == r.cursor);
    assert(content(l) =~= content(r));
}


/// What clearing the screen does to the cell in column `x` of row `y`, in
/// reading order (row by row, each row from the left, the order of the
/// cells' logical indices) relative to the cursor: `All` blanks every cell;
/// `FromCursor` blanks the cursor cell and every cell after it, and the
/// first half of a wide character whose second half is at the cursor;
/// `ToCursor` blanks every cell before the cursor and the cursor cell, and
/// the second half of a wide character whose first half is at the cursor.
/// Every other cell is kept, and the cursor does not move.
pub proof fn lemma_clear_screen_cells(g: GridState, mode: EraseMode, x: int, y: int)
    requires
        state_wf(g),
        g.width >= 1,
        g.height >= 1,
        0 <= x < g.width,
        0 <= y < g.height,
    ensures
        ({
            let r = clear_screen_state(g, mode);
            let cx = g.cursor.x as int;
            let cy = g.cursor.y as int;
            let at_or_after = y > cy || (y == cy && x >= cx);
            let at_or_before = y < cy || (y == cy && x <= cx);
            let lead_of_cursor = y == cy && x == cx - 1 && g.rows[cy][cx].spacer;
            let tail_of_cursor = y == cy && x == cx + 1 && cx + 1 < g.width && g.rows[cy][cx
                + 1].spacer;
            &&& r.cursor == g.cursor
            &&& r.rows.len() == g.height
            &&& r.rows[y].len() == g.width
            &&& mode == EraseMode::All ==> r.rows[y][x] == blank_cell()
            &&& mode == EraseMode::FromCursor ==> r.rows[y][x] == (if at_or_after
                || lead_of_cursor {
                blank_cell()
            } else {
                g.rows[y][x]
            })
            &&& mode == EraseMode::ToCursor ==> r.rows[y][x] == (if at_or_before
                || tail_of_cursor {
                blank_cell()
            } else {
                g.rows[y][x]
            })
        }),
{
    let cx = g.cursor.x as int;
    let cy = g.cursor.y as int;
    let w = g.width;
    lemma_cursor_on_grid(g);
    assert(g.rows[cy].len() == w);
    assert(g.rows[y].len() == w);
    match mode {
        EraseMode::All => {
            assert(clear_screen_state(g, mode).rows[y] == blank_row(w));
        },
        EraseMode::FromCursor => {
            assert(min16(g.cursor.x, w) == g.cursor.x);
            let (crow, c1) = clear_range_row(g.rows[cy], cx, w as int);
            let s2 = crate::row::clear_start(g.rows[cy], cx);
            assert(crate::row::clear_end(g.rows[cy], w as int) == w as int);
            assert(crow == crate::row::blank_span(g.rows[cy], s2, w as int));
            if y == cy {
                assert(clear_screen_state(g, mode).rows[y] == crow);
            }
        },
        EraseMode::ToCursor => {
            let (crow, c1) = clear_range_row(g.rows[cy], 0, cx + 1);
            assert(crate::row::clear_start(g.rows[cy], 0) == 0);
            let e2 = crate::row::clear_end(g.rows[cy], cx + 1);
            assert(crow == crate::row::blank_span(g.rows[cy], 0, e2));
            if y == cy {
                assert(clear_screen_state(g, mode).rows[y] == crow);
            }
        },
    }
}


/// `g2` comes after `g` by the generation: the generation never goes down,
/// and it goes up when a cell or the cursor changed (unless it was already
/// at its largest value).
pub open spec fn generation_follows(g: GridState, g2: GridState) -> bool {
    &&& g2.generation >= g.generation
    &&& (g2.rows != g.rows || g2.cursor != g.cursor) && g.generation < u64::MAX
        ==> g2.generation > g.generation
}

/// Coming after by the generation is transitive.
pub proof fn lemma_generation_follows_trans(a: GridState, b: GridState, c: GridState)
    requires
        generation_follows(a, b),
        generation_follows(b, c),
    ensures
        generation_follows(a, c),
{
}

/// A wrap that a previous print left pending moves the cursor or scrolls,
/// and the generation says so.
proof fn lemma_linewrap_generation(g: GridState)
    ensures
        generation_follows(g, linewrap_state(g)),
{
}

/// Moving the cursor on after a write: the generation says so.
proof fn lemma_advance_generation(g: GridState, amount: u16)
    ensures
        generation_follows(g, advance_cursor_state(g, amount)),
{
}

/// Writing a row back with the cells it had changes nothing.
proof fn lemma_cleared_row_unchanged(row: Seq<Cell>, x: int)
    ensures
        !clear_for_write_row(row, x).3 ==> clear_for_write_row(row, x).0 == row,
{
    let (r, s, e, c) = clear_for_write_row(row, x);
    if !c {
        assert(r =~= row);
    }
}

/// Writing a character moves the generation on whenever it changes a cell
/// or the cursor.
#[verifier::spinoff_prover]
proof fn lemma_write_char_follows(g: GridState, ch: char, style: Style, width: u16)
    requires
        g.rows.len() == g.height,
    ensures
        generation_follows(g, write_char_state(g, ch, style, width)),
{
    let x = g.cursor.x as int;
    let y = g.cursor.y as int;
    if y >= g.height {
        lemma_advance_generation(g, width);
    } else {
        let row0 = g.rows[y];
        let (r1, s1, e1, c1) = clear_for_write_row(row0, x);
        lemma_cleared_row_unchanged(row0, x);
        let second = width > 1 && x + 1 < g.width;
        let (r2, s2, e2, c2) = if second {
            clear_for_write_row(r1, x + 1)
        } else {
            (r1, s1, e1, false)
        };
        lemma_cleared_row_unchanged(r1, x + 1);
        let (r3, c3) = replace_row(r2, x, printed_cell(ch, style, width));
        let (r4, c4) = if second {
            replace_row(r3, x + 1, spacer_cell(style))
        } else {
            (r3, false)
        };
        let g1 = with_row(g, y, r4);
        if !(c1 || c2 || c3 || c4) {
            assert(r4 == row0);
            assert(g1.rows =~= g.rows);
        }
        let ds = if second && s2 < s1 {
            s2
        } else {
            s1
        };
        let de = if second && e2 > e1 {
            e2
        } else {
            e1
        };
        let ds2 = if x < ds {
            x
        } else {
            ds
        };
        let de2 = if x > de {
            x
        } else {
            de
        };
        let de3 = if second && x + 1 > de2 {
            x + 1
        } else {
            de2
        };
        let g2 = if c1 || c2 || c3 || c4 {
            line_damage(g1, y as u16, ds2 as u16, (de3 - ds2 + 1) as u16)
        } else {
            g1
        };
        assert(write_char_state(g, ch, style, width) == advance_cursor_state(g2, width));
        assert(generation_follows(g, g2));
        lemma_advance_generation(g2, width);
        lemma_generation_follows_trans(g, g2, advance_cursor_state(g2, width));
    }
}

/// Printing a character moves the generation on whenever it changes a cell
/// or the cursor.
pub proof fn lemma_put_char_generation(g: GridState, ch: char, style: Style)
    requires
        state_wf(g),
    ensures
        generation_follows(g, put_char_state(g, ch, style)),
{
    let g1 = linewrap_state(g);
    assert(g1.rows.len() == g.height);
    lemma_linewrap_generation(g);
    if ch == '\n' {
        assert(put_char_state(g, ch, style) == line_feed_state(g));
    } else if spec_char_width(ch) == 0 {
    } else {
        let (p, width) = put_char_pre(g, ch, style);
        let w0 = spec_char_width(ch);
        if w0 > 1 && g1.cursor.x + w0 > g1.width && g1.wrap {
            lemma_wide_wrap_follows(g1, style);
            lemma_generation_follows_trans(g, g1, p);
        }
        assert(generation_follows(g, p));
        lemma_write_char_follows(p, ch, style, width);
        lemma_generation_follows_trans(g, p, write_char_state(p, ch, style, width));
    }
}

/// The wrap of a wide character that does not fit: the padding it writes
/// and the wrap that follows move the generation on.
proof fn lemma_wide_wrap_follows(g: GridState, style: Style)
    requires
        g.rows.len() == g.height,
    ensures
        generation_follows(g, wide_wrap_state(g, style)),
        wide_wrap_state(g, style).rows.len() == g.height,
        wide_wrap_state(g, style).height == g.height,
{
    let x = g.cursor.x;
    let y = g.cursor.y;
    let (row, changed) = if y < g.height {
        replace_row(g.rows[y as int], x as int, pad_cell(style))
    } else {
        (Seq::empty(), false)
    };
    let g1 = if y < g.height {
        with_row(g, y as int, row)
    } else {
        g
    };
    if y < g.height && !changed {
        assert(g1.rows =~= g.rows);
    }
    let g2 = GridState { pending_wrap: true, ..g1 };
    let g3 = if changed {
        line_damage(g2, y, x, sat_sub16(g.width, x))
    } else {
        g2
    };
    assert(generation_follows(g, g3));
    assert(g3.rows.len() == g.height);
    lemma_linewrap_generation(g3);
    lemma_generation_follows_trans(g, g3, linewrap_state(g3));
}


/// Clearing a span that holds only blank cells leaves the row as it was.
proof fn lemma_clear_range_unchanged(row: Seq<Cell>, s: int, e: int)
    ensures
        !clear_range_row(row, s, e).1 ==> clear_range_row(row, s, e).0 == row,
{
    if s < e {
        let s2 = row::clear_start(row, s);
        let e2 = row::clear_end(row, e);
        if !row::span_dirty(row, s2, e2) {
            assert(row::blank_span(row, s2, e2) =~= row);
        }
    }
}

/// Clearing part of a row moves the generation on when it changes a cell.
proof fn lemma_fill_line_follows(g: GridState, y: u16, xs: u16, xe: u16)
    requires
        g.rows.len() == g.height,
    ensures
        generation_follows(g, fill_line_range_state(g, y, xs, xe)),
{
    if y < g.height && xs < xe {
        lemma_clear_range_unchanged(g.rows[y as int], xs as int, min16(xe, g.width) as int);
        let (row, changed) = clear_range_row(g.rows[y as int], xs as int, min16(xe, g.width) as int);
        if !changed {
            assert(with_row(g, y as int, row).rows =~= g.rows);
        }
    }
}

proof fn lemma_erase_chars_follows(g: GridState, count: u16)
    requires
        state_wf(g),
    ensures
        generation_follows(g, erase_chars_state(g, count)),
{
    lemma_fill_line_follows(g, g.cursor.y, g.cursor.x, min16(sat_add16(g.cursor.x, count), g.width));
}

proof fn lemma_clear_line_follows(g: GridState, mode: EraseMode)
    requires
        state_wf(g),
    ensures
        generation_follows(g, clear_line_state(g, mode)),
{
    if g.height != 0 {
        let (s, e, x, width) = clear_line_span(g, mode);
        let y = g.cursor.y;
        lemma_clear_range_unchanged(g.rows[y as int], s, e);
        let (row, changed) = clear_range_row(g.rows[y as int], s, e);
        if !changed {
            assert(with_row(g, y as int, row).rows =~= g.rows);
        }
    }
}

/// A row with no cell that is not blank is a blank row.
proof fn lemma_clean_row_blank(g: GridState, y: int)
    requires
        state_wf(g),
        0 <= y < g.height,
        !row_dirty(g, y),
    ensures
        g.rows[y] == blank_row(g.width),
{
    assert(g.rows[y].len() == g.width);
    assert(g.rows[y] =~= blank_row(g.width));
}

proof fn lemma_clear_screen_follows(g: GridState, mode: EraseMode)
    requires
        state_wf(g),
    ensures
        generation_follows(g, clear_screen_state(g, mode)),
{
    let h = g.height as int;
    let w = g.width;
    let cy = g.cursor.y as int;
    let r = clear_screen_state(g, mode);
    match mode {
        EraseMode::All => {
            if !(exists|y: int| 0 <= y < h && row_dirty(g, y)) {
                assert forall|y: int| 0 <= y < h implies r.rows[y] == g.rows[y] by {
                    lemma_clean_row_blank(g, y);
                }
                assert(r.rows =~= g.rows);
            }
        },
        EraseMode::FromCursor => {
            if h != 0 {
                lemma_clear_range_unchanged(g.rows[cy], min16(g.cursor.x, w) as int, w as int);
                let (crow, c1) = clear_range_row(g.rows[cy], min16(g.cursor.x, w) as int, w as int);
                if !(c1 || exists|y: int| cy < y < h && row_dirty(g, y)) {
                    assert forall|y: int| 0 <= y < h implies r.rows[y] == g.rows[y] by {
                        if y > cy {
                            lemma_clean_row_blank(g, y);
                        }
                    }
                    assert(r.rows =~= g.rows);
                }
            }
        },
        EraseMode::ToCursor => {
            if h != 0 {
                lemma_clear_range_unchanged(g.rows[cy], 0, g.cursor.x + 1);
                let (crow, c1) = clear_range_row(g.rows[cy], 0, g.cursor.x + 1);
                if !(c1 || exists|y: int| 0 <= y < cy && row_dirty(g, y)) {
                    assert forall|y: int| 0 <= y < h implies r.rows[y] == g.rows[y] by {
                        if y < cy {
                            lemma_clean_row_blank(g, y);
                        }
                    }
                    assert(r.rows =~= g.rows);
                }
            }
        },
    }
}

proof fn lemma_shift_chars_follows(g: GridState, count: u16, right: bool)
    requires
        state_wf(g),
        g.height >= 1,
    ensures
        generation_follows(g, shift_chars_state(g, count, right)),
{
    let x = g.cursor.x as int;
    let y = g.cursor.y as int;
    if x < g.width {
        let n = min16(count, (g.width - x) as u16) as int;
        if n != 0 {
            let row = g.rows[y];
            assert(row.len() == g.width);
            let dirty = row::span_dirty(row, x, g.width as int);
            lemma_cleared_row_unchanged(row, x);
            let (r1, _s, _e, boundary) = if !right || row[x].spacer {
                clear_for_write_row(row, x)
            } else {
                (row, x, x, false)
            };
            let r2 = row::shift_row(r1, x, n, right);
            let r3 = row::sanitize_row_spec(r2);
            if !(dirty || boundary || r3 != r2) {
                assert(r1 == row);
                assert(r2 =~= row);
                assert(with_row(g, y, r3).rows =~= g.rows);
            }
        }
    }
}


/// A run that `put_ascii_run_crlf` takes keeps wide characters whole.
proof fn lemma_ascii_crlf_whole(g: GridState, bytes: Seq<u8>, style: Style)
    requires
        state_wf(g),
        grid_whole(g),
        g.width >= 1,
        g.height >= 1,
    ensures
        grid_whole(ascii_crlf_state(g, bytes, style)),
{
    if ascii_crlf_fits(g, bytes) {
        let len = bytes.len();
        assert(linewrap_state(g) == g);
        assert(ascii_run_count(g, bytes, 0) == len);
        assert(grid_shape(g));
        lemma_ascii_write_whole(g, bytes, style, 0);
        let x = g.cursor.x;
        let y = g.cursor.y;
        let row = write_ascii_row(g.rows[y as int], x as int, bytes, 0, len as int, style);
        let a = line_damage(with_row(g, y as int, row), y, x, len as u16);
        assert(ascii_run_write(g, bytes, style, 0).rows == a.rows);
        let a2 = GridState { damage: g.damage, generation: g.generation, ..a };
        assert forall|i: int| 0 <= i < a2.rows.len() implies #[trigger] a2.rows[i].len() == a2.width by {
            if i != y {
                assert(a2.rows[i] == g.rows[i]);
            }
        }
        assert(state_wf(a2));
        lemma_shift_lines_whole(a2, 0, 0, 0, false);
        assert(crlf_state(a2).rows == crlf_state(a).rows);
    }
}


/// What erasing in the cursor row does to the cell in column `x` of row
/// `y`: `All` blanks every cell of the cursor row, whatever the cursor's
/// column; `FromCursor` blanks the cursor cell and every cell right of it,
/// and the first half of a wide character whose second half is at the
/// cursor; `ToCursor` blanks the cursor cell and every cell left of it, and
/// the second half of a wide character whose first half is at the cursor.
/// Every other cell, every other row and the cursor are kept.
pub proof fn lemma_clear_line_cells(g: GridState, mode: EraseMode, x: int, y: int)
    requires
        state_wf(g),
        g.width >= 1,
        g.height >= 1,
        0 <= x < g.width,
        0 <= y < g.height,
    ensures
        ({
            let r = clear_line_state(g, mode);
            let cx = g.cursor.x as int;
            let cy = g.cursor.y as int;
            let lead_of_cursor = x == cx - 1 && g.rows[cy][cx].spacer;
            let tail_of_cursor = x == cx + 1 && cx + 1 < g.width && g.rows[cy][cx + 1].spacer;
            &&& r.cursor == g.cursor
            &&& r.rows.len() == g.height
            &&& r.rows[y].len() == g.width
            &&& y != cy ==> r.rows[y] == g.rows[y]
            &&& y == cy && mode == EraseMode::All ==> r.rows[y][x] == blank_cell()
            &&& y == cy && mode == EraseMode::FromCursor ==> r.rows[y][x] == (if x >= cx
                || lead_of_cursor {
                blank_cell()
            } else {
                g.rows[y][x]
            })
            &&& y == cy && mode == EraseMode::ToCursor ==> r.rows[y][x] == (if x <= cx
                || tail_of_cursor {
                blank_cell()
            } else {
                g.rows[y][x]
            })
        }),
{
    let cx = g.cursor.x as int;
    let cy = g.cursor.y as int;
    let w = g.width;
    lemma_cursor_on_grid(g);
    assert(g.rows[cy].len() == w);
    let (s, e, dx, dw) = clear_line_span(g, mode);
    let (row, changed) = clear_range_row(g.rows[cy], s, e);
    let s2 = crate::row::clear_start(g.rows[cy], s);
    let e2 = crate::row::clear_end(g.rows[cy], e);
    assert(s < e);
    assert(row == crate::row::blank_span(g.rows[cy], s2, e2));
    assert(clear_line_state(g, mode).rows == g.rows.update(cy, row));
    match mode {
        EraseMode::All => {
            assert(s2 == 0 && e2 == w);
        },
        EraseMode::FromCursor => {
            assert(min16(g.cursor.x, w) == g.cursor.x);
            assert(e2 == w);
        },
        EraseMode::ToCursor => {
            assert(s2 == 0);
        },
    }
}


/// Deleting `count` lines at the cursor row: the lines below, down to the
/// bottom margin, move up.
pub open spec fn delete_lines_state(g: GridState, count: u16) -> GridState {
    shift_lines_state(g, g.cursor.y, g.scroll_bottom, count, false)
}

/// Inserting `count` blank lines at the cursor row: it and the lines below,
/// down to the bottom margin, move down.
pub open spec fn insert_blank_lines_state(g: GridState, count: u16) -> GridState {
    shift_lines_state(g, g.cursor.y, g.scroll_bottom, count, true)
}

/// Scrolling the scroll region up by `count` lines.
pub open spec fn scroll_up_state(g: GridState, count: u16) -> GridState {
    shift_lines_state(g, g.scroll_top, g.scroll_bottom, count, false)
}

/// Scrolling the scroll region down by `count` lines.
pub open spec fn scroll_down_state(g: GridState, count: u16) -> GridState {
    shift_lines_state(g, g.scroll_top, g.scroll_bottom, count, true)
}

/// The row `y` of a region `top..=bottom` whose rows moved `n` rows up
/// (toward row 0) or, when `down`, down: the row that was `n` rows below
/// (or above) it, or a blank row where nothing moved in; rows outside the
/// region are kept.
pub open spec fn moved_row(g: GridState, top: int, bottom: int, n: int, down: bool, y: int) -> Seq<Cell> {
    if top <= y <= bottom {
        if !down && y + n <= bottom {
            g.rows[y + n]
        } else if down && y - n >= top {
            g.rows[y - n]
        } else {
            blank_row(g.width)
        }
    } else {
        g.rows[y]
    }
}

/// Which way lines move: scrolling up and deleting lines move rows toward
/// row 0 (content from below comes up, blank rows enter at the bottom
/// margin); scrolling down and inserting lines move rows away from it
/// (blank rows enter at the top of the region). The region is the scroll
/// region, or from the cursor row to the bottom margin for inserting and
/// deleting (which do nothing when the cursor is outside the scroll
/// region); `count` is cut to the region's height. The cursor stays.
pub proof fn lemma_line_shift_directions(g: GridState, count: u16, y: int)
    requires
        state_wf(g),
        g.height >= 1,
        0 <= y < g.height,
    ensures
        ({
            let top = g.scroll_top as int;
            let bottom = g.scroll_bottom as int;
            let cy = g.cursor.y as int;
            let n: int = if count <= bottom - top + 1 {
                count as int
            } else {
                bottom - top + 1
            };
            let m: int = if count <= bottom - cy + 1 {
                count as int
            } else {
                bottom - cy + 1
            };
            let inside = top <= cy <= bottom;
            &&& scroll_up_state(g, count).rows[y] == moved_row(g, top, bottom, n, false, y)
            &&& scroll_down_state(g, count).rows[y] == moved_row(g, top, bottom, n, true, y)
            &&& delete_lines_state(g, count).rows[y] == (if inside {
                moved_row(g, cy, bottom, m, false, y)
            } else {
                g.rows[y]
            })
            &&& insert_blank_lines_state(g, count).rows[y] == (if inside {
                moved_row(g, cy, bottom, m, true, y)
            } else {
                g.rows[y]
            })
            &&& scroll_up_state(g, count).cursor == g.cursor
            &&& scroll_down_state(g, count).cursor == g.cursor
            &&& delete_lines_state(g, count).cursor == g.cursor
            &&& insert_blank_lines_state(g, count).cursor == g.cursor
        }),
{
}


/// Moving the cursor `dx` columns right and `dy` rows down (negative values
/// move left and up).
pub open spec fn move_cursor_relative_state(g: GridState, dx: i16, dy: i16) -> GridState {
    move_cursor_state(
        g,
        spec_clamp_add(g.cursor.x, dx, g.width),
        spec_clamp_add(g.cursor.y, dy, g.height),
    )
}

/// `v` kept within `0..=max`.
pub open spec fn clamp_int(v: int, max: int) -> int {
    if v < 0 {
        0
    } else if v > max {
        max
    } else {
        v
    }
}

/// Where cursor moves land: an absolute move to `(x, y)` lands there, kept
/// on the screen; a relative move by `(dx, dy)` lands `dx` columns right and
/// `dy` rows down of the cursor (left and up for negative values), kept on
/// the screen. Neither changes a cell, the cursor's visibility or shape.
pub proof fn lemma_cursor_moves(g: GridState, x: u16, y: u16, dx: i16, dy: i16)
    requires
        state_wf(g),
        g.width >= 1,
        g.height >= 1,
    ensures
        move_cursor_state(g, x, y).cursor.x == clamp_int(x as int, g.width - 1),
        move_cursor_state(g, x, y).cursor.y == clamp_int(y as int, g.height - 1),
        move_cursor_state(g, x, y).rows == g.rows,
        move_cursor_relative_state(g, dx, dy).cursor.x == clamp_int(g.cursor.x + dx, g.width - 1),
        move_cursor_relative_state(g, dx, dy).cursor.y == clamp_int(g.cursor.y + dy, g.height - 1),
        move_cursor_relative_state(g, dx, dy).rows == g.rows,
        move_cursor_relative_state(g, dx, dy).cursor.visible == g.cursor.visible,
        move_cursor_relative_state(g, dx, dy).cursor.shape == g.cursor.shape,
{
}

/// Deleting `count` characters at the cursor.
pub open spec fn delete_chars_state(g: GridState, count: u16) -> GridState {
    shift_chars_state(g, count, false)
}

/// Inserting `count` blank characters at the cursor.
pub open spec fn insert_blank_chars_state(g: GridState, count: u16) -> GridState {
    shift_chars_state(g, count, true)
}

/// A row with no wide character and no spacer.
pub open spec fn plain_row(row: Seq<Cell>) -> bool {
    forall|i: int| 0 <= i < row.len() ==> !(#[trigger] row[i]).wide && !row[i].spacer
}

/// Repairing wide characters leaves a plain row as it is.
proof fn lemma_plain_row_sanitized(row: Seq<Cell>, n: nat)
    requires
        plain_row(row),
    ensures
        row::drop_orphan_spacers(row, n) == row,
        row::drop_orphan_wides(row, n) == row,
    decreases n,
{
    if n > 0 {
        lemma_plain_row_sanitized(row, (n - 1) as nat);
    }
}

/// Which way characters move in the cursor row (one without wide
/// characters): deleting `count` characters moves the cells right of the
/// cursor `count` columns left (toward column 0), with blank cells entering
/// at the right margin; inserting `count` blank characters moves the cursor
/// cell and those right of it `count` columns right, the cells pushed past
/// the margin dropped. `count` is cut to the columns from the cursor to the
/// margin. Cells left of the cursor, other rows and the cursor stay.
pub proof fn lemma_char_shift_directions(g: GridState, count: u16, x: int, y: int)
    requires
        state_wf(g),
        g.width >= 1,
        g.height >= 1,
        plain_row(g.rows[g.cursor.y as int]),
        0 <= x < g.width,
        0 <= y < g.height,
    ensures
        ({
            let cx = g.cursor.x as int;
            let cy = g.cursor.y as int;
            let w = g.width as int;
            let n: int = if count <= w - cx {
                count as int
            } else {
                w - cx
            };
            let del = delete_chars_state(g, count);
            let ins = insert_blank_chars_state(g, count);
            &&& del.cursor == g.cursor
            &&& ins.cursor == g.cursor
            &&& y != cy ==> del.rows[y] == g.rows[y] && ins.rows[y] == g.rows[y]
            &&& y == cy ==> del.rows[y][x] == (if x < cx {
                g.rows[y][x]
            } else if x + n < w {
                g.rows[y][x + n]
            } else {
                blank_cell()
            })
            &&& y == cy ==> ins.rows[y][x] == (if x < cx {
                g.rows[y][x]
            } else if x < cx + n {
                blank_cell()
            } else {
                g.rows[y][x - n]
            })
        }),
{
    let cx = g.cursor.x as int;
    let cy = g.cursor.y as int;
    lemma_cursor_on_grid(g);
    let row = g.rows[cy];
    assert(row.len() == g.width);
    lemma_cleared_row_unchanged(row, cx);
    let (r1, s1, e1, c1) = clear_for_write_row(row, cx);
    assert(!c1);
    assert(r1 == row);
    let n = min16(count, (g.width - cx) as u16) as int;
    if n != 0 {
        let rr = row::shift_row(row, cx, n, true);
        let rl = row::shift_row(row, cx, n, false);
        assert(plain_row(rr));
        assert(plain_row(rl));
        lemma_plain_row_sanitized(rr, rr.len());
        lemma_plain_row_sanitized(rl, rl.len());
        assert(row::sanitize_row_spec(rr) == rr);
        assert(row::sanitize_row_spec(rl) == rl);
    }
}


/// Printing a character that fits before the right margin, with no wrap
/// pending, in a row without wide characters: the character is written at
/// the cursor in the given style (a wide one takes the next column too, as
/// its spacer), every other cell is kept, and the cursor moves right by the
/// character's width; when that reaches the margin the cursor stays on the
/// last column and, with autowrap on, a wrap is pending.
pub proof fn lemma_print_fitting_char(g: GridState, ch: char, style: Style, x: int, y: int)
    requires
        state_wf(g),
        g.width >= 1,
        g.height >= 1,
        !g.pending_wrap,
        ch != '\n',
        spec_char_width(ch) == 1 || spec_char_width(ch) == 2,
        g.cursor.x + spec_char_width(ch) <= g.width,
        plain_row(g.rows[g.cursor.y as int]),
        0 <= x < g.width,
        0 <= y < g.height,
    ensures
        ({
            let r = put_char_state(g, ch, style);
            let cx = g.cursor.x as int;
            let cy = g.cursor.y as int;
            let cw = spec_char_width(ch) as int;
            let end = cx + cw;
            &&& y != cy ==> r.rows[y] == g.rows[y]
            &&& y == cy && x == cx ==> r.rows[y][x] == (Cell { ch, style, wide: cw == 2, spacer: false })
            &&& y == cy && cw == 2 && x == cx + 1 ==> r.rows[y][x] == (Cell {
                ch: ' ',
                style,
                wide: false,
                spacer: true,
            })
            &&& y == cy && (x < cx || x >= end) ==> r.rows[y][x] == g.rows[y][x]
            &&& r.cursor.y == g.cursor.y
            &&& r.cursor.x == (if end < g.width {
                end
            } else {
                g.width - 1
            })
            &&& r.pending_wrap == (end >= g.width && g.wrap)
            &&& r.cursor.visible == g.cursor.visible
            &&& r.cursor.shape == g.cursor.shape
        }),
{
    let cx = g.cursor.x as int;
    let cy = g.cursor.y as int;
    let cw = spec_char_width(ch);
    lemma_cursor_on_grid(g);
    assert(linewrap_state(g) == g);
    assert(put_char_pre(g, ch, style) == (g, cw));
    let row0 = g.rows[cy];
    assert(row0.len() == g.width);
    lemma_cleared_row_unchanged(row0, cx);
    let (r1, s1, e1, c1) = clear_for_write_row(row0, cx);
    assert(r1 == row0);
    let second = cw > 1 && cx + 1 < g.width;
    if second {
        lemma_cleared_row_unchanged(row0, cx + 1);
        assert(clear_for_write_row(r1, cx + 1).0 == row0);
    }
}

} // verus!
