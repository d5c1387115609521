//! Mouse selection over the view: which cells it covers, the text it copies
//! (from the screen or from the scrollback the view is scrolled into), and
//! the rectangles that highlight it.
use vstd::prelude::*;

use crate::damage::sat_sub16;
use crate::grid::Cell;
use crate::metrics::{is_white_space, is_white_space_char};
use crate::parser::ParserAdapter;
use crate::terminal::{TerminalCore, TerminalState};

verus! {

/// A selection from the cell where the drag started to the cell under the
/// pointer, as (column, row).
#[derive(Debug, Clone, Copy, PartialEq, Eq)]
pub struct Selection {
    pub anchor: (u16, u16),
    pub focus: (u16, u16),
    pub dragging: bool,
}

/// A rectangle of cells.
#[derive(Debug, Clone, Copy, PartialEq, Eq, Structural)]
pub struct CellRect {
    pub x: u16,
    pub y: u16,
    pub width: u16,
    pub height: u16,
}

/// The ends of a selection in reading order.
pub open spec fn spec_normalized(s: Selection) -> ((u16, u16), (u16, u16)) {
    if s.anchor.1 < s.focus.1 || (s.anchor.1 == s.focus.1 && s.anchor.0 <= s.focus.0) {
        (s.anchor, s.focus)
    } else {
        (s.focus, s.anchor)
    }
}

/// The row shown on line `y` of a view scrolled `offset` rows back into the
/// scrollback (the alternate screen has none to scroll into).
pub open spec fn visible_row_spec(t: TerminalState, offset: nat, y: u16) -> Option<Seq<Cell>> {
    if offset == 0 || t.alternate is Some {
        if y < t.grid.height {
            Some(t.grid.rows[y as int])
        } else {
            None
        }
    } else {
        let history = t.scrollback.len() as int;
        let back = if offset < history {
            offset as int
        } else {
            history
        };
        let row = history - back + y;
        if row < history {
            Some(t.scrollback[row])
        } else if row - history < t.grid.height {
            Some(t.grid.rows[row - history])
        } else {
            None
        }
    }
}

/// The characters of the cells `s..e` of `row`, leaving out spacers.
pub open spec fn kept_chars(row: Seq<Cell>, s: int, e: int) -> Seq<char>
    decreases e - s,
{
    if e <= s {
        Seq::empty()
    } else {
        let prev = kept_chars(row, s, e - 1);
        if row[e - 1].spacer {
            prev
        } else {
            prev.push(row[e - 1].ch)
        }
    }
}

/// `chars` without its trailing white space.
pub open spec fn trim_trailing(chars: Seq<char>) -> Seq<char>
    decreases chars.len(),
{
    if chars.len() > 0 && is_white_space(chars.last()) {
        trim_trailing(chars.drop_last())
    } else {
        chars
    }
}

/// The bounds that columns `xs..=xe` take in a row of `len` cells.
pub open spec fn segment_bounds(len: int, xs: u16, xe: u16) -> (int, int) {
    (
        if (xs as int) < len {
            xs as int
        } else {
            len
        },
        if xe + 1 < len {
            xe + 1
        } else {
            len
        },
    )
}

/// The text of columns `xs..=xe` of `row`, without trailing white space.
pub open spec fn row_segment(row: Seq<Cell>, xs: u16, xe: u16) -> Seq<char> {
    let (s, e) = segment_bounds(row.len() as int, xs, xe);
    trim_trailing(kept_chars(row, s, e))
}

/// The columns that line `y` of a selection covers.
pub open spec fn line_columns(t: TerminalState, sel: Selection, y: int) -> (u16, u16) {
    let (start, end) = spec_normalized(sel);
    (
        if y == start.1 {
            start.0
        } else {
            0
        },
        if y == end.1 {
            end.0
        } else {
            sat_sub16(t.grid.width, 1)
        },
    )
}

/// The text that line `y` of a selection copies, with a line break after
/// every line but the last.
pub open spec fn line_text(t: TerminalState, sel: Selection, offset: nat, y: int) -> Seq<char> {
    let (start, end) = spec_normalized(sel);
    let (xs, xe) = line_columns(t, sel, y);
    let seg = match visible_row_spec(t, offset, y as u16) {
        Some(row) => row_segment(row, xs, xe),
        None => Seq::empty(),
    };
    if y != end.1 {
        seg.push('\n')
    } else {
        seg
    }
}

/// The text of the first `n` lines of a selection.
pub open spec fn selection_text_lines(t: TerminalState, sel: Selection, offset: nat, n: int) -> Seq<char>
    decreases n,
{
    if n <= 0 {
        Seq::empty()
    } else {
        selection_text_lines(t, sel, offset, n - 1) + line_text(
            t,
            sel,
            offset,
            spec_normalized(sel).0.1 + n - 1,
        )
    }
}

/// The text a selection copies.
pub open spec fn selection_text(t: TerminalState, sel: Selection, offset: nat) -> Seq<char> {
    let (start, end) = spec_normalized(sel);
    selection_text_lines(t, sel, offset, end.1 - start.1 + 1)
}

/// Whether every line of a selection covers columns that its row can be
/// cut at (a selection that starts right of a long row's end cannot be).
pub open spec fn selection_in_bounds(t: TerminalState, sel: Selection, offset: nat) -> bool {
    let (start, end) = spec_normalized(sel);
    forall|y: int|
        start.1 <= y <= end.1 ==> match #[trigger] visible_row_spec(t, offset, y as u16) {
            Some(row) => {
                let (xs, xe) = line_columns(t, sel, y);
                segment_bounds(row.len() as int, xs, xe).0 <= segment_bounds(row.len() as int, xs, xe).1
            },
            None => true,
        }
}

/// Appends `c` to `s`.
#[verifier::external_body]
fn push_char(s: &mut String, c: char)
    ensures
        final(s)@ == old(s)@.push(c),
{
    s.push(c);
}

/// Appends the text of columns `xs..=xe` of `row` to `text`, without
/// trailing white space.
fn push_row_text(text: &mut Vec<char>, row: &[Cell], xs: u16, xe: u16)
    requires
        segment_bounds(row@.len() as int, xs, xe).0 <= segment_bounds(row@.len() as int, xs, xe).1,
    ensures
        final(text)@ == old(text)@ + row_segment(row@, xs, xe),
{
    let start: usize = if (xs as usize) < row.len() {
        xs as usize
    } else {
        row.len()
    };
    let end: usize = if (xe as usize) + 1 < row.len() {
        (xe as usize) + 1
    } else {
        row.len()
    };
    let before = text.len();
    let ghost prefix = text@;
    let mut i = start;
    while i < end
        invariant
            start <= i <= end,
            end <= row@.len(),
            prefix.len() == before,
            text@ == prefix + kept_chars(row@, start as int, i as int),
        decreases end - i,
    {
        if !row[i].spacer {
            text.push(row[i].ch);
        }
        i = i + 1;
        assert(text@ =~= prefix + kept_chars(row@, start as int, i as int));
    }
    let ghost kept = kept_chars(row@, start as int, end as int);
    assert(text@.subrange(before as int, text@.len() as int) =~= kept);
    assert(text@.subrange(0, before as int) =~= prefix);
    while text.len() > before && is_white_space_char(text[text.len() - 1])
        invariant
            text@.len() >= before,
            prefix.len() == before,
            text@.subrange(0, before as int) == prefix,
            trim_trailing(text@.subrange(before as int, text@.len() as int)) == trim_trailing(kept),
        decreases text@.len(),
    {
        let ghost q = text@.subrange(before as int, text@.len() as int);
        text.pop();
        proof {
            assert(q.drop_last() =~= text@.subrange(before as int, text@.len() as int));
            assert(text@.subrange(0, before as int) =~= prefix);
        }
    }
    proof {
        let q = text@.subrange(before as int, text@.len() as int);
        assert(trim_trailing(q) == q);
        assert(text@ =~= prefix + q);
    }
}

impl Selection {
    /// A selection that starts, and is being dragged, at `cell`.
    pub fn start(cell: (u16, u16)) -> (r: Self)
        ensures
            r == (Selection { anchor: cell, focus: cell, dragging: true }),
    {
        Selection { anchor: cell, focus: cell, dragging: true }
    }

    /// Moves the free end to `cell`; tells whether it moved.
    pub fn update(&mut self, cell: (u16, u16)) -> (moved: bool)
        ensures
            moved == (old(self).focus != cell),
            *final(self) == (Selection { focus: cell, ..*old(self) }),
    {
        if self.focus.0 == cell.0 && self.focus.1 == cell.1 {
            return false;
        }
        self.focus = cell;
        true
    }

    pub fn finish(&mut self)
        ensures
            *final(self) == (Selection { dragging: false, ..*old(self) }),
    {
        self.dragging = false;
    }

    pub fn is_dragging(self) -> (r: bool)
        ensures
            r == self.dragging,
    {
        self.dragging
    }

    /// The ends of the selection in reading order.
    pub fn normalized(self) -> (r: ((u16, u16), (u16, u16)))
        ensures
            r == spec_normalized(self),
    {
        if self.anchor.1 < self.focus.1 || (self.anchor.1 == self.focus.1 && self.anchor.0
            <= self.focus.0) {
            (self.anchor, self.focus)
        } else {
            (self.focus, self.anchor)
        }
    }

    /// The text the selection covers in a view scrolled `scroll_offset` rows
    /// back: line by line, spacers left out, trailing white space dropped,
    /// lines joined by line breaks.
    pub fn text<P: ParserAdapter>(self, terminal: &TerminalCore<P>, scroll_offset: usize) -> (r: String)
        requires
            terminal.wf(),
            selection_in_bounds(terminal@, self, scroll_offset as nat),
        ensures
            r@ == selection_text(terminal@, self, scroll_offset as nat),
    {
        let ghost t = terminal@;
        let (start, end) = self.normalized();
        let width = terminal.grid().width();
        let mut chars: Vec<char> = Vec::new();
        let mut y: u32 = start.1 as u32;
        while y <= end.1 as u32
            invariant
                terminal.wf(),
                t == terminal@,
                width == t.grid.width,
                (start, end) == spec_normalized(self),
                start.1 <= y <= end.1 + 1,
                selection_in_bounds(t, self, scroll_offset as nat),
                chars@ == selection_text_lines(t, self, scroll_offset as nat, y - start.1),
            decreases end.1 + 1 - y,
        {
            let yy = y as u16;
            let x_start = if yy == start.1 {
                start.0
            } else {
                0
            };
            let x_end = if yy == end.1 {
                end.0
            } else {
                width.saturating_sub(1)
            };
            let ghost before = chars@;
            match visible_row(terminal, scroll_offset, yy) {
                Some(row) => {
                    proof {
                        assert(start.1 <= y as int <= end.1);
                        let _ = visible_row_spec(t, scroll_offset as nat, (y as int) as u16);
                    }
                    push_row_text(&mut chars, row, x_start, x_end);
                },
                None => {},
            }
            if yy != end.1 {
                chars.push('\n');
            }
            proof {
                assert(chars@ =~= before + line_text(t, self, scroll_offset as nat, y as int));
            }
            y = y + 1;
        }
        let mut text = String::new();
        let mut i: usize = 0;
        while i < chars.len()
            invariant
                i <= chars@.len(),
                text@ == chars@.subrange(0, i as int),
            decreases chars@.len() - i,
        {
            push_char(&mut text, chars[i]);
            i = i + 1;
            assert(text@ =~= chars@.subrange(0, i as int));
        }
        assert(chars@.subrange(0, chars@.len() as int) =~= chars@);
        text
    }

    /// The cell rectangles that highlight the selection in a grid `width`
    /// columns wide: one for a selection on one line; else the rest of the
    /// first line, the start of the last, and the lines between as one.
    pub fn overlay_rects(self, width: u16) -> (r: Vec<CellRect>)
        requires
            spec_normalized(self).1.0 < u16::MAX,
        ensures
            ({
                let (start, end) = spec_normalized(self);
                if start.1 == end.1 {
                    r@ == seq![
                        CellRect {
                            x: start.0,
                            y: start.1,
                            width: (end.0 - start.0 + 1) as u16,
                            height: 1,
                        },
                    ]
                } else {
                    let first = CellRect {
                        x: start.0,
                        y: start.1,
                        width: sat_sub16(width, start.0),
                        height: 1,
                    };
                    let last = CellRect { x: 0, y: end.1, width: (end.0 + 1) as u16, height: 1 };
                    if start.1 + 1 < end.1 {
                        r@ == seq![
                            first,
                            last,
                            CellRect {
                                x: 0,
                                y: (start.1 + 1) as u16,
                                width,
                                height: (end.1 - start.1 - 1) as u16,
                            },
                        ]
                    } else {
                        r@ == seq![first, last]
                    }
                }
            }),
    {
        let (start, end) = self.normalized();
        if start.1 == end.1 {
            let span = end.0 - start.0 + 1;
            let r = vec![CellRect { x: start.0, y: start.1, width: span, height: 1 }];
            return r;
        }
        let rest = width.saturating_sub(start.0);
        let lead = end.0 + 1;
        let mut rects = vec![
            CellRect { x: start.0, y: start.1, width: rest, height: 1 },
            CellRect { x: 0, y: end.1, width: lead, height: 1 },
        ];
        let middle_start = start.1 + 1;
        if middle_start < end.1 {
            rects.push(CellRect { x: 0, y: middle_start, width, height: end.1 - middle_start });
        }
        rects
    }
}

/// The row shown on line `y` of a view scrolled `scroll_offset` rows back
/// into the scrollback.
pub fn visible_row<P: ParserAdapter>(terminal: &TerminalCore<P>, scroll_offset: usize, y: u16) -> (r:
    Option<&[Cell]>)
    requires
        terminal.wf(),
    ensures
        match r {
            Some(row) => visible_row_spec(terminal@, scroll_offset as nat, y) == Some(row@),
            None => visible_row_spec(terminal@, scroll_offset as nat, y) is None,
        },
{
    if scroll_offset == 0 || terminal.is_alternate_screen() {
        return terminal.grid().row(y);
    }
    let history_len = terminal.scrollback_len();
    let back = if scroll_offset < history_len {
        scroll_offset
    } else {
        history_len
    };
    if (y as usize) < back {
        terminal.scrollback_row(history_len - back + y as usize)
    } else {
        terminal.grid().row((y as usize - back) as u16)
    }
}


/// Every selected line above the last one is copied through the end of its
/// row: from the selection's start column on its first line (column 0 on
/// the lines after) to the row's last cell, with spacers left out, trailing
/// white space dropped and a line break after it. (A row from the history
/// that is wider than the screen is cut at the screen's width.)
pub proof fn lemma_inner_lines_reach_row_end(
    t: TerminalState,
    sel: Selection,
    offset: nat,
    y: int,
    row: Seq<Cell>,
)
    requires
        spec_normalized(sel).0.1 <= y < spec_normalized(sel).1.1,
        visible_row_spec(t, offset, y as u16) == Some(row),
        row.len() <= t.grid.width,
    ensures
        ({
            let (start, end) = spec_normalized(sel);
            let first: int = if y == start.1 {
                start.0 as int
            } else {
                0
            };
            let s: int = if first < row.len() {
                first
            } else {
                row.len() as int
            };
            line_text(t, sel, offset, y) == trim_trailing(kept_chars(row, s, row.len() as int)).push(
                '\n',
            )
        }),
{
}


/// The last selected line is copied from its first column (the start
/// column when it is also the first line, else column 0) through the end
/// column, or to the end of its row when the row is shorter; spacers are
/// left out, trailing white space dropped, and no line break follows.
pub proof fn lemma_last_line_stops_at_end_column(
    t: TerminalState,
    sel: Selection,
    offset: nat,
    row: Seq<Cell>,
)
    requires
        visible_row_spec(t, offset, spec_normalized(sel).1.1) == Some(row),
    ensures
        ({
            let (start, end) = spec_normalized(sel);
            let first: int = if end.1 == start.1 {
                start.0 as int
            } else {
                0
            };
            let s: int = if first < row.len() {
                first
            } else {
                row.len() as int
            };
            let e: int = if end.0 + 1 < row.len() {
                end.0 + 1
            } else {
                row.len() as int
            };
            line_text(t, sel, offset, end.1 as int) == trim_trailing(kept_chars(row, s, e))
        }),
{
}

} // verus!
