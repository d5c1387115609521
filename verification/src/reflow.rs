//! Reflow: the lines of a grid rewrapped to a new width, with the cursor
//! kept on the character it stood on.
use vstd::prelude::*;

use crate::damage::{max16, min16};
use crate::grid::{
    blank_cell, blank_row, logical_row_end, min_nat, trim_row, viewport_damage, Cell, Cursor,
    GridState,
};
use crate::row::sanitize_row_spec;
use crate::width::{char_width, spec_char_width};

verus! {

/// The rows of `rows` as sequences of cells.
pub open spec fn lines_view(rows: Seq<Vec<Cell>>) -> Seq<Seq<Cell>> {
    Seq::new(rows.len(), |i: int| rows[i]@)
}

/// How many columns a cell takes when reflowed to `width`: its character
/// width (at least one), or one in a grid one column wide.
pub open spec fn cell_reflow_width(cell: Cell, width: u16) -> int {
    if width > 1 {
        let w = spec_char_width(cell.ch);
        if w >= 1 {
            w as int
        } else {
            1
        }
    } else {
        1
    }
}

/// The cell a reflow writes for `cell` when it takes `cw` columns.
pub open spec fn reflowed_cell(cell: Cell, cw: int) -> Cell {
    Cell { wide: cw > 1, spacer: false, ..cell }
}

/// The spacer after a reflowed wide cell.
pub open spec fn reflow_spacer(cell: Cell) -> Cell {
    Cell { ch: ' ', style: cell.style, wide: false, spacer: true }
}

/// Reflowing the cells `row[i..end]` to `width`: the finished rows, the row
/// being filled and its next column. Spacers are dropped; a cell that does
/// not fit after the first column starts a new row.
pub open spec fn reflow_fold(
    row: Seq<Cell>,
    end: int,
    width: u16,
    i: int,
    done: Seq<Seq<Cell>>,
    current: Seq<Cell>,
    x: int,
) -> (Seq<Seq<Cell>>, Seq<Cell>)
    decreases end - i,
{
    if i >= end || i < 0 {
        (done, current)
    } else if row[i].spacer {
        reflow_fold(row, end, width, i + 1, done, current, x)
    } else {
        let cell = row[i];
        let cw = cell_reflow_width(cell, width);
        let wraps = x + cw > width && x > 0;
        let done1 = if wraps {
            done.push(current)
        } else {
            done
        };
        let cur1 = if wraps {
            blank_row(width)
        } else {
            current
        };
        let x1 = if wraps {
            0
        } else {
            x
        };
        let cur2 = cur1.update(x1, reflowed_cell(cell, cw));
        let cur3 = if cw > 1 && x1 + 1 < width {
            cur2.update(x1 + 1, reflow_spacer(cell))
        } else {
            cur2
        };
        reflow_fold(row, end, width, i + 1, done1, cur3, x1 + cw)
    }
}

/// The rows that one line (a grid row up to its last non-blank cell)
/// becomes at `width`.
pub open spec fn reflowed_line(row: Seq<Cell>, width: u16) -> Seq<Seq<Cell>> {
    let r = reflow_fold(row, logical_row_end(row) as int, width, 0, Seq::empty(), blank_row(width), 0);
    r.0.push(r.1)
}

/// The reflowed rows of the first `n` lines.
pub open spec fn reflowed_lines(rows: Seq<Seq<Cell>>, width: u16, n: int) -> Seq<Seq<Cell>>
    decreases n,
{
    if n <= 0 {
        Seq::empty()
    } else {
        reflowed_lines(rows, width, n - 1) + reflowed_line(rows[n - 1], width)
    }
}

/// The columns that the first `n` cells of `row` take when reflowed.
pub open spec fn columns_before(row: Seq<Cell>, n: int, width: u16) -> int
    decreases n,
{
    if n <= 0 {
        0
    } else {
        columns_before(row, n - 1, width) + if row[n - 1].spacer {
            0
        } else {
            cell_reflow_width(row[n - 1], width)
        }
    }
}

/// Where in its reflowed rows a cursor at column `cursor_x` of `row` ends
/// up: after the cells before it, at the last column of a row it filled.
pub open spec fn cursor_in_line(row: Seq<Cell>, cursor_x: u16, width: u16) -> (int, int) {
    let end = logical_row_end(row) as int;
    let n = if cursor_x < end {
        cursor_x as int
    } else {
        end
    };
    let columns = columns_before(row, n, width);
    if columns == 0 {
        (0, 0)
    } else if columns % (width as int) == 0 {
        (columns / (width as int) - 1, width - 1)
    } else {
        (columns / (width as int), columns % (width as int))
    }
}

/// The last of the first `n` rows that holds anything, or 0.
pub open spec fn last_nonblank(rows: Seq<Seq<Cell>>, n: int) -> int
    decreases n,
{
    if n <= 0 {
        0
    } else if logical_row_end(rows[n - 1]) > 0 {
        n - 1
    } else {
        last_nonblank(rows, n - 1)
    }
}

/// How many rows a reflow takes: through the last non-blank row and the
/// cursor row.
pub open spec fn reflow_limit(rows: Seq<Seq<Cell>>, height: u16, cursor_y: u16) -> int {
    let last = last_nonblank(rows, height as int);
    let through = if last > cursor_y {
        last
    } else {
        cursor_y as int
    };
    if through + 1 < height {
        through + 1
    } else {
        height as int
    }
}

proof fn lemma_columns_bound(row: Seq<Cell>, n: int, width: u16)
    requires
        0 <= n <= row.len(),
    ensures
        0 <= columns_before(row, n, width) <= 2 * n,
    decreases n,
{
    if n > 0 {
        lemma_columns_bound(row, n - 1, width);
    }
}

/// The column after the last non-blank cell of `row`.
pub fn logical_end(row: &Vec<Cell>) -> (end: usize)
    ensures
        end == logical_row_end(row@),
        end <= row@.len(),
{
    let mut end = row.len();
    assert(row@.subrange(0, end as int) =~= row@);
    while end > 0 && row[end - 1] == Cell::default()
        invariant
            end <= row@.len(),
            logical_row_end(row@) == logical_row_end(row@.subrange(0, end as int)),
        decreases end,
    {
        proof {
            let s = row@.subrange(0, end as int);
            assert(s.drop_last() =~= row@.subrange(0, end - 1));
        }
        end = end - 1;
    }
    proof {
        let s = row@.subrange(0, end as int);
        if end > 0 {
            assert(s.last() == row@[end - 1]);
        } else {
            assert(s.len() == 0);
        }
    }
    end
}

pub fn blank_line(width: u16) -> (r: Vec<Cell>)
    ensures
        r@ == blank_row(width),
{
    let mut row: Vec<Cell> = Vec::new();
    let mut x: u16 = 0;
    while x < width
        invariant
            x <= width,
            row@.len() == x,
            forall|i: int| 0 <= i < x ==> #[trigger] row@[i] == blank_cell(),
        decreases width - x,
    {
        row.push(Cell::default());
        x = x + 1;
    }
    assert(row@ =~= blank_row(width));
    row
}

fn reflow_width_of(cell: Cell, width: u16) -> (r: usize)
    ensures
        r == cell_reflow_width(cell, width),
        1 <= r <= 2,
{
    if width > 1 {
        let w = char_width(cell.ch);
        if w >= 1 {
            w as usize
        } else {
            1
        }
    } else {
        1
    }
}

/// The rows that `row` becomes at `width` (one at least).
pub fn reflow_line(row: &Vec<Cell>, width: u16) -> (lines: Vec<Vec<Cell>>)
    requires
        width >= 1,
    ensures
        lines_view(lines@) == reflowed_line(row@, width),
        forall|i: int| 0 <= i < lines@.len() ==> #[trigger] lines@[i]@.len() == width,
{
    let end = logical_end(row);
    let w = width as usize;
    let mut done: Vec<Vec<Cell>> = Vec::new();
    let mut current = blank_line(width);
    let mut x: usize = 0;
    let mut i: usize = 0;
    assert(lines_view(done@) =~= Seq::<Seq<Cell>>::empty());
    while i < end
        invariant
            i <= end,
            end == logical_row_end(row@),
            end <= row@.len(),
            w == width,
            width >= 1,
            x <= w,
            current@.len() == w,
            forall|k: int| 0 <= k < done@.len() ==> #[trigger] done@[k]@.len() == width,
            reflow_fold(row@, end as int, width, i as int, lines_view(done@), current@, x as int)
                == reflow_fold(row@, end as int, width, 0, Seq::empty(), blank_row(width), 0),
        decreases end - i,
    {
        let cell = row[i];
        if !cell.spacer {
            let cw = reflow_width_of(cell, width);
            if x + cw > w && x > 0 {
                let mut next = blank_line(width);
                std::mem::swap(&mut next, &mut current);
                let ghost before = lines_view(done@);
                done.push(next);
                assert(lines_view(done@) =~= before.push(next@));
                x = 0;
            }
            current.set(x, Cell { ch: cell.ch, style: cell.style, wide: cw > 1, spacer: false });
            if cw > 1 && x + 1 < w {
                current.set(x + 1, Cell { ch: ' ', style: cell.style, wide: false, spacer: true });
            }
            x = x + cw;
        }
        i = i + 1;
    }
    let ghost before = lines_view(done@);
    done.push(current);
    assert(lines_view(done@) =~= before.push(done@[done@.len() - 1]@));
    done
}

/// The columns that the first `n` cells of `row` take when reflowed.
fn count_columns(row: &Vec<Cell>, n: usize, width: u16) -> (r: usize)
    requires
        n <= row@.len(),
        n <= u16::MAX,
    ensures
        r == columns_before(row@, n as int, width),
{
    let len = row.len();
    let mut columns: usize = 0;
    let mut i: usize = 0;
    while i < n
        invariant
            i <= n,
            n <= row@.len(),
            n <= u16::MAX,
            len == row@.len(),
            columns == columns_before(row@, i as int, width),
        decreases n - i,
    {
        proof {
            lemma_columns_bound(row@, i as int, width);
        }
        if !row[i].spacer {
            columns = columns + reflow_width_of(row[i], width);
        }
        i = i + 1;
    }
    columns
}

/// Where a cursor at column `cursor_x` of `row` lands among its reflowed rows.
pub fn cursor_position_for_row(row: &Vec<Cell>, cursor_x: u16, width: u16) -> (r: (usize, u16))
    requires
        width >= 1,
    ensures
        r.0 as int == cursor_in_line(row@, cursor_x, width).0,
        r.1 as int == cursor_in_line(row@, cursor_x, width).1,
        r.1 < width,
{
    let end = logical_end(row);
    let n = if (cursor_x as usize) < end {
        cursor_x as usize
    } else {
        end
    };
    let columns = count_columns(row, n, width);
    let w = width as usize;
    proof {
        if columns > 0 && columns % w != 0 {
            vstd::arithmetic::div_mod::lemma_mod_bound(columns as int, w as int);
        }
    }
    if columns == 0 {
        (0, 0)
    } else if columns % w == 0 {
        proof {
            vstd::arithmetic::div_mod::lemma_fundamental_div_mod(columns as int, w as int);
        }
        (columns / w - 1, width - 1)
    } else {
        (columns / w, (columns % w) as u16)
    }
}

/// How many of `rows` a reflow takes.
pub fn reflow_row_limit(rows: &Vec<Vec<Cell>>, height: u16, cursor_y: u16) -> (r: u16)
    requires
        rows@.len() == height,
    ensures
        r == reflow_limit(lines_view(rows@), height, cursor_y),
{
    let ghost lv = lines_view(rows@);
    let mut n: u16 = height;
    while n > 0 && logical_end(&rows[(n - 1) as usize]) == 0
        invariant
            n <= height,
            rows@.len() == height,
            lv == lines_view(rows@),
            last_nonblank(lv, n as int) == last_nonblank(lv, height as int),
        decreases n,
    {
        n = n - 1;
    }
    let last: u16 = if n > 0 {
        n - 1
    } else {
        0
    };
    let through = if last > cursor_y {
        last
    } else {
        cursor_y
    };
    if (through as u32) + 1 < height as u32 {
        through + 1
    } else {
        height
    }
}

/// The rows of a reflow: the reflowed lines through the limit, at least a
/// blank one.
pub open spec fn reflow_rows(g: GridState, width: u16) -> Seq<Seq<Cell>> {
    let lines = reflowed_lines(g.rows, width, reflow_limit(g.rows, g.height, g.cursor.y));
    if lines.len() == 0 {
        seq![blank_row(width)]
    } else {
        lines
    }
}

/// Where the cursor lands among the reflowed rows: (row, column).
pub open spec fn reflow_cursor(g: GridState, width: u16) -> (int, int) {
    if reflow_limit(g.rows, g.height, g.cursor.y) > g.cursor.y {
        let (r, x) = cursor_in_line(g.rows[g.cursor.y as int], g.cursor.x, width);
        (reflowed_lines(g.rows, width, g.cursor.y as int).len() + r, x)
    } else {
        (0, 0)
    }
}

/// A resize that rewraps lines to the new width (each dimension at least
/// one): rows that no longer fit scroll off the top, the cursor follows its
/// character, the scroll region resets.
pub open spec fn reflow_state(g: GridState, width: u16, height: u16) -> GridState {
    let w = max16(width, 1);
    let h = max16(height, 1);
    if w == g.width && h == g.height {
        g
    } else {
        let lines = reflow_rows(g, w);
        let scroll: int = if lines.len() > h {
            lines.len() - h
        } else {
            0
        };
        let (crow, cx) = reflow_cursor(g, w);
        viewport_damage(
            GridState {
                width: w,
                height: h,
                rows: Seq::new(
                    h as nat,
                    |y: int|
                        sanitize_row_spec(
                            if scroll + y < lines.len() {
                                lines[scroll + y]
                            } else {
                                blank_row(w)
                            },
                        ),
                ),
                cursor: Cursor {
                    x: min16(cx as u16, (w - 1) as u16),
                    y: if crow - scroll <= 0 {
                        0
                    } else if crow - scroll < h - 1 {
                        (crow - scroll) as u16
                    } else {
                        (h - 1) as u16
                    },
                    ..g.cursor
                },
                pending_wrap: false,
                scroll_top: 0,
                scroll_bottom: (h - 1) as u16,
                scrolled: g.scrolled + Seq::new(scroll as nat, |i: int| trim_row(lines[i])),
                pool_len: (g.pool_len - min_nat(scroll as nat, g.pool_len)) as nat,
                ..g
            },
        )
    }
}

/// Whether no cell of `row` is both halves of a wide character.
pub open spec fn single_halves(row: Seq<Cell>) -> bool {
    forall|x: int| 0 <= x < row.len() ==> !(#[trigger] row[x].wide && row[x].spacer)
}

proof fn lemma_fold_single_halves(
    row: Seq<Cell>,
    end: int,
    width: u16,
    i: int,
    done: Seq<Seq<Cell>>,
    current: Seq<Cell>,
    x: int,
)
    requires
        forall|k: int| 0 <= k < done.len() ==> single_halves(#[trigger] done[k]),
        single_halves(current),
        width >= 1,
        current.len() == width,
        0 <= x <= width,
    ensures
        forall|k: int| 0 <= k < reflow_fold(row, end, width, i, done, current, x).0.len()
            ==> single_halves(#[trigger] reflow_fold(row, end, width, i, done, current, x).0[k]),
        single_halves(reflow_fold(row, end, width, i, done, current, x).1),
    decreases end - i,
{
    if i < end && i >= 0 && !row[i].spacer {
        let cell = row[i];
        let cw = cell_reflow_width(cell, width);
        let wraps = x + cw > width && x > 0;
        let done1 = if wraps {
            done.push(current)
        } else {
            done
        };
        let cur1 = if wraps {
            blank_row(width)
        } else {
            current
        };
        let x1 = if wraps {
            0
        } else {
            x
        };
        let cur2 = cur1.update(x1, reflowed_cell(cell, cw));
        let cur3 = if cw > 1 && x1 + 1 < width {
            cur2.update(x1 + 1, reflow_spacer(cell))
        } else {
            cur2
        };
        assert forall|k: int| 0 <= k < done1.len() implies single_halves(#[trigger] done1[k]) by {
            if k < done.len() {
                assert(done1[k] == done[k]);
            }
        }
        assert(x1 < width) by {
            if width == 1 {
                assert(cw == 1);
            }
        }
        assert(x1 + cw <= width) by {
            if width == 1 {
                assert(cw == 1);
            }
        }
        assert(single_halves(cur3));
        lemma_fold_single_halves(row, end, width, i + 1, done1, cur3, x1 + cw);
    } else if i < end && i >= 0 {
        lemma_fold_single_halves(row, end, width, i + 1, done, current, x);
    }
}

proof fn lemma_reflowed_lines_single(rows: Seq<Seq<Cell>>, width: u16, n: int)
    requires
        width >= 1,
    ensures
        forall|k: int| 0 <= k < reflowed_lines(rows, width, n).len() ==> single_halves(
            #[trigger] reflowed_lines(rows, width, n)[k],
        ),
    decreases n,
{
    if n > 0 {
        lemma_reflowed_lines_single(rows, width, n - 1);
        let row = rows[n - 1];
        lemma_fold_single_halves(row, logical_row_end(row) as int, width, 0, Seq::empty(), blank_row(width), 0);
        let prev = reflowed_lines(rows, width, n - 1);
        let line = reflowed_line(row, width);
        assert forall|k: int| 0 <= k < (prev + line).len() implies single_halves(#[trigger] (prev + line)[k]) by {
            if k < prev.len() {
                assert((prev + line)[k] == prev[k]);
            } else {
                assert((prev + line)[k] == line[k - prev.len()]);
            }
        }
    }
}

/// A reflow keeps every wide character whole: each reflowed row is mended,
/// and no reflowed cell is both halves of a wide character.
pub proof fn lemma_reflow_whole(g: GridState, width: u16, height: u16)
    requires
        crate::grid::grid_whole(g),
    ensures
        crate::grid::grid_whole(reflow_state(g, width, height)),
{
    let w = max16(width, 1);
    let h = max16(height, 1);
    if !(w == g.width && h == g.height) {
        lemma_reflowed_lines_single(g.rows, w, reflow_limit(g.rows, g.height, g.cursor.y));
        let lines = reflow_rows(g, w);
        let out = reflow_state(g, width, height);
        let scroll: int = if lines.len() > h {
            lines.len() - h
        } else {
            0
        };
        assert forall|y: int| 0 <= y < out.rows.len() implies crate::row::row_whole(#[trigger] out.rows[y]) by {
            let src = if scroll + y < lines.len() {
                lines[scroll + y]
            } else {
                blank_row(w)
            };
            assert(single_halves(src));
            crate::row::lemma_sanitize_whole(src);
        }
    }
}


pub proof fn lemma_reflowed_lines_width(rows: Seq<Seq<Cell>>, width: u16, n: int)
    requires
        width >= 1,
        0 <= n <= rows.len(),
    ensures
        forall|i: int|
            0 <= i < reflowed_lines(rows, width, n).len() ==> #[trigger] reflowed_lines(
                rows,
                width,
                n,
            )[i].len() == width,
    decreases n,
{
    if n > 0 {
        lemma_reflowed_lines_width(rows, width, n - 1);
        lemma_reflowed_line_width(rows[n - 1], width);
        let a = reflowed_lines(rows, width, n - 1);
        let b = reflowed_line(rows[n - 1], width);
        assert forall|i: int| 0 <= i < (a + b).len() implies #[trigger] (a + b)[i].len() == width by {
            if i < a.len() {
                assert((a + b)[i] == a[i]);
            } else {
                assert((a + b)[i] == b[i - a.len()]);
            }
        }
    }
}

proof fn lemma_fold_width(
    row: Seq<Cell>,
    end: int,
    width: u16,
    i: int,
    done: Seq<Seq<Cell>>,
    current: Seq<Cell>,
    x: int,
)
    requires
        width >= 1,
        current.len() == width,
        0 <= x <= width,
        forall|k: int| 0 <= k < done.len() ==> #[trigger] done[k].len() == width,
    ensures
        reflow_fold(row, end, width, i, done, current, x).1.len() == width,
        forall|k: int|
            0 <= k < reflow_fold(row, end, width, i, done, current, x).0.len() ==> #[trigger] reflow_fold(
                row,
                end,
                width,
                i,
                done,
                current,
                x,
            ).0[k].len() == width,
    decreases end - i,
{
    if i < end && i >= 0 {
        if row[i].spacer {
            lemma_fold_width(row, end, width, i + 1, done, current, x);
        } else {
            let cell = row[i];
            let cw = cell_reflow_width(cell, width);
            let wraps = x + cw > width && x > 0;
            let done1 = if wraps {
                done.push(current)
            } else {
                done
            };
            let cur1 = if wraps {
                blank_row(width)
            } else {
                current
            };
            let x1 = if wraps {
                0
            } else {
                x
            };
            let cur2 = cur1.update(x1, reflowed_cell(cell, cw));
            let cur3 = if cw > 1 && x1 + 1 < width {
                cur2.update(x1 + 1, reflow_spacer(cell))
            } else {
                cur2
            };
            assert forall|k: int| 0 <= k < done1.len() implies #[trigger] done1[k].len() == width by {
                if wraps && k == done.len() {
                } else {
                    assert(done1[k] == done[k]);
                }
            }
            lemma_fold_width(row, end, width, i + 1, done1, cur3, x1 + cw);
        }
    }
}

pub proof fn lemma_reflowed_line_width(row: Seq<Cell>, width: u16)
    requires
        width >= 1,
    ensures
        reflowed_line(row, width).len() >= 1,
        forall|i: int|
            0 <= i < reflowed_line(row, width).len() ==> #[trigger] reflowed_line(row, width)[i].len()
                == width,
{
    lemma_fold_width(row, logical_row_end(row) as int, width, 0, Seq::empty(), blank_row(width), 0);
}

proof fn lemma_columns_monotone(row: Seq<Cell>, a: int, b: int, width: u16)
    requires
        0 <= a <= b,
    ensures
        columns_before(row, a, width) <= columns_before(row, b, width),
    decreases b - a,
{
    if a < b {
        lemma_columns_monotone(row, a, b - 1, width);
    }
}

/// The rows of a reflowed line hold all its columns.
proof fn lemma_fold_rows(
    row: Seq<Cell>,
    end: int,
    width: u16,
    i: int,
    done: Seq<Seq<Cell>>,
    current: Seq<Cell>,
    x: int,
)
    requires
        width >= 1,
        0 <= x <= width,
        0 <= i <= end,
        columns_before(row, i, width) <= done.len() * width + x,
    ensures
        columns_before(row, end, width) <= reflow_fold(row, end, width, i, done, current, x).0.len()
            * width + width,
    decreases end - i,
{
    if i < end {
        if row[i].spacer {
            lemma_fold_rows(row, end, width, i + 1, done, current, x);
        } else {
            let cell = row[i];
            let cw = cell_reflow_width(cell, width);
            let wraps = x + cw > width && x > 0;
            let done1 = if wraps {
                done.push(current)
            } else {
                done
            };
            let cur1 = if wraps {
                blank_row(width)
            } else {
                current
            };
            let x1 = if wraps {
                0
            } else {
                x
            };
            let cur2 = cur1.update(x1, reflowed_cell(cell, cw));
            let cur3 = if cw > 1 && x1 + 1 < width {
                cur2.update(x1 + 1, reflow_spacer(cell))
            } else {
                cur2
            };
            if wraps {
                assert(done1.len() * width == done.len() * width + width) by (nonlinear_arith)
                    requires
                        done1.len() == done.len() + 1,
                ;
            }
            assert(x1 + cw <= width);
            lemma_fold_rows(row, end, width, i + 1, done1, cur3, x1 + cw);
        }
    } else {
        assert(0 <= reflow_fold(row, end, width, i, done, current, x).0.len() * width) by (nonlinear_arith);
    }
}

/// The row a cursor lands on is one of the rows its line reflows to.
pub proof fn lemma_cursor_row_bound(row: Seq<Cell>, cursor_x: u16, width: u16)
    requires
        width >= 1,
    ensures
        cursor_in_line(row, cursor_x, width).0 < reflowed_line(row, width).len(),
        0 <= cursor_in_line(row, cursor_x, width).0,
{
    let end = logical_row_end(row) as int;
    let n = if cursor_x < end {
        cursor_x as int
    } else {
        end
    };
    let columns = columns_before(row, n, width);
    let r = reflow_fold(row, end, width, 0, Seq::empty(), blank_row(width), 0);
    let d = r.0.len() as int;
    let w = width as int;
    lemma_fold_rows(row, end, width, 0, Seq::empty(), blank_row(width), 0);
    lemma_columns_monotone(row, n, end, width);
    lemma_columns_bound(row, 0, width);
    assert(columns <= (d + 1) * w) by (nonlinear_arith)
        requires
            columns <= d * w + w,
    ;
    assert(columns >= 0) by {
        if n >= 0 {
            lemma_columns_monotone(row, 0, n, width);
        }
    }
    if columns > 0 {
        vstd::arithmetic::div_mod::lemma_fundamental_div_mod(columns, w);
        if columns % w == 0 {
            assert(columns / w <= d + 1) by (nonlinear_arith)
                requires
                    columns == w * (columns / w),
                    columns <= (d + 1) * w,
                    w >= 1,
            ;
            assert(columns / w >= 1) by (nonlinear_arith)
                requires
                    columns == w * (columns / w),
                    columns > 0,
                    w >= 1,
            ;
        } else {
            vstd::arithmetic::div_mod::lemma_mod_bound(columns, w);
            assert(columns / w <= d) by (nonlinear_arith)
                requires
                    columns == w * (columns / w) + columns % w,
                    0 < columns % w < w,
                    columns <= (d + 1) * w,
                    w >= 1,
            ;
            assert(columns / w >= 0) by (nonlinear_arith)
                requires
                    columns == w * (columns / w) + columns % w,
                    columns % w < w,
                    columns > 0,
                    w >= 1,
            ;
        }
    }
}


/// Whether the cells `row[0..end]` are single-column characters, none of
/// them a spacer.
pub open spec fn narrow_cells(row: Seq<Cell>, end: int, width: u16) -> bool {
    forall|k: int| 0 <= k < end ==> !(#[trigger] row[k]).spacer && cell_reflow_width(row[k], width) == 1
}

/// Whether the first `i` cells of `row` stand in reading order in the rows
/// `done` followed by `current`: cell `q * width + r` at column `r` of row `q`.
spec fn narrow_layout(row: Seq<Cell>, width: u16, i: int, done: Seq<Seq<Cell>>, current: Seq<Cell>) -> bool {
    forall|q: int, r: int|
        0 <= q && 0 <= r < width && q * width + r < i ==> (#[trigger] done.push(current)[q][r])
            == reflowed_cell(row[q * width + r], 1)
}

proof fn lemma_slot_order(q: int, r: int, d: int, x: int, w: int)
    requires
        w > 0,
        0 <= r < w,
        0 <= x <= w,
        0 <= q,
        0 <= d,
        q * w + r < d * w + x,
    ensures
        q <= d,
        q == d ==> r < x,
{
    if q > d {
        assert(q * w >= (d + 1) * w) by (nonlinear_arith)
            requires
                q >= d + 1,
                w > 0,
        ;
        assert((d + 1) * w == d * w + w) by (nonlinear_arith);
    }
}

proof fn lemma_slot_before(q: int, r: int, d: int, w: int)
    requires
        w > 0,
        0 <= r < w,
        0 <= q < d,
    ensures
        q * w + r < d * w,
{
    assert(q * w + w <= d * w) by (nonlinear_arith)
        requires
            q + 1 <= d,
            w > 0,
    ;
}

proof fn lemma_fold_narrow(
    row: Seq<Cell>,
    end: int,
    width: u16,
    i: int,
    done: Seq<Seq<Cell>>,
    current: Seq<Cell>,
    x: int,
)
    requires
        width >= 1,
        0 <= i <= end,
        narrow_cells(row, end, width),
        current.len() == width,
        forall|k: int| 0 <= k < done.len() ==> #[trigger] done[k].len() == width,
        done.len() * width + x == i,
        0 <= x <= width,
        i > 0 ==> x >= 1,
        narrow_layout(row, width, i, done, current),
    ensures
        ({
            let res = reflow_fold(row, end, width, i, done, current, x);
            &&& narrow_layout(row, width, end, res.0, res.1)
            &&& end > 0 ==> res.0.len() * width < end <= res.0.len() * width + width
            &&& end == 0 ==> res.0.len() == 0
        }),
    decreases end - i,
{
    let w = width as int;
    if i < end {
        let cell = row[i];
        assert(!cell.spacer && cell_reflow_width(cell, width) == 1);
        let wraps = x + 1 > width && x > 0;
        let d = done.len() as int;
        let done1 = if wraps {
            done.push(current)
        } else {
            done
        };
        let cur1 = if wraps {
            blank_row(width)
        } else {
            current
        };
        let x1 = if wraps {
            0
        } else {
            x
        };
        let cur2 = cur1.update(x1, reflowed_cell(cell, 1));
        assert(d * w + w == (d + 1) * w) by (nonlinear_arith);
        assert forall|k: int| 0 <= k < done1.len() implies #[trigger] done1[k].len() == width by {
            if !(wraps && k == done.len()) {
                assert(done1[k] == done[k]);
            }
        }
        assert forall|q: int, r: int|
            0 <= q && 0 <= r < width && q * width + r < i + 1 implies (#[trigger] done1.push(cur2)[q][r])
                == reflowed_cell(row[q * width + r], 1) by {
            if wraps {
                lemma_slot_order(q, r, d + 1, 1, w);
                if q == d + 1 {
                    assert(r == 0);
                    assert(q * width + r == i) by (nonlinear_arith)
                        requires
                            q == d + 1,
                            r == 0,
                            d * w + w == i,
                            w == width,
                    ;
                } else {
                    lemma_slot_before(q, r, d + 1, w);
                    assert(done1.push(cur2)[q] == done.push(current)[q]);
                }
            } else {
                lemma_slot_order(q, r, d, x + 1, w);
                if q == d && r == x {
                } else {
                    if q < d {
                        lemma_slot_before(q, r, d, w);
                    }
                    if q < d {
                        assert(done1.push(cur2)[q] == done.push(current)[q]);
                    } else {
                        assert(done1.push(cur2)[q] == cur2);
                        assert(done.push(current)[q] == current);
                    }
                }
            }
        }
        lemma_fold_narrow(row, end, width, i + 1, done1, cur2, x1 + 1);
        assert(reflow_fold(row, end, width, i, done, current, x) == reflow_fold(
            row,
            end,
            width,
            i + 1,
            done1,
            cur2,
            x1 + 1,
        ));
    } else {
        assert(reflow_fold(row, end, width, i, done, current, x) == (done, current));
        if end == 0 {
            assert(done.len() == 0) by (nonlinear_arith)
                requires
                    done.len() * width == 0,
                    width >= 1,
            ;
        }
    }
}

/// Reflowing a line of single-column characters keeps its text in reading
/// order: cell `q * width + r` of the line lands at column `r` of reflowed
/// row `q`, and the line takes as many rows as its text fills, one at least.
pub proof fn lemma_reflow_keeps_narrow_text(row: Seq<Cell>, width: u16)
    requires
        width >= 1,
        narrow_cells(row, logical_row_end(row) as int, width),
    ensures
        forall|q: int, r: int|
            0 <= q && 0 <= r < width && q * width + r < logical_row_end(row) ==> (
            #[trigger] reflowed_line(row, width)[q][r]) == reflowed_cell(row[q * width + r], 1),
        logical_row_end(row) == 0 ==> reflowed_line(row, width).len() == 1,
        logical_row_end(row) > 0 ==> (reflowed_line(row, width).len() - 1) * width < logical_row_end(
            row,
        ) <= reflowed_line(row, width).len() * width,
{
    let end = logical_row_end(row) as int;
    assert(Seq::<Seq<Cell>>::empty().push(blank_row(width))[0] == blank_row(width));
    lemma_fold_narrow(row, end, width, 0, Seq::empty(), blank_row(width), 0);
    let res = reflow_fold(row, end, width, 0, Seq::empty(), blank_row(width), 0);
    let w = width as int;
    let n = res.0.len() as int;
    assert((n + 1) * w == n * w + w) by (nonlinear_arith);
}

} // verus!
