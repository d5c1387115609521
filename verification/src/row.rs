//! Operations on one row of cells: clearing a span (widened over the halves
//! of wide characters that it cuts), making room for a write, shifting
//! characters, and repairing wide characters that lost a half.
use vstd::prelude::*;

use crate::grid::{blank_cell, Cell};

verus! {

/// Where clearing from `s` really starts: one column earlier when `s` cuts a
/// wide character after its first half.
pub open spec fn clear_start(row: Seq<Cell>, s: int) -> int {
    if 0 < s < row.len() && row[s].spacer {
        s - 1
    } else {
        s
    }
}

/// Where clearing up to `e` really ends: one column later when `e` cuts a wide
/// character before its second half.
pub open spec fn clear_end(row: Seq<Cell>, e: int) -> int {
    if 0 < e < row.len() && row[e].spacer {
        e + 1
    } else {
        e
    }
}

/// `row` with the cells of `s..e` blank.
pub open spec fn blank_span(row: Seq<Cell>, s: int, e: int) -> Seq<Cell> {
    Seq::new(row.len(), |i: int| if s <= i < e { blank_cell() } else { row[i] })
}

/// Whether some cell of `s..e` is not blank.
pub open spec fn span_dirty(row: Seq<Cell>, s: int, e: int) -> bool {
    exists|i: int| s <= i < e && 0 <= i < row.len() && row[i] != blank_cell()
}

/// Clearing `s..e` of `row`: the new row and whether any cell changed.
pub open spec fn clear_range_row(row: Seq<Cell>, s: int, e: int) -> (Seq<Cell>, bool) {
    if s >= e {
        (row, false)
    } else {
        let s2 = clear_start(row, s);
        let e2 = clear_end(row, e);
        (blank_span(row, s2, e2), span_dirty(row, s2, e2))
    }
}

/// Making column `x` of `row` writable: a wide character that it cuts in two
/// is cleared. Gives the new row, the first and last column that it may have
/// changed, and whether a cell changed.
pub open spec fn clear_for_write_row(row: Seq<Cell>, x: int) -> (Seq<Cell>, int, int, bool) {
    let c1 = 0 < x < row.len() && row[x].spacer;
    let r1 = if c1 {
        row.update(x - 1, blank_cell()).update(x, blank_cell())
    } else {
        row
    };
    let ch1 = c1 && (row[x - 1] != blank_cell() || row[x] != blank_cell());
    let c2 = 0 <= x && x + 1 < row.len() && r1[x + 1].spacer;
    let r2 = if c2 {
        r1.update(x + 1, blank_cell())
    } else {
        r1
    };
    let ch2 = c2 && r1[x + 1] != blank_cell();
    (r2, if c1 {
        x - 1
    } else {
        x
    }, if c2 {
        x + 1
    } else {
        x
    }, ch1 || ch2)
}

/// Writing `cell` at column `x` of `row`: the new row and whether it changed.
pub open spec fn replace_row(row: Seq<Cell>, x: int, cell: Cell) -> (Seq<Cell>, bool) {
    if 0 <= x < row.len() && row[x] != cell {
        (row.update(x, cell), true)
    } else {
        (row, false)
    }
}

/// The first `n` columns of `row` with spacers that follow no wide character
/// made blank, column by column from the left.
pub open spec fn drop_orphan_spacers(row: Seq<Cell>, n: nat) -> Seq<Cell>
    decreases n,
{
    if n == 0 {
        row
    } else {
        let r = drop_orphan_spacers(row, (n - 1) as nat);
        let x = n - 1;
        if x < r.len() && r[x].spacer && !(x > 0 && r[x - 1].wide) {
            r.update(x, blank_cell())
        } else {
            r
        }
    }
}

/// The first `n` columns of `row` with wide characters that have no spacer
/// after them made narrow, column by column from the left.
pub open spec fn drop_orphan_wides(row: Seq<Cell>, n: nat) -> Seq<Cell>
    decreases n,
{
    if n == 0 {
        row
    } else {
        let r = drop_orphan_wides(row, (n - 1) as nat);
        let x = n - 1;
        if x < r.len() && r[x].wide && !(x + 1 < r.len() && r[x + 1].spacer) {
            r.update(x, Cell { wide: false, ..r[x] })
        } else {
            r
        }
    }
}

/// `row` with every broken wide character repaired.
pub open spec fn sanitize_row_spec(row: Seq<Cell>) -> Seq<Cell> {
    drop_orphan_wides(drop_orphan_spacers(row, row.len()), row.len())
}

/// `row` with the cells from column `x` moved `n` columns right (`right`) or
/// left; vacated cells blank.
pub open spec fn shift_row(row: Seq<Cell>, x: int, n: int, right: bool) -> Seq<Cell> {
    Seq::new(
        row.len(),
        |i: int|
            if i < x {
                row[i]
            } else if right {
                if i - x < n {
                    blank_cell()
                } else {
                    row[i - n]
                }
            } else {
                if i + n < row.len() {
                    row[i + n]
                } else {
                    blank_cell()
                }
            },
    )
}

pub proof fn lemma_drop_orphan_spacers_len(row: Seq<Cell>, n: nat)
    ensures
        drop_orphan_spacers(row, n).len() == row.len(),
    decreases n,
{
    if n > 0 {
        lemma_drop_orphan_spacers_len(row, (n - 1) as nat);
    }
}

pub proof fn lemma_drop_orphan_wides_len(row: Seq<Cell>, n: nat)
    ensures
        drop_orphan_wides(row, n).len() == row.len(),
    decreases n,
{
    if n > 0 {
        lemma_drop_orphan_wides_len(row, (n - 1) as nat);
    }
}

/// Whether every wide character of `row` is followed by its spacer and every
/// spacer follows a wide character.
pub open spec fn row_sane(row: Seq<Cell>) -> bool {
    forall|x: int|
        0 <= x < row.len() ==> (#[trigger] row[x].wide ==> x + 1 < row.len() && row[x + 1].spacer)
            && (row[x].spacer ==> x > 0 && row[x - 1].wide)
}

/// Whether a cell is neither half of a wide character.
pub open spec fn is_plain(cell: Cell) -> bool {
    !cell.wide && !cell.spacer
}

proof fn lemma_spacer_pass(row: Seq<Cell>, n: nat)
    requires
        n <= row.len(),
    ensures
        drop_orphan_spacers(row, n).len() == row.len(),
        forall|x: int| n <= x < row.len() ==> #[trigger] drop_orphan_spacers(row, n)[x] == row[x],
        forall|x: int|
            0 <= x < n ==> #[trigger] drop_orphan_spacers(row, n)[x] == row[x] || (row[x].spacer
                && drop_orphan_spacers(row, n)[x] == blank_cell()),
        forall|x: int|
            0 <= x < n ==> (#[trigger] drop_orphan_spacers(row, n)[x].spacer ==> x > 0
                && drop_orphan_spacers(row, n)[x - 1].wide),
        row_sane(row) ==> drop_orphan_spacers(row, n) == row,
    decreases n,
{
    lemma_drop_orphan_spacers_len(row, n);
    if n > 0 {
        lemma_spacer_pass(row, (n - 1) as nat);
        let r = drop_orphan_spacers(row, (n - 1) as nat);
        let x = n - 1;
        if row_sane(row) {
            assert(r == row);
            assert(row[x].wide ==> x + 1 < row.len() && row[x + 1].spacer);
            assert(row[x].spacer ==> x > 0 && row[x - 1].wide);
        }
    }
}

proof fn lemma_wide_pass(row: Seq<Cell>, n: nat)
    requires
        n <= row.len(),
    ensures
        drop_orphan_wides(row, n).len() == row.len(),
        forall|x: int| n <= x < row.len() ==> #[trigger] drop_orphan_wides(row, n)[x] == row[x],
        forall|x: int|
            0 <= x < row.len() ==> #[trigger] drop_orphan_wides(row, n)[x] == row[x] || (row[x].wide
                && drop_orphan_wides(row, n)[x] == Cell { wide: false, ..row[x] }),
        forall|x: int|
            0 <= x < n ==> (#[trigger] drop_orphan_wides(row, n)[x].wide ==> x + 1 < row.len()
                && drop_orphan_wides(row, n)[x + 1].spacer),
        forall|x: int|
            0 <= x && x + 1 < row.len() && row[x].wide && #[trigger] row[x + 1].spacer
                ==> drop_orphan_wides(row, n)[x].wide,
        row_sane(row) ==> drop_orphan_wides(row, n) == row,
    decreases n,
{
    lemma_drop_orphan_wides_len(row, n);
    if n > 0 {
        lemma_wide_pass(row, (n - 1) as nat);
        let r = drop_orphan_wides(row, (n - 1) as nat);
        let x = n - 1;
        let w = drop_orphan_wides(row, n);
        assert forall|i: int| 0 <= i < row.len() implies #[trigger] w[i].spacer == row[i].spacer by {
            assert(r[i] == row[i] || r[i] == Cell { wide: false, ..row[i] });
        }
        if row_sane(row) {
            assert(r == row);
        }
    }
}

/// Mending a row leaves it sane, changes only halves of wide characters,
/// and leaves a row that is already sane as it is.
pub proof fn lemma_sanitize_row(row: Seq<Cell>)
    ensures
        row_sane(sanitize_row_spec(row)),
        sanitize_row_spec(row).len() == row.len(),
        forall|x: int|
            0 <= x < row.len() && is_plain(row[x]) ==> #[trigger] sanitize_row_spec(row)[x] == row[x],
        row_sane(row) ==> sanitize_row_spec(row) == row,
{
    let n = row.len();
    lemma_spacer_pass(row, n);
    let r = drop_orphan_spacers(row, n);
    lemma_wide_pass(r, n);
    let w = drop_orphan_wides(r, n);
    assert forall|x: int| 0 <= x < w.len() implies (#[trigger] w[x].wide ==> x + 1 < w.len()
        && w[x + 1].spacer) && (w[x].spacer ==> x > 0 && w[x - 1].wide) by {
        assert(w[x] == r[x] || w[x] == Cell { wide: false, ..r[x] });
        if w[x].spacer {
            assert(r[x].spacer);
            assert(x > 0 && r[x - 1].wide);
            assert(r[x - 1].wide && r[(x - 1) + 1].spacer);
        }
    }
    assert forall|x: int| 0 <= x < row.len() && is_plain(row[x]) implies #[trigger] sanitize_row_spec(row)[x]
        == row[x] by {
        assert(r[x] == row[x]);
        assert(w[x] == r[x]);
    }
}

/// Mending a row a second time changes nothing.
pub proof fn lemma_sanitize_idempotent(row: Seq<Cell>)
    ensures
        sanitize_row_spec(sanitize_row_spec(row)) == sanitize_row_spec(row),
{
    lemma_sanitize_row(row);
    lemma_sanitize_row(sanitize_row_spec(row));
}

/// Whether `row` keeps every wide character whole: each wide cell is
/// followed by its spacer, each spacer follows a wide cell, and no cell is
/// both.
pub open spec fn row_whole(row: Seq<Cell>) -> bool {
    &&& row_sane(row)
    &&& forall|x: int| 0 <= x < row.len() ==> !(#[trigger] row[x].wide && row[x].spacer)
}

/// What `row_whole` says of column `i`.
pub proof fn lemma_row_whole_at(row: Seq<Cell>, i: int)
    requires
        row_whole(row),
        0 <= i < row.len(),
    ensures
        row[i].wide ==> i + 1 < row.len() && row[i + 1].spacer,
        row[i].spacer ==> i > 0 && row[i - 1].wide,
        !(row[i].wide && row[i].spacer),
{
    assert(row[i].wide ==> i + 1 < row.len() && row[i + 1].spacer);
}

/// A row of blank cells keeps wide characters whole.
pub proof fn lemma_blank_cells_whole(row: Seq<Cell>)
    requires
        forall|x: int| 0 <= x < row.len() ==> #[trigger] row[x] == blank_cell(),
    ensures
        row_whole(row),
{
}

/// Mending a row that has no cell that is both halves keeps its wide
/// characters whole.
pub proof fn lemma_sanitize_whole(row: Seq<Cell>)
    requires
        forall|x: int| 0 <= x < row.len() ==> !(#[trigger] row[x].wide && row[x].spacer),
    ensures
        row_whole(sanitize_row_spec(row)),
{
    lemma_sanitize_row(row);
    let n = row.len();
    lemma_spacer_pass(row, n);
    let r = drop_orphan_spacers(row, n);
    lemma_wide_pass(r, n);
    let w = drop_orphan_wides(r, n);
    assert forall|x: int| 0 <= x < w.len() implies !(#[trigger] w[x].wide && w[x].spacer) by {
        assert(r[x] == row[x] || r[x] == blank_cell());
        assert(w[x] == r[x] || w[x] == Cell { wide: false, ..r[x] });
    }
}

/// Clearing a span keeps wide characters whole: a wide character that the
/// span cuts is cleared with it.
pub proof fn lemma_clear_range_whole(row: Seq<Cell>, s: int, e: int)
    requires
        row_whole(row),
        0 <= s,
        e <= row.len(),
    ensures
        row_whole(clear_range_row(row, s, e).0),
        clear_range_row(row, s, e).0.len() == row.len(),
{
    if s < e {
        let s2 = clear_start(row, s);
        let e2 = clear_end(row, e);
        let out = blank_span(row, s2, e2);
        assert forall|x: int| 0 <= x < out.len() implies (#[trigger] out[x].wide ==> x + 1 < out.len()
            && out[x + 1].spacer) && (out[x].spacer ==> x > 0 && out[x - 1].wide) by {
            if !(s2 <= x < e2) {
                assert(out[x] == row[x]);
                assert(row[x].wide ==> x + 1 < row.len() && row[x + 1].spacer);
                assert(row[x].spacer ==> x > 0 && row[x - 1].wide);
                if row[x].wide {
                    assert(!row[x].spacer);
                    if s2 <= x + 1 < e2 {
                        assert(x + 1 == s2);
                        assert(row[s].wide ==> s + 1 < row.len() && row[s + 1].spacer);
                        assert(row[s].spacer ==> s > 0 && row[s - 1].wide);
                        assert(!(row[s2].wide && row[s2].spacer));
                    }
                    assert(out[x + 1] == row[x + 1]);
                }
                if row[x].spacer {
                    if s2 <= x - 1 < e2 {
                        assert(x == e2);
                        assert(row[e].wide ==> e + 1 < row.len() && row[e + 1].spacer);
                        assert(row[e].spacer ==> e > 0 && row[e - 1].wide);
                        assert(!(row[x - 1].wide && row[x - 1].spacer));
                    }
                    assert(out[x - 1] == row[x - 1]);
                }
            }
        }
    }
}

/// Clears `s..e` of `row`, widened over cut wide characters; tells whether a
/// cell changed.
pub fn clear_range(row: &mut Vec<Cell>, s: usize, e: usize) -> (changed: bool)
    requires
        e <= old(row)@.len(),
    ensures
        (final(row)@, changed) == clear_range_row(old(row)@, s as int, e as int),
{
    if s >= e {
        return false;
    }
    let len = row.len();
    let start = if s > 0 && s < len && row[s].spacer {
        s - 1
    } else {
        s
    };
    let end = if e > 0 && e < len && row[e].spacer {
        e + 1
    } else {
        e
    };
    let ghost orig = row@;
    let mut changed = false;
    let mut i = start;
    while i < end
        invariant
            start <= i <= end,
            end <= len,
            len == orig.len(),
            row@ == blank_span(orig, start as int, i as int),
            changed == span_dirty(orig, start as int, i as int),
        decreases end - i,
    {
        if row[i] != Cell::default() {
            changed = true;
        }
        row.set(i, Cell::default());
        i = i + 1;
        assert(row@ =~= blank_span(orig, start as int, i as int));
    }
    changed
}

/// Makes column `x` of `row` writable by clearing a wide character that it
/// cuts in two.
pub fn clear_for_write(row: &mut Vec<Cell>, x: usize) -> (r: (usize, usize, bool))
    requires
        x < usize::MAX,
    ensures
        (final(row)@, r.0 as int, r.1 as int, r.2) == clear_for_write_row(old(row)@, x as int),
        final(row)@.len() == old(row)@.len(),
{
    let len = row.len();
    let mut start = x;
    let mut end = x;
    let mut changed = false;
    if x > 0 && x < len && row[x].spacer {
        if row[x - 1] != Cell::default() || row[x] != Cell::default() {
            changed = true;
        }
        row.set(x - 1, Cell::default());
        row.set(x, Cell::default());
        start = x - 1;
    }
    if x + 1 < len && row[x + 1].spacer {
        if row[x + 1] != Cell::default() {
            changed = true;
        }
        row.set(x + 1, Cell::default());
        end = x + 1;
    }
    (start, end, changed)
}

/// Writes `cell` at column `x`; tells whether that changed the row.
pub fn replace(row: &mut Vec<Cell>, x: usize, cell: Cell) -> (changed: bool)
    ensures
        (final(row)@, changed) == replace_row(old(row)@, x as int, cell),
{
    if x < row.len() && row[x] != cell {
        row.set(x, cell);
        true
    } else {
        false
    }
}

/// Repairs broken wide characters; tells whether that changed the row.
pub fn sanitize(row: &mut Vec<Cell>) -> (changed: bool)
    ensures
        final(row)@ == sanitize_row_spec(old(row)@),
        final(row)@.len() == old(row)@.len(),
        changed == (final(row)@ != old(row)@),
{
    let ghost orig = row@;
    let len = row.len();
    let mut changed = false;
    let mut x: usize = 0;
    while x < len
        invariant
            x <= len,
            len == orig.len(),
            row@.len() == len,
            row@ == drop_orphan_spacers(orig, x as nat),
            forall|i: int| x <= i < len ==> #[trigger] row@[i] == orig[i],
            forall|i: int| 0 <= i < len && row@[i] != orig[i] ==> #[trigger] row@[i] == blank_cell(),
            changed <==> exists|i: int| 0 <= i < x && #[trigger] row@[i] != orig[i],
        decreases len - x,
    {
        proof {
            lemma_drop_orphan_spacers_len(orig, x as nat);
        }
        if row[x].spacer && !(x > 0 && row[x - 1].wide) {
            row.set(x, Cell::default());
            changed = true;
            assert(row@[x as int] != orig[x as int]);
        }
        x = x + 1;
    }
    let ghost mid = row@;
    proof {
        lemma_drop_orphan_spacers_len(orig, len as nat);
    }
    let mut x: usize = 0;
    while x < len
        invariant
            x <= len,
            len == mid.len(),
            len == orig.len(),
            row@.len() == len,
            row@ == drop_orphan_wides(mid, x as nat),
            forall|i: int| x <= i < len ==> #[trigger] row@[i] == mid[i],
            forall|i: int| 0 <= i < len && mid[i] != orig[i] ==> #[trigger] mid[i] == blank_cell(),
            forall|i: int|
                0 <= i < len && #[trigger] row@[i] != orig[i] ==> (mid[i] != orig[i] || (
                !row@[i].wide && orig[i].wide)),
            forall|i: int| 0 <= i < len && mid[i] != orig[i] ==> #[trigger] row@[i] == mid[i],
            changed <==> (exists|i: int| 0 <= i < len && #[trigger] mid[i] != orig[i]) || (exists|
                i: int,
            | 0 <= i < x && #[trigger] row@[i] != mid[i]),
        decreases len - x,
    {
        proof {
            lemma_drop_orphan_wides_len(mid, x as nat);
        }
        if row[x].wide && !(x + 1 < len && row[x + 1].spacer) {
            let cell = row[x];
            row.set(x, Cell { wide: false, ..cell });
            changed = true;
            assert(row@[x as int] != mid[x as int]);
        }
        x = x + 1;
    }
    proof {
        if changed {
            if exists|i: int| 0 <= i < len && #[trigger] mid[i] != orig[i] {
                let i = choose|i: int| 0 <= i < len && #[trigger] mid[i] != orig[i];
                assert(row@[i] != orig[i]);
            } else {
                let i = choose|i: int| 0 <= i < x && #[trigger] row@[i] != mid[i];
                assert(mid[i] == orig[i]);
                assert(row@[i] != orig[i]);
            }
        } else {
            assert forall|i: int| 0 <= i < len implies row@[i] == orig[i] by {
                if row@[i] != orig[i] {
                    if mid[i] != orig[i] {
                    } else {
                        assert(row@[i] != mid[i]);
                    }
                }
            }
            assert(row@ =~= orig);
        }
    }
    changed
}

/// Moves the cells from column `x` by `n` columns (right or left), blanking
/// the vacated cells.
pub fn shift(row: &mut Vec<Cell>, x: usize, n: usize, right: bool)
    requires
        x <= old(row)@.len(),
        n <= old(row)@.len(),
    ensures
        final(row)@ == shift_row(old(row)@, x as int, n as int, right),
{
    let len = row.len();
    let mut out: Vec<Cell> = Vec::new();
    let mut i: usize = 0;
    while i < len
        invariant
            i <= len,
            len == row@.len(),
            x <= len,
            n <= len,
            out@.len() == i,
            forall|k: int| 0 <= k < i ==> #[trigger] out@[k] == shift_row(
                row@,
                x as int,
                n as int,
                right,
            )[k],
        decreases len - i,
    {
        let cell = if i < x {
            row[i]
        } else if right {
            if i - x < n {
                Cell::default()
            } else {
                row[i - n]
            }
        } else {
            if n < len - i {
                row[i + n]
            } else {
                Cell::default()
            }
        };
        out.push(cell);
        i = i + 1;
    }
    assert(out@ =~= shift_row(row@, x as int, n as int, right));
    *row = out;
}

/// Whether some cell of `s..e` is not blank.
pub fn any_dirty(row: &Vec<Cell>, s: usize, e: usize) -> (r: bool)
    requires
        e <= row@.len(),
    ensures
        r == span_dirty(row@, s as int, e as int),
{
    let mut i = s;
    while i < e
        invariant
            s <= i,
            e <= row@.len(),
            forall|k: int| s <= k < i && 0 <= k < row@.len() ==> row@[k] == blank_cell(),
        decreases e - i,
    {
        if row[i] != Cell::default() {
            return true;
        }
        i = i + 1;
    }
    false
}

} // verus!
