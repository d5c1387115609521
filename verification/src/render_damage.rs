//! The bookkeeping of the renderer's frame cache: which rows of the cached
//! frame must be redrawn, which scrolls can be replayed by moving pixels,
//! and which rows and scrolls the texture still has to receive.
use vstd::prelude::*;

use crate::damage::{min16, sat_add16, sat_sub16, DamageBatch, DamageRegion};

verus! {

/// A scroll of rows `top..=bottom` by `count` rows (`down`, or up).
#[derive(Debug, Clone, Copy, PartialEq, Eq, Structural)]
pub struct ScrollDamage {
    pub top: u16,
    pub bottom: u16,
    pub count: u16,
    pub down: bool,
}

/// Rows `start..end`.
#[derive(Debug, Clone, Copy, PartialEq, Eq, Structural)]
pub struct RowBand {
    pub start: u16,
    pub end: u16,
}

/// What the texture must receive: the whole frame, or the scrolls to replay
/// and the bands of rows to copy.
#[derive(Debug, Default)]
pub struct TextureUpdate {
    pub full: bool,
    pub scrolls: Vec<ScrollDamage>,
    pub rows: Vec<RowBand>,
}

/// How to bring a scroll into the cached frame.
#[derive(Debug, Clone, Copy, PartialEq, Eq, Structural)]
pub enum ScrollStep {
    /// Nothing to do.
    Skip,
    /// The scroll moves every row of `top..=bottom` out: redraw them.
    Redraw { top: u16, bottom: u16 },
    /// Move the pixels of the rows `count` rows, then redraw the rows
    /// uncovered.
    Shift { top: u16, bottom: u16, count: u16, down: bool },
}

/// Abstract state of the bookkeeping.
#[verifier::ext_equal]
pub struct RowDamageState {
    pub dirty_rows: Seq<bool>,
    pub upload_rows: Seq<bool>,
    pub upload_full: bool,
    pub scrolls: Seq<ScrollDamage>,
    pub upload_scrolls: Seq<ScrollDamage>,
    pub dirty: bool,
}

/// Which rows of the cached frame and of the texture are out of date.
#[derive(Debug)]
pub struct RowDamage {
    dirty_rows: Vec<bool>,
    upload_rows: Vec<bool>,
    upload_full: bool,
    scrolls: Vec<ScrollDamage>,
    upload_scrolls: Vec<ScrollDamage>,
    dirty: bool,
}

impl View for RowDamage {
    type V = RowDamageState;

    closed spec fn view(&self) -> RowDamageState {
        RowDamageState {
            dirty_rows: self.dirty_rows@,
            upload_rows: self.upload_rows@,
            upload_full: self.upload_full,
            scrolls: self.scrolls@,
            upload_scrolls: self.upload_scrolls@,
            dirty: self.dirty,
        }
    }
}

/// `flags` with the entries `y` for `s <= y < e` (inside it) set.
pub open spec fn set_range(flags: Seq<bool>, s: int, e: int) -> Seq<bool> {
    Seq::new(flags.len(), |i: int| if s <= i < e { true } else { flags[i] })
}

/// The bookkeeping after one damage region, in a grid of `rows` rows: the
/// viewport redraws everything; a scroll joins the last one when it covers
/// the same rows the same way; cells mark their rows dirty.
pub open spec fn apply_region(s: RowDamageState, region: DamageRegion, rows: u16) -> RowDamageState {
    match region {
        DamageRegion::Viewport => RowDamageState { dirty: true, upload_full: true, ..s },
        DamageRegion::Scroll { top, bottom, count, down } => {
            if top <= bottom && count > 0 && rows > 0 {
                let b = min16(bottom, (rows - 1) as u16);
                if s.scrolls.len() > 0 && s.scrolls.last().top == top && s.scrolls.last().bottom == b
                    && s.scrolls.last().down == down {
                    let last = s.scrolls.last();
                    RowDamageState {
                        scrolls: s.scrolls.update(
                            s.scrolls.len() - 1,
                            ScrollDamage { count: sat_add16(last.count, count), ..last },
                        ),
                        ..s
                    }
                } else {
                    RowDamageState {
                        scrolls: s.scrolls.push(ScrollDamage { top, bottom: b, count, down }),
                        ..s
                    }
                }
            } else {
                s
            }
        },
        DamageRegion::Cells { y, height, .. } => RowDamageState {
            dirty_rows: set_range(s.dirty_rows, y as int, min16(sat_add16(y, height), rows) as int),
            ..s
        },
        DamageRegion::Cursor { .. } => s,
    }
}

/// The bookkeeping after the first `n` regions of `regions`.
pub open spec fn apply_regions(s: RowDamageState, regions: Seq<DamageRegion>, rows: u16, n: int) -> RowDamageState
    decreases n,
{
    if n <= 0 {
        s
    } else {
        apply_region(apply_regions(s, regions, rows, n - 1), regions[n - 1], rows)
    }
}

/// Where the run of set flags that starts at `y` ends (at most `limit`).
pub open spec fn run_end(flags: Seq<bool>, y: int, limit: int) -> int
    decreases limit - y,
{
    if y >= limit || !flags[y] {
        y
    } else {
        run_end(flags, y + 1, limit)
    }
}

/// The bands of set flags among `flags[y..limit]`, in order.
pub open spec fn bands_from(flags: Seq<bool>, y: int, limit: int) -> Seq<RowBand>
    decreases limit - y,
{
    if y >= limit {
        Seq::empty()
    } else if !flags[y] {
        bands_from(flags, y + 1, limit)
    } else {
        let e = run_end(flags, y, limit);
        if e <= y || e > limit {
            Seq::empty()
        } else {
            seq![RowBand { start: y as u16, end: e as u16 }] + bands_from(flags, e, limit)
        }
    }
}

proof fn lemma_run_end(flags: Seq<bool>, y: int, limit: int)
    requires
        0 <= y <= limit <= flags.len(),
    ensures
        y <= run_end(flags, y, limit) <= limit,
        forall|i: int| y <= i < run_end(flags, y, limit) ==> #[trigger] flags[i],
        run_end(flags, y, limit) < limit ==> !flags[run_end(flags, y, limit)],
        y < limit && flags[y] ==> y < run_end(flags, y, limit),
    decreases limit - y,
{
    if y < limit && flags[y] {
        lemma_run_end(flags, y + 1, limit);
    }
}

/// The step that brings `scroll` into a frame of `rows` rows: clamped to the
/// frame, a scroll by as many rows as it covers redraws them, a scroll by
/// fewer moves pixels.
pub open spec fn spec_scroll_step(scroll: ScrollDamage, rows: u16) -> ScrollStep {
    let top = min16(scroll.top, sat_sub16(rows, 1));
    let bottom = min16(scroll.bottom, sat_sub16(rows, 1));
    if top > bottom {
        ScrollStep::Skip
    } else {
        let row_count = bottom - top + 1;
        let count = if scroll.count < row_count {
            scroll.count as int
        } else {
            row_count
        };
        if count == 0 {
            ScrollStep::Skip
        } else if count >= row_count {
            ScrollStep::Redraw { top, bottom }
        } else {
            ScrollStep::Shift { top, bottom, count: count as u16, down: scroll.down }
        }
    }
}

/// The step that brings `scroll` into a frame of `rows` rows.
pub fn scroll_step(scroll: ScrollDamage, rows: u16) -> (r: ScrollStep)
    ensures
        r == spec_scroll_step(scroll, rows),
{
    let last = rows.saturating_sub(1);
    let top = if scroll.top < last {
        scroll.top
    } else {
        last
    };
    let bottom = if scroll.bottom < last {
        scroll.bottom
    } else {
        last
    };
    if top > bottom {
        return ScrollStep::Skip;
    }
    let row_count = bottom - top + 1;
    let count = if scroll.count < row_count {
        scroll.count
    } else {
        row_count
    };
    if count == 0 {
        ScrollStep::Skip
    } else if count >= row_count {
        ScrollStep::Redraw { top, bottom }
    } else {
        ScrollStep::Shift { top, bottom, count, down: scroll.down }
    }
}

/// The rows a shift leaves uncovered: the first `count` rows of the region
/// for a scroll down, the last `count` for a scroll up.
pub fn uncovered_rows(top: u16, bottom: u16, count: u16, down: bool) -> (r: RowBand)
    requires
        top <= bottom < u16::MAX,
        count <= bottom - top + 1,
    ensures
        down ==> r == (RowBand { start: top, end: (top + count) as u16 }),
        !down ==> r == (RowBand { start: (bottom + 1 - count) as u16, end: (bottom + 1) as u16 }),
{
    if down {
        RowBand { start: top, end: top + count }
    } else {
        RowBand { start: bottom + 1 - count, end: bottom + 1 }
    }
}

fn falses(n: usize) -> (r: Vec<bool>)
    ensures
        r@ == Seq::new(n as nat, |i: int| false),
{
    let mut v: Vec<bool> = Vec::new();
    let mut i: usize = 0;
    while i < n
        invariant
            i <= n,
            v@ == Seq::new(i as nat, |k: int| false),
        decreases n - i,
    {
        v.push(false);
        i = i + 1;
        assert(v@ =~= Seq::new(i as nat, |k: int| false));
    }
    v
}

/// `flags` cut or filled with `value` to `n` entries.
fn resize_flags(flags: &mut Vec<bool>, n: usize, value: bool)
    ensures
        final(flags)@ == Seq::new(
            n as nat,
            |i: int| if i < old(flags)@.len() { old(flags)@[i] } else { value },
        ),
{
    while flags.len() > n
        invariant
            flags@.len() >= (if old(flags)@.len() < n {
                old(flags)@.len()
            } else {
                n as nat
            }),
            forall|i: int| 0 <= i < flags@.len() ==> flags@[i] == old(flags)@[i],
            flags@.len() <= old(flags)@.len(),
        decreases flags@.len(),
    {
        flags.pop();
    }
    let ghost kept = flags@;
    while flags.len() < n
        invariant
            flags@.len() <= n,
            kept.len() <= flags@.len(),
            forall|i: int| 0 <= i < kept.len() ==> flags@[i] == kept[i],
            forall|i: int| kept.len() <= i < flags@.len() ==> flags@[i] == value,
            forall|i: int| 0 <= i < kept.len() ==> kept[i] == old(flags)@[i],
            kept.len() == (if old(flags)@.len() < n {
                old(flags)@.len()
            } else {
                n as nat
            }),
        decreases n - flags@.len(),
    {
        flags.push(value);
    }
    assert(flags@ =~= Seq::new(
        n as nat,
        |i: int| if i < old(flags)@.len() { old(flags)@[i] } else { value },
    ));
}

/// Sets every entry of `flags` to `value`.
fn fill_flags(flags: &mut Vec<bool>, value: bool)
    ensures
        final(flags)@ == Seq::new(old(flags)@.len(), |i: int| value),
{
    let mut i: usize = 0;
    while i < flags.len()
        invariant
            i <= flags@.len(),
            flags@.len() == old(flags)@.len(),
            forall|k: int| 0 <= k < i ==> flags@[k] == value,
        decreases flags@.len() - i,
    {
        flags.set(i, value);
        i = i + 1;
    }
    assert(flags@ =~= Seq::new(old(flags)@.len(), |i: int| value));
}

impl RowDamage {
    /// Bookkeeping for a frame not drawn yet: all of it must be drawn and
    /// sent.
    pub fn new() -> (r: Self)
        ensures
            r@ == (RowDamageState {
                dirty_rows: Seq::empty(),
                upload_rows: Seq::empty(),
                upload_full: true,
                scrolls: Seq::empty(),
                upload_scrolls: Seq::empty(),
                dirty: true,
            }),
    {
        RowDamage {
            dirty_rows: Vec::new(),
            upload_rows: Vec::new(),
            upload_full: true,
            scrolls: Vec::new(),
            upload_scrolls: Vec::new(),
            dirty: true,
        }
    }

    /// Bookkeeping for a frame of `rows` rows to be drawn from scratch.
    pub fn resize(&mut self, rows: u16)
        ensures
            final(self)@ == (RowDamageState {
                dirty_rows: Seq::new(rows as nat, |i: int| false),
                upload_rows: Seq::new(rows as nat, |i: int| false),
                upload_full: true,
                scrolls: Seq::empty(),
                upload_scrolls: Seq::empty(),
                dirty: true,
            }),
    {
        self.dirty_rows = falses(rows as usize);
        self.upload_rows = falses(rows as usize);
        self.scrolls = Vec::new();
        self.upload_scrolls = Vec::new();
        self.dirty = true;
        self.upload_full = true;
    }

    /// Everything must be drawn and sent again.
    pub fn invalidate(&mut self)
        ensures
            final(self)@ == (RowDamageState { dirty: true, upload_full: true, ..old(self)@ }),
    {
        self.dirty = true;
        self.upload_full = true;
    }

    /// Whether the frame must be drawn from scratch.
    pub fn is_dirty(&self) -> (r: bool)
        ensures
            r == self@.dirty,
    {
        self.dirty
    }

    /// Records the damage of a batch, for a grid of `rows` rows.
    pub fn apply_damage(&mut self, damage: &DamageBatch, rows: u16)
        ensures
            final(self)@ == apply_regions(old(self)@, damage.regions@, rows, damage.regions@.len() as int),
    {
        let mut i: usize = 0;
        while i < damage.regions.len()
            invariant
                i <= damage.regions@.len(),
                self@ == apply_regions(old(self)@, damage.regions@, rows, i as int),
            decreases damage.regions@.len() - i,
        {
            let ghost before = self@;
            match damage.regions[i] {
                DamageRegion::Viewport => {
                    self.invalidate();
                },
                DamageRegion::Scroll { top, bottom, count, down } => {
                    if top <= bottom && count > 0 && rows > 0 {
                        let b = if bottom < rows - 1 {
                            bottom
                        } else {
                            rows - 1
                        };
                        let n = self.scrolls.len();
                        if n > 0 && self.scrolls[n - 1].top == top && self.scrolls[n - 1].bottom == b
                            && self.scrolls[n - 1].down == down {
                            let mut last = self.scrolls[n - 1];
                            last.count = last.count.saturating_add(count);
                            self.scrolls.set(n - 1, last);
                        } else {
                            self.scrolls.push(ScrollDamage { top, bottom: b, count, down });
                        }
                    }
                },
                DamageRegion::Cells { y, height, .. } => {
                    let s = y.saturating_add(height);
                    let end = if s < rows {
                        s
                    } else {
                        rows
                    };
                    let mut row = y;
                    while row < end
                        invariant
                            y <= row,
                            row <= end || row == y,
                            self@ == (RowDamageState {
                                dirty_rows: set_range(before.dirty_rows, y as int, row as int),
                                ..before
                            }),
                        decreases end - row,
                    {
                        if (row as usize) < self.dirty_rows.len() {
                            self.dirty_rows.set(row as usize, true);
                        }
                        row = row + 1;
                        assert(self.dirty_rows@ =~= set_range(before.dirty_rows, y as int, row as int));
                    }
                    assert(self.dirty_rows@ =~= set_range(before.dirty_rows, y as int, end as int));
                },
                DamageRegion::Cursor { .. } => {},
            }
            i = i + 1;
            assert(self@ =~= apply_regions(old(self)@, damage.regions@, rows, i as int));
        }
    }

    /// Fits the bookkeeping to `rows` rows: new rows are dirty, and a change
    /// of size redraws and sends everything.
    pub fn ensure_rows(&mut self, rows: u16)
        ensures
            final(self)@.dirty_rows == Seq::new(
                rows as nat,
                |i: int| if i < old(self)@.dirty_rows.len() { old(self)@.dirty_rows[i] } else { true },
            ),
            final(self)@.upload_rows == Seq::new(
                rows as nat,
                |i: int| if i < old(self)@.upload_rows.len() { old(self)@.upload_rows[i] } else { false },
            ),
            final(self)@.dirty == (old(self)@.dirty || old(self)@.dirty_rows.len() != rows),
            final(self)@.upload_full == (old(self)@.upload_full || old(self)@.dirty_rows.len() != rows
                || old(self)@.upload_rows.len() != rows),
            final(self)@.scrolls == old(self)@.scrolls,
            final(self)@.upload_scrolls == old(self)@.upload_scrolls,
    {
        if self.dirty_rows.len() != rows as usize {
            resize_flags(&mut self.dirty_rows, rows as usize, true);
            self.dirty = true;
            self.upload_full = true;
        } else {
            assert(self.dirty_rows@ =~= Seq::new(
                rows as nat,
                |i: int| if i < self.dirty_rows@.len() { self.dirty_rows@[i] } else { true },
            ));
        }
        if self.upload_rows.len() != rows as usize {
            resize_flags(&mut self.upload_rows, rows as usize, false);
            self.upload_full = true;
        } else {
            assert(self.upload_rows@ =~= Seq::new(
                rows as nat,
                |i: int| if i < self.upload_rows@.len() { self.upload_rows@[i] } else { false },
            ));
        }
    }

    /// After the frame was drawn from scratch: nothing is dirty, no scroll
    /// is pending, and the whole frame is to be sent.
    pub fn mark_redrawn(&mut self)
        ensures
            final(self)@ == (RowDamageState {
                dirty_rows: Seq::new(old(self)@.dirty_rows.len(), |i: int| false),
                upload_rows: Seq::new(old(self)@.upload_rows.len(), |i: int| false),
                upload_full: true,
                scrolls: Seq::empty(),
                upload_scrolls: Seq::empty(),
                dirty: false,
            }),
    {
        fill_flags(&mut self.dirty_rows, false);
        fill_flags(&mut self.upload_rows, false);
        self.dirty = false;
        self.scrolls = Vec::new();
        self.upload_scrolls = Vec::new();
        self.upload_full = true;
    }

    /// Hands out the scrolls to replay on the cached frame.
    pub fn take_scrolls(&mut self) -> (r: Vec<ScrollDamage>)
        ensures
            r@ == old(self)@.scrolls,
            final(self)@ == (RowDamageState { scrolls: Seq::empty(), ..old(self)@ }),
    {
        let mut scrolls: Vec<ScrollDamage> = Vec::new();
        std::mem::swap(&mut scrolls, &mut self.scrolls);
        scrolls
    }

    /// Records that row `y` of the frame was redrawn: it is clean, and the
    /// texture has to receive it.
    pub fn mark_row_redrawn(&mut self, y: u16)
        ensures
            final(self)@ == (RowDamageState {
                dirty_rows: if (y as int) < old(self)@.dirty_rows.len() {
                    old(self)@.dirty_rows.update(y as int, false)
                } else {
                    old(self)@.dirty_rows
                },
                upload_rows: if (y as int) < old(self)@.upload_rows.len() {
                    old(self)@.upload_rows.update(y as int, true)
                } else {
                    old(self)@.upload_rows
                },
                ..old(self)@
            }),
    {
        if (y as usize) < self.dirty_rows.len() {
            self.dirty_rows.set(y as usize, false);
        }
        if (y as usize) < self.upload_rows.len() {
            self.upload_rows.set(y as usize, true);
        }
    }

    /// Records a scroll that was replayed on the frame, for the texture to
    /// replay too.
    pub fn push_upload_scroll(&mut self, scroll: ScrollDamage)
        ensures
            final(self)@ == (RowDamageState {
                upload_scrolls: old(self)@.upload_scrolls.push(scroll),
                ..old(self)@
            }),
    {
        self.upload_scrolls.push(scroll);
    }

    /// Whether row `y` of the frame must be redrawn.
    pub fn is_row_dirty(&self, y: u16) -> (r: bool)
        ensures
            r == ((y as int) < self@.dirty_rows.len() && self@.dirty_rows[y as int]),
    {
        (y as usize) < self.dirty_rows.len() && self.dirty_rows[y as usize]
    }

    /// Hands out what the texture must receive for a frame of `rows` rows:
    /// everything when the frame was drawn from scratch, else the replayed
    /// scrolls and the bands of rows redrawn since; and forgets it.
    pub fn take_texture_update(&mut self, rows: u16) -> (r: TextureUpdate)
        ensures
            old(self)@.upload_full ==> r.full && r.scrolls@.len() == 0 && r.rows@.len() == 0
                && final(self)@ == (RowDamageState {
                upload_full: false,
                upload_rows: Seq::new(old(self)@.upload_rows.len(), |i: int| false),
                upload_scrolls: Seq::empty(),
                ..old(self)@
            }),
            !old(self)@.upload_full ==> {
                let limit = if (rows as int) < old(self)@.upload_rows.len() {
                    rows as int
                } else {
                    old(self)@.upload_rows.len() as int
                };
                &&& !r.full
                &&& r.scrolls@ == old(self)@.upload_scrolls
                &&& r.rows@ == bands_from(old(self)@.upload_rows, 0, limit)
                &&& final(self)@ == (RowDamageState {
                    upload_rows: Seq::new(
                        old(self)@.upload_rows.len(),
                        |i: int| if i < limit { false } else { old(self)@.upload_rows[i] },
                    ),
                    upload_scrolls: Seq::empty(),
                    ..old(self)@
                })
            },
    {
        if self.upload_full {
            self.upload_full = false;
            fill_flags(&mut self.upload_rows, false);
            self.upload_scrolls = Vec::new();
            return TextureUpdate { full: true, scrolls: Vec::new(), rows: Vec::new() };
        }
        let ghost flags = self.upload_rows@;
        let mut scrolls: Vec<ScrollDamage> = Vec::new();
        std::mem::swap(&mut scrolls, &mut self.upload_scrolls);
        let limit: usize = if (rows as usize) < self.upload_rows.len() {
            rows as usize
        } else {
            self.upload_rows.len()
        };
        let mut bands: Vec<RowBand> = Vec::new();
        let mut y: usize = 0;
        while y < limit
            invariant
                y <= limit,
                limit <= flags.len(),
                limit <= u16::MAX,
                self.dirty_rows@ == old(self)@.dirty_rows,
                self.scrolls@ == old(self)@.scrolls,
                self.upload_scrolls@ == Seq::<ScrollDamage>::empty(),
                self.dirty == old(self)@.dirty,
                self.upload_full == old(self)@.upload_full,
                self.upload_rows@.len() == flags.len(),
                forall|i: int| 0 <= i < y ==> !#[trigger] self.upload_rows@[i],
                forall|i: int| y <= i < flags.len() ==> #[trigger] self.upload_rows@[i] == flags[i],
                bands@ + bands_from(flags, y as int, limit as int) == bands_from(flags, 0, limit as int),
            decreases limit - y,
        {
            if !self.upload_rows[y] {
                y = y + 1;
                continue;
            }
            proof {
                lemma_run_end(flags, y as int, limit as int);
            }
            let start = y;
            while y < limit && self.upload_rows[y]
                invariant
                    start <= y <= limit,
                    limit <= flags.len(),
                    self.dirty_rows@ == old(self)@.dirty_rows,
                    self.scrolls@ == old(self)@.scrolls,
                    self.upload_scrolls@ == Seq::<ScrollDamage>::empty(),
                    self.dirty == old(self)@.dirty,
                    self.upload_full == old(self)@.upload_full,
                    self.upload_rows@.len() == flags.len(),
                    forall|i: int| 0 <= i < y ==> !#[trigger] self.upload_rows@[i],
                    forall|i: int| y <= i < flags.len() ==> #[trigger] self.upload_rows@[i] == flags[i],
                    forall|i: int| start <= i < y ==> #[trigger] flags[i],
                    run_end(flags, start as int, limit as int) == run_end(flags, y as int, limit as int),
                decreases limit - y,
            {
                self.upload_rows.set(y, false);
                y = y + 1;
            }
            proof {
                lemma_run_end(flags, y as int, limit as int);
                assert(run_end(flags, y as int, limit as int) == y);
            }
            let ghost before = bands@;
            bands.push(RowBand { start: start as u16, end: y as u16 });
            proof {
                assert(bands@ + bands_from(flags, y as int, limit as int) =~= before + (seq![
                    RowBand { start: start as u16, end: y as u16 },
                ] + bands_from(flags, y as int, limit as int)));
            }
        }
        proof {
            assert(bands@ + bands_from(flags, limit as int, limit as int) =~= bands@);
            assert(self.upload_rows@ =~= Seq::new(
                flags.len(),
                |i: int| if i < limit { false } else { flags[i] },
            ));
        }
        TextureUpdate { full: false, scrolls, rows: bands }
    }
}

/// A move of texture pixel rows: `height` rows from `source_y` to
/// `destination_y`.
#[derive(Debug, Clone, Copy, PartialEq, Eq, Structural)]
pub struct TextureCopy {
    pub source_y: u32,
    pub destination_y: u32,
    pub height: u32,
}

/// The cell rows a scroll spans, as the texture counts them.
pub open spec fn scroll_span(scroll: ScrollDamage) -> u16 {
    sat_add16(sat_sub16(scroll.bottom, scroll.top), 1)
}

/// The rows a scroll moves (not those it moves out).
pub open spec fn scroll_kept_rows(scroll: ScrollDamage) -> int {
    scroll_span(scroll) - min16(scroll.count, scroll_span(scroll))
}

/// Whether the pixel rows of a scroll's texture copy fit in `u32`, for cells
/// `cell_height` pixels tall.
pub open spec fn scroll_copy_fits(scroll: ScrollDamage, cell_height: u32) -> bool {
    scroll_kept_rows(scroll) > 0 ==> {
        &&& (scroll.top + min16(scroll.count, scroll_span(scroll))) * cell_height <= u32::MAX
        &&& scroll_kept_rows(scroll) * cell_height <= u32::MAX
    }
}

/// The texture copy that replays `scroll` for cells `cell_height` pixels
/// tall: the rows it keeps move by its count, down or up; none when it
/// keeps no row.
pub open spec fn spec_scroll_copy(scroll: ScrollDamage, cell_height: u32) -> Option<TextureCopy> {
    let count = min16(scroll.count, scroll_span(scroll));
    let kept = scroll_kept_rows(scroll);
    if kept == 0 {
        None
    } else {
        let top_px = scroll.top * cell_height;
        let moved_px = (scroll.top + count) * cell_height;
        Some(
            TextureCopy {
                source_y: (if scroll.down {
                    top_px
                } else {
                    moved_px
                }) as u32,
                destination_y: (if scroll.down {
                    moved_px
                } else {
                    top_px
                }) as u32,
                height: (kept * cell_height) as u32,
            },
        )
    }
}

/// The texture copy that replays `scroll`; see `spec_scroll_copy`.
pub fn scroll_copy(scroll: ScrollDamage, cell_height: u32) -> (r: Option<TextureCopy>)
    requires
        scroll_copy_fits(scroll, cell_height),
    ensures
        r == spec_scroll_copy(scroll, cell_height),
{
    let rows = scroll.bottom.saturating_sub(scroll.top).saturating_add(1);
    let count = if scroll.count < rows {
        scroll.count
    } else {
        rows
    };
    let copy_rows = rows - count;
    if copy_rows == 0 {
        return None;
    }
    let top = scroll.top as u32;
    let moved = count as u32;
    let kept = copy_rows as u32;
    proof {
        let ch = cell_height as int;
        assert(top * ch <= (top + moved) * ch) by (nonlinear_arith)
            requires
                ch >= 0,
                moved >= 0,
        ;
        assert((top + moved) * ch == top * ch + moved * ch) by (nonlinear_arith);
    }
    let top_px = top * cell_height;
    let count_px = moved * cell_height;
    let copy_height = kept * cell_height;
    let source_y = if scroll.down {
        top_px
    } else {
        top_px + count_px
    };
    let destination_y = if scroll.down {
        top_px + count_px
    } else {
        top_px
    };
    Some(TextureCopy { source_y, destination_y, height: copy_height })
}

/// The texture copies that replay `scrolls`, in order, skipping those that
/// keep no row.
pub open spec fn spec_scroll_copies(scrolls: Seq<ScrollDamage>, cell_height: u32) -> Seq<TextureCopy>
    decreases scrolls.len(),
{
    if scrolls.len() == 0 {
        Seq::empty()
    } else {
        let before = spec_scroll_copies(scrolls.drop_last(), cell_height);
        match spec_scroll_copy(scrolls.last(), cell_height) {
            Some(copy) => before.push(copy),
            None => before,
        }
    }
}

/// The texture copies that replay `scrolls`; see `spec_scroll_copies`.
pub fn scrolled_row_copies(scrolls: &[ScrollDamage], cell_height: u32) -> (r: Vec<TextureCopy>)
    requires
        forall|i: int| 0 <= i < scrolls@.len() ==> scroll_copy_fits(#[trigger] scrolls@[i], cell_height),
    ensures
        r@ == spec_scroll_copies(scrolls@, cell_height),
{
    let mut copies: Vec<TextureCopy> = Vec::new();
    let mut i: usize = 0;
    while i < scrolls.len()
        invariant
            i <= scrolls@.len(),
            forall|k: int| 0 <= k < scrolls@.len() ==> scroll_copy_fits(#[trigger] scrolls@[k], cell_height),
            copies@ == spec_scroll_copies(scrolls@.subrange(0, i as int), cell_height),
        decreases scrolls@.len() - i,
    {
        let scroll = scrolls[i];
        proof {
            let next = scrolls@.subrange(0, i as int + 1);
            assert(next.drop_last() =~= scrolls@.subrange(0, i as int));
            assert(next.last() == scroll);
        }
        match scroll_copy(scroll, cell_height) {
            Some(copy) => copies.push(copy),
            None => {},
        }
        i = i + 1;
    }
    assert(scrolls@.subrange(0, scrolls@.len() as int) =~= scrolls@);
    copies
}

/// A write of frame bytes into the texture: pixel rows from `y`, `height`
/// tall, taken from bytes `start..start + len` of the frame.
#[derive(Debug, Clone, Copy, PartialEq, Eq, Structural)]
pub struct TextureWrite {
    pub y: u32,
    pub height: u32,
    pub start: usize,
    pub len: usize,
}

/// Whether the pixel rows and frame bytes of a band's write fit in their
/// integers, for cells `cell_height` pixels tall in a texture
/// `texture_width` pixels wide.
pub open spec fn band_write_fits(band: RowBand, cell_height: u32, texture_width: u32) -> bool {
    let rows = sat_sub16(band.end, band.start);
    &&& texture_width * 4 <= usize::MAX
    &&& rows > 0 && cell_height > 0 ==> {
        &&& (band.start + rows) * cell_height <= u32::MAX
        &&& (band.start + rows) * cell_height * (texture_width * 4) <= usize::MAX
    }
}

/// The write that uploads the rows of `band` from a frame of `frame_len`
/// bytes: none when the band is empty or its bytes lie past the frame's end.
pub open spec fn spec_band_write(band: RowBand, cell_height: u32, texture_width: u32, frame_len: nat) -> Option<
    TextureWrite,
> {
    let row_bytes = texture_width * 4;
    let start_px = band.start * cell_height;
    let height_px = sat_sub16(band.end, band.start) * cell_height;
    let start = start_px * row_bytes;
    let len = height_px * row_bytes;
    if height_px == 0 || start + len > frame_len {
        None
    } else {
        Some(TextureWrite { y: start_px as u32, height: height_px as u32, start: start as usize, len: len as usize })
    }
}

/// The write that uploads `band`; see `spec_band_write`.
pub fn band_write(band: RowBand, cell_height: u32, texture_width: u32, frame_len: usize) -> (r: Option<
    TextureWrite,
>)
    requires
        band_write_fits(band, cell_height, texture_width),
    ensures
        r == spec_band_write(band, cell_height, texture_width, frame_len as nat),
{
    let row_bytes = texture_width as usize * 4;
    let rows = band.end.saturating_sub(band.start) as u32;
    if rows == 0 || cell_height == 0 {
        proof {
            assert(rows * cell_height == 0) by (nonlinear_arith)
                requires
                    rows == 0 || cell_height == 0,
            ;
        }
        return None;
    }
    let start_row = band.start as u32;
    proof {
        let ch = cell_height as int;
        let rb = row_bytes as int;
        assert((start_row + rows) * ch == start_row * ch + rows * ch) by (nonlinear_arith);
        assert(start_row * ch >= 0 && rows * ch >= 0) by (nonlinear_arith)
            requires
                ch >= 0,
        ;
        assert((start_row * ch + rows * ch) * rb == start_row * ch * rb + rows * ch * rb) by (nonlinear_arith);
        assert(start_row * ch * rb >= 0 && rows * ch * rb >= 0) by (nonlinear_arith)
            requires
                ch >= 0,
                rb >= 0,
        ;
        assert(rows * ch > 0) by (nonlinear_arith)
            requires
                rows > 0,
                ch > 0,
        ;
    }
    let start_px = start_row * cell_height;
    let height_px = rows * cell_height;
    let start = start_px as usize * row_bytes;
    let len = height_px as usize * row_bytes;
    if start + len > frame_len {
        return None;
    }
    Some(TextureWrite { y: start_px, height: height_px, start, len })
}

/// The writes that upload `bands` from a frame of `frame_len` bytes, in
/// order, skipping those that `spec_band_write` skips.
pub open spec fn spec_band_writes(bands: Seq<RowBand>, cell_height: u32, texture_width: u32, frame_len: nat) -> Seq<
    TextureWrite,
>
    decreases bands.len(),
{
    if bands.len() == 0 {
        Seq::empty()
    } else {
        let before = spec_band_writes(bands.drop_last(), cell_height, texture_width, frame_len);
        match spec_band_write(bands.last(), cell_height, texture_width, frame_len) {
            Some(write) => before.push(write),
            None => before,
        }
    }
}

/// The writes that upload `bands`; see `spec_band_writes`.
pub fn row_band_writes(bands: &[RowBand], cell_height: u32, texture_width: u32, frame_len: usize) -> (r: Vec<
    TextureWrite,
>)
    requires
        forall|i: int| 0 <= i < bands@.len() ==> band_write_fits(#[trigger] bands@[i], cell_height, texture_width),
    ensures
        r@ == spec_band_writes(bands@, cell_height, texture_width, frame_len as nat),
{
    let mut writes: Vec<TextureWrite> = Vec::new();
    let mut i: usize = 0;
    while i < bands.len()
        invariant
            i <= bands@.len(),
            forall|k: int| 0 <= k < bands@.len() ==> band_write_fits(#[trigger] bands@[k], cell_height, texture_width),
            writes@ == spec_band_writes(bands@.subrange(0, i as int), cell_height, texture_width, frame_len as nat),
        decreases bands@.len() - i,
    {
        let band = bands[i];
        proof {
            let next = bands@.subrange(0, i as int + 1);
            assert(next.drop_last() =~= bands@.subrange(0, i as int));
            assert(next.last() == band);
        }
        match band_write(band, cell_height, texture_width, frame_len) {
            Some(write) => writes.push(write),
            None => {},
        }
        i = i + 1;
    }
    assert(bands@.subrange(0, bands@.len() as int) =~= bands@);
    writes
}

/// How the cached frame of a scrollback view catches up with a new view.
#[derive(Debug, Clone, Copy, PartialEq, Eq, Structural)]
pub enum ScrollbackRedraw {
    /// The frame already shows the view: nothing to do.
    Nothing,
    /// Clear the frame and draw every row of the view.
    All,
    /// Move the frame's rows up by `distance` rows, then draw the rows
    /// uncovered at the bottom.
    ShiftUp { distance: usize },
    /// Move the frame's rows down by `distance` rows, then draw the rows
    /// uncovered at the top.
    ShiftDown { distance: usize },
}

/// What a scrollback view draws: the first history row it shows, how the
/// frame catches up, and the rows `rows.0..rows.1` of the view to draw.
#[derive(Debug, Clone, Copy, PartialEq, Eq)]
pub struct ScrollbackUpdate {
    pub start: usize,
    pub redraw: ScrollbackRedraw,
    pub rows: (usize, usize),
}

/// The first row (counted in history and screen together) of a view
/// `scroll_offset` rows back, over `history_len` rows of history.
pub open spec fn view_start(history_len: nat, scroll_offset: nat) -> nat {
    if scroll_offset < history_len {
        (history_len - scroll_offset) as nat
    } else {
        0
    }
}

/// How a frame that showed the view from `previous` (none yet, or `dirty`
/// when out of date) catches up with the view from `start`, `height` rows
/// tall.
pub open spec fn spec_scrollback_redraw(previous: Option<usize>, dirty: bool, start: nat, height: nat) -> ScrollbackRedraw {
    match previous {
        None => ScrollbackRedraw::All,
        Some(p) => if dirty {
            ScrollbackRedraw::All
        } else if p == start {
            ScrollbackRedraw::Nothing
        } else if p < start {
            if start - p >= height {
                ScrollbackRedraw::All
            } else {
                ScrollbackRedraw::ShiftUp { distance: (start - p) as usize }
            }
        } else {
            if p - start >= height {
                ScrollbackRedraw::All
            } else {
                ScrollbackRedraw::ShiftDown { distance: (p - start) as usize }
            }
        },
    }
}

/// The rows of a view `height` rows tall that `redraw` draws.
pub open spec fn redrawn_rows(redraw: ScrollbackRedraw, height: nat) -> (int, int) {
    match redraw {
        ScrollbackRedraw::Nothing => (0, 0),
        ScrollbackRedraw::All => (0, height as int),
        ScrollbackRedraw::ShiftUp { distance } => (height - distance, height as int),
        ScrollbackRedraw::ShiftDown { distance } => (0, distance as int),
    }
}

/// What the view `scroll_offset` rows back into `history_len` rows of
/// history, `height` rows tall, draws after a frame that showed the view
/// from `previous` (`dirty` when out of date).
pub fn scrollback_update(
    history_len: usize,
    height: u16,
    scroll_offset: usize,
    previous: Option<usize>,
    dirty: bool,
) -> (r: ScrollbackUpdate)
    requires
        history_len + height <= usize::MAX,
    ensures
        r.start == view_start(history_len as nat, scroll_offset as nat),
        r.redraw == spec_scrollback_redraw(previous, dirty, r.start as nat, height as nat),
        (r.rows.0 as int, r.rows.1 as int) == redrawn_rows(r.redraw, height as nat),
        r.rows.0 <= r.rows.1 <= height,
{
    let rows = height as usize;
    let total_rows = history_len + rows;
    let back = if scroll_offset < history_len {
        scroll_offset
    } else {
        history_len
    };
    let start = total_rows - rows - back;
    let redraw = match previous {
        None => ScrollbackRedraw::All,
        Some(p) => if dirty {
            ScrollbackRedraw::All
        } else if p == start {
            ScrollbackRedraw::Nothing
        } else if p < start {
            if start - p >= rows {
                ScrollbackRedraw::All
            } else {
                ScrollbackRedraw::ShiftUp { distance: start - p }
            }
        } else {
            if p - start >= rows {
                ScrollbackRedraw::All
            } else {
                ScrollbackRedraw::ShiftDown { distance: p - start }
            }
        },
    };
    let redrawn = match redraw {
        ScrollbackRedraw::Nothing => (0, 0),
        ScrollbackRedraw::All => (0, rows),
        ScrollbackRedraw::ShiftUp { distance } => (rows - distance, rows),
        ScrollbackRedraw::ShiftDown { distance } => (0, distance),
    };
    ScrollbackUpdate { start, redraw, rows: redrawn }
}

} // verus!
