//! Damage tracking: which parts of the screen changed since the last drain.
//!
//! Marks are coalesced where they touch the previous mark, the cursor damage
//! of a batch is kept as one pending region, and a tracker that receives too
//! many marks gives up and reports the whole viewport instead.
use vstd::prelude::*;

verus! {

/// Generation counter of a grid.
pub type Generation = u64;

/// Past this many stored regions (or marks) the tracker reports the viewport.
pub const MAX_INCREMENTAL_REGIONS: usize = 128;

#[derive(Debug, Clone, Copy, PartialEq, Eq)]
pub enum DamageRegion {
    Cells { x: u16, y: u16, width: u16, height: u16 },
    Cursor { old: Option<(u16, u16)>, new: (u16, u16) },
    Scroll { top: u16, bottom: u16, count: u16, down: bool },
    Viewport,
}

#[derive(Debug, Clone, PartialEq, Eq)]
pub struct DamageBatch {
    pub generation: Generation,
    pub regions: Vec<DamageRegion>,
}

impl DamageBatch {
    pub fn is_empty(&self) -> (r: bool)
        ensures
            r == (self.regions@.len() == 0),
    {
        self.regions.len() == 0
    }
}

/// Abstract state of a tracker.
#[verifier::ext_equal]
pub struct DamageState {
    pub regions: Seq<DamageRegion>,
    pub pending_cursor: Option<DamageRegion>,
    pub marks: nat,
    pub viewport: bool,
}

#[derive(Debug)]
pub struct DamageTracker {
    regions: Vec<DamageRegion>,
    pending_cursor: Option<DamageRegion>,
    marks: usize,
    viewport: bool,
}

impl View for DamageTracker {
    type V = DamageState;

    closed spec fn view(&self) -> DamageState {
        DamageState {
            regions: self.regions@,
            pending_cursor: self.pending_cursor,
            marks: self.marks as nat,
            viewport: self.viewport,
        }
    }
}

/// `a + b`, saturated at `u16::MAX`.
pub open spec fn sat_add16(a: u16, b: u16) -> u16 {
    if a + b > u16::MAX {
        u16::MAX
    } else {
        (a + b) as u16
    }
}

/// `a - b`, saturated at zero.
pub open spec fn sat_sub16(a: u16, b: u16) -> u16 {
    if a >= b {
        (a - b) as u16
    } else {
        0
    }
}

pub open spec fn min16(a: u16, b: u16) -> u16 {
    if a <= b {
        a
    } else {
        b
    }
}

pub open spec fn max16(a: u16, b: u16) -> u16 {
    if a >= b {
        a
    } else {
        b
    }
}

/// A tracker state is well formed when it stores at most
/// `MAX_INCREMENTAL_REGIONS` regions and marks, holds nothing besides the
/// flag once it has collapsed to the viewport, and its pending region is
/// cursor damage.
pub open spec fn state_wf(s: DamageState) -> bool {
    &&& s.regions.len() <= MAX_INCREMENTAL_REGIONS
    &&& s.marks <= MAX_INCREMENTAL_REGIONS
    &&& s.viewport ==> (s.regions.len() == 0 && s.pending_cursor is None && s.marks == 0)
    &&& (s.pending_cursor matches Some(c) ==> c is Cursor)
}

/// The empty tracker.
pub open spec fn empty_state() -> DamageState {
    DamageState { regions: Seq::empty(), pending_cursor: None, marks: 0, viewport: false }
}

/// A tracker that reports the whole viewport.
pub open spec fn collapsed_state() -> DamageState {
    DamageState { regions: Seq::empty(), pending_cursor: None, marks: 0, viewport: true }
}

/// Pushes a region and collapses when that leaves too many stored.
pub open spec fn push_region(s: DamageState, region: DamageRegion) -> DamageState {
    if s.regions.len() + 1 > MAX_INCREMENTAL_REGIONS {
        collapsed_state()
    } else {
        DamageState { regions: s.regions.push(region), ..s }
    }
}

/// Whether a cell mark at `(x, y, width, height)` joins the stored region `last`.
pub open spec fn cells_join(last: DamageRegion, x: u16, y: u16, width: u16, height: u16) -> bool {
    match last {
        DamageRegion::Cells { x: ex, y: ey, width: ew, height: eh } => {
            &&& ey == y
            &&& eh == height
            &&& x <= sat_add16(ex, ew)
            &&& ex <= sat_add16(x, width)
        },
        _ => false,
    }
}

/// The region that a joining cell mark turns `last` into.
pub open spec fn cells_joined(last: DamageRegion, x: u16, width: u16) -> DamageRegion {
    match last {
        DamageRegion::Cells { x: ex, y: ey, width: ew, height: eh } => {
            let start = min16(ex, x);
            let end = max16(sat_add16(ex, ew), sat_add16(x, width));
            DamageRegion::Cells { x: start, y: ey, width: sat_sub16(end, start), height: eh }
        },
        _ => last,
    }
}

pub open spec fn mark_cells_state(s: DamageState, x: u16, y: u16, width: u16, height: u16) -> DamageState {
    if width == 0 || height == 0 {
        s
    } else if s.regions.len() > 0 && cells_join(s.regions.last(), x, y, width, height) {
        DamageState {
            regions: s.regions.update(
                s.regions.len() - 1,
                cells_joined(s.regions.last(), x, width),
            ),
            ..s
        }
    } else {
        push_region(s, DamageRegion::Cells { x, y, width, height })
    }
}

pub open spec fn mark_cursor_state(s: DamageState, old: Option<(u16, u16)>, new: (u16, u16)) -> DamageState {
    let pending = match s.pending_cursor {
        Some(DamageRegion::Cursor { old: existing_old, new: _ }) => DamageRegion::Cursor {
            old: if existing_old is None { old } else { existing_old },
            new,
        },
        _ => DamageRegion::Cursor { old, new },
    };
    DamageState { pending_cursor: Some(pending), ..s }
}

pub open spec fn scroll_join(last: DamageRegion, top: u16, bottom: u16, down: bool) -> bool {
    match last {
        DamageRegion::Scroll { top: et, bottom: eb, count: _, down: ed } => et == top && eb
            == bottom && ed == down,
        _ => false,
    }
}

pub open spec fn mark_scroll_state(s: DamageState, top: u16, bottom: u16, count: u16, down: bool) -> DamageState {
    if s.regions.len() > 0 && scroll_join(s.regions.last(), top, bottom, down) {
        let last = s.regions.last();
        let joined = match last {
            DamageRegion::Scroll { top: et, bottom: eb, count: ec, down: ed } => DamageRegion::Scroll {
                top: et,
                bottom: eb,
                count: sat_add16(ec, count),
                down: ed,
            },
            _ => last,
        };
        DamageState { regions: s.regions.update(s.regions.len() - 1, joined), ..s }
    } else {
        push_region(s, DamageRegion::Scroll { top, bottom, count, down })
    }
}

/// What marking `region` does to a tracker in state `s`.
pub open spec fn mark_state(s: DamageState, region: DamageRegion) -> DamageState {
    if s.viewport {
        s
    } else if region is Viewport {
        collapsed_state()
    } else if s.marks + 1 > MAX_INCREMENTAL_REGIONS {
        collapsed_state()
    } else {
        let counted = DamageState { marks: s.marks + 1, ..s };
        match region {
            DamageRegion::Cells { x, y, width, height } => mark_cells_state(
                counted,
                x,
                y,
                width,
                height,
            ),
            DamageRegion::Cursor { old, new } => mark_cursor_state(counted, old, new),
            DamageRegion::Scroll { top, bottom, count, down } => mark_scroll_state(
                counted,
                top,
                bottom,
                count,
                down,
            ),
            DamageRegion::Viewport => collapsed_state(),
        }
    }
}

/// The regions that a drain of a tracker in state `s` reports.
pub open spec fn drained_regions(s: DamageState) -> Seq<DamageRegion> {
    if s.viewport {
        seq![DamageRegion::Viewport]
    } else {
        match s.pending_cursor {
            Some(c) => s.regions.push(c),
            None => s.regions,
        }
    }
}

/// Whether a tracker in state `s` has nothing to report.
pub open spec fn state_is_empty(s: DamageState) -> bool {
    !s.viewport && s.regions.len() == 0 && s.pending_cursor is None
}

/// Marking each of `regions` in turn, from state `s`.
pub open spec fn mark_all(s: DamageState, regions: Seq<DamageRegion>) -> DamageState
    decreases regions.len(),
{
    if regions.len() == 0 {
        s
    } else {
        mark_state(mark_all(s, regions.drop_last()), regions.last())
    }
}

/// Whether a mark names at least one cell, cursor or scroll.
pub open spec fn is_substantial(region: DamageRegion) -> bool {
    match region {
        DamageRegion::Cells { width, height, .. } => width > 0 && height > 0,
        _ => true,
    }
}

/// Viewport damage absorbs all other damage: once the viewport has been
/// marked, whatever is marked after it, a drain reports the viewport alone.
pub proof fn lemma_viewport_absorbs(s: DamageState, regions: Seq<DamageRegion>)
    ensures
        mark_all(mark_state(s, DamageRegion::Viewport), regions).viewport,
        drained_regions(mark_all(mark_state(s, DamageRegion::Viewport), regions)) == seq![
            DamageRegion::Viewport,
        ],
    decreases regions.len(),
{
    if regions.len() > 0 {
        lemma_viewport_absorbs(s, regions.drop_last());
    }
}

/// Marking keeps a tracker well formed: it never stores more than
/// `MAX_INCREMENTAL_REGIONS` regions, whatever is marked.
pub proof fn lemma_mark_all_wf(s: DamageState, regions: Seq<DamageRegion>)
    requires
        state_wf(s),
    ensures
        state_wf(mark_all(s, regions)),
    decreases regions.len(),
{
    if regions.len() > 0 {
        lemma_mark_all_wf(s, regions.drop_last());
    }
}

/// No damage is lost: a tracker with something to report keeps it through
/// any further marks, and a mark that names something is reported.
pub proof fn lemma_marks_are_reported(s: DamageState, regions: Seq<DamageRegion>)
    requires
        state_wf(s),
    ensures
        !state_is_empty(s) ==> !state_is_empty(mark_all(s, regions)),
        (exists|i: int| 0 <= i < regions.len() && is_substantial(#[trigger] regions[i]))
            ==> !state_is_empty(mark_all(s, regions)),
        state_is_empty(mark_all(s, regions)) <==> drained_regions(mark_all(s, regions)).len() == 0,
    decreases regions.len(),
{
    if regions.len() > 0 {
        let prefix = regions.drop_last();
        lemma_marks_are_reported(s, prefix);
        lemma_mark_all_wf(s, prefix);
        if exists|i: int| 0 <= i < regions.len() && is_substantial(#[trigger] regions[i]) {
            let i = choose|i: int| 0 <= i < regions.len() && is_substantial(#[trigger] regions[i]);
            if i < prefix.len() {
                assert(is_substantial(prefix[i]));
            }
        }
    }
    lemma_mark_all_wf(s, regions);
}

fn sat_add_u16(a: u16, b: u16) -> (r: u16)
    ensures
        r == sat_add16(a, b),
{
    a.saturating_add(b)
}

impl DamageTracker {
    pub closed spec fn wf(&self) -> bool {
        state_wf(self@)
    }

    pub fn new() -> (r: Self)
        ensures
            r.wf(),
            r@ == empty_state(),
    {
        DamageTracker { regions: Vec::new(), pending_cursor: None, marks: 0, viewport: false }
    }

    /// Records `region`.
    pub fn mark(&mut self, region: DamageRegion)
        requires
            old(self).wf(),
        ensures
            final(self).wf(),
            final(self)@ == mark_state(old(self)@, region),
    {
        if self.viewport {
            return;
        }
        if let DamageRegion::Viewport = region {
            self.collapse_to_viewport();
            return;
        }
        self.marks = self.marks + 1;
        if self.marks > MAX_INCREMENTAL_REGIONS {
            self.collapse_to_viewport();
            return;
        }
        match region {
            DamageRegion::Cells { x, y, width, height } => self.mark_cells(x, y, width, height),
            DamageRegion::Cursor { old, new } => self.mark_cursor(old, new),
            DamageRegion::Scroll { top, bottom, count, down } => self.mark_scroll(
                top,
                bottom,
                count,
                down,
            ),
            DamageRegion::Viewport => self.collapse_to_viewport(),
        }
    }

    /// How many regions the tracker holds apart from a pending cursor move.
    pub fn stored_region_count(&self) -> (r: usize)
        ensures
            r == self@.regions.len(),
    {
        self.regions.len()
    }

    /// Hands out everything recorded so far and empties the tracker.
    pub fn drain(&mut self, generation: Generation) -> (batch: DamageBatch)
        requires
            old(self).wf(),
        ensures
            final(self).wf(),
            final(self)@ == empty_state(),
            batch.generation == generation,
            batch.regions@ == drained_regions(old(self)@),
    {
        let regions = if self.viewport {
            self.regions = Vec::new();
            self.pending_cursor = None;
            self.marks = 0;
            self.viewport = false;
            vec![DamageRegion::Viewport]
        } else {
            let mut regions = Vec::new();
            std::mem::swap(&mut regions, &mut self.regions);
            let pending = self.pending_cursor.take();
            if let Some(cursor) = pending {
                regions.push(cursor);
            }
            self.marks = 0;
            regions
        };
        DamageBatch { generation, regions }
    }

    pub fn is_empty(&self) -> (r: bool)
        ensures
            r == state_is_empty(self@),
    {
        !self.viewport && self.regions.len() == 0 && self.pending_cursor.is_none()
    }

    fn mark_cells(&mut self, x: u16, y: u16, width: u16, height: u16)
        requires
            old(self).wf(),
            !old(self).viewport,
        ensures
            final(self).wf(),
            final(self)@ == mark_cells_state(old(self)@, x, y, width, height),
    {
        if width == 0 || height == 0 {
            return;
        }
        let len = self.regions.len();
        if len > 0 {
            let last = self.regions[len - 1];
            if let DamageRegion::Cells {
                x: existing_x,
                y: existing_y,
                width: existing_width,
                height: existing_height,
            } = last {
                if existing_y == y && existing_height == height {
                    let existing_end = sat_add_u16(existing_x, existing_width);
                    let new_end = sat_add_u16(x, width);
                    let start = if existing_x <= x {
                        existing_x
                    } else {
                        x
                    };
                    let end = if existing_end >= new_end {
                        existing_end
                    } else {
                        new_end
                    };
                    if x <= existing_end && existing_x <= new_end {
                        self.regions.set(
                            len - 1,
                            DamageRegion::Cells {
                                x: start,
                                y: existing_y,
                                width: end.saturating_sub(start),
                                height: existing_height,
                            },
                        );
                        return;
                    }
                }
            }
        }
        self.regions.push(DamageRegion::Cells { x, y, width, height });
        self.collapse_if_excessive();
    }

    fn mark_cursor(&mut self, previous: Option<(u16, u16)>, new: (u16, u16))
        requires
            old(self).wf(),
            !old(self).viewport,
        ensures
            final(self).wf(),
            final(self)@ == mark_cursor_state(old(self)@, previous, new),
    {
        let pending = match self.pending_cursor {
            Some(DamageRegion::Cursor { old: existing_old, new: _ }) => DamageRegion::Cursor {
                old: if existing_old.is_none() {
                    previous
                } else {
                    existing_old
                },
                new,
            },
            _ => DamageRegion::Cursor { old: previous, new },
        };
        self.pending_cursor = Some(pending);
    }

    fn mark_scroll(&mut self, top: u16, bottom: u16, count: u16, down: bool)
        requires
            old(self).wf(),
            !old(self).viewport,
        ensures
            final(self).wf(),
            final(self)@ == mark_scroll_state(old(self)@, top, bottom, count, down),
    {
        let len = self.regions.len();
        if len > 0 {
            let last = self.regions[len - 1];
            if let DamageRegion::Scroll {
                top: existing_top,
                bottom: existing_bottom,
                count: existing_count,
                down: existing_down,
            } = last {
                if existing_top == top && existing_bottom == bottom && existing_down == down {
                    self.regions.set(
                        len - 1,
                        DamageRegion::Scroll {
                            top: existing_top,
                            bottom: existing_bottom,
                            count: existing_count.saturating_add(count),
                            down: existing_down,
                        },
                    );
                    return;
                }
            }
        }
        self.regions.push(DamageRegion::Scroll { top, bottom, count, down });
        self.collapse_if_excessive();
    }

    fn collapse_if_excessive(&mut self)
        requires
            old(self).regions@.len() <= MAX_INCREMENTAL_REGIONS + 1,
            old(self).marks <= MAX_INCREMENTAL_REGIONS,
            !old(self).viewport,
            old(self).pending_cursor matches Some(c) ==> c is Cursor,
        ensures
            final(self).wf(),
            old(self).regions@.len() > MAX_INCREMENTAL_REGIONS ==> final(self)@ == collapsed_state(),
            old(self).regions@.len() <= MAX_INCREMENTAL_REGIONS ==> final(self)@ == old(self)@,
    {
        if self.regions.len() > MAX_INCREMENTAL_REGIONS {
            self.collapse_to_viewport();
        }
    }

    fn collapse_to_viewport(&mut self)
        ensures
            final(self).wf(),
            final(self)@ == collapsed_state(),
    {
        self.regions = Vec::new();
        self.pending_cursor = None;
        self.marks = 0;
        self.viewport = true;
    }
}

impl Default for DamageTracker {
    fn default() -> (r: Self)
        ensures
            r.wf(),
            r@ == empty_state(),
    {
        DamageTracker::new()
    }
}

} // verus!
