use termite_core::damage::{DamageRegion, DamageTracker, MAX_INCREMENTAL_REGIONS};

#[test]
fn ordinary_damage_is_preserved() {
    let mut damage = DamageTracker::default();
    damage.mark(DamageRegion::Cells {
        x: 4,
        y: 2,
        width: 3,
        height: 1,
    });
    damage.mark(DamageRegion::Cursor {
        old: Some((4, 2)),
        new: (5, 2),
    });

    assert_eq!(
        damage.drain(1).regions,
        vec![
            DamageRegion::Cells {
                x: 4,
                y: 2,
                width: 3,
                height: 1,
            },
            DamageRegion::Cursor {
                old: Some((4, 2)),
                new: (5, 2),
            },
        ]
    );
}

#[test]
fn viewport_damage_replaces_incremental_damage_on_drain() {
    let mut damage = DamageTracker::default();
    damage.mark(DamageRegion::Cells {
        x: 0,
        y: 0,
        width: 1,
        height: 1,
    });
    damage.mark(DamageRegion::Viewport);

    assert_eq!(damage.drain(1).regions, vec![DamageRegion::Viewport]);
}

#[test]
fn adjacent_scroll_damage_is_coalesced() {
    let mut damage = DamageTracker::default();
    damage.mark(DamageRegion::Scroll {
        top: 0,
        bottom: 9,
        count: 1,
        down: false,
    });
    damage.mark(DamageRegion::Scroll {
        top: 0,
        bottom: 9,
        count: 2,
        down: false,
    });

    assert_eq!(
        damage.drain(1).regions,
        vec![DamageRegion::Scroll {
            top: 0,
            bottom: 9,
            count: 3,
            down: false,
        }]
    );
}

#[test]
fn adjacent_cell_damage_is_coalesced_across_cursor_marks() {
    let mut damage = DamageTracker::default();
    damage.mark(DamageRegion::Cells {
        x: 0,
        y: 1,
        width: 1,
        height: 1,
    });
    damage.mark(DamageRegion::Cursor {
        old: Some((0, 1)),
        new: (1, 1),
    });
    damage.mark(DamageRegion::Cells {
        x: 1,
        y: 1,
        width: 1,
        height: 1,
    });
    damage.mark(DamageRegion::Cursor {
        old: Some((1, 1)),
        new: (2, 1),
    });

    assert_eq!(
        damage.drain(1).regions,
        vec![
            DamageRegion::Cells {
                x: 0,
                y: 1,
                width: 2,
                height: 1,
            },
            DamageRegion::Cursor {
                old: Some((0, 1)),
                new: (2, 1),
            },
        ]
    );
}

#[test]
fn excessive_incremental_damage_collapses_to_viewport() {
    let mut damage = DamageTracker::default();
    for y in 0..=MAX_INCREMENTAL_REGIONS as u16 {
        damage.mark(DamageRegion::Cells {
            x: 0,
            y,
            width: 1,
            height: 1,
        });
    }

    assert_eq!(damage.drain(1).regions, vec![DamageRegion::Viewport]);
}

#[test]
fn excessive_incremental_damage_stops_storing_more_regions() {
    let mut damage = DamageTracker::default();
    for y in 0..=MAX_INCREMENTAL_REGIONS as u16 + 10 {
        damage.mark(DamageRegion::Cells {
            x: 0,
            y,
            width: 1,
            height: 1,
        });
    }

    assert_eq!(damage.stored_region_count(), 0);
    assert_eq!(damage.drain(1).regions, vec![DamageRegion::Viewport]);
}

#[test]
fn drain_empties_the_tracker() {
    let mut damage = DamageTracker::new();
    damage.mark(DamageRegion::Cells {
        x: 1,
        y: 1,
        width: 2,
        height: 1,
    });
    assert!(!damage.is_empty());
    let batch = damage.drain(7);
    assert_eq!(batch.generation, 7);
    assert!(damage.is_empty());
    assert!(damage.drain(8).regions.is_empty());
}

#[test]
fn viewport_mark_absorbs_later_marks() {
    let mut damage = DamageTracker::new();
    damage.mark(DamageRegion::Viewport);
    damage.mark(DamageRegion::Cells {
        x: 0,
        y: 0,
        width: 1,
        height: 1,
    });
    damage.mark(DamageRegion::Scroll {
        top: 0,
        bottom: 3,
        count: 1,
        down: true,
    });
    assert_eq!(damage.drain(1).regions, vec![DamageRegion::Viewport]);
}

#[test]
fn marks_are_reported_until_drained() {
    let mut damage = DamageTracker::default();
    assert!(damage.is_empty());
    damage.mark(DamageRegion::Cells {
        x: 3,
        y: 1,
        width: 0,
        height: 1,
    });
    assert!(damage.is_empty());
    damage.mark(DamageRegion::Cursor {
        old: None,
        new: (0, 0),
    });
    assert!(!damage.is_empty());
    damage.mark(DamageRegion::Cells {
        x: 0,
        y: 0,
        width: 0,
        height: 0,
    });
    assert!(!damage.is_empty());
    assert_eq!(damage.drain(3).regions.len(), 1);
    assert!(damage.is_empty());
    assert!(damage.drain(4).regions.is_empty());
}
