use termite_core::damage::{DamageBatch, DamageRegion};
use termite_core::parser::{ActionSeq, ActionPerformer, ParserAction, ByteSeq, ParserAdapter};
use termite_core::plugins_api::{ClipRect, DrawCommand, DrawPhase, SubscriptionMask};
use termite_core::plugins_host::{HostedPlugin, PluginHost, PluginRegistration};
use termite_core::render_damage::{
    band_write, row_band_writes, scroll_copy, scroll_step, scrolled_row_copies, uncovered_rows, RowBand,
    scrollback_update, RowDamage, ScrollDamage, ScrollStep, ScrollbackRedraw, TextureCopy, TextureWrite,
};
use termite_core::renderer::{FramePolicy, FrameReason, RenderSnapshot, Renderer};
use termite_core::terminal::TerminalCore;

/// A parser for the tests: vte splits the bytes into sequences and the
/// library's action performer turns them into actions. Test inputs hold
/// whole sequences, so the fast paths may always run.
struct VteParser {
    parser: vte::Parser,
    performer: ActionPerformer,
}

struct Forward<'a> {
    performer: &'a mut ActionPerformer,
}

impl vte::Perform for Forward<'_> {
    fn print(&mut self, c: char) {
        self.performer.print(c);
    }

    fn execute(&mut self, byte: u8) {
        self.performer.execute(byte);
    }

    fn csi_dispatch(&mut self, params: &vte::Params, intermediates: &[u8], ignore: bool, action: char) {
        let params: Vec<Vec<u16>> = params.iter().map(|param| param.to_vec()).collect();
        self.performer.csi_dispatch(&params, intermediates, ignore, action);
    }

    fn esc_dispatch(&mut self, intermediates: &[u8], ignore: bool, byte: u8) {
        self.performer.esc_dispatch(intermediates, ignore, byte);
    }

    fn osc_dispatch(&mut self, params: &[&[u8]], _bell_terminated: bool) {
        let params: Vec<Vec<u8>> = params.iter().map(|param| param.to_vec()).collect();
        self.performer.osc_dispatch(&params);
    }
}

impl ParserAdapter for VteParser {
    fn parse(&mut self, input: &[u8], actions: &mut Vec<ParserAction>) {
        let mut forward = Forward {
            performer: &mut self.performer,
        };
        self.parser.advance(&mut forward, input);
        actions.append(&mut self.performer.actions);
    }

    fn can_process_ascii_fast_path(&self) -> bool {
        true
    }

    fn fast_path_ok(&self) -> bool {
        true
    }

    // The library's proofs speak of what a parse makes of some input; the
    // program never asks for it when it runs.
    fn parsed(&self, _input: ByteSeq) -> ActionSeq {
        unreachable!()
    }

    fn after_parse(&self, _input: ByteSeq) -> Self {
        unreachable!()
    }
}

fn new_terminal(width: u16, height: u16) -> TerminalCore<VteParser> {
    TerminalCore::with_parser(
        width,
        height,
        VteParser {
            parser: vte::Parser::new(),
            performer: ActionPerformer::new(),
        },
    )
}


struct NoopPlugin;

impl HostedPlugin for NoopPlugin {}

#[test]
fn renderer_remains_event_driven_without_frame_plugins() {
    let mut renderer = Renderer::new(800, 600);
    let host = PluginHost::new();

    renderer.sync_policy(&host);

    assert_eq!(renderer.policy(), FramePolicy::EventDriven);
}

#[test]
fn renderer_enters_adaptive_mode_for_frame_plugins() {
    let mut renderer = Renderer::new(800, 600);
    let mut host = PluginHost::new();
    host.register(
        PluginRegistration::new(
            "animator",
            SubscriptionMask::none(),
            vec![DrawPhase::AboveText],
            Box::new(NoopPlugin),
        )
        .with_frame_callbacks(),
    )
    .unwrap();

    renderer.sync_policy(&host);

    assert_eq!(renderer.policy(), FramePolicy::AdaptiveContinuous);
}

#[test]
fn damage_updates_glyph_atlas() {
    let mut terminal = new_terminal(5, 1);
    let tick = terminal.process_pty_input(b"abc");
    let mut renderer = Renderer::new(800, 600);
    let mut host = PluginHost::new();

    let frame = renderer
        .render(terminal.grid(), &tick.damage, FrameReason::Damage, &mut host)
        .unwrap()
        .unwrap();

    assert_eq!(frame.snapshot_generation, terminal.grid().generation());
    assert_eq!(renderer.atlas().glyph_count(), 3);
}

#[test]
fn idle_animation_frames_are_skipped_on_events_only() {
    let terminal = new_terminal(4, 2);
    let mut renderer = Renderer::new(40, 20);
    let mut host = PluginHost::new();
    let empty = DamageBatch {
        generation: 0,
        regions: Vec::new(),
    };
    assert_eq!(
        renderer.render(terminal.grid(), &empty, FrameReason::PluginAnimation, &mut host),
        Ok(None)
    );
    assert_eq!(renderer.frames_drawn(), 0);
    let frame = renderer
        .render(terminal.grid(), &empty, FrameReason::Exposed, &mut host)
        .unwrap()
        .unwrap();
    let viewport = ClipRect {
        x: 0,
        y: 0,
        width: 40,
        height: 20,
    };
    assert_eq!(frame.frame_index, 1);
    assert_eq!(frame.plugin_draws, 0);
    assert_eq!(
        frame.commands,
        vec![DrawCommand::SetClip(viewport), DrawCommand::DrawQuad { clip: viewport }]
    );
    assert_eq!(renderer.atlas().glyph_count(), 0);
    renderer.set_viewport_size(80, 30);
    let frame = renderer
        .render(terminal.grid(), &empty, FrameReason::Resize, &mut host)
        .unwrap()
        .unwrap();
    assert_eq!(frame.frame_index, 2);
    assert_eq!(
        frame.commands[0],
        DrawCommand::SetClip(ClipRect {
            x: 0,
            y: 0,
            width: 80,
            height: 30
        })
    );
}

#[test]
fn snapshot_records_grid_size_and_generation() {
    let terminal = new_terminal(7, 3);
    let snapshot = RenderSnapshot::from_grid(terminal.grid());
    assert_eq!(snapshot.grid_width, 7);
    assert_eq!(snapshot.grid_height, 3);
    assert_eq!(snapshot.generation, terminal.grid().generation());
}

#[test]
fn row_damage_coalesces_scrolls_and_marks_rows() {
    let mut damage = RowDamage::new();
    damage.resize(4);
    let _ = damage.take_texture_update(4);
    damage.mark_redrawn();
    let _ = damage.take_texture_update(4);
    damage.apply_damage(
        &DamageBatch {
            generation: 1,
            regions: vec![
                DamageRegion::Scroll {
                    top: 0,
                    bottom: 9,
                    count: 1,
                    down: false,
                },
                DamageRegion::Scroll {
                    top: 0,
                    bottom: 7,
                    count: 2,
                    down: false,
                },
                DamageRegion::Cells {
                    x: 0,
                    y: 2,
                    width: 3,
                    height: 5,
                },
            ],
        },
        4,
    );
    assert!(damage.is_row_dirty(2));
    assert!(damage.is_row_dirty(3));
    assert!(!damage.is_row_dirty(1));
    assert_eq!(
        damage.take_scrolls(),
        vec![ScrollDamage {
            top: 0,
            bottom: 3,
            count: 3,
            down: false
        }]
    );
}

#[test]
fn texture_updates_group_redrawn_rows_into_bands() {
    let mut damage = RowDamage::new();
    damage.resize(6);
    let first = damage.take_texture_update(6);
    assert!(first.full);
    damage.mark_redrawn();
    let _ = damage.take_texture_update(6);
    damage.mark_row_redrawn(0);
    damage.mark_row_redrawn(1);
    damage.mark_row_redrawn(4);
    damage.push_upload_scroll(ScrollDamage {
        top: 0,
        bottom: 5,
        count: 1,
        down: true,
    });
    let update = damage.take_texture_update(6);
    assert!(!update.full);
    assert_eq!(
        update.rows,
        vec![RowBand { start: 0, end: 2 }, RowBand { start: 4, end: 5 }]
    );
    assert_eq!(update.scrolls.len(), 1);
    let again = damage.take_texture_update(6);
    assert!(again.rows.is_empty());
    assert!(again.scrolls.is_empty());
}

#[test]
fn scroll_steps_clamp_to_the_frame() {
    let scroll = ScrollDamage {
        top: 1,
        bottom: 20,
        count: 2,
        down: false,
    };
    assert_eq!(
        scroll_step(scroll, 5),
        ScrollStep::Shift {
            top: 1,
            bottom: 4,
            count: 2,
            down: false
        }
    );
    assert_eq!(
        scroll_step(ScrollDamage { count: 9, ..scroll }, 5),
        ScrollStep::Redraw { top: 1, bottom: 4 }
    );
    assert_eq!(scroll_step(ScrollDamage { top: 6, bottom: 2, ..scroll }, 5), ScrollStep::Skip);
    assert_eq!(uncovered_rows(1, 4, 2, false), RowBand { start: 3, end: 5 });
    assert_eq!(uncovered_rows(1, 4, 2, true), RowBand { start: 1, end: 3 });
}

#[test]
fn scroll_copy_moves_the_kept_rows_by_the_count() {
    let up = ScrollDamage { top: 2, bottom: 5, count: 1, down: false };
    let down = ScrollDamage { down: true, ..up };

    assert_eq!(
        scroll_copy(up, 10),
        Some(TextureCopy { source_y: 30, destination_y: 20, height: 30 })
    );
    assert_eq!(
        scroll_copy(down, 10),
        Some(TextureCopy { source_y: 20, destination_y: 30, height: 30 })
    );
}

#[test]
fn scroll_copy_skips_a_scroll_that_moves_every_row_out() {
    let scroll = ScrollDamage { top: 0, bottom: 3, count: 4, down: false };

    assert_eq!(scroll_copy(scroll, 16), None);
    assert!(scrolled_row_copies(&[scroll], 16).is_empty());
}

#[test]
fn scrolled_row_copies_keep_the_order_of_the_scrolls() {
    let scrolls = [
        ScrollDamage { top: 0, bottom: 1, count: 2, down: false },
        ScrollDamage { top: 0, bottom: 2, count: 1, down: true },
        ScrollDamage { top: 1, bottom: 3, count: 1, down: false },
    ];

    let copies = scrolled_row_copies(&scrolls, 4);

    assert_eq!(
        copies,
        vec![
            TextureCopy { source_y: 0, destination_y: 4, height: 8 },
            TextureCopy { source_y: 8, destination_y: 4, height: 8 },
        ]
    );
}

#[test]
fn band_write_takes_the_band_bytes_of_the_frame() {
    let band = RowBand { start: 1, end: 3 };

    assert_eq!(
        band_write(band, 10, 2, 240),
        Some(TextureWrite { y: 10, height: 20, start: 80, len: 160 })
    );
    assert_eq!(band_write(band, 10, 2, 200), None);
    assert_eq!(band_write(RowBand { start: 3, end: 3 }, 10, 2, 240), None);
}

#[test]
fn row_band_writes_skip_empty_and_out_of_frame_bands() {
    let bands = [
        RowBand { start: 0, end: 1 },
        RowBand { start: 2, end: 2 },
        RowBand { start: 1, end: 4 },
        RowBand { start: 2, end: 3 },
    ];

    let writes = row_band_writes(&bands, 2, 1, 24);

    assert_eq!(
        writes,
        vec![
            TextureWrite { y: 0, height: 2, start: 0, len: 8 },
            TextureWrite { y: 4, height: 2, start: 16, len: 8 },
        ]
    );
}

#[test]
fn scrollback_update_starts_the_view_back_in_history() {
    assert_eq!(scrollback_update(10, 4, 0, None, false).start, 10);
    assert_eq!(scrollback_update(10, 4, 3, None, false).start, 7);
    assert_eq!(scrollback_update(10, 4, 20, None, false).start, 0);
}

#[test]
fn scrollback_update_moves_rows_for_short_scrolls() {
    let back = scrollback_update(10, 4, 3, Some(10), false);
    assert_eq!(back.redraw, ScrollbackRedraw::ShiftDown { distance: 3 });
    assert_eq!(back.rows, (0, 3));

    let forward = scrollback_update(10, 4, 0, Some(7), false);
    assert_eq!(forward.redraw, ScrollbackRedraw::ShiftUp { distance: 3 });
    assert_eq!(forward.rows, (1, 4));
}

#[test]
fn scrollback_update_redraws_everything_when_needed() {
    assert_eq!(scrollback_update(10, 4, 0, None, false).redraw, ScrollbackRedraw::All);
    assert_eq!(scrollback_update(10, 4, 10, Some(10), false).redraw, ScrollbackRedraw::All);
    assert_eq!(scrollback_update(10, 4, 0, Some(10), true).rows, (0, 4));
}

#[test]
fn scrollback_update_draws_nothing_for_the_same_view() {
    let same = scrollback_update(10, 4, 2, Some(8), false);
    assert_eq!(same.redraw, ScrollbackRedraw::Nothing);
    assert_eq!(same.rows, (0, 0));
}
