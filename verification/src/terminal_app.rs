//! The application's decisions: what each action does to the terminal, the
//! plugins and the renderer, and which frame it draws.
use vstd::prelude::*;

use crate::damage::{drained_regions, DamageBatch};
use crate::event::{CoreEvent, KeyPress};
use crate::parser::ParserAdapter;
use crate::plugins_api::ClipRect;
use crate::plugins_host::{plugin_event_of, receiving_count, PluginHost, PluginHostError, PluginHostView};
use crate::renderer::{
    frame_draw_count, frame_wanted, policy_for, FramePolicy, FrameReason, RenderFrame, Renderer,
};
use crate::terminal::{
    new_terminal_state, pty_input_state, pty_parser_after, resized_state, tick_state, TerminalCore, TerminalState,
};

verus! {

/// What the application is asked to do.
#[derive(Debug, Clone, PartialEq, Eq)]
pub enum AppAction {
    PtyBytes(Vec<u8>),
    KeyPress(KeyPress),
    ResizeCells { width: u16, height: u16 },
    ResizePixels { width: u32, height: u32 },
    Exposed,
    CursorBlink,
    PluginAnimationFrame,
}

/// The number of damaged regions a pending batch holds; none without one.
pub open spec fn pending_len(pending: Option<DamageBatch>) -> nat {
    match pending {
        Some(batch) => batch.regions@.len(),
        None => 0,
    }
}

/// What a call of `Renderer::render` shows its caller, for plugins `plugins`,
/// `damage_len` damaged regions, `reason` and a grid at `generation`: no frame
/// unless one is wanted; a wanted frame counts and is drawn unless a plugin
/// fails, and it carries the reason, the grid's generation and the plugins'
/// draw count.
pub open spec fn frame_outcome(
    plugins: PluginHostView,
    frames_before: u64,
    frames_after: u64,
    damage_len: nat,
    reason: FrameReason,
    generation: u64,
    r: Result<Option<RenderFrame>, PluginHostError>,
) -> bool {
    let wanted = frame_wanted(policy_for(plugins), damage_len, reason);
    &&& !wanted ==> (r matches Ok(None)) && frames_after == frames_before
    &&& wanted ==> frames_after == frames_before + 1 && !(r matches Ok(None))
    &&& wanted && frame_draw_count(plugins) == 0 ==> r is Ok
    &&& r matches Ok(Some(frame)) ==> {
        &&& frame.frame_index == frames_before + 1
        &&& frame.reason == reason
        &&& frame.snapshot_generation == generation
        &&& frame.plugin_draws == frame_draw_count(plugins)
    }
}

/// With no plugin that asks for frame callbacks and no damage waiting, an
/// animation frame draws nothing and counts no frame.
pub proof fn lemma_idle_animation_draws_nothing(
    plugins: PluginHostView,
    frames_before: u64,
    frames_after: u64,
    generation: u64,
    r: Result<Option<RenderFrame>, PluginHostError>,
)
    requires
        policy_for(plugins) == FramePolicy::EventDriven,
        frame_outcome(plugins, frames_before, frames_after, 0, FrameReason::PluginAnimation, generation, r),
    ensures
        r matches Ok(None),
        frames_after == frames_before,
{
}

/// A terminal with its renderer and plugins, and the damage that waits for
/// the next frame.
pub struct TerminalApp<P> {
    core: TerminalCore<P>,
    renderer: Renderer,
    plugins: PluginHost,
    pending_damage: Option<DamageBatch>,
}

impl<P: ParserAdapter> TerminalApp<P> {
    pub closed spec fn wf(&self) -> bool {
        &&& self.core.wf()
        &&& self.plugins.wf()
    }

    /// The terminal's state.
    pub closed spec fn terminal_state(&self) -> TerminalState {
        self.core@
    }

    /// The terminal's parser as it stands.
    pub closed spec fn parser_state(&self) -> P {
        self.core.parser_state()
    }

    /// The plugins' state.
    pub closed spec fn host(&self) -> PluginHostView {
        self.plugins@
    }

    /// The number of frames drawn.
    pub closed spec fn frames(&self) -> u64 {
        self.renderer.frame_index()
    }

    /// The renderer's viewport.
    pub closed spec fn viewport(&self) -> ClipRect {
        self.renderer.viewport()
    }

    /// The damage that waits for the next frame.
    pub closed spec fn pending(&self) -> Option<DamageBatch> {
        self.pending_damage
    }

    /// A terminal of `cols` by `rows` cells (a side of zero taken as one)
    /// that parses with `parser`, drawn into `width_px` by `height_px` pixels, with no
    /// plugins.
    pub fn new(cols: u16, rows: u16, width_px: u32, height_px: u32, parser: P) -> (r: Self)
        ensures
            r.wf(),
            r.terminal_state() == new_terminal_state(
                crate::damage::max16(cols, 1),
                crate::damage::max16(rows, 1),
            ),
            r.host() == (PluginHostView {
                ids: Seq::empty(),
                subscriptions: Seq::empty(),
                draw_phases: Seq::empty(),
                aggregate: 0,
            }),
            r.frames() == 0,
            r.viewport() == (ClipRect { x: 0, y: 0, width: width_px, height: height_px }),
            r.pending() is None,
    {
        TerminalApp {
            core: TerminalCore::with_parser(cols, rows, parser),
            renderer: Renderer::new(width_px, height_px),
            plugins: PluginHost::new(),
            pending_damage: None,
        }
    }

    pub fn terminal(&self) -> (r: &TerminalCore<P>)
        requires
            self.wf(),
        ensures
            r.wf(),
            r@ == self.terminal_state(),
    {
        &self.core
    }

    pub fn plugins(&self) -> (r: &PluginHost)
        requires
            self.wf(),
        ensures
            r.wf(),
            r@ == self.host(),
    {
        &self.plugins
    }

    /// The plugin host itself.
    pub closed spec fn host_value(&self) -> PluginHost {
        self.plugins
    }

    /// The plugins, to register more; the rest of the application stays
    /// as it is.
    pub fn plugins_mut(&mut self) -> (r: &mut PluginHost)
        ensures
            *r == old(self).host_value(),
            final(self).host_value() == *final(r),
            final(self).host() == final(r)@,
            old(self).host() == old(self).host_value()@,
            final(self).terminal_state() == old(self).terminal_state(),
            final(self).frames() == old(self).frames(),
            final(self).viewport() == old(self).viewport(),
            final(self).pending() == old(self).pending(),
            old(self).wf() && final(r).wf() ==> final(self).wf(),
            old(self).wf() ==> r.wf(),
    {
        &mut self.plugins
    }

    /// Carries out `action`. Bytes from the child process go through the
    /// terminal, a key press ticks it and is reported to the plugins, a
    /// resize in cells resizes it; each of these then draws from the damage
    /// its tick reported. A resize in pixels resizes the viewport; it and the
    /// remaining actions draw from the damage that waits. A plugin that fails
    /// to take the key press stops the action with its error.
    pub fn handle_action(&mut self, action: AppAction) -> (r: Result<Option<RenderFrame>, PluginHostError>)
        requires
            old(self).wf(),
            old(self).frames() < u64::MAX,
            old(self).host().ids.len() <= usize::MAX / 5,
        ensures
            final(self).wf(),
            final(self).host() == old(self).host(),
            !(action is PtyBytes) ==> final(self).parser_state() == old(self).parser_state(),
            match action {
                AppAction::PtyBytes(bytes) => {
                    &&& final(self).viewport() == old(self).viewport()
                    &&& final(self).pending() is None
                    &&& {
                        let mid = pty_input_state(old(self).terminal_state(), bytes@, old(self).parser_state());
                        &&& final(self).terminal_state() == tick_state(mid)
                        &&& frame_outcome(
                            old(self).host(),
                            old(self).frames(),
                            final(self).frames(),
                            drained_regions(mid.grid.damage).len(),
                            FrameReason::Damage,
                            mid.grid.generation,
                            r,
                        )
                    }
                    &&& final(self).parser_state() == pty_parser_after(
                        old(self).terminal_state(),
                        bytes@,
                        old(self).parser_state(),
                    )
                },
                AppAction::KeyPress(key) => {
                    &&& final(self).viewport() == old(self).viewport()
                    &&& final(self).terminal_state() == tick_state(old(self).terminal_state())
                    &&& {
                        ||| r is Err && final(self).frames() == old(self).frames() && final(self).pending()
                            == old(self).pending()
                        ||| final(self).pending() is None && frame_outcome(
                            old(self).host(),
                            old(self).frames(),
                            final(self).frames(),
                            drained_regions(old(self).terminal_state().grid.damage).len(),
                            FrameReason::Damage,
                            old(self).terminal_state().grid.generation,
                            r,
                        )
                    }
                    &&& receiving_count(
                        old(self).host().subscriptions,
                        seq![plugin_event_of(CoreEvent::KeyPress(key))],
                        old(self).host().ids.len() as int,
                    ) == 0 ==> final(self).pending() is None && frame_outcome(
                        old(self).host(),
                        old(self).frames(),
                        final(self).frames(),
                        drained_regions(old(self).terminal_state().grid.damage).len(),
                        FrameReason::Damage,
                        old(self).terminal_state().grid.generation,
                        r,
                    )
                },
                AppAction::ResizeCells { width, height } => {
                    let resized = resized_state(old(self).terminal_state(), width, height);
                    &&& final(self).viewport() == old(self).viewport()
                    &&& final(self).pending() is None
                    &&& final(self).terminal_state() == tick_state(resized)
                    &&& frame_outcome(
                        old(self).host(),
                        old(self).frames(),
                        final(self).frames(),
                        drained_regions(resized.grid.damage).len(),
                        FrameReason::Resize,
                        resized.grid.generation,
                        r,
                    )
                },
                AppAction::ResizePixels { width, height } => {
                    &&& final(self).viewport() == (ClipRect { width, height, ..old(self).viewport() })
                    &&& final(self).pending() is None
                    &&& final(self).terminal_state() == old(self).terminal_state()
                    &&& frame_outcome(
                        old(self).host(),
                        old(self).frames(),
                        final(self).frames(),
                        pending_len(old(self).pending()),
                        FrameReason::Resize,
                        old(self).terminal_state().grid.generation,
                        r,
                    )
                },
                _ => {
                    let reason = match action {
                        AppAction::Exposed => FrameReason::Exposed,
                        AppAction::CursorBlink => FrameReason::CursorBlink,
                        _ => FrameReason::PluginAnimation,
                    };
                    &&& final(self).viewport() == old(self).viewport()
                    &&& final(self).pending() is None
                    &&& final(self).terminal_state() == old(self).terminal_state()
                    &&& frame_outcome(
                        old(self).host(),
                        old(self).frames(),
                        final(self).frames(),
                        pending_len(old(self).pending()),
                        reason,
                        old(self).terminal_state().grid.generation,
                        r,
                    )
                },
            },
    {
        match action {
            AppAction::PtyBytes(bytes) => {
                let tick = self.core.process_pty_input(bytes.as_slice());
                self.pending_damage = Some(tick.damage);
                self.render_from_pending_damage(FrameReason::Damage)
            },
            AppAction::KeyPress(key) => {
                let no_input: Vec<u8> = Vec::new();
                let tick = self.core.process_pty_input(no_input.as_slice());
                let events = vec![CoreEvent::KeyPress(key)];
                assert(Seq::new(events@.len(), |i: int| plugin_event_of(events@[i])) =~= seq![
                    plugin_event_of(CoreEvent::KeyPress(key)),
                ]);
                match self.plugins.dispatch_core_events(events.as_slice()) {
                    Ok(_) => {},
                    Err(e) => {
                        return Err(e);
                    },
                }
                self.pending_damage = Some(tick.damage);
                self.render_from_pending_damage(FrameReason::Damage)
            },
            AppAction::ResizeCells { width, height } => {
                let tick = self.core.resize(width, height);
                self.pending_damage = Some(tick.damage);
                self.render_from_pending_damage(FrameReason::Resize)
            },
            AppAction::ResizePixels { width, height } => {
                self.renderer.set_viewport_size(width, height);
                self.render_from_pending_damage(FrameReason::Resize)
            },
            AppAction::Exposed => self.render_from_pending_damage(FrameReason::Exposed),
            AppAction::CursorBlink => self.render_from_pending_damage(FrameReason::CursorBlink),
            AppAction::PluginAnimationFrame => self.render_from_pending_damage(FrameReason::PluginAnimation),
        }
    }

    /// Draws from the damage that waits, or from no damage at the grid's
    /// generation.
    fn render_from_pending_damage(&mut self, reason: FrameReason) -> (r: Result<Option<RenderFrame>, PluginHostError>)
        requires
            old(self).wf(),
            old(self).frames() < u64::MAX,
            old(self).host().ids.len() <= usize::MAX / 5,
        ensures
            final(self).wf(),
            final(self).host() == old(self).host(),
            final(self).terminal_state() == old(self).terminal_state(),
            final(self).parser_state() == old(self).parser_state(),
            final(self).viewport() == old(self).viewport(),
            final(self).pending() is None,
            frame_outcome(
                old(self).host(),
                old(self).frames(),
                final(self).frames(),
                pending_len(old(self).pending()),
                reason,
                old(self).terminal_state().grid.generation,
                r,
            ),
    {
        let mut pending: Option<DamageBatch> = None;
        std::mem::swap(&mut pending, &mut self.pending_damage);
        let damage = match pending {
            Some(batch) => batch,
            None => DamageBatch { generation: self.core.grid().generation(), regions: Vec::new() },
        };
        self.renderer.render(self.core.grid(), &damage, reason, &mut self.plugins)
    }
}


} // verus!
