//! The frame loop of the renderer: when a frame is drawn, what it records of
//! the grid, and in which order the plugin layers draw into it.
use vstd::prelude::*;

use crate::damage::DamageBatch;
use crate::grid::{Cell, Grid, GridState};
use crate::plugins_api::{ClipRect, CommandBuffer, DrawCommand, DrawPhase};
use crate::plugins_host::{phase_count, PluginHost, PluginHostError, PluginHostView};

verus! {

/// When frames are drawn: on events only, or every frame while a plugin
/// animates.
#[derive(Debug, Clone, Copy, PartialEq, Eq, Structural)]
pub enum FramePolicy {
    EventDriven,
    AdaptiveContinuous,
}

/// Why a frame is asked for.
#[derive(Debug, Clone, Copy, PartialEq, Eq, Structural)]
pub enum FrameReason {
    Damage,
    Resize,
    Exposed,
    CursorBlink,
    PluginAnimation,
}

/// What a frame records of the grid it shows.
#[derive(Debug, Clone, PartialEq, Eq)]
pub struct RenderSnapshot {
    pub generation: u64,
    pub grid_width: u16,
    pub grid_height: u16,
}

impl RenderSnapshot {
    pub fn from_grid(grid: &Grid) -> (r: Self)
        ensures
            r.generation == grid@.generation,
            r.grid_width == grid@.width,
            r.grid_height == grid@.height,
    {
        RenderSnapshot {
            generation: grid.generation(),
            grid_width: grid.width(),
            grid_height: grid.height(),
        }
    }
}

/// A drawn frame.
#[derive(Debug, Clone, PartialEq, Eq)]
pub struct RenderFrame {
    pub frame_index: u64,
    pub policy: FramePolicy,
    pub reason: FrameReason,
    pub snapshot_generation: u64,
    pub commands: Vec<DrawCommand>,
    pub plugin_draws: usize,
}

/// How many of the first `n` cells of `row` show a glyph (are not spaces).
pub open spec fn row_glyphs(row: Seq<Cell>, n: int) -> nat
    decreases n,
{
    if n <= 0 {
        0
    } else {
        row_glyphs(row, n - 1) + if row[n - 1].ch != ' ' {
            1nat
        } else {
            0nat
        }
    }
}

/// How many cells of the first `n` rows of a grid `width` wide show a glyph.
pub open spec fn grid_glyphs(rows: Seq<Seq<Cell>>, width: int, n: int) -> nat
    decreases n,
{
    if n <= 0 {
        0
    } else {
        grid_glyphs(rows, width, n - 1) + row_glyphs(rows[n - 1], width)
    }
}

/// How many visible cells of a grid show a glyph.
pub open spec fn visible_glyphs(g: GridState) -> nat {
    grid_glyphs(g.rows, g.width as int, g.height as int)
}

proof fn lemma_row_glyphs_bound(row: Seq<Cell>, n: int)
    requires
        0 <= n,
    ensures
        row_glyphs(row, n) <= n,
    decreases n,
{
    if n > 0 {
        lemma_row_glyphs_bound(row, n - 1);
    }
}

proof fn lemma_grid_glyphs_bound(rows: Seq<Seq<Cell>>, width: int, n: int)
    requires
        0 <= n,
        0 <= width,
    ensures
        grid_glyphs(rows, width, n) <= n * width,
    decreases n,
{
    if n > 0 {
        lemma_grid_glyphs_bound(rows, width, n - 1);
        lemma_row_glyphs_bound(rows[n - 1], width);
        assert((n - 1) * width + width == n * width) by (nonlinear_arith);
    }
}

/// What the renderer knows of the glyphs on screen.
#[derive(Debug)]
pub struct GlyphAtlas {
    generation: u64,
    glyph_count: usize,
}

impl Default for GlyphAtlas {
    fn default() -> (r: Self)
        ensures
            r.recorded_generation() == 0,
            r.recorded_glyphs() == 0,
    {
        GlyphAtlas { generation: 0, glyph_count: 0 }
    }
}

impl GlyphAtlas {
    /// The generation of the grid when the atlas last caught up.
    pub closed spec fn recorded_generation(&self) -> u64 {
        self.generation
    }

    /// How many visible cells showed a glyph when the atlas last caught up.
    pub closed spec fn recorded_glyphs(&self) -> nat {
        self.glyph_count as nat
    }

    /// Catches up with the grid when something on it changed: records its
    /// generation and counts the visible cells that show a glyph.
    pub fn sync_visible_grid(&mut self, grid: &Grid, damage: &DamageBatch)
        requires
            grid.wf(),
        ensures
            damage.regions@.len() == 0 ==> *final(self) == *old(self),
            damage.regions@.len() > 0 ==> final(self).recorded_generation() == grid@.generation
                && final(self).recorded_glyphs() == visible_glyphs(grid@),
    {
        if damage.is_empty() {
            return;
        }
        proof {
            grid.lemma_wf_state();
        }
        let ghost g = grid@;
        let width = grid.width();
        let height = grid.height();
        let mut count: usize = 0;
        let mut y: u16 = 0;
        while y < height
            invariant
                y <= height,
                g == grid@,
                grid.wf(),
                width == g.width,
                height == g.height,
                count == grid_glyphs(g.rows, width as int, y as int),
            decreases height - y,
        {
            proof {
                lemma_grid_glyphs_bound(g.rows, width as int, y as int);
                assert(y * width <= 65535 * 65535) by (nonlinear_arith)
                    requires
                        y < 65536,
                        width < 65536,
                ;
            }
            let mut x: u16 = 0;
            let ghost start = count;
            while x < width
                invariant
                    x <= width,
                    y < height,
                    g == grid@,
                    grid.wf(),
                    width == g.width,
                    height == g.height,
                    start == grid_glyphs(g.rows, width as int, y as int),
                    start <= y * width,
                    y * width <= 65535 * 65535,
                    count == start + row_glyphs(g.rows[y as int], x as int),
                decreases width - x,
            {
                proof {
                    lemma_row_glyphs_bound(g.rows[y as int], x as int);
                }
                let cell = grid.cell(x, y);
                match cell {
                    Some(c) => {
                        if c.ch != ' ' {
                            count = count + 1;
                        }
                    },
                    None => {},
                }
                x = x + 1;
            }
            y = y + 1;
        }
        self.generation = grid.generation();
        self.glyph_count = count;
    }

    pub fn generation(&self) -> (r: u64)
        ensures
            r == self.recorded_generation(),
    {
        self.generation
    }

    pub fn glyph_count(&self) -> (r: usize)
        ensures
            r == self.recorded_glyphs(),
    {
        self.glyph_count
    }
}

/// Whether a frame is drawn under `policy`: on events only, a plugin
/// animation frame draws only with damage; every frame while a plugin
/// animates.
pub open spec fn frame_wanted(policy: FramePolicy, damage_len: nat, reason: FrameReason) -> bool {
    match policy {
        FramePolicy::EventDriven => damage_len > 0 || reason != FrameReason::PluginAnimation,
        FramePolicy::AdaptiveContinuous => true,
    }
}

/// The policy that a set of plugins asks for.
pub open spec fn policy_for(plugins: PluginHostView) -> FramePolicy {
    if plugins.aggregate & 512 == 512 {
        FramePolicy::AdaptiveContinuous
    } else {
        FramePolicy::EventDriven
    }
}

/// How many plugins draw across all phases of a frame.
pub open spec fn frame_draw_count(plugins: PluginHostView) -> nat {
    let n = plugins.ids.len() as int;
    phase_count(plugins.draw_phases, DrawPhase::BackgroundOverlay, n) + phase_count(
        plugins.draw_phases,
        DrawPhase::BehindText,
        n,
    ) + phase_count(plugins.draw_phases, DrawPhase::AboveText, n) + phase_count(
        plugins.draw_phases,
        DrawPhase::AboveCursor,
        n,
    ) + phase_count(plugins.draw_phases, DrawPhase::UiOverlay, n)
}

/// Draws frames of the grid and the plugin layers over it.
#[derive(Debug)]
pub struct Renderer {
    frame_index: u64,
    policy: FramePolicy,
    viewport_clip: ClipRect,
    atlas: GlyphAtlas,
}

impl Renderer {
    pub fn new(width_px: u32, height_px: u32) -> (r: Self)
        ensures
            r.frame_index() == 0,
            r.current_policy() == FramePolicy::EventDriven,
            r.viewport() == (ClipRect { x: 0, y: 0, width: width_px, height: height_px }),
            r.current_atlas().recorded_generation() == 0,
            r.current_atlas().recorded_glyphs() == 0,
    {
        Renderer {
            frame_index: 0,
            policy: FramePolicy::EventDriven,
            viewport_clip: ClipRect { x: 0, y: 0, width: width_px, height: height_px },
            atlas: GlyphAtlas::default(),
        }
    }

    pub closed spec fn frame_index(&self) -> u64 {
        self.frame_index
    }

    pub closed spec fn viewport(&self) -> ClipRect {
        self.viewport_clip
    }

    pub closed spec fn current_atlas(&self) -> GlyphAtlas {
        self.atlas
    }

    pub closed spec fn current_policy(&self) -> FramePolicy {
        self.policy
    }

    /// The number of the last frame drawn.
    pub fn frames_drawn(&self) -> (r: u64)
        ensures
            r == self.frame_index(),
    {
        self.frame_index
    }

    pub fn policy(&self) -> (r: FramePolicy)
        ensures
            r == self.current_policy(),
    {
        self.policy
    }

    pub fn atlas(&self) -> (r: &GlyphAtlas)
        ensures
            *r == self.current_atlas(),
    {
        &self.atlas
    }

    pub fn set_viewport_size(&mut self, width_px: u32, height_px: u32)
        ensures
            final(self).viewport() == (ClipRect { width: width_px, height: height_px, ..old(self).viewport() }),
            final(self).frame_index() == old(self).frame_index(),
            final(self).current_policy() == old(self).current_policy(),
            final(self).current_atlas() == old(self).current_atlas(),
    {
        self.viewport_clip.width = width_px;
        self.viewport_clip.height = height_px;
    }

    /// Draws every frame while some plugin wants frame callbacks, on events
    /// only otherwise.
    pub fn sync_policy(&mut self, plugins: &PluginHost)
        ensures
            final(self).current_policy() == policy_for(plugins@),
            final(self).frame_index() == old(self).frame_index(),
            final(self).viewport() == old(self).viewport(),
            final(self).current_atlas() == old(self).current_atlas(),
    {
        self.policy = if plugins.requires_frame_callbacks() {
            FramePolicy::AdaptiveContinuous
        } else {
            FramePolicy::EventDriven
        };
    }

    /// Whether a frame for `reason` with `damage` is drawn.
    pub fn should_render(&self, damage: &DamageBatch, reason: FrameReason) -> (r: bool)
        ensures
            r == frame_wanted(self.current_policy(), damage.regions@.len(), reason),
    {
        match self.policy {
            FramePolicy::EventDriven => !damage.is_empty() || reason != FrameReason::PluginAnimation,
            FramePolicy::AdaptiveContinuous => true,
        }
    }

    /// Draws a frame when one is wanted: the viewport first, then the plugin
    /// layers from the back to the front. A plugin that fails stops the
    /// frame with its error.
    pub fn render(
        &mut self,
        grid: &Grid,
        damage: &DamageBatch,
        reason: FrameReason,
        plugins: &mut PluginHost,
    ) -> (r: Result<Option<RenderFrame>, PluginHostError>)
        requires
            grid.wf(),
            old(plugins).wf(),
            old(self).frame_index() < u64::MAX,
            old(plugins)@.ids.len() <= usize::MAX / 5,
        ensures
            final(plugins).wf(),
            final(plugins)@ == old(plugins)@,
            final(self).current_policy() == policy_for(old(plugins)@),
            final(self).viewport() == old(self).viewport(),
            !frame_wanted(policy_for(old(plugins)@), damage.regions@.len(), reason) ==> (r matches Ok(
                None,
            )) && final(self).frame_index() == old(self).frame_index() && final(self).current_atlas()
                == old(self).current_atlas(),
            frame_wanted(policy_for(old(plugins)@), damage.regions@.len(), reason) ==> final(self).frame_index() == old(self).frame_index() + 1 && (damage.regions@.len() > 0 ==> final(self).current_atlas().recorded_generation() == grid@.generation && final(self).current_atlas().recorded_glyphs()
                == visible_glyphs(grid@)) && (damage.regions@.len() == 0 ==> final(self).current_atlas()
                == old(self).current_atlas()),
            frame_wanted(policy_for(old(plugins)@), damage.regions@.len(), reason) ==> !(r matches Ok(
                None,
            )),
            frame_wanted(policy_for(old(plugins)@), damage.regions@.len(), reason)
                && frame_draw_count(old(plugins)@) == 0 ==> r is Ok,
            r matches Ok(Some(frame)) ==> (frame_wanted(
                policy_for(old(plugins)@),
                damage.regions@.len(),
                reason,
            ) && frame.frame_index == old(self).frame_index() + 1 && frame.policy == policy_for(
                old(plugins)@,
            ) && frame.reason == reason && frame.snapshot_generation == grid@.generation
                && frame.plugin_draws == frame_draw_count(old(plugins)@) && (frame_draw_count(
                old(plugins)@,
            ) == 0 ==> frame.commands@ == seq![
                DrawCommand::SetClip(old(self).viewport()),
                DrawCommand::DrawQuad { clip: old(self).viewport() },
            ])),
    {
        self.sync_policy(plugins);
        if !self.should_render(damage, reason) {
            return Ok(None);
        }
        self.frame_index = self.frame_index + 1;
        self.atlas.sync_visible_grid(grid, damage);
        let snapshot = RenderSnapshot::from_grid(grid);
        let mut commands = CommandBuffer::default();
        self.render_builtin_layers(&mut commands);
        let plugin_draws = match self.render_plugin_layers(plugins, &mut commands) {
            Ok(n) => n,
            Err(e) => {
                return Err(e);
            },
        };
        let recorded = commands.commands();
        let mut copied: Vec<DrawCommand> = Vec::new();
        let mut i: usize = 0;
        while i < recorded.len()
            invariant
                i <= recorded@.len(),
                copied@ == recorded@.subrange(0, i as int),
            decreases recorded@.len() - i,
        {
            copied.push(recorded[i]);
            i = i + 1;
            assert(copied@ =~= recorded@.subrange(0, i as int));
        }
        assert(recorded@.subrange(0, recorded@.len() as int) =~= recorded@);
        Ok(
            Some(
                RenderFrame {
                    frame_index: self.frame_index,
                    policy: self.policy,
                    reason,
                    snapshot_generation: snapshot.generation,
                    commands: copied,
                    plugin_draws,
                },
            ),
        )
    }

    /// The layers the renderer draws itself: the viewport.
    fn render_builtin_layers(&self, commands: &mut CommandBuffer)
        ensures
            final(commands)@ == old(commands)@.push(DrawCommand::SetClip(self.viewport())).push(
                DrawCommand::DrawQuad { clip: self.viewport() },
            ),
    {
        commands.push(DrawCommand::SetClip(self.viewport_clip));
        commands.push(DrawCommand::DrawQuad { clip: self.viewport_clip });
    }

    /// Lets the plugins draw, phase by phase from the back to the front.
    fn render_plugin_layers(&self, plugins: &mut PluginHost, commands: &mut CommandBuffer) -> (r:
        Result<usize, PluginHostError>)
        requires
            old(plugins).wf(),
            old(plugins)@.ids.len() <= usize::MAX / 5,
        ensures
            final(plugins).wf(),
            final(plugins)@ == old(plugins)@,
            frame_draw_count(old(plugins)@) == 0 ==> r is Ok && final(commands)@ == old(commands)@,
            r matches Ok(n) ==> n == frame_draw_count(old(plugins)@),
    {
        let ghost h = plugins@;
        let ghost n = h.ids.len() as int;
        let first = match plugins.draw_phase(
            DrawPhase::BackgroundOverlay,
            self.frame_index,
            self.viewport_clip,
            commands,
        ) {
            Ok(d) => d,
            Err(e) => {
                return Err(e);
            },
        };
        let second = match plugins.draw_phase(
            DrawPhase::BehindText,
            self.frame_index,
            self.viewport_clip,
            commands,
        ) {
            Ok(d) => d,
            Err(e) => {
                return Err(e);
            },
        };
        let third = match plugins.draw_phase(
            DrawPhase::AboveText,
            self.frame_index,
            self.viewport_clip,
            commands,
        ) {
            Ok(d) => d,
            Err(e) => {
                return Err(e);
            },
        };
        let fourth = match plugins.draw_phase(
            DrawPhase::AboveCursor,
            self.frame_index,
            self.viewport_clip,
            commands,
        ) {
            Ok(d) => d,
            Err(e) => {
                return Err(e);
            },
        };
        let fifth = match plugins.draw_phase(
            DrawPhase::UiOverlay,
            self.frame_index,
            self.viewport_clip,
            commands,
        ) {
            Ok(d) => d,
            Err(e) => {
                return Err(e);
            },
        };
        proof {
            crate::plugins_host::lemma_phase_count_bound(h.draw_phases, n);
        }
        Ok(first + second + third + fourth + fifth)
    }
}

} // verus!
