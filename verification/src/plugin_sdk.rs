//! What a plugin tells the host about itself, and what it draws with.
use vstd::prelude::*;

use crate::plugins_api::{CommandBuffer, DrawPhase, PluginEvent, ResourceLimits, SubscriptionMask};

verus! {

/// A plugin's description: its id and name, the events it subscribes to,
/// the phases it draws in, whether it wants a callback every frame, and its
/// resource limits.
#[derive(Debug, Clone, PartialEq, Eq)]
pub struct PluginMetadata {
    pub id: &'static str,
    pub name: &'static str,
    pub subscriptions: SubscriptionMask,
    pub draw_phases: &'static [DrawPhase],
    pub requires_frame_callbacks: bool,
    pub resource_limits: ResourceLimits,
}

impl PluginMetadata {
    /// A description with no frame callbacks and the default limits.
    pub fn new(
        id: &'static str,
        name: &'static str,
        subscriptions: SubscriptionMask,
        draw_phases: &'static [DrawPhase],
    ) -> (r: Self)
        ensures
            r.id@ == id@,
            r.name@ == name@,
            r.subscriptions == subscriptions,
            r.draw_phases@ == draw_phases@,
            !r.requires_frame_callbacks,
            r.resource_limits == (ResourceLimits {
                max_textures: 16,
                max_buffers: 16,
                max_texture_edge: 4096,
                max_bytes: 67108864,
            }),
    {
        PluginMetadata {
            id,
            name,
            subscriptions,
            draw_phases,
            requires_frame_callbacks: false,
            resource_limits: ResourceLimits {
                max_textures: 16,
                max_buffers: 16,
                max_texture_edge: 4096,
                max_bytes: 64 * 1024 * 1024,
            },
        }
    }

    /// The description of a plugin that wants a callback every frame: it
    /// also subscribes to frame events.
    pub fn with_frame_callbacks(self) -> (r: Self)
        ensures
            r.requires_frame_callbacks,
            r.subscriptions.0 == self.subscriptions.0 | 512,
            r.id == self.id,
            r.name == self.name,
            r.draw_phases == self.draw_phases,
            r.resource_limits == self.resource_limits,
    {
        let mut r = self;
        r.requires_frame_callbacks = true;
        r.subscriptions = r.subscriptions.union(SubscriptionMask::frame());
        r
    }
}

/// What a plugin draws with during one phase of one frame.
pub struct PluginDrawContext<'a> {
    phase: DrawPhase,
    frame_index: u64,
    commands: &'a mut CommandBuffer,
}

impl<'a> PluginDrawContext<'a> {
    pub closed spec fn phase_spec(&self) -> DrawPhase {
        self.phase
    }

    pub closed spec fn frame_index_spec(&self) -> u64 {
        self.frame_index
    }

    pub closed spec fn commands_spec(&self) -> CommandBuffer {
        *self.commands
    }

    pub fn new(phase: DrawPhase, frame_index: u64, commands: &'a mut CommandBuffer) -> (r: Self)
        ensures
            r.phase_spec() == phase,
            r.frame_index_spec() == frame_index,
            r.commands_spec() == *old(commands),
    {
        PluginDrawContext { phase, frame_index, commands }
    }

    pub fn phase(&self) -> (r: DrawPhase)
        ensures
            r == self.phase_spec(),
    {
        self.phase
    }

    pub fn frame_index(&self) -> (r: u64)
        ensures
            r == self.frame_index_spec(),
    {
        self.frame_index
    }

    /// The buffer the plugin draws into.
    pub fn commands(&mut self) -> (r: &mut CommandBuffer)
        ensures
            *r == old(self).commands_spec(),
            final(self).commands_spec() == *final(r),
            final(self).phase_spec() == old(self).phase_spec(),
            final(self).frame_index_spec() == old(self).frame_index_spec(),
    {
        self.commands
    }
}

/// A plugin built against the SDK. By default it ignores events and draws
/// nothing; what a plugin's own callbacks do is up to the plugin.
pub trait TerminalPlugin {
    fn metadata(&self) -> PluginMetadata;

    fn on_events(&mut self, events: &[PluginEvent]) {
    }

    fn draw(&mut self, context: &mut PluginDrawContext<'_>)
        default_ensures
            final(context).commands_spec() == old(context).commands_spec(),
            final(context).phase_spec() == old(context).phase_spec(),
            final(context).frame_index_spec() == old(context).frame_index_spec(),
    {
    }
}

} // verus!
