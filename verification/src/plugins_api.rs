//! The types that the terminal and its plugins share: versions, event
//! subscriptions, draw phases, clip rectangles and draw commands.
use vstd::prelude::*;

verus! {

#[derive(Debug, Clone, Copy, PartialEq, Eq, Structural)]
pub struct AbiVersion {
    pub major: u16,
    pub minor: u16,
}

/// The version of the plugin interface that this host speaks.
pub fn abi_version() -> (r: AbiVersion)
    ensures
        r == (AbiVersion { major: 0, minor: 1 }),
{
    AbiVersion { major: 0, minor: 1 }
}

impl AbiVersion {
    /// A plugin built for `self` runs on `host` when the major versions agree
    /// and the host's minor version is not older.
    pub fn is_compatible_with(self, host: AbiVersion) -> (r: bool)
        ensures
            r == (self.major == host.major && self.minor <= host.minor),
    {
        self.major == host.major && self.minor <= host.minor
    }
}

#[derive(Debug, Clone, Copy, PartialEq, Eq, Structural)]
pub enum AbiStatus {
    Success,
    Error,
    Unsupported,
}

impl AbiStatus {
    /// The number that stands for the status across the plugin interface.
    pub fn code(self) -> (r: u32)
        ensures
            r == (match self {
                AbiStatus::Success => 0u32,
                AbiStatus::Error => 1,
                AbiStatus::Unsupported => 2,
            }),
    {
        match self {
            AbiStatus::Success => 0,
            AbiStatus::Error => 1,
            AbiStatus::Unsupported => 2,
        }
    }
}

/// A set of event kinds, one bit each.
#[derive(Debug, Clone, Copy, Default, PartialEq, Eq, Structural)]
pub struct SubscriptionMask(pub u64);

impl SubscriptionMask {
    pub fn none() -> (r: SubscriptionMask)
        ensures
            r.0 == 0,
    {
        SubscriptionMask(0)
    }

    pub fn key_press() -> (r: SubscriptionMask)
        ensures
            r.0 == 1,
    {
        SubscriptionMask(1)
    }

    pub fn cursor_moved() -> (r: SubscriptionMask)
        ensures
            r.0 == 2,
    {
        SubscriptionMask(2)
    }

    pub fn cell_changed() -> (r: SubscriptionMask)
        ensures
            r.0 == 4,
    {
        SubscriptionMask(4)
    }

    pub fn line_changed() -> (r: SubscriptionMask)
        ensures
            r.0 == 8,
    {
        SubscriptionMask(8)
    }

    pub fn viewport_changed() -> (r: SubscriptionMask)
        ensures
            r.0 == 16,
    {
        SubscriptionMask(16)
    }

    pub fn mode_changed() -> (r: SubscriptionMask)
        ensures
            r.0 == 32,
    {
        SubscriptionMask(32)
    }

    pub fn selection_changed() -> (r: SubscriptionMask)
        ensures
            r.0 == 64,
    {
        SubscriptionMask(64)
    }

    pub fn title_changed() -> (r: SubscriptionMask)
        ensures
            r.0 == 128,
    {
        SubscriptionMask(128)
    }

    pub fn bell() -> (r: SubscriptionMask)
        ensures
            r.0 == 256,
    {
        SubscriptionMask(256)
    }

    pub fn frame() -> (r: SubscriptionMask)
        ensures
            r.0 == 512,
    {
        SubscriptionMask(512)
    }

    /// Whether every kind in `other` is in `self`.
    pub fn contains(self, other: SubscriptionMask) -> (r: bool)
        ensures
            r == (self.0 & other.0 == other.0),
    {
        (self.0 & other.0) == other.0
    }

    /// The kinds in either mask.
    pub fn union(self, other: SubscriptionMask) -> (r: SubscriptionMask)
        ensures
            r.0 == self.0 | other.0,
    {
        SubscriptionMask(self.0 | other.0)
    }

    /// Whether any kind of `other` is in `self`.
    pub fn contains_any(self, other: SubscriptionMask) -> (r: bool)
        ensures
            r == (self.0 & other.0 != 0),
    {
        (self.0 & other.0) != 0
    }

    pub fn is_empty(self) -> (r: bool)
        ensures
            r == (self.0 == 0),
    {
        self.0 == 0
    }
}

impl std::ops::BitOr for SubscriptionMask {
    type Output = SubscriptionMask;

    fn bitor(self, rhs: SubscriptionMask) -> (r: SubscriptionMask)
        ensures
            r.0 == self.0 | rhs.0,
    {
        self.union(rhs)
    }
}

impl vstd::std_specs::ops::BitOrSpecImpl for SubscriptionMask {
    open spec fn obeys_bitor_spec() -> bool {
        true
    }

    open spec fn bitor_req(self, rhs: SubscriptionMask) -> bool {
        true
    }

    open spec fn bitor_spec(self, rhs: SubscriptionMask) -> SubscriptionMask {
        SubscriptionMask(self.0 | rhs.0)
    }
}

/// Where in a frame a plugin draws, from the back to the front.
#[derive(Debug, Clone, Copy, PartialEq, Eq, PartialOrd, Ord, Hash, Structural)]
pub enum DrawPhase {
    BackgroundOverlay,
    BehindText,
    AboveText,
    AboveCursor,
    UiOverlay,
}

impl DrawPhase {
    /// The number that stands for the phase across the plugin interface.
    pub fn code(self) -> (r: u32)
        ensures
            r == (match self {
                DrawPhase::BackgroundOverlay => 0u32,
                DrawPhase::BehindText => 10,
                DrawPhase::AboveText => 20,
                DrawPhase::AboveCursor => 30,
                DrawPhase::UiOverlay => 40,
            }),
    {
        match self {
            DrawPhase::BackgroundOverlay => 0,
            DrawPhase::BehindText => 10,
            DrawPhase::AboveText => 20,
            DrawPhase::AboveCursor => 30,
            DrawPhase::UiOverlay => 40,
        }
    }
}

#[derive(Debug, Clone, Copy, PartialEq, Eq, Structural)]
pub enum EventKind {
    KeyPress,
    CursorMoved,
    CellChanged,
    LineChanged,
    ViewportChanged,
    ModeChanged,
    SelectionChanged,
    TitleChanged,
    Bell,
    Frame,
}

/// The bit of an event kind.
pub open spec fn kind_bit(kind: EventKind) -> u64 {
    match kind {
        EventKind::KeyPress => 1,
        EventKind::CursorMoved => 2,
        EventKind::CellChanged => 4,
        EventKind::LineChanged => 8,
        EventKind::ViewportChanged => 16,
        EventKind::ModeChanged => 32,
        EventKind::SelectionChanged => 64,
        EventKind::TitleChanged => 128,
        EventKind::Bell => 256,
        EventKind::Frame => 512,
    }
}

impl EventKind {
    /// The subscription that receives events of this kind.
    pub fn mask(self) -> (r: SubscriptionMask)
        ensures
            r.0 == kind_bit(self),
    {
        match self {
            EventKind::KeyPress => SubscriptionMask::key_press(),
            EventKind::CursorMoved => SubscriptionMask::cursor_moved(),
            EventKind::CellChanged => SubscriptionMask::cell_changed(),
            EventKind::LineChanged => SubscriptionMask::line_changed(),
            EventKind::ViewportChanged => SubscriptionMask::viewport_changed(),
            EventKind::ModeChanged => SubscriptionMask::mode_changed(),
            EventKind::SelectionChanged => SubscriptionMask::selection_changed(),
            EventKind::TitleChanged => SubscriptionMask::title_changed(),
            EventKind::Bell => SubscriptionMask::bell(),
            EventKind::Frame => SubscriptionMask::frame(),
        }
    }
}

/// Whether a subscription mask receives events of `kind`.
pub open spec fn mask_receives(mask: u64, kind: EventKind) -> bool {
    mask & kind_bit(kind) == kind_bit(kind)
}

proof fn lemma_bit_union(a: u64, b: u64, k: u64)
    requires
        k == 1 || k == 2 || k == 4 || k == 8 || k == 16 || k == 32 || k == 64 || k == 128 || k
            == 256 || k == 512,
    ensures
        ((a | b) & k == k) == ((a & k == k) || (b & k == k)),
{
    assert(((a | b) & k == k) == ((a & k == k) || (b & k == k))) by (bit_vector)
        requires
            k == 1 || k == 2 || k == 4 || k == 8 || k == 16 || k == 32 || k == 64 || k == 128
                || k == 256 || k == 512,
    ;
}

/// The union of two subscriptions receives an event kind exactly when one of
/// them does; it contains both of them, and the order does not matter.
pub proof fn lemma_union_subscriptions(a: SubscriptionMask, b: SubscriptionMask, kind: EventKind)
    ensures
        mask_receives(a.0 | b.0, kind) == (mask_receives(a.0, kind) || mask_receives(b.0, kind)),
        (a.0 | b.0) & a.0 == a.0,
        (a.0 | b.0) & b.0 == b.0,
        a.0 | b.0 == b.0 | a.0,
{
    lemma_bit_union(a.0, b.0, kind_bit(kind));
    let (x, y) = (a.0, b.0);
    assert((x | y) & x == x) by (bit_vector);
    assert((x | y) & y == y) by (bit_vector);
    assert(x | y == y | x) by (bit_vector);
}

/// Containment of subscriptions is reflexive and transitive.
pub proof fn lemma_contains_order(a: u64, b: u64, c: u64)
    ensures
        a & a == a,
        (a & b == b && b & c == c) ==> a & c == c,
{
    assert(a & a == a) by (bit_vector);
    assert((a & b == b && b & c == c) ==> a & c == c) by (bit_vector);
}

/// Containment of rectangles is reflexive and transitive.
pub proof fn lemma_rect_contains_order(a: ClipRect, b: ClipRect, c: ClipRect)
    ensures
        rect_contains(a, a),
        rect_contains(a, b) && rect_contains(b, c) ==> rect_contains(a, c),
{
}

/// A rectangle of pixels: `width` by `height` from `(x, y)`.
#[derive(Debug, Clone, Copy, Default, PartialEq, Eq, Structural)]
pub struct ClipRect {
    pub x: i32,
    pub y: i32,
    pub width: u32,
    pub height: u32,
}

/// Whether `outer` covers all of `inner`.
pub open spec fn rect_contains(outer: ClipRect, inner: ClipRect) -> bool {
    &&& inner.x >= outer.x
    &&& inner.y >= outer.y
    &&& inner.x + inner.width <= outer.x + outer.width
    &&& inner.y + inner.height <= outer.y + outer.height
}

impl ClipRect {
    pub fn contains(self, other: ClipRect) -> (r: bool)
        ensures
            r == rect_contains(self, other),
    {
        let right = self.x as i64 + self.width as i64;
        let bottom = self.y as i64 + self.height as i64;
        let other_right = other.x as i64 + other.width as i64;
        let other_bottom = other.y as i64 + other.height as i64;
        other.x >= self.x && other.y >= self.y && other_right <= right && other_bottom <= bottom
    }
}

/// What a plugin may allocate.
#[derive(Debug, Clone, Copy, PartialEq, Eq, Structural)]
pub struct ResourceLimits {
    pub max_textures: u32,
    pub max_buffers: u32,
    pub max_texture_edge: u32,
    pub max_bytes: u64,
}

impl Default for ResourceLimits {
    fn default() -> (r: Self)
        ensures
            r == (ResourceLimits {
                max_textures: 16,
                max_buffers: 16,
                max_texture_edge: 4096,
                max_bytes: 67108864,
            }),
    {
        ResourceLimits {
            max_textures: 16,
            max_buffers: 16,
            max_texture_edge: 4096,
            max_bytes: 64 * 1024 * 1024,
        }
    }
}

#[derive(Debug, Clone, Copy, Default, PartialEq, Eq, Structural)]
pub struct HostCapabilities {
    pub terminal_snapshots: bool,
    pub gpu_draw_context: bool,
    pub frame_timing: bool,
}

#[derive(Debug, Clone, Copy, Default, PartialEq, Eq, Hash, Structural)]
pub struct TextureHandle(pub u64);

#[derive(Debug, Clone, Copy, Default, PartialEq, Eq, Hash, Structural)]
pub struct BufferHandle(pub u64);

#[derive(Debug, Clone, Copy, Default, PartialEq, Eq, Hash, Structural)]
pub struct ShaderHandle(pub u64);

#[derive(Debug, PartialEq, Eq)]
pub enum PluginEvent {
    KeyPress { logical_key: String },
    CursorMoved { previous: (u16, u16), current: (u16, u16) },
    CellChanged { x: u16, y: u16, ch: char },
    LineChanged { y: u16 },
    ViewportChanged,
    ModeChanged { name: &'static str, enabled: bool },
    SelectionChanged,
    TitleChanged(String),
    Bell,
    Frame { frame_index: u64 },
}

pub open spec fn plugin_event_kind(event: PluginEvent) -> EventKind {
    match event {
        PluginEvent::KeyPress { .. } => EventKind::KeyPress,
        PluginEvent::CursorMoved { .. } => EventKind::CursorMoved,
        PluginEvent::CellChanged { .. } => EventKind::CellChanged,
        PluginEvent::LineChanged { .. } => EventKind::LineChanged,
        PluginEvent::ViewportChanged => EventKind::ViewportChanged,
        PluginEvent::ModeChanged { .. } => EventKind::ModeChanged,
        PluginEvent::SelectionChanged => EventKind::SelectionChanged,
        PluginEvent::TitleChanged(_) => EventKind::TitleChanged,
        PluginEvent::Bell => EventKind::Bell,
        PluginEvent::Frame { .. } => EventKind::Frame,
    }
}

impl Clone for PluginEvent {
    fn clone(&self) -> (r: Self)
        ensures
            r == *self,
    {
        match self {
            PluginEvent::KeyPress { logical_key } => PluginEvent::KeyPress {
                logical_key: logical_key.clone(),
            },
            PluginEvent::CursorMoved { previous, current } => PluginEvent::CursorMoved {
                previous: (previous.0, previous.1),
                current: (current.0, current.1),
            },
            PluginEvent::CellChanged { x, y, ch } => PluginEvent::CellChanged { x: *x, y: *y, ch: *ch },
            PluginEvent::LineChanged { y } => PluginEvent::LineChanged { y: *y },
            PluginEvent::ViewportChanged => PluginEvent::ViewportChanged,
            PluginEvent::ModeChanged { name, enabled } => PluginEvent::ModeChanged {
                name: *name,
                enabled: *enabled,
            },
            PluginEvent::SelectionChanged => PluginEvent::SelectionChanged,
            PluginEvent::TitleChanged(title) => PluginEvent::TitleChanged(title.clone()),
            PluginEvent::Bell => PluginEvent::Bell,
            PluginEvent::Frame { frame_index } => PluginEvent::Frame { frame_index: *frame_index },
        }
    }
}

impl PluginEvent {
    pub fn kind(&self) -> (r: EventKind)
        ensures
            r == plugin_event_kind(*self),
    {
        match self {
            PluginEvent::KeyPress { .. } => EventKind::KeyPress,
            PluginEvent::CursorMoved { .. } => EventKind::CursorMoved,
            PluginEvent::CellChanged { .. } => EventKind::CellChanged,
            PluginEvent::LineChanged { .. } => EventKind::LineChanged,
            PluginEvent::ViewportChanged => EventKind::ViewportChanged,
            PluginEvent::ModeChanged { .. } => EventKind::ModeChanged,
            PluginEvent::SelectionChanged => EventKind::SelectionChanged,
            PluginEvent::TitleChanged(_) => EventKind::TitleChanged,
            PluginEvent::Bell => EventKind::Bell,
            PluginEvent::Frame { .. } => EventKind::Frame,
        }
    }
}

#[derive(Debug, Clone, Copy, PartialEq, Eq, Structural)]
pub enum DrawCommand {
    SetClip(ClipRect),
    UseTexture(TextureHandle),
    DrawQuad { clip: ClipRect },
}

/// The draw commands of a frame, in order.
#[derive(Debug)]
pub struct CommandBuffer {
    commands: Vec<DrawCommand>,
}

impl View for CommandBuffer {
    type V = Seq<DrawCommand>;

    closed spec fn view(&self) -> Seq<DrawCommand> {
        self.commands@
    }
}

impl Default for CommandBuffer {
    fn default() -> (r: Self)
        ensures
            r@.len() == 0,
    {
        CommandBuffer { commands: Vec::new() }
    }
}

impl CommandBuffer {
    pub fn push(&mut self, command: DrawCommand)
        ensures
            final(self)@ == old(self)@.push(command),
    {
        self.commands.push(command);
    }

    pub fn commands(&self) -> (r: &[DrawCommand])
        ensures
            r@ == self@,
    {
        self.commands.as_slice()
    }

    pub fn clear(&mut self)
        ensures
            final(self)@.len() == 0,
    {
        self.commands.clear();
    }
}

} // verus!
