//! The host side of plugins: the draw context that keeps a plugin inside
//! its clip, and the ledger that keeps it inside its resource budget.
use vstd::prelude::*;

use crate::event::CoreEvent;
use crate::plugins_api::{
    kind_bit, mask_receives, plugin_event_kind, rect_contains, ClipRect, CommandBuffer,
    DrawCommand, DrawPhase, PluginEvent, ResourceLimits, SubscriptionMask,
};

verus! {

#[derive(Debug, Clone, PartialEq, Eq)]
pub enum PluginHostError {
    DuplicatePluginId(String),
    ClipEscaped { plugin_id: String, allowed: ClipRect, requested: ClipRect },
    ResourceLimitExceeded { plugin_id: String, resource: &'static str },
}

/// A plugin that the host runs in process. The default callbacks do
/// nothing and succeed (drawing leaves the draw context as it was); what a
/// plugin's own callbacks do is up to the plugin.
pub trait HostedPlugin {
    fn on_events(&mut self, events: &[PluginEvent]) -> (r: Result<(), PluginHostError>)
        default_ensures
            r is Ok,
    {
        Ok(())
    }

    fn draw(&mut self, context: &mut HostDrawContext<'_>) -> (r: Result<(), PluginHostError>)
        default_ensures
            r is Ok,
            final(context)@ == old(context)@,
    {
        Ok(())
    }
}

/// What a plugin draws with during one phase of one frame.
pub struct HostDrawContext<'a> {
    plugin_id: &'a str,
    phase: DrawPhase,
    frame_index: u64,
    allowed_clip: ClipRect,
    commands: &'a mut CommandBuffer,
}

pub struct PluginRegistration {
    pub id: String,
    pub subscriptions: SubscriptionMask,
    pub draw_phases: Vec<DrawPhase>,
    pub requires_frame_callbacks: bool,
    pub resource_limits: ResourceLimits,
    pub plugin: Box<dyn HostedPlugin>,
}

/// Abstract state of a draw context.
pub struct DrawContextView {
    pub plugin_id: Seq<char>,
    pub phase: DrawPhase,
    pub frame_index: u64,
    pub allowed_clip: ClipRect,
    pub commands: Seq<DrawCommand>,
}

impl<'a> View for HostDrawContext<'a> {
    type V = DrawContextView;

    closed spec fn view(&self) -> DrawContextView {
        DrawContextView {
            plugin_id: self.plugin_id@,
            phase: self.phase,
            frame_index: self.frame_index,
            allowed_clip: self.allowed_clip,
            commands: self.commands@,
        }
    }
}

impl<'a> HostDrawContext<'a> {
    pub fn new(
        plugin_id: &'a str,
        phase: DrawPhase,
        frame_index: u64,
        allowed_clip: ClipRect,
        commands: &'a mut CommandBuffer,
    ) -> (r: Self)
        ensures
            r@ == (DrawContextView {
                plugin_id: plugin_id@,
                phase,
                frame_index,
                allowed_clip,
                commands: old(commands)@,
            }),
    {
        HostDrawContext { plugin_id, phase, frame_index, allowed_clip, commands }
    }

    pub fn phase(&self) -> (r: DrawPhase)
        ensures
            r == self@.phase,
    {
        self.phase
    }

    pub fn frame_index(&self) -> (r: u64)
        ensures
            r == self@.frame_index,
    {
        self.frame_index
    }

    pub fn allowed_clip(&self) -> (r: ClipRect)
        ensures
            r == self@.allowed_clip,
    {
        self.allowed_clip
    }

    /// Queues a quad; refuses one that reaches outside the allowed clip.
    pub fn draw_quad(&mut self, clip: ClipRect) -> (r: Result<(), PluginHostError>)
        ensures
            r is Ok <==> rect_contains(old(self)@.allowed_clip, clip),
            r is Ok ==> final(self)@ == (DrawContextView {
                commands: old(self)@.commands.push(DrawCommand::DrawQuad { clip }),
                ..old(self)@
            }),
            r matches Err(e) ==> final(self)@ == old(self)@ && (e matches PluginHostError::ClipEscaped {
                plugin_id,
                allowed,
                requested,
            } && plugin_id@ == old(self)@.plugin_id && allowed == old(self)@.allowed_clip
                && requested == clip),
    {
        if !self.allowed_clip.contains(clip) {
            return Err(
                PluginHostError::ClipEscaped {
                    plugin_id: self.plugin_id.to_owned(),
                    allowed: self.allowed_clip,
                    requested: clip,
                },
            );
        }
        self.commands.push(DrawCommand::DrawQuad { clip });
        Ok(())
    }
}

impl PluginRegistration {
    /// A registration with default resource limits and no frame callbacks.
    pub fn new(
        id: &str,
        subscriptions: SubscriptionMask,
        draw_phases: Vec<DrawPhase>,
        plugin: Box<dyn HostedPlugin>,
    ) -> (r: Self)
        ensures
            r.id@ == id@,
            r.subscriptions == subscriptions,
            r.draw_phases@ == draw_phases@,
            !r.requires_frame_callbacks,
            r.resource_limits == (ResourceLimits {
                max_textures: 16,
                max_buffers: 16,
                max_texture_edge: 4096,
                max_bytes: 67108864,
            }),
    {
        PluginRegistration {
            id: id.to_owned(),
            subscriptions,
            draw_phases,
            requires_frame_callbacks: false,
            resource_limits: ResourceLimits::default(),
            plugin,
        }
    }

    /// The same registration, asking for a callback every frame.
    pub fn with_frame_callbacks(self) -> (r: Self)
        ensures
            r.requires_frame_callbacks,
            r.subscriptions.0 == self.subscriptions.0 | 512,
            r.id@ == self.id@,
            r.draw_phases@ == self.draw_phases@,
            r.resource_limits == self.resource_limits,
    {
        let mut r = self;
        r.requires_frame_callbacks = true;
        r.subscriptions = r.subscriptions.union(SubscriptionMask::frame());
        r
    }
}

/// Asking for frame callbacks twice is asking once: the frame bit that
/// `with_frame_callbacks` adds to the subscriptions is already there the
/// second time, and every other field it keeps (its own `ensures`).
pub proof fn lemma_frame_callbacks_idempotent(subscriptions: u64)
    ensures
        (subscriptions | 512) | 512 == subscriptions | 512,
{
    assert((subscriptions | 512) | 512 == subscriptions | 512) by (bit_vector);
}

/// What the host keeps of a registration besides the plugin itself.
struct LoadedPlugin {
    load_order: usize,
    id: String,
    subscriptions: SubscriptionMask,
    draw_phases: Vec<DrawPhase>,
    requires_frame_callbacks: bool,
    resource_limits: ResourceLimits,
}

/// The plugins of a terminal, in the order they were registered, with the
/// union of their subscriptions.
pub struct PluginHost {
    plugins: Vec<LoadedPlugin>,
    instances: Vec<Box<dyn HostedPlugin>>,
    aggregate_subscriptions: SubscriptionMask,
}

/// Abstract state of a host: for each plugin in load order, its id,
/// subscriptions and draw phases; and the union of the subscriptions.
#[verifier::ext_equal]
pub struct PluginHostView {
    pub ids: Seq<Seq<char>>,
    pub subscriptions: Seq<u64>,
    pub draw_phases: Seq<Seq<DrawPhase>>,
    pub aggregate: u64,
}

impl View for PluginHost {
    type V = PluginHostView;

    closed spec fn view(&self) -> PluginHostView {
        PluginHostView {
            ids: Seq::new(self.plugins@.len(), |i: int| self.plugins@[i].id@),
            subscriptions: Seq::new(
                self.plugins@.len(),
                |i: int| self.plugins@[i].subscriptions.0,
            ),
            draw_phases: Seq::new(
                self.plugins@.len(),
                |i: int| self.plugins@[i].draw_phases@,
            ),
            aggregate: self.aggregate_subscriptions.0,
        }
    }
}

/// The union of `masks`.
pub open spec fn union_of(masks: Seq<u64>) -> u64
    decreases masks.len(),
{
    if masks.len() == 0 {
        0
    } else {
        union_of(masks.drop_last()) | masks.last()
    }
}

/// A host is consistent: its aggregate is the union of the plugins'
/// subscriptions and no two plugins share an id.
pub open spec fn host_wf(h: PluginHostView) -> bool {
    &&& h.subscriptions.len() == h.ids.len()
    &&& h.draw_phases.len() == h.ids.len()
    &&& h.aggregate == union_of(h.subscriptions)
    &&& forall|i: int, j: int| 0 <= i < j < h.ids.len() ==> h.ids[i] != h.ids[j]
}

/// Whether a plugin subscribed to `mask` receives `event`.
pub open spec fn receives_event(mask: u64, event: PluginEvent) -> bool {
    mask_receives(mask, plugin_event_kind(event))
}

/// The events of `events` that a plugin subscribed to `mask` receives, in
/// their order.
pub open spec fn events_for(mask: u64, events: Seq<PluginEvent>) -> Seq<PluginEvent>
    decreases events.len(),
{
    if events.len() == 0 {
        Seq::empty()
    } else {
        let rest = events_for(mask, events.drop_last());
        if receives_event(mask, events.last()) {
            rest.push(events.last())
        } else {
            rest
        }
    }
}

/// How many of the first `n` plugins receive at least one of `events`.
pub open spec fn receiving_count(subscriptions: Seq<u64>, events: Seq<PluginEvent>, n: int) -> nat
    decreases n,
{
    if n <= 0 {
        0
    } else {
        receiving_count(subscriptions, events, n - 1) + if events_for(
            subscriptions[n - 1],
            events,
        ).len() > 0 {
            1nat
        } else {
            0nat
        }
    }
}

/// The union of the kinds of `events`.
pub open spec fn kinds_mask(events: Seq<PluginEvent>) -> u64
    decreases events.len(),
{
    if events.len() == 0 {
        0
    } else {
        kinds_mask(events.drop_last()) | kind_bit(plugin_event_kind(events.last()))
    }
}

proof fn lemma_events_for_nonempty(mask: u64, events: Seq<PluginEvent>)
    ensures
        events_for(mask, events).len() <= events.len(),
        events_for(mask, events).len() > 0 ==> exists|i: int|
            0 <= i < events.len() && receives_event(mask, #[trigger] events[i]),
    decreases events.len(),
{
    if events.len() > 0 {
        let prefix = events.drop_last();
        lemma_events_for_nonempty(mask, prefix);
        if events_for(mask, prefix).len() > 0 {
            let i = choose|i: int| 0 <= i < prefix.len() && receives_event(mask, #[trigger] prefix[i]);
            assert(events[i] == prefix[i]);
        }
        if receives_event(mask, events.last()) {
            assert(events[events.len() - 1] == events.last());
        }
    }
}

proof fn lemma_kind_bit_in_mask(events: Seq<PluginEvent>, i: int)
    requires
        0 <= i < events.len(),
    ensures
        kinds_mask(events) & kind_bit(plugin_event_kind(events[i])) == kind_bit(
            plugin_event_kind(events[i]),
        ),
    decreases events.len(),
{
    let b = kind_bit(plugin_event_kind(events[i]));
    let rest = kinds_mask(events.drop_last());
    let last = kind_bit(plugin_event_kind(events.last()));
    if i == events.len() - 1 {
        assert((rest | last) & last == last) by (bit_vector);
    } else {
        lemma_kind_bit_in_mask(events.drop_last(), i);
        assert(events.drop_last()[i] == events[i]);
        assert(rest & b == b ==> (rest | last) & b == b) by (bit_vector);
    }
}

proof fn lemma_union_contains(masks: Seq<u64>, i: int)
    requires
        0 <= i < masks.len(),
    ensures
        union_of(masks) & masks[i] == masks[i],
    decreases masks.len(),
{
    let rest = union_of(masks.drop_last());
    let last = masks.last();
    let m = masks[i];
    if i == masks.len() - 1 {
        assert((rest | last) & last == last) by (bit_vector);
    } else {
        lemma_union_contains(masks.drop_last(), i);
        assert(masks.drop_last()[i] == masks[i]);
        assert(rest & m == m ==> (rest | last) & m == m) by (bit_vector);
    }
}

/// When the union of the subscriptions shares no kind with `events`, no
/// plugin receives any of them.
proof fn lemma_nobody_receives(subscriptions: Seq<u64>, events: Seq<PluginEvent>, n: int)
    requires
        0 <= n <= subscriptions.len(),
        union_of(subscriptions) & kinds_mask(events) == 0,
    ensures
        receiving_count(subscriptions, events, n) == 0,
    decreases n,
{
    if n > 0 {
        lemma_nobody_receives(subscriptions, events, n - 1);
        let mask = subscriptions[n - 1];
        lemma_events_for_nonempty(mask, events);
        if events_for(mask, events).len() > 0 {
            let i = choose|i: int| 0 <= i < events.len() && receives_event(mask, #[trigger] events[i]);
            let b = kind_bit(plugin_event_kind(events[i]));
            lemma_kind_bit_in_mask(events, i);
            lemma_union_contains(subscriptions, n - 1);
            let u = union_of(subscriptions);
            let k = kinds_mask(events);
            assert(b != 0);
            assert((u & mask == mask && mask & b == b && k & b == b && b != 0) ==> u & k != 0)
                by (bit_vector);
        }
    }
}

proof fn lemma_receiving_count_bound(subscriptions: Seq<u64>, events: Seq<PluginEvent>, n: int)
    requires
        0 <= n,
    ensures
        receiving_count(subscriptions, events, n) <= n,
        events.len() == 0 ==> receiving_count(subscriptions, events, n) == 0,
    decreases n,
{
    if n > 0 {
        lemma_receiving_count_bound(subscriptions, events, n - 1);
        lemma_events_for_nonempty(subscriptions[n - 1], events);
    }
}

proof fn lemma_receiving_count_grows(subscriptions: Seq<u64>, events: Seq<PluginEvent>, m: int, n: int)
    requires
        0 <= m <= n,
    ensures
        receiving_count(subscriptions, events, m) <= receiving_count(subscriptions, events, n),
    decreases n - m,
{
    if m < n {
        lemma_receiving_count_grows(subscriptions, events, m, n - 1);
    }
}

/// The events of `events` that a plugin subscribed to `subscriptions`
/// receives, in their order.
pub fn interested_events(subscriptions: SubscriptionMask, events: &[PluginEvent]) -> (r: Vec<
    PluginEvent,
>)
    ensures
        r@ == events_for(subscriptions.0, events@),
{
    let mut r: Vec<PluginEvent> = Vec::new();
    let mut i: usize = 0;
    while i < events.len()
        invariant
            i <= events@.len(),
            r@ == events_for(subscriptions.0, events@.subrange(0, i as int)),
        decreases events@.len() - i,
    {
        let ghost before = events@.subrange(0, i as int);
        assert(events@.subrange(0, i + 1).drop_last() =~= before);
        assert(events@.subrange(0, i + 1).last() == events@[i as int]);
        if subscriptions.contains(events[i].kind().mask()) {
            r.push(events[i].clone());
        }
        i = i + 1;
    }
    assert(events@.subrange(0, events@.len() as int) =~= events@);
    r
}

/// Hands `events` to one plugin.
fn deliver(plugin: &mut Box<dyn HostedPlugin>, events: &[PluginEvent]) -> Result<(), PluginHostError> {
    plugin.on_events(events)
}

/// Lets one plugin draw.
fn draw_with(plugin: &mut Box<dyn HostedPlugin>, context: &mut HostDrawContext<'_>) -> Result<(), PluginHostError> {
    plugin.draw(context)
}

/// The union of the kinds of `events`.
fn events_mask(events: &[PluginEvent]) -> (r: SubscriptionMask)
    ensures
        r.0 == kinds_mask(events@),
{
    let mut mask = SubscriptionMask::none();
    let mut i: usize = 0;
    while i < events.len()
        invariant
            i <= events@.len(),
            mask.0 == kinds_mask(events@.subrange(0, i as int)),
        decreases events@.len() - i,
    {
        assert(events@.subrange(0, i + 1).drop_last() =~= events@.subrange(0, i as int));
        mask = mask | events[i].kind().mask();
        i = i + 1;
    }
    assert(events@.subrange(0, events@.len() as int) =~= events@);
    mask
}

/// The number of a draw phase across the plugin interface; phases draw in
/// its order.
pub open spec fn phase_rank(phase: DrawPhase) -> u32 {
    match phase {
        DrawPhase::BackgroundOverlay => 0,
        DrawPhase::BehindText => 10,
        DrawPhase::AboveText => 20,
        DrawPhase::AboveCursor => 30,
        DrawPhase::UiOverlay => 40,
    }
}

/// Whether the phase list `a` comes before `b` from position `k` on,
/// comparing phase by phase, a list before any longer list it starts.
pub open spec fn phases_before_from(a: Seq<DrawPhase>, b: Seq<DrawPhase>, k: int) -> bool
    decreases a.len() - k,
{
    if k < 0 || k >= a.len() {
        0 <= k < b.len()
    } else if k >= b.len() {
        false
    } else if phase_rank(a[k]) != phase_rank(b[k]) {
        phase_rank(a[k]) < phase_rank(b[k])
    } else {
        phases_before_from(a, b, k + 1)
    }
}

/// Whether the phase list `a` comes before `b`.
pub open spec fn phases_before(a: Seq<DrawPhase>, b: Seq<DrawPhase>) -> bool {
    phases_before_from(a, b, 0)
}

/// Whether plugin `i` draws before plugin `j`: by their phase lists, then
/// in load order.
pub open spec fn draws_before(phases: Seq<Seq<DrawPhase>>, i: int, j: int) -> bool {
    phases_before(phases[i], phases[j]) || (phases[i] == phases[j] && i < j)
}

proof fn lemma_phases_order(a: Seq<DrawPhase>, b: Seq<DrawPhase>, c: Seq<DrawPhase>, k: int)
    requires
        0 <= k,
    ensures
        !phases_before_from(a, a, k),
        phases_before_from(a, b, k) ==> !phases_before_from(b, a, k),
        phases_before_from(a, b, k) && phases_before_from(b, c, k) ==> phases_before_from(a, c, k),
        k <= a.len() && k <= b.len() ==> phases_before_from(a, b, k) || phases_before_from(b, a, k)
            || (a.len() == b.len() && forall|j: int| k <= j < a.len() ==> a[j] == b[j]),
    decreases a.len() + b.len() + c.len() - k,
{
    if k < a.len() || k < b.len() || k < c.len() {
        lemma_phases_order(a, b, c, k + 1);
        if k < a.len() && k < b.len() && phase_rank(a[k]) == phase_rank(b[k]) {
            assert(a[k] == b[k]);
        }
    }
}

/// Two different plugins are drawn in one order or the other, never both,
/// and the order is transitive.
pub proof fn lemma_draw_order_total(phases: Seq<Seq<DrawPhase>>, i: int, j: int, l: int)
    ensures
        !draws_before(phases, i, i),
        draws_before(phases, i, j) ==> !draws_before(phases, j, i),
        draws_before(phases, i, j) && draws_before(phases, j, l) ==> draws_before(phases, i, l),
        i != j ==> draws_before(phases, i, j) || draws_before(phases, j, i),
{
    lemma_phases_order(phases[i], phases[j], phases[l], 0);
    lemma_phases_order(phases[i], phases[i], phases[l], 0);
    lemma_phases_order(phases[j], phases[i], phases[l], 0);
    lemma_phases_order(phases[i], phases[l], phases[j], 0);
    if !phases_before(phases[i], phases[j]) && !phases_before(phases[j], phases[i]) {
        assert(phases[i] =~= phases[j]);
    }
}

/// How many of the first `n` plugins draw in `phase`.
pub open spec fn phase_count(phases: Seq<Seq<DrawPhase>>, phase: DrawPhase, n: int) -> nat
    decreases n,
{
    if n <= 0 {
        0
    } else {
        phase_count(phases, phase, n - 1) + if phases[n - 1].contains(phase) {
            1nat
        } else {
            0nat
        }
    }
}

/// Whether `order` lists, each once, the plugins that draw in `phase`, in
/// drawing order.
pub open spec fn is_draw_order(phases: Seq<Seq<DrawPhase>>, phase: DrawPhase, order: Seq<usize>) -> bool {
    &&& forall|a: int, b: int|
        0 <= a < b < order.len() ==> draws_before(phases, #[trigger] order[a] as int, #[trigger] order[b] as int)
    &&& forall|a: int|
        0 <= a < order.len() ==> #[trigger] order[a] < phases.len() && phases[order[a] as int].contains(phase)
    &&& forall|j: int| 0 <= j < phases.len() && #[trigger] phases[j].contains(phase) ==> order.contains(j as usize)
}

/// Whether `a` comes before `b`.
fn phases_precede(a: &Vec<DrawPhase>, b: &Vec<DrawPhase>) -> (r: bool)
    ensures
        r == phases_before(a@, b@),
{
    let mut k: usize = 0;
    while k < a.len() && k < b.len() && a[k].code() == b[k].code()
        invariant
            k <= a@.len(),
            k <= b@.len(),
            phases_before(a@, b@) == phases_before_from(a@, b@, k as int),
        decreases a@.len() - k,
    {
        k = k + 1;
    }
    if k >= a.len() {
        k < b.len()
    } else if k >= b.len() {
        false
    } else {
        a[k].code() < b[k].code()
    }
}

fn has_phase(phases: &Vec<DrawPhase>, phase: DrawPhase) -> (r: bool)
    ensures
        r == phases@.contains(phase),
{
    let mut k: usize = 0;
    while k < phases.len()
        invariant
            k <= phases@.len(),
            forall|j: int| 0 <= j < k ==> phases@[j] != phase,
        decreases phases@.len() - k,
    {
        if phases[k] == phase {
            return true;
        }
        k = k + 1;
    }
    false
}

/// No more plugins draw in a phase than there are.
pub proof fn lemma_phase_count_bound(phases: Seq<Seq<DrawPhase>>, n: int)
    requires
        0 <= n,
    ensures
        forall|phase: DrawPhase| #[trigger] phase_count(phases, phase, n) <= n,
    decreases n,
{
    if n > 0 {
        lemma_phase_count_bound(phases, n - 1);
        assert forall|phase: DrawPhase| #[trigger] phase_count(phases, phase, n) <= n by {
            assert(phase_count(phases, phase, n - 1) <= n - 1);
        }
    }
}

proof fn lemma_phase_count_grows(phases: Seq<Seq<DrawPhase>>, phase: DrawPhase, m: int, n: int)
    requires
        0 <= m <= n,
    ensures
        phase_count(phases, phase, m) <= phase_count(phases, phase, n),
    decreases n - m,
{
    if m < n {
        lemma_phase_count_grows(phases, phase, m, n - 1);
    }
}

impl PluginHost {
    pub closed spec fn wf(&self) -> bool {
        &&& host_wf(self@)
        &&& self.instances@.len() == self.plugins@.len()
        &&& forall|i: int| 0 <= i < self.plugins@.len() ==> #[trigger] self.plugins@[i].load_order == i
    }

    pub fn new() -> (r: Self)
        ensures
            r.wf(),
            r@ == (PluginHostView {
                ids: Seq::empty(),
                subscriptions: Seq::empty(),
                draw_phases: Seq::empty(),
                aggregate: 0,
            }),
    {
        let r = PluginHost {
            plugins: Vec::new(),
            instances: Vec::new(),
            aggregate_subscriptions: SubscriptionMask::none(),
        };
        assert(r@ =~= (PluginHostView {
            ids: Seq::empty(),
            subscriptions: Seq::empty(),
            draw_phases: Seq::empty(),
            aggregate: 0,
        }));
        r
    }

    pub fn is_empty(&self) -> (r: bool)
        ensures
            r == (self@.ids.len() == 0),
    {
        self.plugins.len() == 0
    }

    /// Whether some plugin wants a callback every frame.
    pub fn requires_frame_callbacks(&self) -> (r: bool)
        ensures
            r == (self@.aggregate & 512 == 512),
    {
        self.aggregate_subscriptions.contains(SubscriptionMask::frame())
    }

    pub fn aggregate_subscriptions(&self) -> (r: SubscriptionMask)
        ensures
            r.0 == self@.aggregate,
    {
        self.aggregate_subscriptions
    }

    /// Hands each plugin the events it subscribed to, in load order, and
    /// tells how many plugins received any; a plugin that fails stops the
    /// dispatch with its error.
    pub fn dispatch_plugin_events(&mut self, events: &[PluginEvent]) -> (r: Result<usize, PluginHostError>)
        requires
            old(self).wf(),
        ensures
            final(self).wf(),
            final(self)@ == old(self)@,
            receiving_count(old(self)@.subscriptions, events@, old(self)@.ids.len() as int) == 0 ==> r
                == Ok::<usize, PluginHostError>(0),
            r matches Ok(n) ==> n == receiving_count(
                old(self)@.subscriptions,
                events@,
                old(self)@.ids.len() as int,
            ),
    {
        let ghost h = self@;
        proof {
            lemma_receiving_count_bound(h.subscriptions, events@, h.ids.len() as int);
        }
        if self.plugins.len() == 0 || events.len() == 0 {
            return Ok(0);
        }
        let event_mask = events_mask(events);
        if !self.aggregate_subscriptions.contains_any(event_mask) {
            proof {
                lemma_nobody_receives(h.subscriptions, events@, h.ids.len() as int);
            }
            return Ok(0);
        }
        let n = self.plugins.len();
        let mut instances: Vec<Box<dyn HostedPlugin>> = Vec::new();
        std::mem::swap(&mut instances, &mut self.instances);
        let mut deliveries: usize = 0;
        let mut i: usize = 0;
        while i < n
            invariant
                i <= n,
                n == h.ids.len(),
                self@ == h,
                h == old(self)@,
                host_wf(h),
                self.instances@.len() == 0,
                forall|k: int| 0 <= k < self.plugins@.len() ==> #[trigger] self.plugins@[k].load_order == k,
                instances@.len() == n,
                self.plugins@.len() == n,
                deliveries == receiving_count(h.subscriptions, events@, i as int),
                deliveries <= i,
            decreases n - i,
        {
            let interested = interested_events(self.plugins[i].subscriptions, events);
            if interested.len() > 0 {
                let ghost before = instances@;
                let result = deliver(&mut instances[i], interested.as_slice());
                proof {
                    vstd::seq::axiom_seq_update_len(before, i as int, instances@[i as int]);
                }
                if let Err(e) = result {
                    proof {
                        lemma_receiving_count_grows(h.subscriptions, events@, i + 1, n as int);
                    }
                    std::mem::swap(&mut instances, &mut self.instances);
                    return Err(e);
                }
                deliveries = deliveries + 1;
            }
            i = i + 1;
        }
        std::mem::swap(&mut instances, &mut self.instances);
        Ok(deliveries)
    }


    /// The plugins that draw in `phase`, in drawing order: by their phase
    /// lists, then in load order.
    pub fn draw_order(&self, phase: DrawPhase) -> (r: Vec<usize>)
        requires
            self.wf(),
        ensures
            is_draw_order(self@.draw_phases, phase, r@),
            r@.len() == phase_count(self@.draw_phases, phase, self@.ids.len() as int),
    {
        let ghost phases = self@.draw_phases;
        let n = self.plugins.len();
        let mut order: Vec<usize> = Vec::new();
        let mut i: usize = 0;
        while i < n
            invariant
                i <= n,
                n == phases.len(),
                phases == self@.draw_phases,
                forall|a: int, b: int|
                    0 <= a < b < order@.len() ==> draws_before(
                        phases,
                        #[trigger] order@[a] as int,
                        #[trigger] order@[b] as int,
                    ),
                forall|a: int|
                    0 <= a < order@.len() ==> #[trigger] order@[a] < i && phases[order@[a] as int].contains(
                        phase,
                    ),
                forall|j: int| 0 <= j < i && #[trigger] phases[j].contains(phase) ==> order@.contains(j as usize),
                order@.len() == phase_count(phases, phase, i as int),
            decreases n - i,
        {
            assert(self.plugins@[i as int].draw_phases@ == phases[i as int]);
            if has_phase(&self.plugins[i].draw_phases, phase) {
                let mut p: usize = 0;
                while p < order.len() && !phases_precede(
                    &self.plugins[i].draw_phases,
                    &self.plugins[order[p]].draw_phases,
                )
                    invariant
                        p <= order@.len(),
                        i < n,
                        n == self.plugins@.len(),
                        phases == self@.draw_phases,
                        forall|a: int| 0 <= a < order@.len() ==> #[trigger] order@[a] < i,
                        forall|a: int| 0 <= a < p ==> draws_before(phases, #[trigger] order@[a] as int, i as int),
                    decreases order@.len() - p,
                {
                    proof {
                        assert(self.plugins@[order@[p as int] as int].draw_phases@ == phases[order@[p as int] as int]);
                        lemma_draw_order_total(phases, order@[p as int] as int, i as int, 0);
                    }
                    p = p + 1;
                }
                let ghost before = order@;
                proof {
                    if p < order@.len() {
                        assert(self.plugins@[order@[p as int] as int].draw_phases@ == phases[order@[p as int] as int]);
                        assert(draws_before(phases, i as int, order@[p as int] as int));
                    }
                    assert forall|b: int| p <= b < before.len() implies draws_before(
                        phases,
                        i as int,
                        #[trigger] before[b] as int,
                    ) by {
                        if b > p {
                            lemma_draw_order_total(phases, i as int, before[p as int] as int, before[b] as int);
                        }
                    }
                }
                order.insert(p, i);
                proof {
                    assert forall|a: int, b: int| 0 <= a < b < order@.len() implies draws_before(
                        phases,
                        #[trigger] order@[a] as int,
                        #[trigger] order@[b] as int,
                    ) by {
                        if a < p && b < p {
                            assert(order@[a] == before[a] && order@[b] == before[b]);
                        } else if a < p && b == p {
                        } else if a < p {
                            assert(order@[a] == before[a] && order@[b] == before[b - 1]);
                            lemma_draw_order_total(phases, before[a] as int, i as int, before[b - 1] as int);
                        } else if a == p {
                            assert(order@[b] == before[b - 1]);
                        } else {
                            assert(order@[a] == before[a - 1] && order@[b] == before[b - 1]);
                        }
                    }
                    assert forall|j: int| 0 <= j < i + 1 && #[trigger] phases[j].contains(phase) implies order@.contains(
                        j as usize,
                    ) by {
                        if j == i {
                            assert(order@[p as int] == i);
                        } else {
                            let a = choose|a: int| 0 <= a < before.len() && before[a] == j as usize;
                            if a < p {
                                assert(order@[a] == before[a]);
                            } else {
                                assert(order@[a + 1] == before[a]);
                            }
                        }
                    }
                    assert forall|a: int| 0 <= a < order@.len() implies #[trigger] order@[a] < i + 1 && phases[order@[a] as int].contains(
                        phase,
                    ) by {
                        if a < p {
                            assert(order@[a] == before[a]);
                        } else if a > p {
                            assert(order@[a] == before[a - 1]);
                        }
                    }
                }
            } else {
                proof {
                    assert forall|j: int| 0 <= j < i + 1 && #[trigger] phases[j].contains(phase) implies order@.contains(
                        j as usize,
                    ) by {
                        assert(j < i);
                    }
                }
            }
            i = i + 1;
        }
        order
    }

    /// Lets each plugin that draws in `phase` draw, in drawing order, within
    /// `clip`, and tells how many drew; a plugin that fails stops the phase
    /// with its error.
    pub fn draw_phase(
        &mut self,
        phase: DrawPhase,
        frame_index: u64,
        clip: ClipRect,
        commands: &mut CommandBuffer,
    ) -> (r: Result<usize, PluginHostError>)
        requires
            old(self).wf(),
        ensures
            final(self).wf(),
            final(self)@ == old(self)@,
            phase_count(old(self)@.draw_phases, phase, old(self)@.ids.len() as int) == 0 ==> r == Ok::<
                usize,
                PluginHostError,
            >(0) && final(commands)@ == old(commands)@,
            r matches Ok(n) ==> n == phase_count(old(self)@.draw_phases, phase, old(self)@.ids.len() as int),
    {
        let ghost h = self@;
        if self.plugins.len() == 0 {
            return Ok(0);
        }
        let order = self.draw_order(phase);
        let mut instances: Vec<Box<dyn HostedPlugin>> = Vec::new();
        std::mem::swap(&mut instances, &mut self.instances);
        let n = self.plugins.len();
        let mut draws: usize = 0;
        while draws < order.len()
            invariant
                draws <= order@.len(),
                n == h.ids.len(),
                self@ == h,
                h == old(self)@,
                host_wf(h),
                self.instances@.len() == 0,
                forall|k: int| 0 <= k < self.plugins@.len() ==> #[trigger] self.plugins@[k].load_order == k,
                self.plugins@.len() == n,
                instances@.len() == n,
                is_draw_order(h.draw_phases, phase, order@),
                order@.len() == phase_count(h.draw_phases, phase, n as int),
                draws == 0 ==> commands@ == old(commands)@,
            decreases order@.len() - draws,
        {
            let index = order[draws];
            let mut context = HostDrawContext::new(&self.plugins[index].id, phase, frame_index, clip, commands);
            let ghost before = instances@;
            let result = draw_with(&mut instances[index], &mut context);
            proof {
                vstd::seq::axiom_seq_update_len(before, index as int, instances@[index as int]);
            }
            if let Err(e) = result {
                std::mem::swap(&mut instances, &mut self.instances);
                return Err(e);
            }
            draws = draws + 1;
        }
        std::mem::swap(&mut instances, &mut self.instances);
        Ok(draws)
    }

    /// Reports core events to the plugins as plugin events; see
    /// `dispatch_plugin_events`.
    pub fn dispatch_core_events(&mut self, events: &[CoreEvent]) -> (r: Result<usize, PluginHostError>)
        requires
            old(self).wf(),
        ensures
            final(self).wf(),
            final(self)@ == old(self)@,
            receiving_count(
                old(self)@.subscriptions,
                Seq::new(events@.len(), |i: int| plugin_event_of(events@[i])),
                old(self)@.ids.len() as int,
            ) == 0 ==> r == Ok::<usize, PluginHostError>(0),
            r matches Ok(n) ==> n == receiving_count(
                old(self)@.subscriptions,
                Seq::new(events@.len(), |i: int| plugin_event_of(events@[i])),
                old(self)@.ids.len() as int,
            ),
    {
        let ghost mapped_view = Seq::new(events@.len(), |i: int| plugin_event_of(events@[i]));
        if self.plugins.len() == 0 || events.len() == 0 {
            proof {
                lemma_receiving_count_bound(self@.subscriptions, mapped_view, self@.ids.len() as int);
            }
            return Ok(0);
        }
        let mut mapped: Vec<PluginEvent> = Vec::new();
        let mut i: usize = 0;
        while i < events.len()
            invariant
                i <= events@.len(),
                mapped@ == Seq::new(i as nat, |k: int| plugin_event_of(events@[k])),
            decreases events@.len() - i,
        {
            mapped.push(map_core_event(&events[i]));
            i = i + 1;
        }
        assert(mapped@ =~= mapped_view);
        self.dispatch_plugin_events(mapped.as_slice())
    }

    /// Adds a plugin after the others; refuses one whose id is taken.
    pub fn register(&mut self, registration: PluginRegistration) -> (r: Result<(), PluginHostError>)
        requires
            old(self).wf(),
        ensures
            final(self).wf(),
            r is Err <==> old(self)@.ids.contains(registration.id@),
            r matches Err(e) ==> final(self)@ == old(self)@ && (e matches PluginHostError::DuplicatePluginId(
                id,
            ) && id@ == registration.id@),
            r is Ok ==> final(self)@ == (PluginHostView {
                ids: old(self)@.ids.push(registration.id@),
                subscriptions: old(self)@.subscriptions.push(registration.subscriptions.0),
                draw_phases: old(self)@.draw_phases.push(registration.draw_phases@),
                aggregate: old(self)@.aggregate | registration.subscriptions.0,
            }),
    {
        let ghost h = self@;
        let n = self.plugins.len();
        let mut i: usize = 0;
        while i < n
            invariant
                i <= n,
                n == self.plugins@.len(),
                h == self@,
                self.wf(),
                forall|k: int| 0 <= k < i ==> h.ids[k] != registration.id@,
            decreases n - i,
        {
            if self.plugins[i].id == registration.id {
                assert(h.ids[i as int] == registration.id@);
                return Err(PluginHostError::DuplicatePluginId(registration.id));
            }
            i = i + 1;
        }
        assert(!h.ids.contains(registration.id@));
        self.aggregate_subscriptions = self.aggregate_subscriptions.union(registration.subscriptions);
        let PluginRegistration {
            id,
            subscriptions,
            draw_phases,
            requires_frame_callbacks,
            resource_limits,
            plugin,
        } = registration;
        self.plugins.push(
            LoadedPlugin {
                load_order: n,
                id,
                subscriptions,
                draw_phases,
                requires_frame_callbacks,
                resource_limits,
            },
        );
        proof {
            vstd::seq::axiom_seq_push_len(self.instances@, plugin);
        }
        self.instances.push(plugin);
        assert forall|k: int| 0 <= k < self.plugins@.len() implies #[trigger] self.plugins@[k].load_order == k by {
            if k < n {
                assert(self.plugins@[k] == old(self).plugins@[k]);
            }
        }
        proof {
            let v = self@;
            assert(v.subscriptions =~= h.subscriptions.push(v.subscriptions.last()));
            assert(v.ids =~= h.ids.push(v.ids.last()));
            assert(v.draw_phases =~= h.draw_phases.push(v.draw_phases.last()));
            assert(v.subscriptions.drop_last() =~= h.subscriptions);
        }
        Ok(())
    }
}

impl Default for PluginHost {
    fn default() -> (r: Self)
        ensures
            r.wf(),
            r@.ids.len() == 0,
            r@.aggregate == 0,
    {
        PluginHost::new()
    }
}

/// What a plugin has allocated against its limits.
#[derive(Debug, Clone, PartialEq, Eq)]
pub struct ResourceLedger {
    limits: ResourceLimits,
    textures: u32,
    buffers: u32,
    bytes: u64,
}

/// Abstract state of a ledger.
pub struct LedgerState {
    pub limits: ResourceLimits,
    pub textures: nat,
    pub buffers: nat,
    pub bytes: nat,
}

impl View for ResourceLedger {
    type V = LedgerState;

    closed spec fn view(&self) -> LedgerState {
        LedgerState {
            limits: self.limits,
            textures: self.textures as nat,
            buffers: self.buffers as nat,
            bytes: self.bytes as nat,
        }
    }
}

/// A ledger never holds more than its limits allow.
pub open spec fn ledger_within_limits(l: LedgerState) -> bool {
    &&& l.textures <= l.limits.max_textures
    &&& l.buffers <= l.limits.max_buffers
    &&& l.bytes <= l.limits.max_bytes
}

/// Whether a texture of `width` by `height` and `bytes` fits what is left.
pub open spec fn texture_fits(l: LedgerState, width: u32, height: u32, bytes: u64) -> bool {
    &&& l.textures + 1 <= l.limits.max_textures
    &&& width <= l.limits.max_texture_edge
    &&& height <= l.limits.max_texture_edge
    &&& l.bytes + bytes <= l.limits.max_bytes
}

/// Whether a buffer of `bytes` fits what is left.
pub open spec fn buffer_fits(l: LedgerState, bytes: u64) -> bool {
    &&& l.buffers + 1 <= l.limits.max_buffers
    &&& l.bytes + bytes <= l.limits.max_bytes
}

/// The error of a refused reservation: the plugin and the resource it names.
pub open spec fn is_limit_error(r: Result<(), PluginHostError>, plugin_id: Seq<char>, resource: Seq<char>) -> bool {
    r matches Err(PluginHostError::ResourceLimitExceeded { plugin_id: id, resource: name }) && id@
        == plugin_id && name@ == resource
}

impl ResourceLedger {
    pub closed spec fn wf(&self) -> bool {
        ledger_within_limits(self@)
    }

    pub fn new(limits: ResourceLimits) -> (r: Self)
        ensures
            r.wf(),
            r@ == (LedgerState { limits, textures: 0, buffers: 0, bytes: 0 }),
    {
        ResourceLedger { limits, textures: 0, buffers: 0, bytes: 0 }
    }

    /// Records a texture, or refuses it when it would exceed a limit.
    pub fn reserve_texture(&mut self, plugin_id: &str, width: u32, height: u32, bytes: u64) -> (r:
        Result<(), PluginHostError>)
        requires
            old(self).wf(),
            old(self)@.bytes + bytes <= u64::MAX || old(self)@.limits.max_bytes < u64::MAX,
        ensures
            final(self).wf(),
            r is Ok <==> texture_fits(old(self)@, width, height, bytes),
            r is Ok ==> final(self)@ == (LedgerState {
                textures: old(self)@.textures + 1,
                bytes: old(self)@.bytes + bytes as nat,
                ..old(self)@
            }),
            r is Err ==> final(self)@ == old(self)@ && is_limit_error(r, plugin_id@, "texture"@),
    {
        if self.textures as u64 + 1 > self.limits.max_textures as u64 || width
            > self.limits.max_texture_edge || height > self.limits.max_texture_edge
            || self.bytes.saturating_add(bytes) > self.limits.max_bytes {
            return Err(
                PluginHostError::ResourceLimitExceeded {
                    plugin_id: plugin_id.to_owned(),
                    resource: "texture",
                },
            );
        }
        self.textures = self.textures + 1;
        self.bytes = self.bytes + bytes;
        Ok(())
    }

    /// Records a buffer, or refuses it when it would exceed a limit.
    pub fn reserve_buffer(&mut self, plugin_id: &str, bytes: u64) -> (r: Result<(), PluginHostError>)
        requires
            old(self).wf(),
            old(self)@.bytes + bytes <= u64::MAX || old(self)@.limits.max_bytes < u64::MAX,
        ensures
            final(self).wf(),
            r is Ok <==> buffer_fits(old(self)@, bytes),
            r is Ok ==> final(self)@ == (LedgerState {
                buffers: old(self)@.buffers + 1,
                bytes: old(self)@.bytes + bytes as nat,
                ..old(self)@
            }),
            r is Err ==> final(self)@ == old(self)@ && is_limit_error(r, plugin_id@, "buffer"@),
    {
        if self.buffers as u64 + 1 > self.limits.max_buffers as u64 || self.bytes.saturating_add(
            bytes,
        ) > self.limits.max_bytes {
            return Err(
                PluginHostError::ResourceLimitExceeded {
                    plugin_id: plugin_id.to_owned(),
                    resource: "buffer",
                },
            );
        }
        self.buffers = self.buffers + 1;
        self.bytes = self.bytes + bytes;
        Ok(())
    }
}

/// The plugin event that reports a core event.
pub open spec fn plugin_event_of(event: CoreEvent) -> PluginEvent {
    match event {
        CoreEvent::KeyPress(keypress) => PluginEvent::KeyPress { logical_key: keypress.logical_key },
        CoreEvent::CursorMoved { previous, current } => PluginEvent::CursorMoved {
            previous: (previous.x, previous.y),
            current: (current.x, current.y),
        },
        CoreEvent::CellChanged { x, y, cell } => PluginEvent::CellChanged { x, y, ch: cell.ch },
        CoreEvent::LineChanged { y } => PluginEvent::LineChanged { y },
        CoreEvent::ViewportChanged => PluginEvent::ViewportChanged,
        CoreEvent::ModeChanged { name, enabled } => PluginEvent::ModeChanged { name, enabled },
        CoreEvent::SelectionChanged => PluginEvent::SelectionChanged,
        CoreEvent::TitleChanged(title) => PluginEvent::TitleChanged(title),
        CoreEvent::Bell => PluginEvent::Bell,
    }
}

/// The plugin event that reports a core event.
pub fn map_core_event(event: &CoreEvent) -> (r: PluginEvent)
    ensures
        r == plugin_event_of(*event),
        plugin_event_kind(r) == core_kind_as_plugin_kind(crate::event::event_kind(*event)),
{
    match event {
        CoreEvent::KeyPress(keypress) => PluginEvent::KeyPress {
            logical_key: keypress.logical_key.clone(),
        },
        CoreEvent::CursorMoved { previous, current } => PluginEvent::CursorMoved {
            previous: (previous.x, previous.y),
            current: (current.x, current.y),
        },
        CoreEvent::CellChanged { x, y, cell } => PluginEvent::CellChanged { x: *x, y: *y, ch: cell.ch },
        CoreEvent::LineChanged { y } => PluginEvent::LineChanged { y: *y },
        CoreEvent::ViewportChanged => PluginEvent::ViewportChanged,
        CoreEvent::ModeChanged { name, enabled } => PluginEvent::ModeChanged {
            name: *name,
            enabled: *enabled,
        },
        CoreEvent::SelectionChanged => PluginEvent::SelectionChanged,
        CoreEvent::TitleChanged(title) => PluginEvent::TitleChanged(title.clone()),
        CoreEvent::Bell => PluginEvent::Bell,
    }
}

/// The plugin event kind that reports a core event kind.
pub open spec fn core_kind_as_plugin_kind(kind: crate::event::CoreEventKind) -> crate::plugins_api::EventKind {
    match kind {
        crate::event::CoreEventKind::KeyPress => crate::plugins_api::EventKind::KeyPress,
        crate::event::CoreEventKind::CursorMoved => crate::plugins_api::EventKind::CursorMoved,
        crate::event::CoreEventKind::CellChanged => crate::plugins_api::EventKind::CellChanged,
        crate::event::CoreEventKind::LineChanged => crate::plugins_api::EventKind::LineChanged,
        crate::event::CoreEventKind::ViewportChanged => crate::plugins_api::EventKind::ViewportChanged,
        crate::event::CoreEventKind::ModeChanged => crate::plugins_api::EventKind::ModeChanged,
        crate::event::CoreEventKind::SelectionChanged => crate::plugins_api::EventKind::SelectionChanged,
        crate::event::CoreEventKind::TitleChanged => crate::plugins_api::EventKind::TitleChanged,
        crate::event::CoreEventKind::Bell => crate::plugins_api::EventKind::Bell,
    }
}

} // verus!
