use termite_core::event::{CoreEvent, CursorPosition};
use termite_core::plugins_api::{
    abi_version, AbiStatus, AbiVersion, ClipRect, CommandBuffer, DrawCommand, DrawPhase, EventKind,
    PluginEvent, ResourceLimits, SubscriptionMask,
};
use termite_core::plugins_host::{
    interested_events, map_core_event, HostDrawContext, HostedPlugin, PluginHost,
    PluginHostError, PluginRegistration, ResourceLedger,
};
use std::sync::{Arc, Mutex};

#[test]
fn subscription_masks_compose() {
    let mask = SubscriptionMask::key_press() | SubscriptionMask::frame();

    assert!(mask.contains(SubscriptionMask::key_press()));
    assert!(mask.contains(SubscriptionMask::frame()));
    assert!(!mask.contains(SubscriptionMask::bell()));
}

#[test]
fn clip_rect_containment_is_enforced_geometrically() {
    let outer = ClipRect {
        x: 10,
        y: 10,
        width: 100,
        height: 100,
    };
    let inner = ClipRect {
        x: 20,
        y: 20,
        width: 10,
        height: 10,
    };
    let escaping = ClipRect {
        x: 0,
        y: 20,
        width: 10,
        height: 10,
    };

    assert!(outer.contains(inner));
    assert!(!outer.contains(escaping));
}

#[test]
fn resource_ledger_rejects_over_budget_textures() {
    let mut ledger = ResourceLedger::new(ResourceLimits {
        max_textures: 1,
        max_buffers: 1,
        max_texture_edge: 16,
        max_bytes: 128,
    });

    assert!(ledger.reserve_texture("p", 16, 16, 64).is_ok());
    assert!(matches!(
        ledger.reserve_texture("p", 16, 16, 64),
        Err(PluginHostError::ResourceLimitExceeded { .. })
    ));
}

#[test]
fn resource_ledger_rejects_oversized_textures_and_extra_buffers() {
    let mut ledger = ResourceLedger::new(ResourceLimits {
        max_textures: 4,
        max_buffers: 1,
        max_texture_edge: 16,
        max_bytes: 100,
    });
    assert_eq!(
        ledger.reserve_texture("p", 17, 1, 1),
        Err(PluginHostError::ResourceLimitExceeded {
            plugin_id: "p".to_owned(),
            resource: "texture",
        })
    );
    assert!(ledger.reserve_buffer("p", 60).is_ok());
    assert_eq!(
        ledger.reserve_buffer("q", 1),
        Err(PluginHostError::ResourceLimitExceeded {
            plugin_id: "q".to_owned(),
            resource: "buffer",
        })
    );
    assert!(ledger.reserve_texture("p", 2, 2, 41).is_err());
    assert!(ledger.reserve_texture("p", 2, 2, 40).is_ok());
}

#[test]
fn abi_versions_are_compatible_within_a_major_version() {
    let plugin = AbiVersion { major: 0, minor: 1 };
    assert!(plugin.is_compatible_with(abi_version()));
    assert!(plugin.is_compatible_with(AbiVersion { major: 0, minor: 3 }));
    assert!(!plugin.is_compatible_with(AbiVersion { major: 0, minor: 0 }));
    assert!(!plugin.is_compatible_with(AbiVersion { major: 1, minor: 1 }));
    assert_eq!(AbiStatus::Unsupported.code(), 2);
}

#[test]
fn event_kinds_map_to_their_masks() {
    assert_eq!(EventKind::Bell.mask(), SubscriptionMask::bell());
    assert_eq!(EventKind::Frame.mask(), SubscriptionMask(512));
    assert_eq!(PluginEvent::Frame { frame_index: 3 }.kind(), EventKind::Frame);
    assert!(SubscriptionMask::none().is_empty());
    assert!(SubscriptionMask(3).contains_any(SubscriptionMask::cursor_moved()));
    assert_eq!(
        SubscriptionMask::bell().union(SubscriptionMask::key_press()),
        SubscriptionMask(257)
    );
    assert_eq!(DrawPhase::AboveText.code(), 20);
}

#[test]
fn draw_context_keeps_quads_inside_the_clip() {
    let mut commands = CommandBuffer::default();
    let clip = ClipRect {
        x: 0,
        y: 0,
        width: 10,
        height: 10,
    };
    {
        let mut context = HostDrawContext::new("drawer", DrawPhase::AboveText, 4, clip, &mut commands);
        assert_eq!(context.phase(), DrawPhase::AboveText);
        assert_eq!(context.frame_index(), 4);
        assert!(context.draw_quad(context.allowed_clip()).is_ok());
        let wide = ClipRect {
            x: 0,
            y: 0,
            width: 11,
            height: 10,
        };
        assert_eq!(
            context.draw_quad(wide),
            Err(PluginHostError::ClipEscaped {
                plugin_id: "drawer".to_owned(),
                allowed: clip,
                requested: wide,
            })
        );
    }
    assert_eq!(commands.commands(), &[DrawCommand::DrawQuad { clip }]);
    commands.clear();
    assert!(commands.commands().is_empty());
}

struct Idle;

impl HostedPlugin for Idle {}

#[test]
fn registration_with_frame_callbacks_subscribes_to_frames() {
    let registration = PluginRegistration::new(
        "idle",
        SubscriptionMask::bell(),
        vec![DrawPhase::UiOverlay],
        Box::new(Idle),
    )
    .with_frame_callbacks();
    assert!(registration.requires_frame_callbacks);
    assert!(registration.subscriptions.contains(SubscriptionMask::frame()));
    assert!(registration.subscriptions.contains(SubscriptionMask::bell()));
    assert_eq!(registration.id, "idle");
    assert_eq!(registration.resource_limits, ResourceLimits::default());
}

#[test]
fn asking_for_frame_callbacks_twice_is_asking_once() {
    let once = PluginRegistration::new(
        "idle",
        SubscriptionMask::bell(),
        vec![DrawPhase::UiOverlay],
        Box::new(Idle),
    )
    .with_frame_callbacks();
    let once_subscriptions = once.subscriptions;
    let twice = once.with_frame_callbacks();
    assert!(twice.requires_frame_callbacks);
    assert_eq!(twice.subscriptions, once_subscriptions);
    assert_eq!(twice.id, "idle");
    assert_eq!(twice.draw_phases, vec![DrawPhase::UiOverlay]);
    assert_eq!(twice.resource_limits, ResourceLimits::default());
}

#[test]
fn core_events_map_to_plugin_events() {
    let event = CoreEvent::CursorMoved {
        previous: CursorPosition { x: 1, y: 2 },
        current: CursorPosition { x: 3, y: 4 },
    };
    assert_eq!(
        map_core_event(&event),
        PluginEvent::CursorMoved {
            previous: (1, 2),
            current: (3, 4),
        }
    );
    assert_eq!(map_core_event(&CoreEvent::Bell), PluginEvent::Bell);
}

#[derive(Default)]
struct RecordingPlugin {
    events: Arc<Mutex<Vec<PluginEvent>>>,
}

impl HostedPlugin for RecordingPlugin {
    fn on_events(&mut self, events: &[PluginEvent]) -> Result<(), PluginHostError> {
        self.events.lock().unwrap().extend_from_slice(events);
        Ok(())
    }
}

struct DrawingPlugin;

impl HostedPlugin for DrawingPlugin {
    fn draw(&mut self, context: &mut HostDrawContext<'_>) -> Result<(), PluginHostError> {
        context.draw_quad(context.allowed_clip())
    }
}

struct FailingPlugin;

impl HostedPlugin for FailingPlugin {
    fn on_events(&mut self, _events: &[PluginEvent]) -> Result<(), PluginHostError> {
        Err(PluginHostError::DuplicatePluginId("failing".to_owned()))
    }
}

#[test]
fn empty_host_has_zero_dispatch_cost_path() {
    let mut host = PluginHost::new();

    assert_eq!(
        host.dispatch_plugin_events(&[PluginEvent::Bell]).unwrap(),
        0
    );
}

#[test]
fn events_are_delivered_only_to_subscribers() {
    let events = Arc::new(Mutex::new(Vec::new()));
    let mut host = PluginHost::new();
    host.register(PluginRegistration::new(
        "recorder",
        SubscriptionMask::bell(),
        Vec::new(),
        Box::new(RecordingPlugin {
            events: events.clone(),
        }),
    ))
    .unwrap();

    assert_eq!(
        host.dispatch_plugin_events(&[
            PluginEvent::KeyPress {
                logical_key: "a".to_owned()
            },
            PluginEvent::Bell,
        ])
        .unwrap(),
        1
    );
    assert_eq!(events.lock().unwrap().as_slice(), &[PluginEvent::Bell]);
}

#[test]
fn draw_context_enforces_clip() {
    let mut commands = CommandBuffer::default();
    let mut host = PluginHost::new();
    host.register(PluginRegistration::new(
        "drawer",
        SubscriptionMask::none(),
        vec![DrawPhase::AboveText],
        Box::new(DrawingPlugin),
    ))
    .unwrap();

    let clip = ClipRect {
        x: 0,
        y: 0,
        width: 10,
        height: 10,
    };
    assert_eq!(
        host.draw_phase(DrawPhase::AboveText, 1, clip, &mut commands)
            .unwrap(),
        1
    );
    assert_eq!(commands.commands().len(), 1);
}

#[test]
fn duplicate_plugin_ids_are_refused() {
    let mut host = PluginHost::new();
    assert!(host
        .register(PluginRegistration::new("idle", SubscriptionMask::bell(), Vec::new(), Box::new(Idle)))
        .is_ok());
    assert_eq!(
        host.register(PluginRegistration::new(
            "idle",
            SubscriptionMask::key_press(),
            Vec::new(),
            Box::new(Idle)
        )),
        Err(PluginHostError::DuplicatePluginId("idle".to_owned()))
    );
    assert_eq!(host.aggregate_subscriptions(), SubscriptionMask::bell());
    assert!(!host.requires_frame_callbacks());
    assert!(!host.is_empty());
}

#[test]
fn frame_callbacks_join_the_aggregate_subscriptions() {
    let mut host = PluginHost::new();
    assert!(host.is_empty());
    host.register(
        PluginRegistration::new("idle", SubscriptionMask::bell(), Vec::new(), Box::new(Idle))
            .with_frame_callbacks(),
    )
    .unwrap();
    assert!(host.requires_frame_callbacks());
    assert_eq!(host.aggregate_subscriptions(), SubscriptionMask(256 | 512));
}

#[test]
fn draw_order_follows_phase_lists_then_load_order() {
    let mut host = PluginHost::new();
    host.register(PluginRegistration::new(
        "late",
        SubscriptionMask::none(),
        vec![DrawPhase::AboveText, DrawPhase::UiOverlay],
        Box::new(Idle),
    ))
    .unwrap();
    host.register(PluginRegistration::new(
        "early",
        SubscriptionMask::none(),
        vec![DrawPhase::BehindText, DrawPhase::AboveText],
        Box::new(Idle),
    ))
    .unwrap();
    host.register(PluginRegistration::new(
        "plain",
        SubscriptionMask::none(),
        vec![DrawPhase::AboveText],
        Box::new(Idle),
    ))
    .unwrap();
    host.register(PluginRegistration::new(
        "other",
        SubscriptionMask::none(),
        vec![DrawPhase::BackgroundOverlay],
        Box::new(Idle),
    ))
    .unwrap();
    host.register(PluginRegistration::new(
        "plain_too",
        SubscriptionMask::none(),
        vec![DrawPhase::AboveText],
        Box::new(Idle),
    ))
    .unwrap();

    assert_eq!(host.draw_order(DrawPhase::AboveText), vec![1, 2, 4, 0]);
    assert_eq!(host.draw_order(DrawPhase::AboveCursor), Vec::<usize>::new());
    let mut commands = CommandBuffer::default();
    let clip = ClipRect::default();
    assert_eq!(host.draw_phase(DrawPhase::AboveCursor, 0, clip, &mut commands), Ok(0));
    assert_eq!(host.draw_phase(DrawPhase::AboveText, 0, clip, &mut commands), Ok(4));
    assert!(commands.commands().is_empty());
}

#[test]
fn failing_plugin_stops_the_dispatch() {
    let events = Arc::new(Mutex::new(Vec::new()));
    let mut host = PluginHost::new();
    host.register(PluginRegistration::new("failing", SubscriptionMask::bell(), Vec::new(), Box::new(FailingPlugin)))
        .unwrap();
    host.register(PluginRegistration::new(
        "recorder",
        SubscriptionMask::bell(),
        Vec::new(),
        Box::new(RecordingPlugin {
            events: events.clone(),
        }),
    ))
    .unwrap();
    assert!(host.dispatch_plugin_events(&[PluginEvent::Bell]).is_err());
    assert!(events.lock().unwrap().is_empty());
    assert_eq!(host.dispatch_plugin_events(&[PluginEvent::ViewportChanged]), Ok(0));
}

#[test]
fn core_events_are_dispatched_as_plugin_events() {
    let events = Arc::new(Mutex::new(Vec::new()));
    let mut host = PluginHost::new();
    host.register(PluginRegistration::new(
        "recorder",
        SubscriptionMask::viewport_changed() | SubscriptionMask::cursor_moved(),
        Vec::new(),
        Box::new(RecordingPlugin {
            events: events.clone(),
        }),
    ))
    .unwrap();
    let core = [
        CoreEvent::Bell,
        CoreEvent::ViewportChanged,
        CoreEvent::CursorMoved {
            previous: CursorPosition { x: 0, y: 0 },
            current: CursorPosition { x: 1, y: 0 },
        },
    ];
    assert_eq!(host.dispatch_core_events(&core), Ok(1));
    assert_eq!(
        events.lock().unwrap().as_slice(),
        &[
            PluginEvent::ViewportChanged,
            PluginEvent::CursorMoved {
                previous: (0, 0),
                current: (1, 0)
            }
        ]
    );
}

#[test]
fn interested_events_keep_order_and_drop_others() {
    let events = [
        PluginEvent::Bell,
        PluginEvent::LineChanged { y: 2 },
        PluginEvent::Bell,
        PluginEvent::Frame { frame_index: 7 },
    ];
    assert_eq!(
        interested_events(SubscriptionMask::bell() | SubscriptionMask::frame(), &events),
        vec![
            PluginEvent::Bell,
            PluginEvent::Bell,
            PluginEvent::Frame { frame_index: 7 }
        ]
    );
    assert!(interested_events(SubscriptionMask::none(), &events).is_empty());
}
