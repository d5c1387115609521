use termite_core::plugin_sdk::{PluginDrawContext, PluginMetadata};
use termite_core::plugins_api::{CommandBuffer, DrawPhase, ResourceLimits, SubscriptionMask};

#[test]
fn frame_callback_metadata_adds_frame_subscription() {
    static PHASES: [DrawPhase; 1] = [DrawPhase::AboveText];
    let metadata =
        PluginMetadata::new("example", "Example", SubscriptionMask::key_press(), &PHASES).with_frame_callbacks();

    assert!(metadata.requires_frame_callbacks);
    assert!(metadata.subscriptions.contains(SubscriptionMask::frame()));
}

#[test]
fn new_metadata_has_default_limits_and_no_frame_callbacks() {
    static PHASES: [DrawPhase; 0] = [];
    let metadata = PluginMetadata::new("a", "A", SubscriptionMask::none(), &PHASES);

    assert!(!metadata.requires_frame_callbacks);
    assert_eq!(metadata.resource_limits, ResourceLimits::default());
    assert_eq!(metadata.subscriptions, SubscriptionMask::none());
}

#[test]
fn draw_context_reports_its_phase_and_frame() {
    let mut commands = CommandBuffer::default();
    let mut context = PluginDrawContext::new(DrawPhase::UiOverlay, 7, &mut commands);

    assert_eq!(context.phase(), DrawPhase::UiOverlay);
    assert_eq!(context.frame_index(), 7);
    assert!(context.commands().commands().is_empty());
}
