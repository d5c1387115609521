use termite_core::frame_schedule::{FrameSchedule, TimerOutcome};

const MS: u64 = 1_000_000;

#[test]
fn a_redraw_is_asked_once_until_the_frame_starts() {
    let mut schedule = FrameSchedule::new();

    assert!(schedule.request_frame(0, true));
    assert!(!schedule.request_frame(0, true));
    schedule.frame_started();
    assert!(!schedule.redraw_pending);
}

#[test]
fn no_redraw_is_asked_without_a_window() {
    let mut schedule = FrameSchedule::new();

    assert!(!schedule.request_frame(0, false));
    assert!(!schedule.redraw_pending);
}

#[test]
fn frames_within_the_interval_are_held_back() {
    let mut schedule = FrameSchedule::new();
    schedule.frame_started();
    schedule.frame_finished(0, MS, false);

    assert!(!schedule.request_frame(2 * MS, true));
    assert_eq!(schedule.frame_deadline, Some(9 * MS));
    assert_eq!(
        schedule.timers_if_due(5 * MS, true),
        TimerOutcome {
            sync_expired: false,
            redraw: false,
            wake_at: Some(9 * MS)
        }
    );
    assert_eq!(
        schedule.timers_if_due(9 * MS, true),
        TimerOutcome {
            sync_expired: false,
            redraw: true,
            wake_at: None
        }
    );
}

#[test]
fn output_is_drawn_after_a_quiet_time_or_the_longest_wait() {
    let mut schedule = FrameSchedule::new();
    schedule.after_output(0, false);
    schedule.after_output(100_000, false);

    assert_eq!(schedule.render_lower_deadline, Some(250_000));
    assert_eq!(schedule.render_upper_deadline, Some(4 * MS));
    assert_eq!(schedule.next_deadline(), Some(250_000));
    let outcome = schedule.timers_if_due(260_000, true);
    assert!(outcome.redraw);
    assert_eq!(schedule.render_lower_deadline, None);
    assert_eq!(schedule.render_upper_deadline, None);
}

#[test]
fn a_synchronized_update_times_out() {
    let mut schedule = FrameSchedule::new();
    schedule.after_output(0, true);

    assert_eq!(schedule.render_lower_deadline, None);
    assert_eq!(schedule.next_deadline(), Some(1_000 * MS));
    let outcome = schedule.timers_if_due(1_000 * MS, true);
    assert!(outcome.sync_expired);
    assert!(outcome.redraw);
}

#[test]
fn animation_steps_respect_the_frame_interval() {
    let mut schedule = FrameSchedule::new();
    schedule.frame_started();
    schedule.frame_finished(10 * MS, 12 * MS, true);

    assert_eq!(schedule.animation_deadline, Some(18 * MS));
    assert_eq!(
        schedule.timers_if_due(18 * MS, true),
        TimerOutcome {
            sync_expired: false,
            redraw: false,
            wake_at: Some(20 * MS)
        }
    );
}
