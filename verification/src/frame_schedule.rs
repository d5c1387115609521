//! When the window draws: frames are paced to one per frame interval, a
//! redraw is asked for at most once until it is drawn, output is drawn a
//! little after it arrives (sooner when it keeps coming), a synchronized
//! update waits for its end or a timeout, and animations ask for the next
//! frame. Times are nanoseconds on a monotonic clock.
use vstd::prelude::*;

verus! {

/// The shortest time between two frames.
pub const FRAME_INTERVAL_NS: u64 = 8_000_000;

/// The time after a frame at which an animating plugin gets the next one.
pub const ANIMATION_FRAME_NS: u64 = 8_000_000;

/// The quiet time after output before it is drawn.
pub const DELAYED_RENDER_LOWER_NS: u64 = 150_000;

/// The longest that output waits to be drawn while more keeps coming.
pub const DELAYED_RENDER_UPPER_NS: u64 = 4_000_000;

/// The longest that a synchronized update holds back drawing.
pub const APP_SYNC_TIMEOUT_NS: u64 = 1_000_000_000;

/// The latest time the schedule takes: every deadline it sets from such a
/// time fits in `u64`.
pub const TIME_LIMIT: u64 = 18_446_744_072_709_551_615;

/// The drawing schedule of a window.
#[derive(Debug, Clone, Copy, PartialEq, Eq)]
pub struct FrameSchedule {
    /// A redraw was asked of the window and not drawn yet.
    pub redraw_pending: bool,
    /// When the last frame was finished.
    pub last_render: Option<u64>,
    /// When a frame held back by the frame interval is due.
    pub frame_deadline: Option<u64>,
    /// When an animating plugin's next frame is due.
    pub animation_deadline: Option<u64>,
    /// When output is drawn if no more arrives.
    pub render_lower_deadline: Option<u64>,
    /// When output is drawn even if more keeps arriving.
    pub render_upper_deadline: Option<u64>,
    /// When a synchronized update that has not ended stops holding back
    /// drawing.
    pub app_sync_deadline: Option<u64>,
}

/// What the timers ask of the window.
#[derive(Debug, Clone, Copy, PartialEq, Eq)]
pub struct TimerOutcome {
    /// A synchronized update timed out: end it and draw everything again.
    pub sync_expired: bool,
    /// Ask the window for a redraw.
    pub redraw: bool,
    /// When to wake up next; none to wait for events.
    pub wake_at: Option<u64>,
}

/// The earlier of two deadlines, where there is one.
pub open spec fn earlier(a: Option<u64>, b: Option<u64>) -> Option<u64> {
    match (a, b) {
        (Some(x), Some(y)) => Some(if x <= y {
            x
        } else {
            y
        }),
        (Some(x), None) => Some(x),
        (None, y) => y,
    }
}

/// Whether deadline `d` has come at `now`.
pub open spec fn due(d: Option<u64>, now: u64) -> bool {
    d matches Some(t) && t <= now
}

/// The schedule after asking the window for a redraw now, and whether it
/// was asked: not while one is pending, nor without a window.
pub open spec fn spec_redraw_now(s: FrameSchedule, has_window: bool) -> (FrameSchedule, bool) {
    if s.redraw_pending || !has_window {
        (s, false)
    } else {
        (FrameSchedule { redraw_pending: true, frame_deadline: None, ..s }, true)
    }
}

/// The schedule after asking for a frame at `now`, and whether the window
/// was asked for a redraw: within the frame interval after the last frame,
/// the frame is held back to the end of the interval instead.
pub open spec fn spec_request_frame(s: FrameSchedule, now: u64, has_window: bool) -> (FrameSchedule, bool) {
    if s.redraw_pending {
        (s, false)
    } else {
        match s.last_render {
            Some(last) if now < last + FRAME_INTERVAL_NS => {
                let next = (last + FRAME_INTERVAL_NS) as u64;
                (FrameSchedule { frame_deadline: earlier(s.frame_deadline, Some(next)), ..s }, false)
            },
            _ => spec_redraw_now(s, has_window),
        }
    }
}

/// The schedule after output arrived at `now`: during a synchronized update
/// drawing waits for its end (or the timeout); otherwise the output is drawn
/// after a quiet time, or at the latest when the first wait ends.
pub open spec fn spec_after_output(s: FrameSchedule, now: u64, synchronized: bool) -> FrameSchedule {
    if synchronized {
        FrameSchedule {
            render_lower_deadline: None,
            render_upper_deadline: None,
            app_sync_deadline: Some((now + APP_SYNC_TIMEOUT_NS) as u64),
            ..s
        }
    } else {
        FrameSchedule {
            app_sync_deadline: None,
            render_lower_deadline: Some((now + DELAYED_RENDER_LOWER_NS) as u64),
            render_upper_deadline: if s.render_upper_deadline is None {
                Some((now + DELAYED_RENDER_UPPER_NS) as u64)
            } else {
                s.render_upper_deadline
            },
            ..s
        }
    }
}

/// The next time something is due.
pub open spec fn next_deadline(s: FrameSchedule) -> Option<u64> {
    earlier(
        earlier(earlier(earlier(s.animation_deadline, s.render_lower_deadline), s.render_upper_deadline), s.app_sync_deadline),
        s.frame_deadline,
    )
}

/// Whether every time the schedule holds lies within the time limit.
pub open spec fn times_in_limit(s: FrameSchedule) -> bool {
    s.last_render matches Some(t) ==> t <= TIME_LIMIT
}

/// One redraw at a time: asking for a redraw (now or by a frame request)
/// leaves one pending when it asks, and while one is pending neither asks
/// again nor changes the schedule.
pub proof fn lemma_one_redraw_at_a_time(s: FrameSchedule, now: u64, has_window: bool)
    ensures
        spec_redraw_now(s, has_window).1 ==> spec_redraw_now(s, has_window).0.redraw_pending,
        spec_request_frame(s, now, has_window).1 ==> spec_request_frame(s, now, has_window).0.redraw_pending,
        s.redraw_pending ==> spec_redraw_now(s, has_window) == (s, false) && spec_request_frame(
            s,
            now,
            has_window,
        ) == (s, false),
{
}

/// Frames are paced: a frame request asks for a redraw only once the frame
/// interval after the last frame has passed; before that it holds the frame
/// back to no later than the end of the interval.
pub proof fn lemma_frames_are_paced(s: FrameSchedule, now: u64, has_window: bool, last: u64)
    requires
        s.last_render == Some(last),
        last <= TIME_LIMIT,
    ensures
        spec_request_frame(s, now, has_window).1 ==> now >= last + FRAME_INTERVAL_NS,
        !s.redraw_pending && now < last + FRAME_INTERVAL_NS ==> (spec_request_frame(
            s,
            now,
            has_window,
        ).0.frame_deadline matches Some(d) && d <= last + FRAME_INTERVAL_NS),
{
}

impl FrameSchedule {
    /// Nothing drawn, nothing due.
    pub fn new() -> (r: Self)
        ensures
            r == (FrameSchedule {
                redraw_pending: false,
                last_render: None,
                frame_deadline: None,
                animation_deadline: None,
                render_lower_deadline: None,
                render_upper_deadline: None,
                app_sync_deadline: None,
            }),
    {
        FrameSchedule {
            redraw_pending: false,
            last_render: None,
            frame_deadline: None,
            animation_deadline: None,
            render_lower_deadline: None,
            render_upper_deadline: None,
            app_sync_deadline: None,
        }
    }

    /// Asks the window (where there is one) for a redraw now; tells whether
    /// it did.
    pub fn request_redraw_now(&mut self, has_window: bool) -> (asked: bool)
        ensures
            (*final(self), asked) == spec_redraw_now(*old(self), has_window),
    {
        if self.redraw_pending || !has_window {
            return false;
        }
        self.redraw_pending = true;
        self.frame_deadline = None;
        true
    }

    /// Asks for a frame at `now`; tells whether the window was asked for a
    /// redraw.
    pub fn request_frame(&mut self, now: u64, has_window: bool) -> (asked: bool)
        requires
            times_in_limit(*old(self)),
        ensures
            (*final(self), asked) == spec_request_frame(*old(self), now, has_window),
            times_in_limit(*final(self)),
    {
        if self.redraw_pending {
            return false;
        }
        match self.last_render {
            Some(last) => {
                let next = last + FRAME_INTERVAL_NS;
                if now < next {
                    self.frame_deadline = match self.frame_deadline {
                        Some(d) => Some(
                            if d <= next {
                                d
                            } else {
                                next
                            },
                        ),
                        None => Some(next),
                    };
                    return false;
                }
            },
            None => {},
        }
        self.request_redraw_now(has_window)
    }

    /// An animating plugin wants the frame after one started at `now`.
    pub fn schedule_animation(&mut self, now: u64)
        requires
            now <= TIME_LIMIT,
        ensures
            *final(self) == (FrameSchedule { animation_deadline: Some((now + ANIMATION_FRAME_NS) as u64), ..*old(self) }),
    {
        self.animation_deadline = Some(now + ANIMATION_FRAME_NS);
    }

    /// Output arrived at `now`; see `spec_after_output`.
    pub fn after_output(&mut self, now: u64, synchronized: bool)
        requires
            now <= TIME_LIMIT,
        ensures
            *final(self) == spec_after_output(*old(self), now, synchronized),
    {
        if synchronized {
            self.render_lower_deadline = None;
            self.render_upper_deadline = None;
            self.app_sync_deadline = Some(now + APP_SYNC_TIMEOUT_NS);
        } else {
            self.app_sync_deadline = None;
            self.render_lower_deadline = Some(now + DELAYED_RENDER_LOWER_NS);
            if self.render_upper_deadline.is_none() {
                self.render_upper_deadline = Some(now + DELAYED_RENDER_UPPER_NS);
            }
        }
    }

    /// A frame starts: the redraw asked for is being drawn and the output
    /// waiting for it is drawn with it.
    pub fn frame_started(&mut self)
        ensures
            *final(self) == (FrameSchedule {
                redraw_pending: false,
                frame_deadline: None,
                render_lower_deadline: None,
                render_upper_deadline: None,
                ..*old(self)
            }),
    {
        self.redraw_pending = false;
        self.frame_deadline = None;
        self.render_lower_deadline = None;
        self.render_upper_deadline = None;
    }

    /// The frame started at `started` finished at `finished`; an animating
    /// plugin gets the next frame one animation step after the start.
    pub fn frame_finished(&mut self, started: u64, finished: u64, animating: bool)
        requires
            started <= TIME_LIMIT,
            finished <= TIME_LIMIT,
        ensures
            *final(self) == (FrameSchedule {
                last_render: Some(finished),
                animation_deadline: if animating {
                    Some((started + ANIMATION_FRAME_NS) as u64)
                } else {
                    None
                },
                ..*old(self)
            }),
            times_in_limit(*final(self)),
    {
        self.last_render = Some(finished);
        if animating {
            self.schedule_animation(started);
        } else {
            self.animation_deadline = None;
        }
    }

    /// The next time something is due.
    pub fn next_deadline(&self) -> (r: Option<u64>)
        ensures
            r == next_deadline(*self),
    {
        let mut r = earlier_of(self.animation_deadline, self.render_lower_deadline);
        r = earlier_of(r, self.render_upper_deadline);
        r = earlier_of(r, self.app_sync_deadline);
        earlier_of(r, self.frame_deadline)
    }

    /// Handles the deadlines that have come at `now`: a synchronized update
    /// that timed out ends and asks for a frame, so do waiting output and an
    /// animation step; a frame held back by the frame interval is asked of
    /// the window. Tells what to do and when to wake up next.
    pub fn timers_if_due(&mut self, now: u64, has_window: bool) -> (r: TimerOutcome)
        requires
            times_in_limit(*old(self)),
        ensures
            times_in_limit(*final(self)),
            ({
                let s0 = *old(self);
                let sync = due(s0.app_sync_deadline, now);
                let (s1, a1) = if sync {
                    spec_request_frame(FrameSchedule { app_sync_deadline: None, ..s0 }, now, has_window)
                } else {
                    (s0, false)
                };
                let render_due = due(s1.render_lower_deadline, now) || due(s1.render_upper_deadline, now);
                let (s2, a2) = if render_due {
                    spec_request_frame(
                        FrameSchedule { render_lower_deadline: None, render_upper_deadline: None, ..s1 },
                        now,
                        has_window,
                    )
                } else {
                    (s1, false)
                };
                let (s3, a3) = if due(s2.animation_deadline, now) {
                    spec_request_frame(FrameSchedule { animation_deadline: None, ..s2 }, now, has_window)
                } else {
                    (s2, false)
                };
                let (s4, a4) = if due(s3.frame_deadline, now) {
                    spec_redraw_now(s3, has_window)
                } else {
                    (s3, false)
                };
                &&& *final(self) == s4
                &&& r == (TimerOutcome {
                    sync_expired: sync,
                    redraw: a1 || a2 || a3 || a4,
                    wake_at: next_deadline(s4),
                })
            }),
    {
        let mut redraw = false;
        let sync_expired = is_due(self.app_sync_deadline, now);
        if sync_expired {
            self.app_sync_deadline = None;
            redraw = self.request_frame(now, has_window) || redraw;
        }
        if is_due(self.render_lower_deadline, now) || is_due(self.render_upper_deadline, now) {
            self.render_lower_deadline = None;
            self.render_upper_deadline = None;
            redraw = self.request_frame(now, has_window) || redraw;
        }
        if is_due(self.animation_deadline, now) {
            self.animation_deadline = None;
            redraw = self.request_frame(now, has_window) || redraw;
        }
        if is_due(self.frame_deadline, now) {
            redraw = self.request_redraw_now(has_window) || redraw;
        }
        TimerOutcome { sync_expired, redraw, wake_at: self.next_deadline() }
    }
}

/// The earlier of two deadlines, where there is one.
pub fn earlier_of(a: Option<u64>, b: Option<u64>) -> (r: Option<u64>)
    ensures
        r == earlier(a, b),
{
    match (a, b) {
        (Some(x), Some(y)) => Some(
            if x <= y {
                x
            } else {
                y
            },
        ),
        (Some(x), None) => Some(x),
        (None, y) => y,
    }
}

/// Whether deadline `d` has come at `now`.
pub fn is_due(d: Option<u64>, now: u64) -> (r: bool)
    ensures
        r == due(d, now),
{
    match d {
        Some(t) => t <= now,
        None => false,
    }
}

} // verus!
