//! Frame sampling of the FPS overlay: a repeating refresh timer, and the count of frames and
//! real time between refreshes. Durations are whole nanoseconds.
use vstd::prelude::*;

verus! {

/// A repeating timer: each tick adds real time, and whenever the elapsed time reaches the
/// duration the timer finishes and keeps only the remainder.
#[derive(Clone, Copy, Debug, PartialEq, Eq, Structural)]
pub struct RepeatingTimer {
    duration: u64,
    elapsed: u64,
    times_finished_this_tick: u64,
}

impl RepeatingTimer {
    pub closed spec fn spec_duration(&self) -> u64 {
        self.duration
    }

    pub closed spec fn spec_elapsed(&self) -> u64 {
        self.elapsed
    }

    pub closed spec fn spec_times_finished(&self) -> u64 {
        self.times_finished_this_tick
    }

    /// The elapsed time stays below the duration, and is zero for a zero duration.
    pub closed spec fn well_formed(&self) -> bool {
        self.elapsed < self.duration || (self.duration == 0 && self.elapsed == 0)
    }

    /// A timer of `duration` nanoseconds with no time elapsed.
    pub fn new(duration: u64) -> (timer: RepeatingTimer)
        ensures
            timer.well_formed(),
            timer.spec_duration() == duration,
            timer.spec_elapsed() == 0,
            timer.spec_times_finished() == 0,
    {
        RepeatingTimer { duration, elapsed: 0, times_finished_this_tick: 0 }
    }

    pub fn duration(&self) -> (d: u64)
        ensures
            d == self.spec_duration(),
    {
        self.duration
    }

    pub fn elapsed(&self) -> (e: u64)
        ensures
            e == self.spec_elapsed(),
    {
        self.elapsed
    }

    /// Whether the last tick finished the timer at least once.
    pub fn just_finished(&self) -> (finished: bool)
        ensures
            finished == (self.spec_times_finished() > 0),
    {
        self.times_finished_this_tick > 0
    }

    /// `next` is this timer advanced by `delta` nanoseconds. When the elapsed time reaches the
    /// duration, the timer finishes once per whole duration (unboundedly often, counted as
    /// `u32::MAX`, for a zero duration) and keeps the remainder.
    pub open spec fn ticked(self, next: RepeatingTimer, delta: u64) -> bool {
        let total = self.spec_elapsed() + delta;
        let duration = self.spec_duration();
        &&& next.spec_duration() == duration
        &&& next.spec_times_finished() > 0 <==> total >= duration
        &&& if total < duration {
            next.spec_elapsed() == total && next.spec_times_finished() == 0
        } else if duration == 0 {
            next.spec_elapsed() == 0 && next.spec_times_finished() == u32::MAX
        } else {
            next.spec_elapsed() == total % (duration as int) && next.spec_times_finished() == total
                / (duration as int)
        }
    }

    /// Advances the timer by `delta` nanoseconds.
    pub fn tick(&mut self, delta: u64)
        requires
            old(self).well_formed(),
            old(self).spec_elapsed() + delta <= u64::MAX,
        ensures
            final(self).well_formed(),
            old(self).ticked(*final(self), delta),
    {
        let total = self.elapsed + delta;
        if total < self.duration {
            self.elapsed = total;
            self.times_finished_this_tick = 0;
        } else if self.duration == 0 {
            self.elapsed = 0;
            self.times_finished_this_tick = u32::MAX as u64;
        } else {
            proof {
                let d = self.duration;
                assert(total / d >= 1) by (nonlinear_arith)
                    requires
                        total >= d,
                        d > 0,
                ;
                assert(total % d < d) by (nonlinear_arith)
                    requires
                        d > 0,
                ;
            }
            self.times_finished_this_tick = total / self.duration;
            self.elapsed = total % self.duration;
        }
    }

    /// Sets the elapsed time back to zero.
    pub fn reset(&mut self)
        requires
            old(self).well_formed(),
        ensures
            final(self).well_formed(),
            final(self).spec_duration() == old(self).spec_duration(),
            final(self).spec_elapsed() == 0,
            final(self).spec_times_finished() == 0,
    {
        self.elapsed = 0;
        self.times_finished_this_tick = 0;
    }
}

/// The overlay settings that frame sampling depends on.
#[derive(Clone, Copy, Debug, PartialEq, Eq, Structural)]
pub struct SampleSettings {
    /// The period after which the overlay re-renders, in nanoseconds.
    pub refresh_interval: u64,
    /// Report frames over real time for each interval, rather than a smoothed FPS.
    pub average_over_interval: bool,
    /// The overlay is shown.
    pub enabled: bool,
}

/// A refresh of the overlay: the frames counted since the previous one and the real time they
/// took, in nanoseconds. The frame rate is `frames / elapsed` per nanosecond.
#[derive(Clone, Copy, Debug, PartialEq, Eq, Structural)]
pub struct FrameAverage {
    pub frames: u64,
    pub elapsed: u64,
}

/// The frames counted towards the next refresh of the FPS overlay.
pub struct FpsOverlaySample {
    timer: RepeatingTimer,
    frames: u64,
    config: Option<SampleSettings>,
    average: Option<FrameAverage>,
}

impl FpsOverlaySample {
    pub closed spec fn spec_timer(&self) -> RepeatingTimer {
        self.timer
    }

    pub closed spec fn spec_frames(&self) -> u64 {
        self.frames
    }

    pub closed spec fn spec_config(&self) -> Option<SampleSettings> {
        self.config
    }

    /// Set by the tick that refreshes the overlay, `None` after every other tick.
    pub closed spec fn spec_average(&self) -> Option<FrameAverage> {
        self.average
    }

    /// Set by the tick that refreshes the overlay, `None` after every other tick.
    pub fn average(&self) -> (average: Option<FrameAverage>)
        ensures
            average == self.spec_average(),
    {
        self.average
    }

    pub closed spec fn well_formed(&self) -> bool {
        &&& self.timer.well_formed()
        &&& self.config matches Some(c) ==> self.timer.spec_duration() == c.refresh_interval
    }

    /// A sample that has not seen any settings yet: no frames, no refresh, and a zero-length
    /// timer with no time elapsed.
    pub fn new() -> (sample: FpsOverlaySample)
        ensures
            sample.well_formed(),
            sample.spec_config() is None,
            sample.spec_frames() == 0,
            sample.spec_average() is None,
            sample.spec_timer().spec_duration() == 0,
            sample.spec_timer().spec_elapsed() == 0,
            sample.spec_timer().spec_times_finished() == 0,
    {
        FpsOverlaySample {
            timer: RepeatingTimer::new(0),
            frames: 0,
            config: None,
            average: None,
        }
    }

    /// The frames counted since the last refresh.
    pub fn frames(&self) -> (frames: u64)
        ensures
            frames == self.spec_frames(),
    {
        self.frames
    }

    /// `next` is this sample after a frame of `delta` nanoseconds under `config`. New settings
    /// restart sampling. A disabled overlay, or a frame of no time, counts nothing. When the
    /// refresh timer finishes, the frames and real time since the last refresh become the
    /// `average`; with `average_over_interval` the timer then restarts from zero.
    pub open spec fn ticked(self, next: FpsOverlaySample, delta: u64, config: SampleSettings) -> bool {
        let restarted = self.spec_config() != Some(config);
        let frames = if restarted {
            0
        } else {
            self.spec_frames()
        };
        let elapsed = if restarted {
            0
        } else {
            self.spec_timer().spec_elapsed()
        };
        let total = elapsed + delta;
        &&& next.spec_config() == Some(config)
        &&& next.spec_timer().spec_duration() == config.refresh_interval
        &&& if !config.enabled || delta == 0 {
            &&& next.spec_average() is None
            &&& next.spec_frames() == frames
            &&& next.spec_timer().spec_elapsed() == elapsed
        } else if total < config.refresh_interval {
            &&& next.spec_average() is None
            &&& next.spec_frames() == frames + 1
            &&& next.spec_timer().spec_elapsed() == total
        } else {
            &&& next.spec_average() == Some(
                FrameAverage { frames: (frames + 1) as u64, elapsed: total as u64 },
            )
            &&& next.spec_frames() == 0
            &&& next.spec_timer().spec_elapsed() == (if config.average_over_interval
                || config.refresh_interval == 0 {
                0
            } else {
                total % (config.refresh_interval as int)
            })
        }
    }

    /// Counts one frame of `delta` nanoseconds under `config`.
    pub fn tick(&mut self, delta: u64, config: SampleSettings)
        requires
            old(self).well_formed(),
            delta + config.refresh_interval <= u64::MAX,
            old(self).spec_frames() < u64::MAX,
        ensures
            final(self).well_formed(),
            old(self).ticked(*final(self), delta, config),
    {
        if self.config != Some(config) {
            *self = FpsOverlaySample {
                timer: RepeatingTimer::new(config.refresh_interval),
                frames: 0,
                config: Some(config),
                average: None,
            };
        }
        self.average = None;
        if !config.enabled || delta == 0 {
            return;
        }
        let elapsed = self.timer.elapsed() + delta;
        self.frames = self.frames + 1;
        self.timer.tick(delta);
        if self.timer.just_finished() {
            self.average = Some(FrameAverage { frames: self.frames, elapsed });
            if config.average_over_interval {
                self.timer.reset();
            }
            self.frames = 0;
        }
    }
}

impl core::default::Default for FpsOverlaySample {
    /// A sample that has not seen any settings yet: no frames, no refresh, and a zero-length
    /// timer with no time elapsed.
    fn default() -> (sample: FpsOverlaySample)
        ensures
            sample.well_formed(),
            sample.spec_config() is None,
            sample.spec_frames() == 0,
            sample.spec_average() is None,
            sample.spec_timer().spec_duration() == 0,
            sample.spec_timer().spec_elapsed() == 0,
            sample.spec_timer().spec_times_finished() == 0,
    {
        FpsOverlaySample::new()
    }
}

/// Without interval averaging, an enabled overlay refreshes on exactly the frames on which a
/// repeating timer of the refresh interval, ticked by the same frames, finishes, and the two
/// keep the same elapsed time. The timer starts in step with the sample: fresh when the
/// sample restarts, with the sample's elapsed time otherwise. (A frame of no time with a zero
/// interval is the exception: the timer finishes and the sample counts nothing.)
pub proof fn lemma_smoothed_refresh_matches_repeating_timer(
    sample: FpsOverlaySample,
    next_sample: FpsOverlaySample,
    timer: RepeatingTimer,
    next_timer: RepeatingTimer,
    delta: u64,
    config: SampleSettings,
)
    requires
        sample.ticked(next_sample, delta, config),
        timer.well_formed(),
        timer.ticked(next_timer, delta),
        config.enabled,
        !config.average_over_interval,
        delta > 0 || config.refresh_interval > 0,
        timer.spec_duration() == config.refresh_interval,
        timer.spec_elapsed() == (if sample.spec_config() == Some(config) {
            sample.spec_timer().spec_elapsed()
        } else {
            0
        }),
    ensures
        next_sample.spec_average() is Some <==> next_timer.spec_times_finished() > 0,
        next_sample.spec_timer().spec_elapsed() == next_timer.spec_elapsed(),
{
}

/// The update steps of the FPS overlay, in the order they run each frame.
#[derive(Debug, Hash, PartialEq, Eq, Clone, Copy, Structural)]
pub enum FpsOverlaySystems {
    /// Applies config changes to the overlay UI.
    Customize,
    /// Updates the overlay contents.
    UpdateText,
}

/// What the FPS text shows after a frame.
#[derive(Clone, Copy, Debug, PartialEq, Eq, Structural)]
pub enum FpsText {
    /// The text is left as it is: the overlay did not refresh.
    Unchanged,
    /// The frames over real time of the interval that just ended.
    Average(FrameAverage),
    /// The smoothed FPS of the frame time diagnostics, when they have one.
    Smoothed,
}

/// What the FPS text shows, given the refresh of this frame (see
/// [`FpsOverlaySample::average`]): nothing new without a refresh; otherwise the interval's
/// average when the overlay averages over intervals, the smoothed diagnostic when not.
pub fn fps_text(average: Option<FrameAverage>, average_over_interval: bool) -> (text: FpsText)
    ensures
        text == (match average {
            None => FpsText::Unchanged,
            Some(a) => if average_over_interval {
                FpsText::Average(a)
            } else {
                FpsText::Smoothed
            },
        }),
{
    match average {
        None => FpsText::Unchanged,
        Some(a) => if average_over_interval {
            FpsText::Average(a)
        } else {
            FpsText::Smoothed
        },
    }
}

/// Which parts of the overlay are shown.
#[derive(Clone, Copy, Debug, PartialEq, Eq, Structural)]
pub struct OverlayDisplay {
    pub text: bool,
    pub frame_time_graph: bool,
}

/// The text shows while the overlay is enabled, and the frame time graph while both the
/// overlay and the graph are.
pub fn overlay_display(enabled: bool, graph_enabled: bool) -> (display: OverlayDisplay)
    ensures
        display.text == enabled,
        display.frame_time_graph == (enabled && graph_enabled),
{
    OverlayDisplay { text: enabled, frame_time_graph: enabled && graph_enabled }
}

} // verus!
