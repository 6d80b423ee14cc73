use std::time::Duration;

use bevy_logic::fps_sample::{
    fps_text, overlay_display, FpsOverlaySample, FpsText, FrameAverage, OverlayDisplay, RepeatingTimer,
    SampleSettings,
};

fn nanos(d: Duration) -> u64 {
    d.as_nanos() as u64
}

/// The overlay's default settings: a refresh every 100 ms, smoothed FPS, shown.
fn default_config() -> SampleSettings {
    SampleSettings {
        refresh_interval: nanos(Duration::from_millis(100)),
        average_over_interval: false,
        enabled: true,
    }
}

/// Frames per second of a refresh, as the overlay displays it.
fn fps(average: FrameAverage) -> f64 {
    average.frames as f64 / Duration::from_nanos(average.elapsed).as_secs_f64()
}

#[test]
fn fps_smoothed_refresh_matches_native_repeating_timer() {
    let config = default_config();
    let mut sample = FpsOverlaySample::default();
    let mut native_timer = RepeatingTimer::new(config.refresh_interval);
    let mut refreshes = 0;
    for _ in 0..100 {
        let delta = nanos(Duration::from_millis(33));
        sample.tick(delta, config);
        native_timer.tick(delta);
        assert_eq!(sample.average().is_some(), native_timer.just_finished());
        refreshes += usize::from(sample.average().is_some());
    }
    assert_eq!(refreshes, 33);
}

#[test]
fn fps_interval_averaging_and_runtime_changes() {
    let mut sample = FpsOverlaySample::default();
    let mut config = SampleSettings {
        refresh_interval: nanos(Duration::from_secs(1)),
        average_over_interval: true,
        ..default_config()
    };
    sample.tick(0, config);
    assert_eq!(sample.average(), None);
    for _ in 0..50 {
        sample.tick(nanos(Duration::from_millis(10)), config);
        assert_eq!(sample.average(), None);
    }
    for _ in 0..24 {
        sample.tick(nanos(Duration::from_millis(20)), config);
        assert_eq!(sample.average(), None);
    }
    sample.tick(nanos(Duration::from_millis(20)), config);
    assert_eq!(sample.average().map(fps), Some(75.0));
    sample.tick(nanos(Duration::from_millis(1100)), config);
    assert_eq!(sample.average().map(fps), Some(1.0 / 1.1));
    sample.tick(nanos(Duration::from_millis(900)), config);
    config.refresh_interval = nanos(Duration::from_millis(100));
    config.average_over_interval = false;
    sample.tick(nanos(Duration::from_millis(50)), config);
    assert_eq!(sample.average(), None);
    sample.tick(nanos(Duration::from_millis(50)), config);
    assert_eq!(sample.average().map(fps), Some(20.0));
    config.enabled = false;
    sample.tick(nanos(Duration::from_secs(10)), config);
    assert_eq!(sample.average(), None);
    config.enabled = true;
    sample.tick(nanos(Duration::from_millis(50)), config);
    assert_eq!(sample.average(), None);
    sample.tick(nanos(Duration::from_millis(50)), config);
    assert_eq!(sample.average().map(fps), Some(20.0));
}

#[test]
fn refresh_reports_frames_and_elapsed_time() {
    let mut sample = FpsOverlaySample::new();
    let config = SampleSettings { refresh_interval: 100, average_over_interval: false, enabled: true };
    sample.tick(40, config);
    sample.tick(40, config);
    assert_eq!(sample.frames(), 2);
    sample.tick(40, config);
    assert_eq!(sample.average(), Some(FrameAverage { frames: 3, elapsed: 120 }));
    assert_eq!(sample.frames(), 0);
    // The smoothed mode keeps the remainder of the interval: 20 + 80 finishes again.
    sample.tick(80, config);
    assert_eq!(sample.average(), Some(FrameAverage { frames: 1, elapsed: 100 }));
}

#[test]
fn averaging_over_interval_restarts_the_timer() {
    let mut sample = FpsOverlaySample::new();
    let config = SampleSettings { refresh_interval: 100, average_over_interval: true, enabled: true };
    sample.tick(150, config);
    assert_eq!(sample.average(), Some(FrameAverage { frames: 1, elapsed: 150 }));
    sample.tick(80, config);
    assert_eq!(sample.average(), None);
    sample.tick(20, config);
    assert_eq!(sample.average(), Some(FrameAverage { frames: 2, elapsed: 100 }));
}

#[test]
fn changed_settings_restart_sampling() {
    let mut sample = FpsOverlaySample::new();
    let a = SampleSettings { refresh_interval: 100, average_over_interval: false, enabled: true };
    let b = SampleSettings { refresh_interval: 60, ..a };
    sample.tick(50, a);
    assert_eq!(sample.frames(), 1);
    sample.tick(50, b);
    assert_eq!(sample.frames(), 1);
    assert_eq!(sample.average(), None);
    sample.tick(10, b);
    assert_eq!(sample.average(), Some(FrameAverage { frames: 2, elapsed: 60 }));
}

#[test]
fn repeating_timer_keeps_the_remainder() {
    let mut timer = RepeatingTimer::new(30);
    timer.tick(20);
    assert!(!timer.just_finished());
    assert_eq!(timer.elapsed(), 20);
    timer.tick(75);
    assert!(timer.just_finished());
    assert_eq!(timer.elapsed(), 5);
    assert_eq!(timer.duration(), 30);
    timer.reset();
    assert_eq!(timer.elapsed(), 0);
    assert!(!timer.just_finished());
}

#[test]
fn zero_duration_timer_finishes_on_every_tick() {
    let mut timer = RepeatingTimer::new(0);
    timer.tick(0);
    assert!(timer.just_finished());
    assert_eq!(timer.elapsed(), 0);
}

#[test]
fn text_shows_interval_average_or_smoothed_value() {
    let average = FrameAverage { frames: 3, elapsed: 50 };
    assert_eq!(fps_text(None, true), FpsText::Unchanged);
    assert_eq!(fps_text(Some(average), true), FpsText::Average(average));
    assert_eq!(fps_text(Some(average), false), FpsText::Smoothed);
    assert_eq!(overlay_display(true, true), OverlayDisplay { text: true, frame_time_graph: true });
    assert_eq!(overlay_display(true, false), OverlayDisplay { text: true, frame_time_graph: false });
    assert_eq!(overlay_display(false, true), OverlayDisplay { text: false, frame_time_graph: false });
}
