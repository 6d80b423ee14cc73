use bevy_logic::screenshot::{
    plan_screenshot_captures, plan_screenshot_render, screenshot_buffer_size, screenshot_output_size,
    screenshot_row_bytes,
    unpad_rows, CaptureDecision, CopySource, RenderTarget, Screenshot, ScreenshotRenderPlan,
    ScreenshotRequest, ScreenshotResolution, TargetStatus, WindowRef,
};
use bevy_logic::screenshot::{
    save_plan_for_format, screenshot_save_plan, CaptureFormat, ImageFormatKind, SaveError,
};
use bevy_logic::ui_surface::UVec2;

fn available(target: u64, x: u32, y: u32, resolution: Option<UVec2>) -> ScreenshotRequest {
    ScreenshotRequest { status: TargetStatus::Available { target, size: UVec2::new(x, y) }, resolution }
}

#[test]
fn screenshot_constructors_name_their_targets() {
    assert_eq!(Screenshot::window(4).0, RenderTarget::Window(WindowRef::Entity(4)));
    assert_eq!(Screenshot::primary_window().0, RenderTarget::Window(WindowRef::Primary));
    assert_eq!(Screenshot::image(9).0, RenderTarget::Image(9));
    assert_eq!(Screenshot::texture_view(2).0, RenderTarget::TextureView(2));
    assert_eq!(ScreenshotResolution(UVec2::new(3, 4)).0, UVec2::new(3, 4));
}

#[test]
fn capture_decisions_follow_request_order() {
    let requests = [
        available(1, 800, 600, None),
        // the same target again in one frame
        available(1, 800, 600, None),
        // zero resolution
        available(2, 800, 600, Some(UVec2::new(0, 10))),
        // larger than the target
        available(3, 800, 600, Some(UVec2::new(801, 10))),
        ScreenshotRequest { status: TargetStatus::Unknown, resolution: None },
        ScreenshotRequest { status: TargetStatus::Nothing, resolution: None },
        ScreenshotRequest { status: TargetStatus::Unavailable { target: 5 }, resolution: None },
        available(6, 800, 600, Some(UVec2::new(800, 600))),
        // a rejected request does not claim its target
        available(3, 800, 600, None),
    ];
    assert_eq!(
        plan_screenshot_captures(&requests),
        vec![
            CaptureDecision::Capture,
            CaptureDecision::Reject,
            CaptureDecision::Reject,
            CaptureDecision::Reject,
            CaptureDecision::Wait,
            CaptureDecision::Reject,
            CaptureDecision::Wait,
            CaptureDecision::Capture,
            CaptureDecision::Capture,
        ]
    );
}

#[test]
fn zero_resolution_is_rejected_before_the_target_is_looked_at() {
    let requests = [ScreenshotRequest { status: TargetStatus::Unknown, resolution: Some(UVec2::new(4, 0)) }];
    assert_eq!(plan_screenshot_captures(&requests), vec![CaptureDecision::Reject]);
}

#[test]
fn output_size_is_the_resolution_or_the_target() {
    let size = UVec2::new(1920, 1080);
    assert_eq!(screenshot_output_size(size, None), (size, false));
    assert_eq!(screenshot_output_size(size, Some(size)), (size, false));
    assert_eq!(screenshot_output_size(size, Some(UVec2::new(640, 360))), (UVec2::new(640, 360), true));
}

#[test]
fn rows_are_padded_to_256_bytes() {
    assert_eq!(screenshot_row_bytes(64, 4), (256, 256));
    assert_eq!(screenshot_row_bytes(65, 4), (260, 512));
    assert_eq!(screenshot_row_bytes(3, 4), (12, 256));
    assert_eq!(screenshot_row_bytes(0, 4), (0, 0));
}

#[test]
fn unpadding_keeps_the_start_of_each_row() {
    let data = [1u8, 2, 3, 0, 4, 5, 6, 0];
    assert_eq!(unpad_rows(&data, 3, 4), vec![1, 2, 3, 4, 5, 6]);
    assert_eq!(unpad_rows(&data, 4, 4), data.to_vec());
    // A trailing partial row is dropped.
    assert_eq!(unpad_rows(&[1, 2, 0, 3], 2, 3), vec![1, 2]);
}

#[test]
fn render_plan_resizes_and_shows_on_screen() {
    assert_eq!(
        plan_screenshot_render(true, true),
        ScreenshotRenderPlan { resize_pass: true, copy_source: CopySource::Resized, to_screen_pass: true }
    );
    assert_eq!(
        plan_screenshot_render(false, false),
        ScreenshotRenderPlan { resize_pass: false, copy_source: CopySource::Capture, to_screen_pass: false }
    );
}

#[test]
fn buffer_holds_one_aligned_row_per_pixel_row() {
    assert_eq!(screenshot_buffer_size(65, 10, 4), 5120);
    assert_eq!(screenshot_buffer_size(64, 3, 4), 768);
    assert_eq!(screenshot_buffer_size(1920, 1080, 8), 15360 * 1080);
}

#[test]
fn save_plan_drops_alpha_and_reads_format_from_extension() {
    let rgba = [1u8, 2, 3, 4, 5, 6, 7, 8];
    assert_eq!(
        screenshot_save_plan("shots/frame.png", CaptureFormat::Rgba8, 2, 1, &rgba),
        Ok((ImageFormatKind::Png, vec![1, 2, 3, 5, 6, 7]))
    );
    assert_eq!(
        screenshot_save_plan("frame.jpg", CaptureFormat::Rgba8, 1, 1, &rgba),
        Ok((ImageFormatKind::Jpeg, vec![1, 2, 3]))
    );
    // Blue-first captures are written in red, green, blue order.
    assert_eq!(
        screenshot_save_plan("frame.bmp", CaptureFormat::Bgra8, 2, 1, &rgba),
        Ok((ImageFormatKind::Bmp, vec![3, 2, 1, 7, 6, 5]))
    );
    assert_eq!(
        screenshot_save_plan("frame.png", CaptureFormat::Unsupported, 2, 1, &rgba),
        Err(SaveError::ScreenFormat)
    );
    assert_eq!(screenshot_save_plan("frame.png", CaptureFormat::Rgba8, 3, 1, &rgba), Err(SaveError::ScreenFormat));
    assert_eq!(
        screenshot_save_plan("frame.unknown", CaptureFormat::Rgba8, 2, 1, &rgba),
        Err(SaveError::UnknownFormat)
    );
    assert_eq!(screenshot_save_plan("frame", CaptureFormat::Rgba8, 2, 1, &rgba), Err(SaveError::UnknownFormat));
    assert_eq!(save_plan_for_format(CaptureFormat::Rgba8, None, 3, 1, &rgba), Err(SaveError::ScreenFormat));
    assert_eq!(
        save_plan_for_format(CaptureFormat::Bgra8, Some(ImageFormatKind::Bmp), 0, 5, &[]),
        Ok((ImageFormatKind::Bmp, vec![]))
    );
}
