//! Screenshot capture: which requested screenshots are captured this frame, the size of the
//! image read back, and the unpadding of the rows of the read-back buffer.
use std::collections::HashSet;

use vstd::prelude::*;

use crate::ui_surface::UVec2;
use image::ImageFormat as F;

verus! {

broadcast use vstd::std_specs::hash::group_hash_axioms;

/// A window to capture.
#[derive(Clone, Copy, Debug, PartialEq, Eq, Structural)]
pub enum WindowRef {
    /// The primary window, if one exists.
    Primary,
    /// The window of this entity.
    Entity(u64),
}

/// What a screenshot captures.
#[derive(Clone, Copy, Debug, PartialEq, Eq, Structural)]
pub enum RenderTarget {
    Window(WindowRef),
    /// A render target image, by asset id.
    Image(u64),
    /// A manual texture view, by handle.
    TextureView(u32),
}

/// A request to capture a screenshot of a render target this frame.
#[derive(Clone, Copy, Debug, PartialEq, Eq, Structural)]
pub struct Screenshot(pub RenderTarget);

impl Screenshot {
    /// Capture a screenshot of the provided window entity.
    pub fn window(window: u64) -> (s: Screenshot)
        ensures
            s == Screenshot(RenderTarget::Window(WindowRef::Entity(window))),
    {
        Screenshot(RenderTarget::Window(WindowRef::Entity(window)))
    }

    /// Capture a screenshot of the primary window, if one exists.
    pub fn primary_window() -> (s: Screenshot)
        ensures
            s == Screenshot(RenderTarget::Window(WindowRef::Primary)),
    {
        Screenshot(RenderTarget::Window(WindowRef::Primary))
    }

    /// Capture a screenshot of the provided render target image.
    pub fn image(image: u64) -> (s: Screenshot)
        ensures
            s == Screenshot(RenderTarget::Image(image)),
    {
        Screenshot(RenderTarget::Image(image))
    }

    /// Capture a screenshot of the provided manual texture view.
    pub fn texture_view(texture_view: u32) -> (s: Screenshot)
        ensures
            s == Screenshot(RenderTarget::TextureView(texture_view)),
    {
        Screenshot(RenderTarget::TextureView(texture_view))
    }
}

/// The dimensions of the image returned for a screenshot. Both must be nonzero and no larger
/// than the render target.
#[derive(Clone, Copy, Debug, PartialEq, Eq, Structural)]
pub struct ScreenshotResolution(pub UVec2);

/// What is known this frame of the render target of a screenshot request.
#[derive(Clone, Copy, Debug, PartialEq, Eq, Structural)]
pub enum TargetStatus {
    /// The target could not be resolved (no primary window, for instance).
    Unknown,
    /// The target resolved to no render target at all.
    Nothing,
    /// The target is known, but its window or image is not available yet.
    Unavailable { target: u64 },
    /// The target is known, with its physical size.
    Available { target: u64, size: UVec2 },
}

/// A screenshot request as extraction sees it.
#[derive(Clone, Copy, Debug, PartialEq, Eq, Structural)]
pub struct ScreenshotRequest {
    pub status: TargetStatus,
    pub resolution: Option<UVec2>,
}

/// What extraction does with a request.
#[derive(Clone, Copy, Debug, PartialEq, Eq, Structural)]
pub enum CaptureDecision {
    /// Capture it this frame.
    Capture,
    /// Leave it for a later frame.
    Wait,
    /// Drop it: despawn the request.
    Reject,
}

/// The decision for a request, given the targets already captured this frame.
pub open spec fn capture_decision(request: ScreenshotRequest, seen: Set<u64>) -> CaptureDecision {
    if request.resolution matches Some(r) && (r.x == 0 || r.y == 0) {
        CaptureDecision::Reject
    } else {
        match request.status {
            TargetStatus::Unknown => CaptureDecision::Wait,
            TargetStatus::Nothing => CaptureDecision::Reject,
            TargetStatus::Unavailable { .. } => CaptureDecision::Wait,
            TargetStatus::Available { target, size } => {
                if request.resolution matches Some(r) && (r.x > size.x || r.y > size.y) {
                    CaptureDecision::Reject
                } else if seen.contains(target) {
                    CaptureDecision::Reject
                } else {
                    CaptureDecision::Capture
                }
            },
        }
    }
}

/// The targets captured by the first `n` requests.
pub open spec fn captured_targets(requests: Seq<ScreenshotRequest>, n: int) -> Set<u64>
    decreases n,
{
    if n <= 0 {
        Set::empty()
    } else {
        let seen = captured_targets(requests, n - 1);
        let request = requests[n - 1];
        if capture_decision(request, seen) == CaptureDecision::Capture {
            seen.insert(request.status->Available_target)
        } else {
            seen
        }
    }
}

/// Decides, in order, what becomes of each screenshot request of this frame: a zero
/// resolution, a target that is nothing, a resolution larger than the target, or a target
/// already captured this frame rejects the request; an unresolved or unavailable target
/// leaves it for a later frame; otherwise it is captured.
pub fn plan_screenshot_captures(requests: &[ScreenshotRequest]) -> (decisions: Vec<CaptureDecision>)
    ensures
        decisions@.len() == requests@.len(),
        forall|i: int|
            0 <= i < requests@.len() ==> #[trigger] decisions@[i] == capture_decision(
                requests@[i],
                captured_targets(requests@, i),
            ),
        forall|i: int|
            0 <= i < requests@.len() && #[trigger] decisions@[i] == CaptureDecision::Capture ==> {
                &&& requests@[i].status is Available
                &&& requests@[i].resolution matches Some(r) ==> 0 < r.x <= requests@[i].status->Available_size.x
                    && 0 < r.y <= requests@[i].status->Available_size.y
            },
        forall|i: int, j: int|
            0 <= i < j < requests@.len() && #[trigger] decisions@[i] == CaptureDecision::Capture
                && #[trigger] decisions@[j] == CaptureDecision::Capture
                ==> requests@[i].status->Available_target != requests@[j].status->Available_target,
        forall|i: int|
            0 <= i < requests@.len() && (requests@[i].resolution matches Some(r) && (r.x == 0 || r.y
                == 0)) ==> #[trigger] decisions@[i] == CaptureDecision::Reject,
        forall|i: int|
            0 <= i < requests@.len() && requests@[i].status is Available && (requests@[i].resolution
                matches Some(r) && (r.x > requests@[i].status->Available_size.x || r.y
                > requests@[i].status->Available_size.y)) ==> #[trigger] decisions@[i]
                == CaptureDecision::Reject,
        forall|i: int|
            0 <= i < requests@.len() && requests@[i].status is Nothing ==> #[trigger] decisions@[i]
                == CaptureDecision::Reject,
        forall|i: int|
            0 <= i < requests@.len() && (requests@[i].status is Unknown || requests@[i].status is Unavailable)
                && !(requests@[i].resolution matches Some(r) && (r.x == 0 || r.y == 0)) ==> #[trigger] decisions@[i]
                == CaptureDecision::Wait,
{
    let mut seen: HashSet<u64> = HashSet::new();
    let mut decisions: Vec<CaptureDecision> = Vec::new();
    let mut i: usize = 0;
    while i < requests.len()
        invariant
            0 <= i <= requests@.len(),
            seen@ == captured_targets(requests@, i as int),
            decisions@.len() == i,
            forall|k: int|
                0 <= k < i ==> #[trigger] decisions@[k] == capture_decision(
                    requests@[k],
                    captured_targets(requests@, k),
                ),
        decreases requests.len() - i,
    {
        let request = requests[i];
        let zero = match request.resolution {
            Some(r) => r.x == 0 || r.y == 0,
            None => false,
        };
        let decision = if zero {
            CaptureDecision::Reject
        } else {
            match request.status {
                TargetStatus::Unknown => CaptureDecision::Wait,
                TargetStatus::Nothing => CaptureDecision::Reject,
                TargetStatus::Unavailable { .. } => CaptureDecision::Wait,
                TargetStatus::Available { target, size } => {
                    let exceeds = match request.resolution {
                        Some(r) => r.x > size.x || r.y > size.y,
                        None => false,
                    };
                    if exceeds {
                        CaptureDecision::Reject
                    } else if seen.contains(&target) {
                        CaptureDecision::Reject
                    } else {
                        seen.insert(target);
                        CaptureDecision::Capture
                    }
                },
            }
        };
        decisions.push(decision);
        proof {
            assert(seen@ =~= captured_targets(requests@, i + 1));
            assert forall|k: int| 0 <= k < i + 1 implies #[trigger] decisions@[k] == capture_decision(
                requests@[k],
                captured_targets(requests@, k),
            ) by {}
        }
        i = i + 1;
    }
    proof {
        assert forall|i: int|
            0 <= i < requests@.len() && #[trigger] decisions@[i] == CaptureDecision::Capture implies {
                &&& requests@[i].status is Available
                &&& requests@[i].resolution matches Some(r) ==> 0 < r.x <= requests@[i].status->Available_size.x
                    && 0 < r.y <= requests@[i].status->Available_size.y
            } by {
            lemma_captured_request_fits(requests@, i);
        }
        assert forall|i: int, j: int|
            0 <= i < j < requests@.len() && #[trigger] decisions@[i] == CaptureDecision::Capture
                && #[trigger] decisions@[j] == CaptureDecision::Capture implies requests@[i].status->Available_target
                != requests@[j].status->Available_target by {
            lemma_captures_have_distinct_targets(requests@, i, j);
        }
    }
    decisions
}

/// A captured request has an available target, and its resolution, when it gives one, is
/// nonzero and no larger than the target in either axis.
pub proof fn lemma_captured_request_fits(requests: Seq<ScreenshotRequest>, i: int)
    requires
        0 <= i < requests.len(),
        capture_decision(requests[i], captured_targets(requests, i)) == CaptureDecision::Capture,
    ensures
        requests[i].status is Available,
        requests[i].resolution matches Some(r) ==> 0 < r.x <= requests[i].status->Available_size.x
            && 0 < r.y <= requests[i].status->Available_size.y,
{
}

/// A target is captured at most once per frame.
pub proof fn lemma_captures_have_distinct_targets(
    requests: Seq<ScreenshotRequest>,
    i: int,
    j: int,
)
    requires
        0 <= i < j < requests.len(),
        capture_decision(requests[i], captured_targets(requests, i)) == CaptureDecision::Capture,
        capture_decision(requests[j], captured_targets(requests, j)) == CaptureDecision::Capture,
    ensures
        requests[i].status->Available_target != requests[j].status->Available_target,
{
    lemma_captured_targets_grow(requests, i + 1, j);
    assert(captured_targets(requests, i + 1).contains(requests[i].status->Available_target));
}

/// The captured targets only grow.
pub proof fn lemma_captured_targets_grow(requests: Seq<ScreenshotRequest>, m: int, n: int)
    requires
        0 <= m <= n,
    ensures
        captured_targets(requests, m).subset_of(captured_targets(requests, n)),
    decreases n - m,
{
    if m < n {
        lemma_captured_targets_grow(requests, m, n - 1);
    }
}

/// The size of the image read back for a screenshot of a `size` target: the requested
/// resolution, or the whole target; and whether the frame must be resized on the GPU first.
pub fn screenshot_output_size(size: UVec2, resolution: Option<UVec2>) -> (output: (UVec2, bool))
    requires
        resolution matches Some(r) ==> r.x <= size.x && r.y <= size.y,
    ensures
        output.0 == (match resolution {
            Some(r) => r,
            None => size,
        }),
        output.1 == (output.0 != size),
{
    let output_size = match resolution {
        Some(r) => r,
        None => size,
    };
    (output_size, output_size != size)
}

/// The texture a screenshot is copied out of.
#[derive(Clone, Copy, Debug, PartialEq, Eq, Structural)]
pub enum CopySource {
    /// The texture the target was rendered into.
    Capture,
    /// The texture the capture was resized into.
    Resized,
}

/// The GPU work for a prepared screenshot, in order: the resize pass, the copy into the
/// read-back buffer, and the pass that shows the capture on the target.
#[derive(Clone, Copy, Debug, PartialEq, Eq, Structural)]
pub struct ScreenshotRenderPlan {
    /// Draw the capture into the resized texture, cleared first.
    pub resize_pass: bool,
    /// Where the copy into the read-back buffer reads.
    pub copy_source: CopySource,
    /// Draw the capture onto the target's texture view, keeping what is there.
    pub to_screen_pass: bool,
}

/// The GPU work for a screenshot that was prepared with a resized texture or not, whose target
/// has a texture view this frame or not: a resized capture is drawn into its texture and
/// copied from there, the others are copied as rendered; the capture is shown on the target
/// whenever it has a view.
pub fn plan_screenshot_render(resized: bool, has_target_view: bool) -> (plan: ScreenshotRenderPlan)
    ensures
        plan.resize_pass == resized,
        plan.copy_source == (if resized {
            CopySource::Resized
        } else {
            CopySource::Capture
        }),
        plan.to_screen_pass == has_target_view,
{
    ScreenshotRenderPlan {
        resize_pass: resized,
        copy_source: if resized {
            CopySource::Resized
        } else {
            CopySource::Capture
        },
        to_screen_pass: has_target_view,
    }
}

/// Reads `wgpu_types::COPY_BYTES_PER_ROW_ALIGNMENT`, the alignment of the rows of
/// a buffer that a texture is copied into, which the crate defines as 256.
#[verifier::external_body]
fn copy_bytes_per_row_alignment() -> (alignment: u32)
    ensures
        alignment == 256,
{
    wgpu_types::COPY_BYTES_PER_ROW_ALIGNMENT
}

/// `row` bytes rounded up to a multiple of the 256-byte row alignment.
pub open spec fn aligned_row_bytes(row: int) -> int {
    if row % 256 == 0 {
        row
    } else {
        row + (256 - row % 256)
    }
}

/// The bytes of one row of `width` pixels of `pixel_size` bytes, and the bytes the row takes in
/// the read-back buffer, rounded up to the row alignment.
pub fn screenshot_row_bytes(width: u32, pixel_size: u32) -> (bytes: (usize, usize))
    requires
        width * pixel_size + 255 <= u32::MAX,
    ensures
        bytes.0 == width * pixel_size,
        bytes.1 == aligned_row_bytes(width * pixel_size),
        bytes.1 % 256 == 0,
        bytes.0 <= bytes.1 < bytes.0 + 256,
{
    let alignment = copy_bytes_per_row_alignment();
    let row = width * pixel_size;
    let rem = row % alignment;
    let padded = if rem == 0 {
        row
    } else {
        row + (alignment - rem)
    };
    (row as usize, padded as usize)
}

/// The size of the read-back buffer of a `width` by `height` capture of `pixel_size` bytes per
/// pixel: one aligned row per row of pixels.
pub fn screenshot_buffer_size(width: u32, height: u32, pixel_size: u32) -> (size: u64)
    requires
        width * pixel_size + 255 <= u32::MAX,
    ensures
        size == aligned_row_bytes(width * pixel_size) * height,
{
    let (_, padded) = screenshot_row_bytes(width, pixel_size);
    let padded = padded as u64;
    proof {
        assert(padded * height <= u64::MAX) by (nonlinear_arith)
            requires
                padded <= u32::MAX,
                height <= u32::MAX,
        ;
    }
    padded * height as u64
}

/// Packs the rows of a read-back buffer tightly: each whole row of `padded_row_bytes` keeps its
/// first `row_bytes`. When the two are equal the buffer is taken as it is.
pub fn unpad_rows(data: &[u8], row_bytes: usize, padded_row_bytes: usize) -> (packed: Vec<u8>)
    requires
        0 < padded_row_bytes,
        row_bytes <= padded_row_bytes,
    ensures
        row_bytes == padded_row_bytes ==> packed@ == data@,
        row_bytes != padded_row_bytes ==> {
            &&& packed@.len() == (data@.len() / (padded_row_bytes as nat)) * row_bytes
            &&& forall|r: int, c: int|
                0 <= r < data@.len() / (padded_row_bytes as nat) && 0 <= c < row_bytes ==> #[trigger] packed@[r
                    * row_bytes + c] == data@[r * padded_row_bytes + c]
        },
{
    let mut packed: Vec<u8> = Vec::new();
    if row_bytes == padded_row_bytes {
        let mut i: usize = 0;
        while i < data.len()
            invariant
                0 <= i <= data@.len(),
                packed@ == data@.subrange(0, i as int),
            decreases data.len() - i,
        {
            packed.push(data[i]);
            proof {
                assert(packed@ =~= data@.subrange(0, i + 1));
            }
            i = i + 1;
        }
        proof {
            assert(data@.subrange(0, data@.len() as int) =~= data@);
        }
        return packed;
    }
    let rows = data.len() / padded_row_bytes;
    proof {
        assert(rows * padded_row_bytes <= data@.len()) by (nonlinear_arith)
            requires
                rows == data@.len() / (padded_row_bytes as nat),
                padded_row_bytes > 0,
        ;
    }
    let mut r: usize = 0;
    while r < rows
        invariant
            0 <= r <= rows,
            0 < padded_row_bytes,
            row_bytes <= padded_row_bytes,
            rows == data@.len() / (padded_row_bytes as nat),
            rows * padded_row_bytes <= data@.len(),
            packed@.len() == r * row_bytes,
            forall|rr: int, c: int|
                0 <= rr < r && 0 <= c < row_bytes ==> #[trigger] packed@[rr * row_bytes + c] == data@[rr
                    * padded_row_bytes + c],
        decreases rows - r,
    {
        let mut c: usize = 0;
        proof {
            assert(r * padded_row_bytes + padded_row_bytes <= rows * padded_row_bytes) by (nonlinear_arith)
                requires
                    r < rows,
            ;
        }
        while c < row_bytes
            invariant
                0 <= c <= row_bytes,
                0 <= r < rows,
                0 < padded_row_bytes,
                row_bytes <= padded_row_bytes,
                rows == data@.len() / (padded_row_bytes as nat),
                rows * padded_row_bytes <= data@.len(),
                r * padded_row_bytes + padded_row_bytes <= rows * padded_row_bytes,
                packed@.len() == r * row_bytes + c,
                forall|rr: int, cc: int|
                    0 <= rr < r && 0 <= cc < row_bytes ==> #[trigger] packed@[rr * row_bytes + cc]
                        == data@[rr * padded_row_bytes + cc],
                forall|cc: int|
                    0 <= cc < c ==> #[trigger] packed@[r * row_bytes + cc] == data@[r * padded_row_bytes
                        + cc],
            decreases row_bytes - c,
        {
            proof {
                assert(data@.len() == data.len());
            }
            let ghost before = packed@;
            packed.push(data[r * padded_row_bytes + c]);
            proof {
                assert forall|rr: int, cc: int|
                    0 <= rr < r && 0 <= cc < row_bytes implies #[trigger] packed@[rr * row_bytes + cc]
                        == data@[rr * padded_row_bytes + cc] by {
                    assert(rr * row_bytes + cc < r * row_bytes) by (nonlinear_arith)
                        requires
                            0 <= rr < r,
                            0 <= cc < row_bytes,
                    ;
                    assert(packed@[rr * row_bytes + cc] == before[rr * row_bytes + cc]);
                }
                assert forall|cc: int|
                    0 <= cc < c + 1 implies #[trigger] packed@[r * row_bytes + cc] == data@[r
                        * padded_row_bytes + cc] by {
                    if cc < c {
                        assert(packed@[r * row_bytes + cc] == before[r * row_bytes + cc]);
                    }
                }
            }
            c = c + 1;
        }
        proof {
            assert((r + 1) * row_bytes == r * row_bytes + row_bytes) by (nonlinear_arith);
        }
        r = r + 1;
    }
    packed
}

/// The image file formats a screenshot can be saved in.
#[derive(Clone, Copy, Debug, PartialEq, Eq, Structural)]
pub enum ImageFormatKind {
    Png,
    Jpeg,
    Gif,
    WebP,
    Pnm,
    Tiff,
    Tga,
    Dds,
    Bmp,
    Ico,
    Hdr,
    OpenExr,
    Farbfeld,
    Avif,
    Qoi,
    /// A format the `image` crate added later.
    Other,
}

/// The image format that the extension of `path` names, if it names one.
pub uninterp spec fn image_format_of_path(path: Seq<char>) -> Option<ImageFormatKind>;

/// Calls `image::ImageFormat::from_path`, which reads the format from the path's extension,
/// and names the variant. The extension table is the crate's, so the result is named
/// [`image_format_of_path`].
#[verifier::external_body]
fn format_from_path(path: &str) -> (format: Option<ImageFormatKind>)
    ensures
        format == image_format_of_path(path@),
{
    F::from_path(path).ok().map(|f| match f { F::Png => ImageFormatKind::Png, F::Jpeg => ImageFormatKind::Jpeg,
        F::Gif => ImageFormatKind::Gif, F::WebP => ImageFormatKind::WebP, F::Pnm => ImageFormatKind::Pnm,
        F::Tiff => ImageFormatKind::Tiff, F::Tga => ImageFormatKind::Tga, F::Dds => ImageFormatKind::Dds,
        F::Bmp => ImageFormatKind::Bmp, F::Ico => ImageFormatKind::Ico, F::Hdr => ImageFormatKind::Hdr,
        F::OpenExr => ImageFormatKind::OpenExr, F::Farbfeld => ImageFormatKind::Farbfeld,
        F::Avif => ImageFormatKind::Avif, F::Qoi => ImageFormatKind::Qoi, _ => ImageFormatKind::Other })
}

/// Why a screenshot could not be saved.
#[derive(Clone, Copy, Debug, PartialEq, Eq, Structural)]
pub enum SaveError {
    /// The capture has no image form, or its bytes do not fill the image.
    ScreenFormat,
    /// The file name names no image format.
    UnknownFormat,
}

/// How the pixels of a capture are laid out, as far as saving it goes.
#[derive(Clone, Copy, Debug, PartialEq, Eq, Structural)]
pub enum CaptureFormat {
    /// Four bytes per pixel: red, green, blue, alpha.
    Rgba8,
    /// Four bytes per pixel: blue, green, red, alpha.
    Bgra8,
    /// A texture format that has no image form to save.
    Unsupported,
}

/// The RGB bytes of the first `pixels` four-byte pixels of a capture: each pixel in red, green,
/// blue order, without its alpha byte.
pub open spec fn rgb_of(bytes: Seq<u8>, pixels: int, capture: CaptureFormat) -> Seq<u8> {
    Seq::new(
        (3 * pixels) as nat,
        |i: int|
            bytes[4 * (i / 3) + if capture == CaptureFormat::Bgra8 {
                2 - i % 3
            } else {
                i % 3
            }],
    )
}

/// What saving a `width` by `height` capture in `format` amounts to: the capture must have an
/// image form and its bytes must fill the image (extra bytes are ignored); then the format must
/// be known. The file gets the format and the pixels as RGB without their alpha, which holds
/// brightness when HDR is on.
pub fn save_plan_for_format(
    capture: CaptureFormat,
    format: Option<ImageFormatKind>,
    width: u32,
    height: u32,
    bytes: &[u8],
) -> (plan: Result<(ImageFormatKind, Vec<u8>), SaveError>)
    ensures
        capture == CaptureFormat::Unsupported || bytes@.len() < 4 * width * height ==> plan == Err::<
            (ImageFormatKind, Vec<u8>),
            SaveError,
        >(SaveError::ScreenFormat),
        capture != CaptureFormat::Unsupported && bytes@.len() >= 4 * width * height && format is None
            ==> plan == Err::<(ImageFormatKind, Vec<u8>), SaveError>(SaveError::UnknownFormat),
        capture != CaptureFormat::Unsupported && bytes@.len() >= 4 * width * height && format is Some
            ==> (plan matches Ok((f, rgb)) && Some(f) == format && rgb@ == rgb_of(
            bytes@,
            width * height,
            capture,
        )),
{
    if capture == CaptureFormat::Unsupported {
        return Err(SaveError::ScreenFormat);
    }
    proof {
        assert((width as u128) * (height as u128) <= 0xffff_ffff_ffff_ffff_u128) by (nonlinear_arith)
            requires
                width <= u32::MAX,
                height <= u32::MAX,
        ;
        assert(4 * width * height == 4 * (width * height)) by (nonlinear_arith);
    }
    let pixels_wide: u128 = width as u128 * height as u128;
    if (bytes.len() as u128) < 4 * pixels_wide {
        return Err(SaveError::ScreenFormat);
    }
    let f = match format {
        Some(f) => f,
        None => {
            return Err(SaveError::UnknownFormat);
        },
    };
    let swap = capture == CaptureFormat::Bgra8;
    let pixels: usize = pixels_wide as usize;
    let mut rgb: Vec<u8> = Vec::new();
    let mut p: usize = 0;
    while p < pixels
        invariant
            0 <= p <= pixels,
            pixels == width * height,
            4 * pixels <= bytes@.len(),
            bytes@.len() == bytes.len(),
            swap == (capture == CaptureFormat::Bgra8),
            rgb@ =~= rgb_of(bytes@, p as int, capture),
        decreases pixels - p,
    {
        let base = 4 * p;
        if swap {
            rgb.push(bytes[base + 2]);
            rgb.push(bytes[base + 1]);
            rgb.push(bytes[base]);
        } else {
            rgb.push(bytes[base]);
            rgb.push(bytes[base + 1]);
            rgb.push(bytes[base + 2]);
        }
        proof {
            let q = p as int;
            assert((3 * q) / 3 == q && (3 * q) % 3 == 0 && (3 * q + 1) / 3 == q && (3 * q + 1) % 3 == 1
                && (3 * q + 2) / 3 == q && (3 * q + 2) % 3 == 2) by (nonlinear_arith)
                requires
                    q >= 0,
            ;
            assert(rgb@ =~= rgb_of(bytes@, q + 1, capture));
        }
        p = p + 1;
    }
    Ok((f, rgb))
}

/// What saving a `width` by `height` capture to `path` amounts to (see
/// [`save_plan_for_format`]); the format is the one the path's extension names.
pub fn screenshot_save_plan(
    path: &str,
    capture: CaptureFormat,
    width: u32,
    height: u32,
    bytes: &[u8],
) -> (plan: Result<(ImageFormatKind, Vec<u8>), SaveError>)
    ensures
        capture == CaptureFormat::Unsupported || bytes@.len() < 4 * width * height ==> plan == Err::<
            (ImageFormatKind, Vec<u8>),
            SaveError,
        >(SaveError::ScreenFormat),
        capture != CaptureFormat::Unsupported && bytes@.len() >= 4 * width * height
            && image_format_of_path(path@) is None ==> plan == Err::<(ImageFormatKind, Vec<u8>), SaveError>(
            SaveError::UnknownFormat,
        ),
        capture != CaptureFormat::Unsupported && bytes@.len() >= 4 * width * height
            && image_format_of_path(path@) is Some ==> (plan matches Ok((f, rgb)) && Some(f)
            == image_format_of_path(path@) && rgb@ == rgb_of(bytes@, width * height, capture)),
{
    let format = format_from_path(path);
    save_plan_for_format(capture, format, width, height, bytes)
}

} // verus!
