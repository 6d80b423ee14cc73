//! Decisions of the UI render path: the formats, shader definitions and vertex layout of the
//! UI pipelines, the offscreen sRGB texture of a view, whether each pass runs, and what each
//! draw command does with the resources it finds.
use vstd::prelude::*;

verus! {

/// The shader definition that makes the UI shader convert to sRGB itself.
pub const MANUAL_SRGB_SHADER_DEF: &'static str = "MANUAL_SRGB";

/// The shader definition that turns on anti-aliased edges.
pub const ANTI_ALIAS_SHADER_DEF: &'static str = "ANTI_ALIAS";

/// The colour formats that the UI render path tells apart.
#[derive(Clone, Copy, Debug, PartialEq, Eq, Hash, Structural)]
pub enum ColorFormat {
    Rgba8Unorm,
    Rgba8UnormSrgb,
    Rgba16Float,
    /// Any other format.
    Other,
}

/// The format the UI renders into for a view whose target has `target_format`: half floats
/// stay, everything else becomes linear 8-bit RGBA.
pub fn ui_render_target_format(target_format: ColorFormat) -> (format: ColorFormat)
    ensures
        format == (if target_format == ColorFormat::Rgba16Float {
            ColorFormat::Rgba16Float
        } else {
            ColorFormat::Rgba8Unorm
        }),
{
    match target_format {
        ColorFormat::Rgba16Float => ColorFormat::Rgba16Float,
        _ => ColorFormat::Rgba8Unorm,
    }
}

/// The format the sRGB composite pass writes: the HDR format for an HDR view, the default
/// sRGB format otherwise.
pub fn composite_target_format(hdr: bool) -> (format: ColorFormat)
    ensures
        format == (if hdr {
            ColorFormat::Rgba16Float
        } else {
            ColorFormat::Rgba8UnormSrgb
        }),
{
    if hdr {
        ColorFormat::Rgba16Float
    } else {
        ColorFormat::Rgba8UnormSrgb
    }
}

/// The shader definitions of the UI pipeline: anti-aliasing when asked for, then manual sRGB
/// conversion.
pub fn ui_shader_defs(anti_alias: bool) -> (defs: Vec<&'static str>)
    ensures
        defs@ == (if anti_alias {
            seq![ANTI_ALIAS_SHADER_DEF, MANUAL_SRGB_SHADER_DEF]
        } else {
            seq![MANUAL_SRGB_SHADER_DEF]
        }),
{
    let mut defs: Vec<&'static str> = Vec::new();
    if anti_alias {
        defs.push(ANTI_ALIAS_SHADER_DEF);
    }
    defs.push(MANUAL_SRGB_SHADER_DEF);
    defs
}

/// The vertex attribute formats of UI geometry.
#[derive(Clone, Copy, Debug, PartialEq, Eq, Structural)]
pub enum VertexAttribute {
    Float32x2,
    Float32x3,
    Float32x4,
    Uint32,
}

/// The fields of a UI vertex, in the order the UI shader reads them.
#[derive(Clone, Copy, Debug, PartialEq, Eq, Structural)]
pub enum UiVertexField {
    /// The position, in three dimensions.
    Position,
    /// The texture coordinates.
    Uv,
    /// The colour, as red, green, blue and alpha.
    Color,
    /// The drawing mode, a whole number.
    Mode,
    /// The radius of each of the four corners.
    BorderRadius,
    /// The thickness of each of the four sides.
    BorderThickness,
    /// The width and height of the border box.
    BorderSize,
    /// The point relative to the centre of the node, in two dimensions.
    PointRelativeToCenter,
    /// The shadow colour, as red, green, blue and alpha.
    ShadowColor,
    /// The outline colour, as red, green, blue and alpha.
    OutlineColor,
    /// Four effect parameters.
    EffectParams,
}

/// The fields of a UI vertex, in order.
pub open spec fn ui_vertex_fields() -> Seq<UiVertexField> {
    seq![
        UiVertexField::Position,
        UiVertexField::Uv,
        UiVertexField::Color,
        UiVertexField::Mode,
        UiVertexField::BorderRadius,
        UiVertexField::BorderThickness,
        UiVertexField::BorderSize,
        UiVertexField::PointRelativeToCenter,
        UiVertexField::ShadowColor,
        UiVertexField::OutlineColor,
        UiVertexField::EffectParams,
    ]
}

/// What a field holds: whether its components are floats, and how many there are.
pub open spec fn field_shape(field: UiVertexField) -> (bool, nat) {
    match field {
        UiVertexField::Position => (true, 3),
        UiVertexField::Uv => (true, 2),
        UiVertexField::Color => (true, 4),
        UiVertexField::Mode => (false, 1),
        UiVertexField::BorderRadius => (true, 4),
        UiVertexField::BorderThickness => (true, 4),
        UiVertexField::BorderSize => (true, 2),
        UiVertexField::PointRelativeToCenter => (true, 2),
        UiVertexField::ShadowColor => (true, 4),
        UiVertexField::OutlineColor => (true, 4),
        UiVertexField::EffectParams => (true, 4),
    }
}

/// What an attribute format reads: whether its components are floats, and how many there are.
pub open spec fn attribute_shape(attribute: VertexAttribute) -> (bool, nat) {
    match attribute {
        VertexAttribute::Float32x2 => (true, 2),
        VertexAttribute::Float32x3 => (true, 3),
        VertexAttribute::Float32x4 => (true, 4),
        VertexAttribute::Uint32 => (false, 1),
    }
}

/// The UI vertex layout has one attribute per field of the UI vertex, each reading what its
/// field holds.
pub proof fn lemma_ui_vertex_layout_reads_each_field()
    ensures
        ui_vertex_layout().len() == ui_vertex_fields().len(),
        forall|k: int|
            0 <= k < ui_vertex_fields().len() ==> attribute_shape(#[trigger] ui_vertex_layout()[k])
                == field_shape(ui_vertex_fields()[k]),
{
    assert forall|k: int|
        0 <= k < ui_vertex_fields().len() implies attribute_shape(#[trigger] ui_vertex_layout()[k])
            == field_shape(ui_vertex_fields()[k]) by {
        assert(0 <= k < 11);
        if k == 0 {} else if k == 1 {} else if k == 2 {} else if k == 3 {} else if k == 4 {}
        else if k == 5 {} else if k == 6 {} else if k == 7 {} else if k == 8 {} else if k == 9 {}
        else {}
    }
}

/// The attributes of a UI vertex, in order: position, uv, colour, mode, border radius, border
/// thickness, border size, position relative to the centre, shadow colour, outline colour and
/// effect parameters.
pub open spec fn ui_vertex_layout() -> Seq<VertexAttribute> {
    seq![
        VertexAttribute::Float32x3,
        VertexAttribute::Float32x2,
        VertexAttribute::Float32x4,
        VertexAttribute::Uint32,
        VertexAttribute::Float32x4,
        VertexAttribute::Float32x4,
        VertexAttribute::Float32x2,
        VertexAttribute::Float32x2,
        VertexAttribute::Float32x4,
        VertexAttribute::Float32x4,
        VertexAttribute::Float32x4,
    ]
}

/// The attribute formats of a UI vertex.
pub fn ui_vertex_attributes() -> (attributes: Vec<VertexAttribute>)
    ensures
        attributes@ == ui_vertex_layout(),
        attributes@.len() == ui_vertex_fields().len(),
        forall|k: int|
            0 <= k < ui_vertex_fields().len() ==> attribute_shape(#[trigger] attributes@[k])
                == field_shape(ui_vertex_fields()[k]),
{
    let attributes = vec![
        VertexAttribute::Float32x3,
        VertexAttribute::Float32x2,
        VertexAttribute::Float32x4,
        VertexAttribute::Uint32,
        VertexAttribute::Float32x4,
        VertexAttribute::Float32x4,
        VertexAttribute::Float32x2,
        VertexAttribute::Float32x2,
        VertexAttribute::Float32x4,
        VertexAttribute::Float32x4,
        VertexAttribute::Float32x4,
    ];
    assert(attributes@ =~= ui_vertex_layout());
    proof {
        lemma_ui_vertex_layout_reads_each_field();
    }
    attributes
}

/// The texture that the composite pass samples.
#[derive(Clone, Copy, Debug, PartialEq, Eq, Structural)]
pub enum SampledTexture {
    /// The texture the UI was drawn into.
    Main,
    /// The single-sampled texture the multisampled drawing resolves into.
    Resolve,
}

/// How a view's offscreen sRGB UI texture is made.
#[derive(Clone, Copy, Debug, PartialEq, Eq, Structural)]
pub struct SrgbTexturePlan {
    /// The samples per pixel of the texture the UI is drawn into.
    pub sample_count: u32,
    /// Whether a single-sampled resolve texture is made beside it.
    pub resolve_texture: bool,
    /// Which of the two the composite pass samples.
    pub sampled: SampledTexture,
}

/// The sRGB UI texture of a view with `msaa_samples` samples per pixel, or without MSAA: as
/// many samples as the view has (one without MSAA), and a resolve texture, sampled by the
/// composite pass, exactly when that is more than one.
pub fn plan_srgb_ui_texture(msaa_samples: Option<u32>) -> (plan: SrgbTexturePlan)
    ensures
        plan.sample_count == (match msaa_samples {
            Some(n) => n,
            None => 1,
        }),
        plan.resolve_texture == (plan.sample_count > 1),
        plan.sampled == (if plan.resolve_texture {
            SampledTexture::Resolve
        } else {
            SampledTexture::Main
        }),
{
    let sample_count = match msaa_samples {
        Some(n) => n,
        None => 1,
    };
    let resolve_texture = sample_count > 1;
    let sampled = if resolve_texture {
        SampledTexture::Resolve
    } else {
        SampledTexture::Main
    };
    SrgbTexturePlan { sample_count, resolve_texture, sampled }
}

/// What the UI pass does for a camera.
#[derive(Clone, Copy, Debug, PartialEq, Eq, Structural)]
pub enum UiPassAction {
    /// Nothing: the view or its phase is missing, or the phase is empty.
    Skip,
    /// Nothing, with a warning: the view has no sRGB UI texture.
    SkipMissingTexture,
    /// Clear the sRGB UI texture and draw the phase, first setting the camera viewport when
    /// the camera has one.
    Render { set_viewport: bool },
}

/// What the UI pass does, given whether the camera's UI view was found, how many items its
/// transparent phase holds (none when there is no phase), whether the view has its sRGB UI
/// texture and whether the camera has a viewport.
pub fn ui_pass_action(
    view_found: bool,
    phase_items: Option<usize>,
    has_srgb_texture: bool,
    has_viewport: bool,
) -> (action: UiPassAction)
    ensures
        action == (if !view_found || phase_items is None || phase_items == Some(0usize) {
            UiPassAction::Skip
        } else if !has_srgb_texture {
            UiPassAction::SkipMissingTexture
        } else {
            UiPassAction::Render { set_viewport: has_viewport }
        }),
{
    if !view_found {
        return UiPassAction::Skip;
    }
    match phase_items {
        None => UiPassAction::Skip,
        Some(n) => {
            if n == 0 {
                UiPassAction::Skip
            } else if !has_srgb_texture {
                UiPassAction::SkipMissingTexture
            } else {
                UiPassAction::Render { set_viewport: has_viewport }
            }
        },
    }
}

/// What the sRGB composite pass does for a camera.
#[derive(Clone, Copy, Debug, PartialEq, Eq, Structural)]
pub enum CompositePassAction {
    /// Nothing: the view or its phase is missing, the phase is empty, or the pipeline is not
    /// compiled yet.
    Skip,
    /// Nothing, with a warning: the view has no composite bind group.
    SkipMissingBindGroup,
    /// Nothing, with a warning: the view has no composite pipeline.
    SkipMissingPipeline,
    /// Draw one full-screen triangle with the composite pipeline and bind group into the
    /// view target.
    Render,
}

/// What the composite pass does, given whether the camera's UI view was found, how many items
/// its transparent phase holds (none when there is no phase), whether the view has its
/// composite bind group and pipeline, and whether that pipeline is compiled.
pub fn composite_pass_action(
    view_found: bool,
    phase_items: Option<usize>,
    has_bind_group: bool,
    has_pipeline_id: bool,
    pipeline_ready: bool,
) -> (action: CompositePassAction)
    ensures
        action == (if !view_found || phase_items is None || phase_items == Some(0usize) {
            CompositePassAction::Skip
        } else if !has_bind_group {
            CompositePassAction::SkipMissingBindGroup
        } else if !has_pipeline_id {
            CompositePassAction::SkipMissingPipeline
        } else if !pipeline_ready {
            CompositePassAction::Skip
        } else {
            CompositePassAction::Render
        }),
{
    if !view_found {
        return CompositePassAction::Skip;
    }
    match phase_items {
        None => CompositePassAction::Skip,
        Some(n) => {
            if n == 0 {
                CompositePassAction::Skip
            } else if !has_bind_group {
                CompositePassAction::SkipMissingBindGroup
            } else if !has_pipeline_id {
                CompositePassAction::SkipMissingPipeline
            } else if !pipeline_ready {
                CompositePassAction::Skip
            } else {
                CompositePassAction::Render
            }
        },
    }
}

/// What a UI draw command reports after looking up its resources.
#[derive(Clone, Copy, Debug)]
pub enum RenderCommandOutcome {
    /// The command did its work.
    Success,
    /// The command drew nothing for this item.
    Skip,
    /// The command could not run, for the reason given.
    Failure(&'static str),
}

/// The outcome of setting the view bind group: it fails when the bind group is not ready.
pub fn set_view_bind_group_outcome(has_view_bind_group: bool) -> (outcome: RenderCommandOutcome)
    ensures
        outcome == (if has_view_bind_group {
            RenderCommandOutcome::Success
        } else {
            RenderCommandOutcome::Failure("view_bind_group not available")
        }),
{
    if has_view_bind_group {
        RenderCommandOutcome::Success
    } else {
        RenderCommandOutcome::Failure("view_bind_group not available")
    }
}

/// The outcome of setting a batch's texture bind group: an item without a batch, or whose
/// image has no bind group, is skipped.
pub fn set_texture_bind_group_outcome(has_batch: bool, has_image_bind_group: bool) -> (outcome:
    RenderCommandOutcome)
    ensures
        outcome == (if has_batch && has_image_bind_group {
            RenderCommandOutcome::Success
        } else {
            RenderCommandOutcome::Skip
        }),
{
    if !has_batch {
        return RenderCommandOutcome::Skip;
    }
    if !has_image_bind_group {
        return RenderCommandOutcome::Skip;
    }
    RenderCommandOutcome::Success
}

/// The outcome of drawing a UI batch: an item without a batch is skipped; missing vertex or
/// index buffers fail, the vertices first.
pub fn draw_ui_node_outcome(has_batch: bool, has_vertices: bool, has_indices: bool) -> (outcome:
    RenderCommandOutcome)
    ensures
        outcome == (if !has_batch {
            RenderCommandOutcome::Skip
        } else if !has_vertices {
            RenderCommandOutcome::Failure("missing vertices to draw ui")
        } else if !has_indices {
            RenderCommandOutcome::Failure("missing indices to draw ui")
        } else {
            RenderCommandOutcome::Success
        }),
{
    if !has_batch {
        return RenderCommandOutcome::Skip;
    }
    if !has_vertices {
        return RenderCommandOutcome::Failure("missing vertices to draw ui");
    }
    if !has_indices {
        return RenderCommandOutcome::Failure("missing indices to draw ui");
    }
    RenderCommandOutcome::Success
}

} // verus!
