use bevy_logic::ui_render::{
    composite_pass_action, composite_target_format, draw_ui_node_outcome, plan_srgb_ui_texture,
    set_texture_bind_group_outcome, set_view_bind_group_outcome, ui_pass_action,
    ui_render_target_format, ui_shader_defs, ui_vertex_attributes, ColorFormat,
    CompositePassAction, RenderCommandOutcome, SampledTexture, SrgbTexturePlan, UiPassAction,
    VertexAttribute, ANTI_ALIAS_SHADER_DEF, MANUAL_SRGB_SHADER_DEF,
};

#[test]
fn render_target_format_keeps_half_floats_only() {
    assert_eq!(ui_render_target_format(ColorFormat::Rgba16Float), ColorFormat::Rgba16Float);
    assert_eq!(ui_render_target_format(ColorFormat::Rgba8UnormSrgb), ColorFormat::Rgba8Unorm);
    assert_eq!(ui_render_target_format(ColorFormat::Other), ColorFormat::Rgba8Unorm);
    assert_eq!(composite_target_format(true), ColorFormat::Rgba16Float);
    assert_eq!(composite_target_format(false), ColorFormat::Rgba8UnormSrgb);
}

#[test]
fn shader_defs_end_with_manual_srgb() {
    assert_eq!(ui_shader_defs(true), vec!["ANTI_ALIAS", "MANUAL_SRGB"]);
    assert_eq!(ui_shader_defs(false), vec![MANUAL_SRGB_SHADER_DEF]);
    assert_eq!(ANTI_ALIAS_SHADER_DEF, "ANTI_ALIAS");
}

#[test]
fn ui_vertex_has_eleven_attributes() {
    let attributes = ui_vertex_attributes();
    assert_eq!(attributes.len(), 11);
    assert_eq!(attributes[0], VertexAttribute::Float32x3);
    assert_eq!(attributes[3], VertexAttribute::Uint32);
    assert_eq!(attributes[10], VertexAttribute::Float32x4);
}

#[test]
fn msaa_adds_a_resolve_texture() {
    assert_eq!(
        plan_srgb_ui_texture(None),
        SrgbTexturePlan { sample_count: 1, resolve_texture: false, sampled: SampledTexture::Main }
    );
    assert_eq!(
        plan_srgb_ui_texture(Some(4)),
        SrgbTexturePlan { sample_count: 4, resolve_texture: true, sampled: SampledTexture::Resolve }
    );
    assert_eq!(plan_srgb_ui_texture(Some(1)).resolve_texture, false);
}

#[test]
fn ui_pass_runs_only_with_items_and_texture() {
    assert_eq!(ui_pass_action(false, Some(3), true, true), UiPassAction::Skip);
    assert_eq!(ui_pass_action(true, None, true, true), UiPassAction::Skip);
    assert_eq!(ui_pass_action(true, Some(0), true, true), UiPassAction::Skip);
    assert_eq!(ui_pass_action(true, Some(2), false, true), UiPassAction::SkipMissingTexture);
    assert_eq!(ui_pass_action(true, Some(2), true, false), UiPassAction::Render { set_viewport: false });
    assert_eq!(ui_pass_action(true, Some(2), true, true), UiPassAction::Render { set_viewport: true });
}

#[test]
fn composite_pass_needs_bind_group_and_ready_pipeline() {
    assert_eq!(composite_pass_action(true, Some(0), true, true, true), CompositePassAction::Skip);
    assert_eq!(
        composite_pass_action(true, Some(1), false, false, false),
        CompositePassAction::SkipMissingBindGroup
    );
    assert_eq!(
        composite_pass_action(true, Some(1), true, false, true),
        CompositePassAction::SkipMissingPipeline
    );
    assert_eq!(composite_pass_action(true, Some(1), true, true, false), CompositePassAction::Skip);
    assert_eq!(composite_pass_action(true, Some(1), true, true, true), CompositePassAction::Render);
}

#[test]
fn draw_commands_report_missing_resources() {
    assert!(matches!(set_view_bind_group_outcome(true), RenderCommandOutcome::Success));
    assert!(matches!(
        set_view_bind_group_outcome(false),
        RenderCommandOutcome::Failure("view_bind_group not available")
    ));
    assert!(matches!(set_texture_bind_group_outcome(false, true), RenderCommandOutcome::Skip));
    assert!(matches!(set_texture_bind_group_outcome(true, false), RenderCommandOutcome::Skip));
    assert!(matches!(set_texture_bind_group_outcome(true, true), RenderCommandOutcome::Success));
    assert!(matches!(draw_ui_node_outcome(false, false, false), RenderCommandOutcome::Skip));
    assert!(matches!(
        draw_ui_node_outcome(true, false, false),
        RenderCommandOutcome::Failure("missing vertices to draw ui")
    ));
    assert!(matches!(
        draw_ui_node_outcome(true, true, false),
        RenderCommandOutcome::Failure("missing indices to draw ui")
    ));
    assert!(matches!(draw_ui_node_outcome(true, true, true), RenderCommandOutcome::Success));
}
