use bevy_logic::text2d::{
    plan_text2d_sprites, DecorationColor, GlyphEffect, GlyphSource, SectionStyle, SlicePlan, SpritePlan,
};

fn section(has_text_color: bool, has_background: bool, strikethrough: bool, underline: bool) -> SectionStyle {
    SectionStyle {
        has_text_color,
        has_background,
        strikethrough,
        underline,
        has_strikethrough_color: false,
        has_underline_color: false,
    }
}

fn glyph(section_index: usize, texture: u64, is_alpha_mask: bool) -> GlyphSource {
    GlyphSource { section_index, texture, is_alpha_mask }
}

#[test]
fn sprites_come_in_drawing_order() {
    let sections = [section(true, true, true, false), section(true, false, false, true)];
    let runs = [0, 1];
    let glyphs = [glyph(0, 7, true), glyph(0, 7, true), glyph(1, 7, false)];
    let plan = plan_text2d_sprites(true, &sections, &runs, &glyphs, true, true);
    assert_eq!(
        plan.slices,
        vec![
            SlicePlan { glyph: 0, expanded_rect: true, effect: GlyphEffect::Text },
            SlicePlan { glyph: 1, expanded_rect: true, effect: GlyphEffect::Text },
            SlicePlan { glyph: 2, expanded_rect: true, effect: GlyphEffect::Shadow },
        ]
    );
    assert_eq!(
        plan.sprites,
        vec![
            SpritePlan::Background { run: 0 },
            SpritePlan::ShadowStrikethrough { run: 0 },
            SpritePlan::ShadowUnderline { run: 1 },
            SpritePlan::Glyphs { start: 0, end: 2, color_section: Some(0), texture: 7 },
            SpritePlan::Glyphs { start: 2, end: 3, color_section: Some(1), texture: 7 },
            SpritePlan::Strikethrough { run: 0, color: DecorationColor::Text },
            SpritePlan::Underline { run: 1, color: DecorationColor::Text },
        ]
    );
}

#[test]
fn batches_split_on_texture_and_skip_sections_without_colour() {
    let sections = [section(true, false, false, false), section(false, false, true, true)];
    let runs = [0, 1];
    let glyphs = [glyph(0, 1, true), glyph(0, 2, true), glyph(1, 2, true), glyph(0, 2, true)];
    let plan = plan_text2d_sprites(true, &sections, &runs, &glyphs, false, false);
    // The glyph of the section without a text colour is skipped and ends the batch before it;
    // decorations of that section are not drawn, and without a shadow none are shadowed.
    assert_eq!(plan.slices.iter().map(|s| s.glyph).collect::<Vec<_>>(), vec![0, 1, 3]);
    assert!(plan.slices.iter().all(|s| !s.expanded_rect));
    assert_eq!(
        plan.sprites,
        vec![
            SpritePlan::Glyphs { start: 0, end: 1, color_section: Some(0), texture: 1 },
            SpritePlan::Glyphs { start: 1, end: 2, color_section: Some(0), texture: 2 },
            SpritePlan::Glyphs { start: 2, end: 3, color_section: Some(0), texture: 2 },
        ]
    );
}

#[test]
fn colour_glyphs_expand_only_with_a_shadow() {
    let sections = [section(true, false, false, false)];
    let glyphs = [glyph(0, 1, false)];
    let plan = plan_text2d_sprites(true, &sections, &[], &glyphs, false, true);
    assert_eq!(plan.slices, vec![SlicePlan { glyph: 0, expanded_rect: false, effect: GlyphEffect::Shadow }]);
    let plan = plan_text2d_sprites(true, &sections, &[], &glyphs, true, true);
    assert_eq!(plan.slices, vec![SlicePlan { glyph: 0, expanded_rect: true, effect: GlyphEffect::Shadow }]);
}

#[test]
fn empty_text_has_no_sprites() {
    let plan = plan_text2d_sprites(true, &[], &[], &[], true, true);
    assert!(plan.slices.is_empty());
    assert!(plan.sprites.is_empty());
}

#[test]
fn glyph_of_missing_section_is_skipped() {
    let sections = [section(true, false, false, false)];
    let glyphs = [glyph(3, 1, true), glyph(0, 1, true)];
    let plan = plan_text2d_sprites(true, &sections, &[], &glyphs, false, false);
    assert_eq!(plan.slices.len(), 1);
    assert_eq!(plan.slices[0].glyph, 1);
    assert_eq!(
        plan.sprites,
        vec![SpritePlan::Glyphs { start: 0, end: 1, color_section: Some(0), texture: 1 }]
    );
}

#[test]
fn decorations_take_their_own_colour_and_invisible_text_has_no_sprites() {
    let mut styled = section(true, false, true, true);
    styled.has_underline_color = true;
    let plan = plan_text2d_sprites(true, &[styled], &[0], &[], false, false);
    assert_eq!(
        plan.sprites,
        vec![
            SpritePlan::Strikethrough { run: 0, color: DecorationColor::Text },
            SpritePlan::Underline { run: 0, color: DecorationColor::Own },
        ]
    );
    let plan = plan_text2d_sprites(false, &[styled], &[0], &[glyph(0, 1, true)], true, true);
    assert!(plan.slices.is_empty() && plan.sprites.is_empty());
}

#[test]
fn glyphs_without_section_are_kept_until_a_section_resolves() {
    let sections = [section(true, false, false, false)];
    let glyphs = [glyph(usize::MAX, 1, true), glyph(0, 1, true), glyph(usize::MAX, 1, true)];
    let plan = plan_text2d_sprites(true, &sections, &[], &glyphs, false, false);
    assert_eq!(plan.slices.iter().map(|s| s.glyph).collect::<Vec<_>>(), vec![0, 1]);
    assert_eq!(
        plan.sprites,
        vec![
            SpritePlan::Glyphs { start: 0, end: 1, color_section: None, texture: 1 },
            SpritePlan::Glyphs { start: 1, end: 2, color_section: Some(0), texture: 1 },
        ]
    );
}
