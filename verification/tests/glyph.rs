use bevy_logic::glyph::{
    apply_font_smoothing, atlas_size_for_glyph, build_outline_mask, glyph_texture,
    pack_text_glyph_texture, pad_mask, place_glyph_in_atlases, texture_from_image,
    AtlasPlacement, FontAtlasKey, FontSmoothing, GlyphContent, GlyphImage, TextError,
};

fn cache_key() -> cosmic_text::CacheKey {
    cosmic_text::CacheKey::new(
        cosmic_text::fontdb::ID::dummy(),
        7,
        16.0,
        (0.0, 0.0),
        cosmic_text::Weight(400),
        cosmic_text::CacheKeyFlags::empty(),
    )
    .0
}

/// The points of a disc of radius `outline_width`, as outlines sample them.
fn disc_offsets(outline_width: f32) -> Vec<(i32, i32)> {
    let max_radius = outline_width.ceil().max(1.0) as i32;
    let max_distance_squared = (outline_width + 0.5) * (outline_width + 0.5);
    let mut offsets = Vec::new();
    for y in -max_radius..=max_radius {
        for x in -max_radius..=max_radius {
            if ((x * x + y * y) as f32) <= max_distance_squared {
                offsets.push((x, y));
            }
        }
    }
    offsets
}

#[test]
fn font_smoothing_thresholds_alpha_only_when_disabled() {
    let alpha = [0u8, 127, 128, 255, 64];
    assert_eq!(apply_font_smoothing(&alpha, FontSmoothing::Disabled), vec![0, 0, 255, 255, 0]);
    assert_eq!(apply_font_smoothing(&alpha, FontSmoothing::AntiAliased), alpha.to_vec());
    assert_eq!(apply_font_smoothing(&[], FontSmoothing::Disabled), Vec::<u8>::new());
}

#[test]
fn pad_mask_frames_the_mask() {
    let padded = pad_mask(&[1, 2, 3, 4, 5, 6], 3, 2, 1);
    assert_eq!(
        padded,
        vec![
            0, 0, 0, 0, 0, //
            0, 1, 2, 3, 0, //
            0, 4, 5, 6, 0, //
            0, 0, 0, 0, 0,
        ]
    );
    assert_eq!(pad_mask(&[9, 8], 2, 1, 0), vec![9, 8]);
    assert_eq!(pad_mask(&[], 0, 0, 2), vec![0; 16]);
}

#[test]
fn outline_is_the_dilated_fill_less_the_fill() {
    let fill = [0u8, 0, 0, 0, 200, 0, 0, 0, 0];
    let outline = build_outline_mask(&fill, 3, 3, &disc_offsets(1.0));
    assert_eq!(outline, vec![200, 200, 200, 200, 0, 200, 200, 200, 200]);

    // A radius of a half reaches the four neighbours only.
    let outline = build_outline_mask(&fill, 3, 3, &disc_offsets(0.5));
    assert_eq!(outline, vec![0, 200, 0, 200, 0, 200, 0, 200, 0]);

    // A partly covered pixel keeps the excess of its brightest neighbour.
    let fill = [100u8, 250];
    assert_eq!(build_outline_mask(&fill, 2, 1, &disc_offsets(1.0)), vec![150, 0]);
}

#[test]
fn packed_texture_has_outline_in_red_and_fill_in_alpha() {
    assert_eq!(
        pack_text_glyph_texture(&[10, 20], Some(&[1, 2])),
        vec![1, 0, 0, 10, 2, 0, 0, 20]
    );
    assert_eq!(pack_text_glyph_texture(&[10, 20], None), vec![0, 0, 0, 10, 0, 0, 0, 20]);
}

#[test]
fn atlas_size_is_smallest_power_of_two_above_glyph_and_at_least_512() {
    assert_eq!(atlas_size_for_glyph(0), 512);
    assert_eq!(atlas_size_for_glyph(1), 512);
    assert_eq!(atlas_size_for_glyph(511), 512);
    assert_eq!(atlas_size_for_glyph(512), 1024);
    assert_eq!(atlas_size_for_glyph(700), 1024);
    assert_eq!(atlas_size_for_glyph(1024), 2048);
    assert_eq!(atlas_size_for_glyph(0x7fff_ffff), 0x8000_0000);
}

#[test]
fn glyph_goes_to_first_accepting_atlas_or_a_new_one() {
    assert_eq!(place_glyph_in_atlases(&[false, true, true], 10, 10), AtlasPlacement::Existing(1));
    assert_eq!(place_glyph_in_atlases(&[true], 10, 10), AtlasPlacement::Existing(0));
    assert_eq!(place_glyph_in_atlases(&[false, false], 600, 100), AtlasPlacement::New(1024));
    assert_eq!(place_glyph_in_atlases(&[false], 100, 1500), AtlasPlacement::New(2048));
    assert_eq!(place_glyph_in_atlases(&[], 10, 10), AtlasPlacement::New(512));
}

#[test]
fn mask_glyph_texture_is_smoothed_padded_and_packed() {
    let image = GlyphImage {
        left: 3,
        top: -2,
        width: 2,
        height: 1,
        content: GlyphContent::Mask,
        data: vec![100, 200],
    };
    let texture = texture_from_image(&image, cache_key(), FontSmoothing::Disabled, Some(1), None)
        .ok()
        .unwrap();
    assert_eq!((texture.width, texture.height, texture.left, texture.top), (4, 3, 3, -2));
    let mut expected = vec![0u8; 4 * 12];
    expected[4 * 6 + 3] = 255;
    assert_eq!(texture.data, expected);
}

#[test]
fn colour_glyph_texture_takes_pixel_alpha_and_outline() {
    let image = GlyphImage {
        left: 0,
        top: 0,
        width: 2,
        height: 1,
        content: GlyphContent::Color,
        data: vec![9, 9, 9, 40, 9, 9, 9, 0],
    };
    let offsets = disc_offsets(1.0);
    let texture = glyph_texture(&image, FontSmoothing::AntiAliased, None, Some(&offsets));
    assert_eq!((texture.width, texture.height), (2, 1));
    assert_eq!(texture.data, vec![0, 0, 0, 40, 40, 0, 0, 0]);
}

#[test]
fn subpixel_and_inconsistent_images_are_errors() {
    let subpixel = GlyphImage {
        left: 0,
        top: 0,
        width: 1,
        height: 1,
        content: GlyphContent::SubpixelMask,
        data: vec![1, 2, 3, 4],
    };
    let key = cache_key();
    assert!(matches!(
        texture_from_image(&subpixel, key, FontSmoothing::AntiAliased, None, None),
        Err(TextError::UnsupportedSubpixelMask(k)) if k == key
    ));
    let short = GlyphImage {
        left: 0,
        top: 0,
        width: 3,
        height: 3,
        content: GlyphContent::Mask,
        data: vec![1, 2],
    };
    assert!(matches!(
        texture_from_image(&short, key, FontSmoothing::AntiAliased, Some(1), None),
        Err(TextError::InconsistentGlyphImage(k)) if k == key
    ));
    // Without padding or outline the pixels are packed as they are.
    let texture =
        texture_from_image(&short, key, FontSmoothing::AntiAliased, None, None).ok().unwrap();
    assert_eq!(texture.data, vec![0, 0, 0, 1, 0, 0, 0, 2]);
}

#[test]
fn font_atlas_key_keeps_its_fields() {
    let key = FontAtlasKey::new(16.0f32.to_bits(), FontSmoothing::AntiAliased, true, Some(2.0f32.to_bits()));
    assert_eq!(key.font_size_bits, 16.0f32.to_bits());
    assert_eq!(key.font_smoothing, FontSmoothing::AntiAliased);
    assert!(key.text_effect_padding);
    assert_eq!(key.outline_width_bits, Some(2.0f32.to_bits()));
    assert_ne!(key, FontAtlasKey::new(16.0f32.to_bits(), FontSmoothing::AntiAliased, true, None));
}
