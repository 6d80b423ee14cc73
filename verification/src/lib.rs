//! A verified library for game UI and text rendering bookkeeping: the map from UI entities to
//! layout tree nodes, glyph rasterisation into textures, text sprite batching, screenshot
//! capture planning, FPS overlay sampling, accessibility labels and UI render decisions.
use vstd::prelude::*;

pub mod taffy_tree;
pub mod ui_surface;
pub mod glyph;
pub mod fps_sample;
pub mod text2d;
pub mod screenshot;
pub mod accessibility;
pub mod ui_render;

verus! {

} // verus!
