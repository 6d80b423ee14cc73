# bevy_logic

A Verus-verified library for the bookkeeping behind game UI and text rendering.

- `src/taffy_tree.rs` — the layout tree (taffy) as a map of nodes with children, parent and
  context; trusted wrappers of the tree operations; consistency and acyclicity lemmas.
- `src/ui_surface.rs` — UI entities mapped to layout nodes, implicit viewports of UI roots and
  the cache of the last solve per root.
- `src/glyph.rs` — font smoothing, padding, outline masks and RGBA packing of rasterised
  glyphs, atlas sizing and placement.
- `src/text2d.rs` — which sprites and glyph batches a block of 2D text is drawn with.
- `src/screenshot.rs` — which screenshot requests are captured, output sizes, row padding.
- `src/fps_sample.rs` — frame sampling of the FPS overlay.
- `src/accessibility.rs` — accessibility labels and the transform chain of accessible nodes.
- `src/ui_render.rs` — formats, shader definitions and pass decisions of the UI renderer.

`app/` holds the unverified edges: file and GPU read-back I/O, AccessKit nodes, floating point
measurement and formatting. `tests/` exercises the library on concrete values.
