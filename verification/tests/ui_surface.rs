use taffy::TraversePartialTree;
use bevy_logic::taffy_tree::NodeStyle;
use bevy_logic::ui_surface::{LayoutError, LayoutNode, UVec2, UiSurface};

/// Leaf sizes by node context key: a context stands for a fixed measure of that size.
type Sizes = Vec<(u64, (f32, f32))>;

fn compute(surface: &mut UiSurface, root: u64, resolution: UVec2, sizes: &Sizes) {
    surface.compute_layout(
        root,
        resolution,
        |input: taffy::LayoutInput,
         _id: taffy::NodeId,
         context: Option<&mut u64>,
         style: &NodeStyle|
         -> taffy::LayoutOutput {
            let size = context.map(|key| {
                sizes
                    .iter()
                    .find(|(k, _)| *k == *key)
                    .map(|(_, s)| *s)
                    .unwrap()
            });
            taffy::compute_leaf_layout(input, &style.0, |_, _| 0.0, |_known, _available| {
                match size {
                    Some((w, h)) => taffy::Size { width: w, height: h },
                    None => taffy::Size::ZERO,
                }
            })
        },
    );
}

fn style(width: taffy::Dimension, height: taffy::Dimension) -> NodeStyle {
    NodeStyle(taffy::Style {
        size: taffy::Size { width, height },
        ..Default::default()
    })
}

fn default_style() -> NodeStyle {
    NodeStyle(taffy::Style::default())
}

fn width(surface: &UiSurface, entity: u64, rounded: bool) -> f32 {
    surface.get_layout(entity, rounded).ok().unwrap().0.size.width
}

fn layouts(surface: &UiSurface, entities: &[u64]) -> Vec<(taffy::Layout, taffy::Layout)> {
    entities
        .iter()
        .map(|e| {
            let (rounded, unrounded) = surface.get_layout(*e, true).ok().unwrap();
            assert_eq!(surface.get_layout(*e, false).ok().unwrap().0, unrounded);
            (rounded, unrounded)
        })
        .collect()
}

/// A scene replayed on a new surface: each entity's style and context, then each parent's
/// children.
struct Scene {
    nodes: Vec<(u64, fn() -> NodeStyle, Option<u64>)>,
    children: Vec<(u64, Vec<u64>)>,
}

/// The layouts of `entities` in `surface` equal those of a fresh solve of the same scene.
fn assert_matches_fresh_layout(
    surface: &UiSurface,
    scene: &Scene,
    root: u64,
    resolution: UVec2,
    sizes: &Sizes,
    entities: &[u64],
) {
    let mut fresh = UiSurface::default();
    for (entity, make_style, context) in &scene.nodes {
        fresh.upsert_node(*entity, make_style(), *context);
    }
    for (parent, children) in &scene.children {
        fresh.update_children(*parent, children);
    }
    compute(&mut fresh, root, resolution, sizes);
    assert_eq!(layouts(surface, entities), layouts(&fresh, entities));
}

fn dirty(surface: &UiSurface, node: u64) -> bool {
    surface.layout_tree().dirty(taffy::NodeId::from(node)).unwrap()
}

fn percent_33_px_10() -> NodeStyle {
    style(taffy::Dimension::percent(0.333), taffy::Dimension::length(10.25))
}

fn px_40_px_10() -> NodeStyle {
    style(taffy::Dimension::length(40.25), taffy::Dimension::length(10.25))
}

fn px_80_px_20() -> NodeStyle {
    style(taffy::Dimension::length(80.5), taffy::Dimension::length(20.5))
}

#[test]
fn cached_layout_preserves_rounding_and_invalidates_on_resize_and_style() {
    let mut surface = UiSurface::default();
    let root = 1;
    let sizes: Sizes = Vec::new();
    surface.upsert_node(root, percent_33_px_10(), None);
    let resolution = UVec2::new(100, 100);
    compute(&mut surface, root, resolution, &sizes);
    let first = surface.get_layout(root, true).ok().unwrap();
    assert_eq!(first.0.size.width, 33.0);
    assert_ne!(first.0.size.width, first.1.size.width);
    let viewport = surface.get_or_insert_taffy_viewport_node(root);
    assert!(!dirty(&surface, viewport));

    surface.upsert_node(root, percent_33_px_10(), None);
    assert!(!dirty(&surface, viewport));
    // A node whose other properties changed can still convert to the same style.
    surface.upsert_node(root, percent_33_px_10(), None);
    assert!(!dirty(&surface, viewport));
    let unrounded = surface.get_layout(root, false).ok().unwrap();
    compute(&mut surface, root, resolution, &sizes);
    assert_eq!(surface.get_layout(root, true).ok().unwrap(), first);
    assert_eq!(surface.get_layout(root, false).ok().unwrap(), unrounded);
    let scene = Scene { nodes: vec![(root, percent_33_px_10, None)], children: vec![] };
    assert_matches_fresh_layout(&surface, &scene, root, resolution, &sizes, &[root]);

    let resized = UVec2::new(200, 100);
    compute(&mut surface, root, resized, &sizes);
    assert_eq!(width(&surface, root, true), 67.0);
    assert_matches_fresh_layout(&surface, &scene, root, resized, &sizes, &[root]);

    surface.upsert_node(root, px_40_px_10(), None);
    assert!(dirty(&surface, viewport));
    compute(&mut surface, root, resized, &sizes);
    assert_eq!(width(&surface, root, false), 40.25);
    let scene = Scene { nodes: vec![(root, px_40_px_10, None)], children: vec![] };
    assert_matches_fresh_layout(&surface, &scene, root, resized, &sizes, &[root]);

    // A scale factor of two doubles the lengths of the converted style.
    surface.upsert_node(root, px_80_px_20(), None);
    compute(&mut surface, root, resized, &sizes);
    assert_eq!(width(&surface, root, false), 80.5);
    let scene = Scene { nodes: vec![(root, px_80_px_20, None)], children: vec![] };
    assert_matches_fresh_layout(&surface, &scene, root, resized, &sizes, &[root]);
}

fn half_width() -> NodeStyle {
    style(taffy::Dimension::percent(0.5), taffy::Dimension::auto())
}

#[test]
fn cached_layout_does_not_reuse_a_recreated_clean_viewport() {
    let mut surface = UiSurface::default();
    let root = 1;
    let holder = 2;
    let sizes: Sizes = Vec::new();
    let resolution = UVec2::splat(100);
    surface.upsert_node(root, half_width(), None);
    compute(&mut surface, root, resolution, &sizes);
    let old_viewport = surface.viewport_node(root).unwrap();
    assert!(surface.has_computed_layout(root));

    // A viewport cannot be dropped and recreated behind the surface's back while its cached
    // solve stays, nor solved directly at another size: the surface keeps its tree private and
    // every cached solve names the root's current viewport. The public operations recreate a
    // viewport only after dropping the root's cached solve: demoting the root removes both, and
    // promoting it again makes a new viewport, which is then solved at the requested size.
    surface.upsert_node(holder, default_style(), None);
    surface.update_children(holder, &[root]);
    assert!(!surface.has_computed_layout(root));
    assert_eq!(surface.viewport_node(root), None);
    surface.try_remove_children(holder);
    let viewport = surface.get_or_insert_taffy_viewport_node(root);
    assert_ne!(viewport, old_viewport);
    assert!(!surface.has_computed_layout(root));

    compute(&mut surface, root, resolution, &sizes);
    assert_eq!(width(&surface, root, false), 50.0);
    let scene = Scene { nodes: vec![(root, half_width, None)], children: vec![] };
    assert_matches_fresh_layout(&surface, &scene, root, resolution, &sizes, &[root]);
}

#[test]
fn cached_layout_invalidates_on_measure_changes_and_removal() {
    let mut surface = UiSurface::default();
    let root = 1;
    let child = 2;
    let resolution = UVec2::splat(100);
    let sizes: Sizes = vec![(1, (10.25, 10.25)), (2, (20.25, 20.25)), (3, (30.25, 30.25))];
    surface.upsert_node(root, default_style(), None);
    surface.upsert_node(child, default_style(), Some(1));
    surface.update_children(root, &[child]);
    compute(&mut surface, root, resolution, &sizes);
    assert_eq!(width(&surface, root, false), 10.25);

    assert!(surface.update_node_context(child, 2).is_some());
    compute(&mut surface, root, resolution, &sizes);
    assert_eq!(width(&surface, root, false), 20.25);
    let scene = Scene {
        nodes: vec![(root, default_style, None), (child, default_style, Some(2))],
        children: vec![(root, vec![child])],
    };
    assert_matches_fresh_layout(&surface, &scene, root, resolution, &sizes, &[root, child]);

    surface.try_remove_node_context(child);
    compute(&mut surface, root, resolution, &sizes);
    assert_eq!(width(&surface, root, false), 0.0);

    surface.upsert_node(child, default_style(), Some(3));
    compute(&mut surface, root, resolution, &sizes);
    assert_eq!(width(&surface, root, false), 30.25);
    // Removal without a preceding update of the children.
    surface.remove_entities(&[child]);
    compute(&mut surface, root, resolution, &sizes);
    assert_eq!(width(&surface, root, false), 0.0);
    let scene = Scene { nodes: vec![(root, default_style, None)], children: vec![] };
    assert_matches_fresh_layout(&surface, &scene, root, resolution, &sizes, &[root]);
}

fn px_10_high() -> NodeStyle {
    style(taffy::Dimension::auto(), taffy::Dimension::length(10.0))
}

#[test]
fn cached_layout_invalidates_on_text_measure_changes() {
    let mut surface = UiSurface::default();
    let root = 1;
    let resolution = UVec2::splat(100);
    // Text measures of 20 and 40 pixels wide, 10 high.
    let sizes: Sizes = vec![(20, (20.0, 10.0)), (40, (40.0, 10.0))];
    surface.upsert_node(root, px_10_high(), Some(20));
    compute(&mut surface, root, resolution, &sizes);
    assert_eq!(width(&surface, root, true), 20.0);
    surface.upsert_node(root, px_10_high(), Some(40));
    compute(&mut surface, root, resolution, &sizes);
    assert_eq!(width(&surface, root, true), 40.0);
    let scene = Scene { nodes: vec![(root, px_10_high, Some(40))], children: vec![] };
    assert_matches_fresh_layout(&surface, &scene, root, resolution, &sizes, &[root]);
}

fn px_10_square() -> NodeStyle {
    style(taffy::Dimension::length(10.25), taffy::Dimension::length(10.25))
}

fn px_50_wide() -> NodeStyle {
    style(taffy::Dimension::length(50.25), taffy::Dimension::auto())
}

#[test]
fn cached_layout_handles_reparenting_and_root_role_changes() {
    let mut surface = UiSurface::default();
    let a = 1;
    let b = 2;
    let child = 3;
    let sizes: Sizes = Vec::new();
    let resolution = UVec2::splat(100);
    for entity in [a, b] {
        surface.upsert_node(entity, default_style(), None);
    }
    surface.upsert_node(child, px_10_square(), None);
    surface.update_children(a, &[child]);
    compute(&mut surface, a, resolution, &sizes);
    compute(&mut surface, b, resolution, &sizes);

    surface.update_children(b, &[child]);
    compute(&mut surface, a, resolution, &sizes);
    compute(&mut surface, b, resolution, &sizes);
    assert_eq!(width(&surface, a, false), 0.0);
    assert_eq!(width(&surface, b, false), 10.25);
    let scene = Scene {
        nodes: vec![(b, default_style, None), (child, px_10_square, None)],
        children: vec![(b, vec![child])],
    };
    assert_matches_fresh_layout(&surface, &scene, b, resolution, &sizes, &[b, child]);

    // Promotion must detach the child from b and invalidate b too.
    compute(&mut surface, child, resolution, &sizes);
    compute(&mut surface, b, resolution, &sizes);
    assert_eq!(width(&surface, b, false), 0.0);
    let scene = Scene { nodes: vec![(child, px_10_square, None)], children: vec![] };
    assert_matches_fresh_layout(&surface, &scene, child, resolution, &sizes, &[child]);
    let old_viewport = surface.get_or_insert_taffy_viewport_node(child);

    // Demotion removes its viewport and cached resolution.
    surface.update_children(a, &[child]);
    assert!(!surface.has_computed_layout(child));
    compute(&mut surface, a, resolution, &sizes);
    surface.try_remove_children(a);
    compute(&mut surface, a, resolution, &sizes);
    compute(&mut surface, child, resolution, &sizes);
    assert_ne!(surface.get_or_insert_taffy_viewport_node(child), old_viewport);
    assert_eq!(width(&surface, a, false), 0.0);
    assert_matches_fresh_layout(&surface, &scene, child, resolution, &sizes, &[child]);

    surface.remove_entities(&[child]);
    assert!(!surface.has_computed_layout(child));
    surface.upsert_node(child, px_50_wide(), None);
    compute(&mut surface, child, resolution, &sizes);
    assert_eq!(width(&surface, child, false), 50.25);
    let scene = Scene { nodes: vec![(child, px_50_wide, None)], children: vec![] };
    assert_matches_fresh_layout(&surface, &scene, child, resolution, &sizes, &[child]);
}

#[test]
fn test_initialization() {
    let ui_surface = UiSurface::default();
    assert!(ui_surface.taffy_node(1).is_none());
    assert_eq!(ui_surface.layout_tree().total_node_count(), 0);
}

#[test]
fn test_upsert() {
    let mut ui_surface = UiSurface::default();
    let root_node_entity = 1;

    // standard upsert
    ui_surface.upsert_node(root_node_entity, default_style(), None);

    // should be inserted into taffy
    assert_eq!(ui_surface.layout_tree().total_node_count(), 1);
    assert!(ui_surface.taffy_node(root_node_entity).is_some());

    // test duplicate insert 1
    ui_surface.upsert_node(root_node_entity, default_style(), None);

    // node count should not have increased
    assert_eq!(ui_surface.layout_tree().total_node_count(), 1);

    // assign root node to camera
    ui_surface.get_or_insert_taffy_viewport_node(root_node_entity);

    // each root node will create 2 taffy nodes
    assert_eq!(ui_surface.layout_tree().total_node_count(), 2);

    // test duplicate insert 2
    ui_surface.upsert_node(root_node_entity, default_style(), None);

    // node count should not have increased
    assert_eq!(ui_surface.layout_tree().total_node_count(), 2);
}

#[test]
fn test_remove_entities() {
    let mut ui_surface = UiSurface::default();
    let root_node_entity = 1;

    ui_surface.upsert_node(root_node_entity, default_style(), None);

    ui_surface.get_or_insert_taffy_viewport_node(root_node_entity);

    assert!(ui_surface.taffy_node(root_node_entity).is_some());

    ui_surface.remove_entities(&[root_node_entity]);
    assert!(ui_surface.taffy_node(root_node_entity).is_none());
}

#[test]
fn test_try_update_measure() {
    let mut ui_surface = UiSurface::default();
    let root_node_entity = 1;

    ui_surface.upsert_node(root_node_entity, default_style(), None);
    assert!(ui_surface.update_node_context(root_node_entity, 7).is_some());
}

#[test]
fn test_update_children() {
    let mut ui_surface = UiSurface::default();
    let root_node_entity = 1;
    let child_entity = 2;

    ui_surface.upsert_node(root_node_entity, default_style(), None);
    ui_surface.upsert_node(child_entity, default_style(), None);

    ui_surface.update_children(root_node_entity, &[child_entity]);

    let parent_node = ui_surface.taffy_node(root_node_entity).unwrap();
    let child_node = ui_surface.taffy_node(child_entity).unwrap();
    assert_eq!(
        ui_surface.layout_tree().parent(taffy::NodeId::from(child_node.id)),
        Some(taffy::NodeId::from(parent_node.id))
    );
}

#[test]
fn test_set_camera_children() {
    let mut ui_surface = UiSurface::default();
    let root_node_entity = 1;
    let child_entity = 2;

    ui_surface.upsert_node(root_node_entity, default_style(), None);
    ui_surface.upsert_node(child_entity, default_style(), None);

    let root_taffy_node = ui_surface.taffy_node(root_node_entity).unwrap();
    let child_taffy = ui_surface.taffy_node(child_entity).unwrap();

    // set up the relationship
    ui_surface.update_children(root_node_entity, &[child_entity]);

    ui_surface.get_or_insert_taffy_viewport_node(root_node_entity);

    let tree = ui_surface.layout_tree();
    let root_id = taffy::NodeId::from(root_taffy_node.id);
    let child_id = taffy::NodeId::from(child_taffy.id);
    assert_eq!(tree.parent(child_id), Some(root_id));
    let root_taffy_children = tree.children(root_id).unwrap();
    assert!(root_taffy_children.contains(&child_id), "root node is not a parent of child node");
    assert_eq!(tree.child_count(root_id), 1, "expected root node child count to be 1");

    // asking for the viewport again keeps the relationship
    ui_surface.get_or_insert_taffy_viewport_node(root_node_entity);
    let tree = ui_surface.layout_tree();
    let root_taffy_children = tree.children(root_id).unwrap();
    assert!(root_taffy_children.contains(&child_id), "root node is not a parent of child node");
    assert_eq!(tree.child_count(root_id), 1, "expected root node child count to be 1");
}

#[test]
fn viewport_is_parent_of_root_and_cached_solve_names_it() {
    let mut surface = UiSurface::default();
    surface.upsert_node(5, default_style(), None);
    let viewport = surface.get_or_insert_taffy_viewport_node(5);
    let node = surface.taffy_node(5).unwrap();
    assert_eq!(node, LayoutNode { viewport_id: Some(viewport), id: node.id });
    assert_eq!(
        surface.layout_tree().parent(taffy::NodeId::from(node.id)),
        Some(taffy::NodeId::from(viewport))
    );
    assert_eq!(surface.get_or_insert_taffy_viewport_node(5), viewport);
    compute(&mut surface, 5, UVec2::new(30, 40), &Vec::new());
    assert!(surface.has_computed_layout(5));
    assert_eq!(surface.viewport_node(5), Some(viewport));
}

#[test]
fn get_layout_of_unknown_entity_is_invalid_hierarchy() {
    let surface = UiSurface::default();
    assert!(matches!(surface.get_layout(9, true), Err(LayoutError::InvalidHierarchy)));
    assert!(matches!(surface.get_layout(9, false), Err(LayoutError::InvalidHierarchy)));
}

#[test]
fn update_node_context_of_unknown_entity_is_none() {
    let mut surface = UiSurface::default();
    assert!(surface.update_node_context(3, 1).is_none());
}

#[test]
fn remove_entities_drops_viewport_and_cache() {
    let mut surface = UiSurface::default();
    surface.upsert_node(1, default_style(), None);
    compute(&mut surface, 1, UVec2::splat(10), &Vec::new());
    assert_eq!(surface.layout_tree().total_node_count(), 2);
    surface.remove_entities(&[1, 2]);
    assert_eq!(surface.viewport_node(1), None);
    assert!(!surface.has_computed_layout(1));
    assert_eq!(surface.layout_tree().total_node_count(), 0);
}

#[test]
fn layout_node_from_id_has_no_viewport() {
    let node = LayoutNode::from(4u64);
    assert_eq!(node, LayoutNode { viewport_id: None, id: 4 });
}

#[test]
fn cycle_check_refuses_ancestors() {
    let mut surface = UiSurface::default();
    for e in [1, 2, 3] {
        surface.upsert_node(e, default_style(), None);
    }
    surface.update_children(1, &[2]);
    surface.update_children(2, &[3]);
    assert!(surface.children_keep_layout_acyclic(3, &[4]));
    assert!(!surface.children_keep_layout_acyclic(3, &[1]));
    assert!(!surface.children_keep_layout_acyclic(3, &[3]));
    assert!(!surface.children_keep_layout_acyclic(2, &[1]));
    assert!(surface.children_keep_layout_acyclic(1, &[3]));
    // A root's viewport is above the root, and the viewport is no entity's own node.
    surface.get_or_insert_taffy_viewport_node(1);
    assert!(!surface.children_keep_layout_acyclic(3, &[2, 1]));
}

#[test]
fn get_layout_without_rounding_returns_the_unrounded_layout_twice() {
    let mut surface = UiSurface::default();
    surface.upsert_node(1, percent_33_px_10(), None);
    compute(&mut surface, 1, UVec2::new(100, 100), &Vec::new());
    let (layout, unrounded) = surface.get_layout(1, false).ok().unwrap();
    assert_eq!(layout, unrounded);
    let viewport = surface.viewport_node(1).unwrap();
    assert!(!dirty(&surface, viewport));
}
