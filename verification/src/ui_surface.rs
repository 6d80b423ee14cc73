//! The UI surface: the map from UI node entities to nodes of the layout tree, the implicit
//! viewport node of each UI root, and the cache of the last solved viewport per root.
use std::collections::HashMap;

use vstd::prelude::*;

use crate::taffy_tree::{
    ancestor_within, lemma_ancestor_more_links, children_of, is_ancestor_or_self, lemma_remove_keeps_ancestors,
    lemma_set_children_keeps_acyclic, context_of, lemma_insert_leaf, lemma_new_parent_keeps_acyclic,
    lemma_remove_keeps_consistent, lemma_same_links, lemma_set_children_keeps_consistent,
    parent_of, ranked_by, taffy_dirty, taffy_nodes, taffy_solved_for, tree_acyclic, tree_compute_layout_with_measure,
    tree_consistent, tree_dirty, tree_layout, tree_mark_dirty, tree_new, tree_new_leaf,
    tree_new_leaf_with_context, node_style, DisplayMode, ItemAlignment, tree_parent, tree_remove,
    tree_set_children, tree_set_node_context, tree_set_style, tree_style_differs,
    tree_unrounded_layout, view_after_remove, view_after_set_children,
    NodeEntry, NodeStyle,
};

verus! {

broadcast use vstd::std_specs::hash::group_hash_axioms;

/// A pair of unsigned coordinates, such as a render target resolution in physical pixels.
#[derive(Clone, Copy, Debug, PartialEq, Eq, Structural)]
pub struct UVec2 {
    pub x: u32,
    pub y: u32,
}

impl UVec2 {
    pub fn new(x: u32, y: u32) -> (v: UVec2)
        ensures
            v == (UVec2 { x, y }),
    {
        UVec2 { x, y }
    }

    /// Both coordinates equal to `v`.
    pub fn splat(v: u32) -> (r: UVec2)
        ensures
            r == (UVec2 { x: v, y: v }),
    {
        UVec2 { x: v, y: v }
    }
}

/// The layout tree nodes of one UI node entity.
#[derive(Clone, Copy, Debug, PartialEq, Eq, Structural)]
pub struct LayoutNode {
    /// The implicit viewport node, when the entity is a UI root.
    pub viewport_id: Option<u64>,
    /// The node of the entity itself.
    pub id: u64,
}

impl core::convert::From<u64> for LayoutNode {
    fn from(value: u64) -> (node: LayoutNode) {
        LayoutNode { viewport_id: None, id: value }
    }
}

impl vstd::std_specs::convert::FromSpecImpl<u64> for LayoutNode {
    open spec fn obeys_from_spec() -> bool {
        true
    }

    open spec fn from_spec(v: u64) -> LayoutNode {
        LayoutNode { viewport_id: None, id: v }
    }
}

/// Why a layout could not be read.
pub enum LayoutError {
    /// The entity has no node in the layout tree.
    InvalidHierarchy,
    /// The layout tree reported an error.
    TaffyError(taffy::TaffyError),
}

/// Whether `node` is one of the two layout nodes of an entity.
pub open spec fn owns(node: LayoutNode, id: u64) -> bool {
    node.id == id || node.viewport_id == Some(id)
}

/// The layout node ids of `entities`, in order, for those that have one.
pub open spec fn mapped_ids(nodes: Map<u64, LayoutNode>, entities: Seq<u64>) -> Seq<u64>
    decreases entities.len(),
{
    if entities.len() == 0 {
        Seq::empty()
    } else {
        let rest = mapped_ids(nodes, entities.drop_last());
        if nodes.contains_key(entities.last()) {
            rest.push(nodes[entities.last()].id)
        } else {
            rest
        }
    }
}

/// `nodes` after the viewports of the listed entities are dropped.
pub open spec fn without_viewports(nodes: Map<u64, LayoutNode>, entities: Seq<u64>) -> Map<
    u64,
    LayoutNode,
> {
    Map::new(
        |e: u64| nodes.contains_key(e),
        |e: u64|
            if entities.contains(e) {
                LayoutNode { viewport_id: None, id: nodes[e].id }
            } else {
                nodes[e]
            },
    )
}

/// The layout nodes, own and viewport, of those `entities` that have any.
pub open spec fn removed_nodes(nodes: Map<u64, LayoutNode>, entities: Seq<u64>) -> Set<u64> {
    Set::new(
        |x: u64| exists|e: u64| #![trigger owns(nodes[e], x)] entities.contains(e) && nodes.contains_key(e) && owns(nodes[e], x),
    )
}

/// Each node of `cur` has the parent it had in `t0`, or no parent because that parent is gone.
pub open spec fn parents_kept_or_gone(cur: Map<u64, NodeEntry>, t0: Map<u64, NodeEntry>) -> bool {
    forall|n: u64|
        #[trigger] cur.contains_key(n) ==> parent_of(cur, n) == parent_of(t0, n) || (parent_of(cur, n)
            is None && parent_of(t0, n) is Some && !cur.contains_key(parent_of(t0, n)->0))
}

/// The viewport nodes of those `entities` that are UI roots.
pub open spec fn child_viewports(nodes: Map<u64, LayoutNode>, entities: Seq<u64>) -> Set<u64> {
    Set::new(
        |x: u64|
            exists|e: u64|
                #![trigger nodes[e].viewport_id]
                entities.contains(e) && nodes.contains_key(e) && nodes[e].viewport_id == Some(x),
    )
}

/// `id` is the layout node of one of the first `len` entities.
pub open spec fn id_from_prefix(
    nodes: Map<u64, LayoutNode>,
    entities: Seq<u64>,
    len: int,
    id: u64,
) -> bool {
    exists|j: int| 0 <= j < len && nodes.contains_key(entities[j]) && id == nodes[entities[j]].id
}

/// Whether a cached solve for a root is still the current layout: it was made for the same
/// viewport node at the same resolution, and the viewport has not been invalidated since.
pub fn layout_is_current(
    cached: Option<(u64, UVec2)>,
    viewport: u64,
    resolution: UVec2,
    viewport_dirty: bool,
) -> (current: bool)
    ensures
        current == (cached == Some((viewport, resolution)) && !viewport_dirty),
{
    match cached {
        Some(entry) => entry.0 == viewport && entry.1 == resolution && !viewport_dirty,
        None => false,
    }
}

/// The entity map and the tree agree: every node of an entity is live, no two entities share
/// a node, and a root's viewport is recorded in both maps.
pub open spec fn surface_invariant(
    t: Map<u64, NodeEntry>,
    n: Map<u64, LayoutNode>,
    v: Map<u64, u64>,
) -> bool {
    &&& tree_consistent(t)
    &&& forall|e: u64| #[trigger] n.contains_key(e) ==> t.contains_key(n[e].id)
    &&& forall|e: u64| #[trigger]
        n.contains_key(e) && n[e].viewport_id is Some ==> t.contains_key(n[e].viewport_id->0)
            && n[e].viewport_id->0 != n[e].id
    &&& forall|e1: u64, e2: u64, x: u64|
        n.contains_key(e1) && n.contains_key(e2) && e1 != e2 && #[trigger] owns(n[e1], x)
            ==> !#[trigger] owns(n[e2], x)
    &&& forall|e: u64| #[trigger] v.contains_key(e) <==> (n.contains_key(e) && n[e].viewport_id is Some)
    &&& forall|e: u64| #[trigger] v.contains_key(e) ==> n[e].viewport_id == Some(v[e])
}

/// Every cached solve belongs to a root and names that root's current viewport.
pub open spec fn cache_invariant(c: Map<u64, (u64, UVec2)>, v: Map<u64, u64>) -> bool {
    forall|e: u64| #[trigger] c.contains_key(e) ==> v.contains_key(e) && c[e].0 == v[e]
}

/// The invariant survives a change of the tree that keeps its nodes and its consistency.
pub proof fn lemma_invariant_same_tree_nodes(
    t0: Map<u64, NodeEntry>,
    t1: Map<u64, NodeEntry>,
    n: Map<u64, LayoutNode>,
    v: Map<u64, u64>,
)
    requires
        surface_invariant(t0, n, v),
        tree_consistent(t1),
        t1.dom() == t0.dom(),
    ensures
        surface_invariant(t1, n, v),
{
    assert forall|e: u64| #[trigger] n.contains_key(e) implies t1.contains_key(n[e].id) by {
        assert(t0.dom().contains(n[e].id));
    }
    assert forall|e: u64| #[trigger]
        n.contains_key(e) && n[e].viewport_id is Some implies t1.contains_key(n[e].viewport_id->0)
            && n[e].viewport_id->0 != n[e].id by {
        assert(t0.dom().contains(n[e].viewport_id->0));
    }
}

/// The layout state of all UI nodes.
pub struct UiSurface {
    root_entity_to_viewport_node: HashMap<u64, u64>,
    entity_to_taffy: HashMap<u64, LayoutNode>,
    taffy: taffy::TaffyTree<u64>,
    computed_viewports: HashMap<u64, (u64, UVec2)>,
    taffy_children_scratch: Vec<u64>,
}

impl UiSurface {
    /// The layout nodes of each UI node entity.
    pub closed spec fn nodes(&self) -> Map<u64, LayoutNode> {
        self.entity_to_taffy@
    }

    /// The implicit viewport node of each UI root entity.
    pub closed spec fn viewports(&self) -> Map<u64, u64> {
        self.root_entity_to_viewport_node@
    }

    /// The viewport and resolution of the last solve of each root.
    pub closed spec fn computed(&self) -> Map<u64, (u64, UVec2)> {
        self.computed_viewports@
    }

    /// The layout tree.
    pub closed spec fn tree(&self) -> Map<u64, NodeEntry> {
        taffy_nodes(self.taffy)
    }

    /// Whether the layout cache of `node` is empty, so that the next solve recomputes it.
    pub closed spec fn layout_dirty(&self, node: u64) -> bool {
        taffy_dirty(self.taffy, node)
    }

    /// Whether the layout cache of `node` holds a solve made for `available` pixels of space.
    pub closed spec fn layout_solved_for(&self, node: u64, available: UVec2) -> bool {
        taffy_solved_for(self.taffy, node, available.x, available.y)
    }

    /// The layout tree has no cycle.
    pub closed spec fn layout_acyclic(&self) -> bool {
        tree_acyclic(self.tree())
    }

    /// The entity map and the tree agree: every node of an entity is live, no two entities
    /// share a node, and a root's viewport is recorded in both maps.
    pub closed spec fn well_formed(&self) -> bool {
        &&& surface_invariant(self.tree(), self.nodes(), self.viewports())
        &&& cache_invariant(self.computed(), self.viewports())
        &&& self.solves_recorded()
    }

    /// Every viewport node is a root of the layout tree, and a cached solve whose viewport has
    /// not been invalidated since is still held in the viewport's layout cache.
    pub closed spec fn solves_recorded(&self) -> bool {
        &&& forall|e: u64| #[trigger]
            self.viewports().contains_key(e) ==> parent_of(self.tree(), self.viewports()[e]) is None
        &&& forall|e: u64| #[trigger]
            self.computed().contains_key(e) && !self.layout_dirty(self.computed()[e].0)
                ==> self.layout_solved_for(self.computed()[e].0, self.computed()[e].1)
    }

    /// Retrieves the layout node of `entity` and updates its style, or inserts a new node with
    /// that style if the entity has none. A given context replaces the node's context.
    pub fn upsert_node(&mut self, entity: u64, style: NodeStyle, new_node_context: Option<u64>)
        requires
            old(self).well_formed(),
        ensures
            final(self).well_formed(),
            forall|n: u64| old(self).layout_dirty(n) ==> #[trigger] final(self).layout_dirty(n),
            final(self).layout_dirty(final(self).nodes()[entity].id) || (new_node_context is None
                && *final(self) == *old(self)),
            old(self).layout_acyclic() ==> final(self).layout_acyclic(),
            final(self).viewports() == old(self).viewports(),
            final(self).computed() == old(self).computed(),
            old(self).nodes().contains_key(entity) ==> {
                let id = old(self).nodes()[entity].id;
                &&& final(self).nodes() == old(self).nodes()
                &&& final(self).tree() == old(self).tree().insert(
                    id,
                    (
                        children_of(old(self).tree(), id),
                        parent_of(old(self).tree(), id),
                        match new_node_context {
                            Some(c) => Some(c),
                            None => context_of(old(self).tree(), id),
                        },
                    ),
                )
            },
            !old(self).nodes().contains_key(entity) ==> {
                let id = final(self).nodes()[entity].id;
                &&& !old(self).tree().contains_key(id)
                &&& final(self).nodes() == old(self).nodes().insert(
                    entity,
                    LayoutNode { viewport_id: None, id },
                )
                &&& final(self).tree() == old(self).tree().insert(
                    id,
                    (Seq::empty(), None, new_node_context),
                )
            },
    {
        let ghost t0 = self.tree();
        match self.entity_to_taffy.get(&entity) {
            Some(node) => {
                let id = node.id;
                if let Some(context) = new_node_context {
                    tree_set_node_context(&mut self.taffy, id, Some(context));
                    proof {
                        assert(self.tree().dom() =~= t0.dom());
                        lemma_same_links(t0, self.tree(), Map::empty());
                    }
                }
                let ghost t1 = self.tree();
                if tree_style_differs(&self.taffy, id, &style) {
                    tree_set_style(&mut self.taffy, id, style);
                }
                proof {
                    assert(self.tree().dom() =~= t0.dom());
                    lemma_same_links(t0, self.tree(), Map::empty());
                    lemma_invariant_same_tree_nodes(t0, self.tree(), self.nodes(), self.viewports());
                }
            },
            None => {
                let id = match new_node_context {
                    Some(context) => tree_new_leaf_with_context(&mut self.taffy, style, context),
                    None => tree_new_leaf(&mut self.taffy, style),
                };
                proof {
                    lemma_insert_leaf(t0, id, new_node_context);
                    assert(self.tree() == t0.insert(id, (Seq::empty(), None, new_node_context)));
                }
                let ghost n0 = self.nodes();
                let ghost v0 = self.viewports();
                assert(!v0.contains_key(entity));
                self.entity_to_taffy.insert(entity, LayoutNode { viewport_id: None, id });
                proof {
                    let n = self.nodes();
                    assert forall|e: u64| #[trigger] n.contains_key(e) implies self.tree().contains_key(
                        n[e].id,
                    ) by {
                        if e != entity {
                            assert(n0.contains_key(e));
                        }
                    }
                    assert forall|e1: u64, e2: u64, x: u64|
                        n.contains_key(e1) && n.contains_key(e2) && e1 != e2 && #[trigger] owns(
                            n[e1],
                            x,
                        ) implies !#[trigger] owns(n[e2], x) by {
                        if e1 == entity {
                            assert(t0.contains_key(n0[e2].id));
                            if n0[e2].viewport_id is Some {
                                assert(t0.contains_key(n0[e2].viewport_id->0));
                            }
                        } else if e2 == entity {
                            assert(t0.contains_key(n0[e1].id));
                            if n0[e1].viewport_id is Some {
                                assert(t0.contains_key(n0[e1].viewport_id->0));
                            }
                        }
                    }
                    assert forall|e: u64| #[trigger]
                        self.viewports().contains_key(e) <==> (n.contains_key(e)
                            && n[e].viewport_id is Some) by {
                        if e == entity {
                            assert(!n0.contains_key(e));
                            assert(!self.viewports().contains_key(e));
                        }
                    }
                }
            },
        }
    }

    /// Replaces the node context of `entity`'s layout node, if the entity has one.
    pub fn update_node_context(&mut self, entity: u64, context: u64) -> (updated: Option<()>)
        requires
            old(self).well_formed(),
        ensures
            final(self).well_formed(),
            old(self).layout_acyclic() ==> final(self).layout_acyclic(),
            updated is Some <==> old(self).nodes().contains_key(entity),
            final(self).nodes() == old(self).nodes(),
            final(self).viewports() == old(self).viewports(),
            final(self).computed() == old(self).computed(),
            updated is Some ==> final(self).tree() == old(self).tree().insert(
                old(self).nodes()[entity].id,
                (
                    children_of(old(self).tree(), old(self).nodes()[entity].id),
                    parent_of(old(self).tree(), old(self).nodes()[entity].id),
                    Some(context),
                ),
            ),
            updated is None ==> final(self).tree() == old(self).tree(),
            updated is Some ==> final(self).layout_dirty(old(self).nodes()[entity].id),
            forall|n: u64| old(self).layout_dirty(n) ==> #[trigger] final(self).layout_dirty(n),
    {
        let ghost t0 = self.tree();
        match self.entity_to_taffy.get(&entity) {
            Some(node) => {
                tree_set_node_context(&mut self.taffy, node.id, Some(context));
                proof {
                    assert(self.tree().dom() =~= t0.dom());
                    lemma_same_links(t0, self.tree(), Map::empty());
                    lemma_invariant_same_tree_nodes(t0, self.tree(), self.nodes(), self.viewports());
                }
                Some(())
            },
            None => None,
        }
    }

    /// Gets, or inserts, the implicit viewport node of the UI root `ui_root_entity`. A new
    /// viewport gets the root's node as its only child, detaching it from a former parent.
    pub fn get_or_insert_taffy_viewport_node(&mut self, ui_root_entity: u64) -> (viewport: u64)
        requires
            old(self).well_formed(),
            old(self).nodes().contains_key(ui_root_entity),
        ensures
            final(self).well_formed(),
            old(self).layout_acyclic() ==> final(self).layout_acyclic(),
            final(self).viewports().contains_key(ui_root_entity),
            final(self).viewports()[ui_root_entity] == viewport,
            forall|n: u64| old(self).layout_dirty(n) ==> #[trigger] final(self).layout_dirty(n),
            !old(self).viewports().contains_key(ui_root_entity) ==> final(self).layout_dirty(viewport),
            final(self).nodes()[ui_root_entity] == (LayoutNode {
                viewport_id: Some(viewport),
                id: old(self).nodes()[ui_root_entity].id,
            }),
            final(self).computed() == old(self).computed(),
            old(self).viewports().contains_key(ui_root_entity) ==> {
                &&& viewport == old(self).viewports()[ui_root_entity]
                &&& *final(self) == *old(self)
                &&& final(self).nodes() == old(self).nodes()
                &&& final(self).viewports() == old(self).viewports()
                &&& final(self).tree() == old(self).tree()
            },
            !old(self).viewports().contains_key(ui_root_entity) ==> {
                &&& !old(self).tree().contains_key(viewport)
                &&& final(self).nodes() == old(self).nodes().insert(
                    ui_root_entity,
                    LayoutNode { viewport_id: Some(viewport), id: old(self).nodes()[ui_root_entity].id },
                )
                &&& final(self).viewports() == old(self).viewports().insert(ui_root_entity, viewport)
                &&& final(self).tree() == view_after_set_children(
                    old(self).tree().insert(viewport, (Seq::empty(), None, None)),
                    viewport,
                    seq![old(self).nodes()[ui_root_entity].id],
                )
            },
    {
        if let Some(existing) = self.root_entity_to_viewport_node.get(&ui_root_entity) {
            return *existing;
        }
        let ghost t0 = self.tree();
        let ghost n0 = self.nodes();
        let ghost v0 = self.viewports();
        let ghost k0 = self.taffy;
        let root_node = *self.entity_to_taffy.get(&ui_root_entity).unwrap();
        let implicit_root = tree_new_leaf(
            &mut self.taffy,
            node_style(DisplayMode::Grid, 1, 1, ItemAlignment::Start, ItemAlignment::Start),
        );
        proof {
            lemma_insert_leaf(t0, implicit_root, None);
        }
        let ghost t1 = self.tree();
        let ghost k1 = self.taffy;
        let only_child = vec![root_node.id];
        proof {
            assert(only_child@ =~= seq![root_node.id]);
        }
        tree_set_children(&mut self.taffy, implicit_root, only_child.as_slice());
        proof {
            lemma_set_children_keeps_consistent(t1, implicit_root, only_child@);
            if tree_acyclic(t0) {
                lemma_new_parent_keeps_acyclic(t0, implicit_root, root_node.id);
            }
        }
        self.entity_to_taffy.insert(
            ui_root_entity,
            LayoutNode { viewport_id: Some(implicit_root), id: root_node.id },
        );
        self.root_entity_to_viewport_node.insert(ui_root_entity, implicit_root);
        proof {
            let t = self.tree();
            let n = self.nodes();
            let v = self.viewports();
            assert(t.dom() =~= t0.dom().insert(implicit_root));
            assert forall|e: u64| #[trigger] n.contains_key(e) implies t.contains_key(n[e].id) by {
                assert(n0.contains_key(e));
                assert(t0.contains_key(n0[e].id));
            }
            assert forall|e: u64| #[trigger]
                n.contains_key(e) && n[e].viewport_id is Some implies t.contains_key(
                    n[e].viewport_id->0,
                ) && n[e].viewport_id->0 != n[e].id by {
                if e != ui_root_entity {
                    assert(t0.contains_key(n0[e].viewport_id->0));
                } else {
                    assert(t0.contains_key(n0[e].id));
                }
            }
            assert forall|e1: u64, e2: u64, x: u64|
                n.contains_key(e1) && n.contains_key(e2) && e1 != e2 && #[trigger] owns(n[e1], x)
                    implies !#[trigger] owns(n[e2], x) by {
                if e1 == ui_root_entity && x == implicit_root {
                    assert(t0.contains_key(n0[e2].id));
                    if n0[e2].viewport_id is Some {
                        assert(t0.contains_key(n0[e2].viewport_id->0));
                    }
                } else if e2 == ui_root_entity && x == implicit_root {
                    assert(t0.contains_key(n0[e1].id));
                    if n0[e1].viewport_id is Some {
                        assert(t0.contains_key(n0[e1].viewport_id->0));
                    }
                } else {
                    assert(owns(n0[e1], x));
                    assert(!owns(n0[e2], x));
                }
            }
            assert forall|e: u64| #[trigger]
                v.contains_key(e) <==> (n.contains_key(e) && n[e].viewport_id is Some) by {
                if e != ui_root_entity {
                    assert(v0.contains_key(e) <==> (n0.contains_key(e) && n0[e].viewport_id is Some));
                }
            }
            assert forall|e: u64| #[trigger] v.contains_key(e) implies n[e].viewport_id == Some(v[e]) by {
                if e != ui_root_entity {
                    assert(v0.contains_key(e));
                }
            }
            assert forall|e: u64| #[trigger] self.computed().contains_key(e) implies v.contains_key(e)
                && self.computed()[e].0 == v[e] by {
                assert(v0.contains_key(e));
            }
            assert forall|e: u64| #[trigger] v.contains_key(e) implies parent_of(t, v[e]) is None by {
                if e != ui_root_entity {
                    assert(v0.contains_key(e));
                    let x = v0[e];
                    assert(owns(n0[e], x));
                    assert(!owns(n0[ui_root_entity], x));
                    assert(t0.contains_key(x));
                    assert(parent_of(t0, x) is None);
                }
            }
            assert forall|e: u64| #[trigger]
                self.computed().contains_key(e) && !self.layout_dirty(self.computed()[e].0)
                    implies self.layout_solved_for(self.computed()[e].0, self.computed()[e].1) by {
                let x = self.computed()[e].0;
                let r = self.computed()[e].1;
                assert(v0.contains_key(e));
                assert(t0.contains_key(x));
                assert(!taffy_dirty(k1, x));
                assert(!taffy_dirty(k0, x));
                assert(taffy_solved_for(k0, x, r.x, r.y));
                assert(taffy_solved_for(k1, x, r.x, r.y));
            }
        }
        implicit_root
    }

    /// Sets the children of `entity`'s layout node to the nodes of those `children` that have
    /// one, in order. A child that was a UI root stops being one: its viewport node and its
    /// cached solve are dropped.
    pub fn update_children(&mut self, entity: u64, children: &[u64])
        requires
            old(self).well_formed(),
            old(self).nodes().contains_key(entity),
            children@.no_duplicates(),
        ensures
            final(self).well_formed(),
            final(self).nodes() == without_viewports(old(self).nodes(), children@),
            final(self).viewports() == old(self).viewports().remove_keys(children@.to_set()),
            final(self).computed() == old(self).computed().remove_keys(children@.to_set()),
            children_of(final(self).tree(), old(self).nodes()[entity].id) == mapped_ids(
                old(self).nodes(),
                children@,
            ),
            forall|k: int|
                0 <= k < mapped_ids(old(self).nodes(), children@).len() ==> parent_of(
                    final(self).tree(),
                    #[trigger] mapped_ids(old(self).nodes(), children@)[k],
                ) == Some(old(self).nodes()[entity].id),
            old(self).layout_acyclic() && (forall|i: int|
                0 <= i < children@.len() && old(self).nodes().contains_key(#[trigger] children@[i])
                    ==> !is_ancestor_or_self(
                    old(self).tree(),
                    old(self).nodes()[children@[i]].id,
                    old(self).nodes()[entity].id,
                )) ==> final(self).layout_acyclic(),
            final(self).layout_dirty(old(self).nodes()[entity].id),
            final(self).tree().dom() == old(self).tree().dom().difference(
                child_viewports(old(self).nodes(), children@),
            ),
    {
        let ghost t0 = self.tree();
        let ghost n0 = self.nodes();
        let ghost v0 = self.viewports();
        let ghost c0 = self.computed();
        self.taffy_children_scratch.clear();
        let mut i: usize = 0;
        proof {
            assert(children@.subrange(0, 0) =~= Seq::<u64>::empty());
            assert(child_viewports(n0, children@.subrange(0, 0)) =~= Set::<u64>::empty());
            assert(self.tree().dom() =~= t0.dom().difference(Set::<u64>::empty()));
            assert(self.nodes() =~= without_viewports(n0, children@.subrange(0, 0)));
            assert(self.viewports() =~= v0.remove_keys(children@.subrange(0, 0).to_set()));
            assert(self.computed() =~= c0.remove_keys(children@.subrange(0, 0).to_set()));
        }
        while i < children.len()
            invariant
                0 <= i <= children.len(),
                surface_invariant(t0, n0, v0),
                cache_invariant(c0, v0),
                n0.contains_key(entity),
                children@.no_duplicates(),
                surface_invariant(self.tree(), self.nodes(), self.viewports()),
                cache_invariant(self.computed(), self.viewports()),
                self.solves_recorded(),
                self.nodes() == without_viewports(n0, children@.subrange(0, i as int)),
                self.viewports() == v0.remove_keys(children@.subrange(0, i as int).to_set()),
                self.computed() == c0.remove_keys(children@.subrange(0, i as int).to_set()),
                self.taffy_children_scratch@ == mapped_ids(n0, children@.subrange(0, i as int)),
                self.taffy_children_scratch@.no_duplicates(),
                tree_acyclic(t0) ==> tree_acyclic(self.tree()),
                self.tree().dom() == t0.dom().difference(
                    child_viewports(n0, children@.subrange(0, i as int)),
                ),
                forall|a: u64, k: nat|
                    #[trigger] ancestor_within(self.tree(), n0[entity].id, a, k) ==> ancestor_within(
                        t0,
                        n0[entity].id,
                        a,
                        k,
                    ),
                forall|k: int|
                    0 <= k < self.taffy_children_scratch@.len() ==> id_from_prefix(
                        n0,
                        children@,
                        i as int,
                        #[trigger] self.taffy_children_scratch@[k],
                    ),
            decreases children.len() - i,
        {
            let child = children[i];
            let ghost prefix = children@.subrange(0, i as int);
            let ghost next = children@.subrange(0, i as int + 1);
            proof {
                assert(next.drop_last() =~= prefix);
                assert(next.last() == child);
                assert(!prefix.contains(child));
                assert forall|e: u64| next.contains(e) <==> (prefix.contains(e) || e == child) by {
                    if next.contains(e) {
                        let j = choose|j: int| 0 <= j < next.len() && next[j] == e;
                        if j < prefix.len() {
                            assert(prefix[j] == e);
                        }
                    }
                    if prefix.contains(e) {
                        let j = choose|j: int| 0 <= j < prefix.len() && prefix[j] == e;
                        assert(next[j] == e);
                    }
                    if e == child {
                        assert(next[i as int] == e);
                    }
                }
                assert(next.to_set() =~= prefix.to_set().insert(child));
            }
            let ghost scratch0 = self.taffy_children_scratch@;
            let ghost t1 = self.tree();
            let ghost n1 = self.nodes();
            let ghost v1 = self.viewports();
            let ghost c1 = self.computed();
            match self.entity_to_taffy.get(&child) {
                Some(found) => {
                    let node = *found;
                    proof {
                        assert(n0.contains_key(child));
                        assert(node.id == n0[child].id);
                        assert(node == n0[child]);
                        assert forall|k: int| 0 <= k < scratch0.len() implies scratch0[k] != node.id by {
                            assert(id_from_prefix(n0, children@, i as int, scratch0[k]));
                            let j = choose|j: int|
                                0 <= j < i && n0.contains_key(children@[j]) && scratch0[k]
                                    == n0[children@[j]].id;
                            if scratch0[k] == node.id {
                                assert(children@[j] != children@[i as int]);
                                assert(owns(n0[children@[j]], node.id));
                                assert(owns(n0[child], node.id));
                            }
                        }
                    }
                    self.taffy_children_scratch.push(node.id);
                    if let Some(viewport_id) = node.viewport_id {
                        self.entity_to_taffy.insert(
                            child,
                            LayoutNode { viewport_id: None, id: node.id },
                        );
                        tree_remove(&mut self.taffy, viewport_id);
                        self.root_entity_to_viewport_node.remove(&child);
                        self.computed_viewports.remove(&child);
                        proof {
                            assert forall|a: u64, k: nat|
                                #[trigger] ancestor_within(self.tree(), n0[entity].id, a, k) implies ancestor_within(
                                t0,
                                n0[entity].id,
                                a,
                                k,
                            ) by {
                                lemma_remove_keeps_ancestors(t1, viewport_id, n0[entity].id, a, k);
                            }
                        }
                        proof {
                            lemma_remove_keeps_consistent(t1, viewport_id);
                            let t = self.tree();
                            let n = self.nodes();
                            let v = self.viewports();
                            assert forall|e: u64| #[trigger] n.contains_key(e) implies t.contains_key(
                                n[e].id,
                            ) by {
                                assert(n1.contains_key(e));
                                assert(t1.contains_key(n1[e].id));
                                if e != child {
                                    assert(owns(n1[child], viewport_id));
                                    assert(!owns(n1[e], viewport_id));
                                }
                            }
                            assert forall|e: u64| #[trigger]
                                n.contains_key(e) && n[e].viewport_id is Some implies t.contains_key(
                                    n[e].viewport_id->0,
                                ) && n[e].viewport_id->0 != n[e].id by {
                                assert(e != child);
                                assert(owns(n1[child], viewport_id));
                                assert(owns(n1[e], n1[e].viewport_id->0));
                                assert(t1.contains_key(n1[e].viewport_id->0));
                            }
                            assert forall|e1: u64, e2: u64, x: u64|
                                n.contains_key(e1) && n.contains_key(e2) && e1 != e2
                                    && #[trigger] owns(n[e1], x) implies !#[trigger] owns(
                                    n[e2],
                                    x,
                                ) by {
                                assert(owns(n1[e1], x));
                                assert(!owns(n1[e2], x));
                                assert(n[e2].id == n1[e2].id);
                            }
                            assert forall|e: u64| #[trigger]
                                v.contains_key(e) <==> (n.contains_key(e)
                                    && n[e].viewport_id is Some) by {
                                if e != child {
                                    assert(v1.contains_key(e) <==> (n1.contains_key(e)
                                        && n1[e].viewport_id is Some));
                                }
                            }
                            assert forall|e: u64| #[trigger] v.contains_key(e) implies n[e].viewport_id
                                == Some(v[e]) by {
                                assert(v1.contains_key(e));
                            }
                            assert forall|e: u64| #[trigger] self.computed().contains_key(e) implies v.contains_key(e)
                                && self.computed()[e].0 == v[e] by {
                                assert(c1.contains_key(e));
                            }
                        }
                    }
                    proof {
                        assert(self.nodes() =~= without_viewports(n0, next));
                        assert(v0.contains_key(child) ==> node.viewport_id is Some);
                        assert(self.viewports() =~= v0.remove_keys(next.to_set()));
                        assert(c0.contains_key(child) ==> v0.contains_key(child));
                        assert(self.computed() =~= c0.remove_keys(next.to_set()));
                        assert(self.taffy_children_scratch@ =~= mapped_ids(n0, next));
                        assert forall|k: int| 0 <= k < self.taffy_children_scratch@.len() implies id_from_prefix(
                            n0,
                            children@,
                            i + 1,
                            #[trigger] self.taffy_children_scratch@[k],
                        ) by {
                            if k < scratch0.len() {
                                assert(self.taffy_children_scratch@[k] == scratch0[k]);
                                assert(id_from_prefix(n0, children@, i as int, scratch0[k]));
                                let j = choose|j: int|
                                    0 <= j < i && n0.contains_key(children@[j]) && scratch0[k]
                                        == n0[children@[j]].id;
                                assert(0 <= j < i + 1 && n0.contains_key(children@[j]) && scratch0[k]
                                    == n0[children@[j]].id);
                            } else {
                                assert(children@[i as int] == child);
                                assert(0 <= i < i + 1 && n0.contains_key(children@[i as int])
                                    && self.taffy_children_scratch@[k] == n0[children@[i as int]].id);
                            }
                        }
                    }
                },
                None => {
                    proof {
                        assert(!n0.contains_key(child));
                        assert(!v0.contains_key(child));
                        assert(!c0.contains_key(child));
                        assert(self.nodes() =~= without_viewports(n0, next));
                        assert(self.viewports() =~= v0.remove_keys(next.to_set()));
                        assert(self.computed() =~= c0.remove_keys(next.to_set()));
                        assert(self.taffy_children_scratch@ =~= mapped_ids(n0, next));
                        assert forall|k: int| 0 <= k < self.taffy_children_scratch@.len() implies id_from_prefix(
                            n0,
                            children@,
                            i + 1,
                            #[trigger] self.taffy_children_scratch@[k],
                        ) by {
                            assert(self.taffy_children_scratch@[k] == scratch0[k]);
                            assert(id_from_prefix(n0, children@, i as int, scratch0[k]));
                            let j = choose|j: int|
                                0 <= j < i && n0.contains_key(children@[j]) && scratch0[k]
                                    == n0[children@[j]].id;
                            assert(0 <= j < i + 1 && n0.contains_key(children@[j]) && scratch0[k]
                                == n0[children@[j]].id);
                        }
                    }
                },
            }
            i = i + 1;
        }
        proof {
            assert(children@.subrange(0, children@.len() as int) =~= children@);
        }
        let parent = *self.entity_to_taffy.get(&entity).unwrap();
        let ghost t2 = self.tree();
        let ghost s2 = *self;
        proof {
            assert(parent.id == n0[entity].id);
            assert forall|k: int| 0 <= k < self.taffy_children_scratch@.len() implies t2.contains_key(
                #[trigger] self.taffy_children_scratch@[k],
            ) by {
                assert(id_from_prefix(n0, children@, children@.len() as int, self.taffy_children_scratch@[k]));
                let j = choose|j: int|
                    0 <= j < children@.len() && n0.contains_key(children@[j])
                        && self.taffy_children_scratch@[k] == n0[children@[j]].id;
                assert(self.nodes().contains_key(children@[j]));
            }
        }
        proof {
            let scratch = self.taffy_children_scratch@;
            if tree_acyclic(t0) && (forall|i: int|
                0 <= i < children@.len() && n0.contains_key(#[trigger] children@[i])
                    ==> !is_ancestor_or_self(t0, n0[children@[i]].id, n0[entity].id)) {
                assert forall|k: int| 0 <= k < scratch.len() implies !is_ancestor_or_self(
                    t2,
                    #[trigger] scratch[k],
                    parent.id,
                ) by {
                    assert(id_from_prefix(n0, children@, children@.len() as int, scratch[k]));
                    let j = choose|j: int|
                        0 <= j < children@.len() && n0.contains_key(children@[j]) && scratch[k]
                            == n0[children@[j]].id;
                    assert(!is_ancestor_or_self(t0, n0[children@[j]].id, n0[entity].id));
                    if is_ancestor_or_self(t2, scratch[k], parent.id) {
                        let d = choose|d: nat| ancestor_within(t2, parent.id, scratch[k], d);
                        assert(ancestor_within(t0, n0[entity].id, scratch[k], d));
                    }
                }
                lemma_set_children_keeps_acyclic(t2, parent.id, scratch);
            }
        }
        tree_set_children(&mut self.taffy, parent.id, self.taffy_children_scratch.as_slice());
        proof {
            lemma_set_children_keeps_consistent(t2, parent.id, self.taffy_children_scratch@);
            lemma_invariant_same_tree_nodes(t2, self.tree(), self.nodes(), self.viewports());
            let ids = mapped_ids(n0, children@);
            assert forall|k: int| 0 <= k < ids.len() implies parent_of(self.tree(), #[trigger] ids[k])
                == Some(n0[entity].id) by {
                assert(self.taffy_children_scratch@[k] == ids[k]);
                assert(self.taffy_children_scratch@.contains(ids[k]));
            }
            let scratch = self.taffy_children_scratch@;
            let v = self.viewports();
            let n = self.nodes();
            assert forall|e: u64| #[trigger] v.contains_key(e) implies parent_of(self.tree(), v[e]) is None by {
                let x = v[e];
                assert(s2.viewports().contains_key(e));
                assert(parent_of(t2, x) is None);
                assert(t2.contains_key(x));
                assert(owns(n[e], x));
                if scratch.contains(x) {
                    let k = choose|k: int| 0 <= k < scratch.len() && scratch[k] == x;
                    assert(id_from_prefix(n0, children@, children@.len() as int, scratch[k]));
                    let j = choose|j: int|
                        0 <= j < children@.len() && n0.contains_key(children@[j]) && scratch[k]
                            == n0[children@[j]].id;
                    let c = children@[j];
                    assert(n.contains_key(c) && n[c].id == n0[c].id);
                    assert(owns(n[c], x));
                    if c == e {
                        assert(n[e].viewport_id->0 != n[e].id);
                    }
                }
                if children_of(t2, parent.id).contains(x) {
                    let k = choose|k: int|
                        0 <= k < children_of(t2, parent.id).len() && children_of(t2, parent.id)[k] == x;
                    assert(t2.contains_key(parent.id));
                    assert(parent_of(t2, x) == Some(parent.id));
                }
            }
        }
    }

    /// Removes the children of `entity`'s layout node, if the entity has one.
    pub fn try_remove_children(&mut self, entity: u64)
        requires
            old(self).well_formed(),
        ensures
            final(self).well_formed(),
            final(self).nodes() == old(self).nodes(),
            final(self).viewports() == old(self).viewports(),
            final(self).computed() == old(self).computed(),
            old(self).layout_acyclic() ==> final(self).layout_acyclic(),
            forall|n: u64| old(self).layout_dirty(n) ==> #[trigger] final(self).layout_dirty(n),
            old(self).nodes().contains_key(entity) ==> {
                &&& children_of(final(self).tree(), old(self).nodes()[entity].id) == Seq::<u64>::empty()
                &&& final(self).layout_dirty(old(self).nodes()[entity].id)
            },
            old(self).nodes().contains_key(entity) ==> final(self).tree() == view_after_set_children(
                old(self).tree(),
                old(self).nodes()[entity].id,
                Seq::empty(),
            ),
            !old(self).nodes().contains_key(entity) ==> final(self).tree() == old(self).tree(),
    {
        let ghost t0 = self.tree();
        if let Some(node) = self.entity_to_taffy.get(&entity) {
            let empty: Vec<u64> = Vec::new();
            tree_set_children(&mut self.taffy, node.id, empty.as_slice());
            proof {
                assert(empty@ =~= Seq::<u64>::empty());
                lemma_set_children_keeps_consistent(t0, node.id, empty@);
                if tree_acyclic(t0) {
                    lemma_set_children_keeps_acyclic(t0, node.id, empty@);
                }
                lemma_invariant_same_tree_nodes(t0, self.tree(), self.nodes(), self.viewports());
            }
        }
    }

    /// Removes the context of `entity`'s layout node, if the entity has one.
    pub fn try_remove_node_context(&mut self, entity: u64)
        requires
            old(self).well_formed(),
        ensures
            final(self).well_formed(),
            old(self).layout_acyclic() ==> final(self).layout_acyclic(),
            final(self).nodes() == old(self).nodes(),
            final(self).viewports() == old(self).viewports(),
            final(self).computed() == old(self).computed(),
            old(self).nodes().contains_key(entity) ==> final(self).tree() == old(self).tree().insert(
                old(self).nodes()[entity].id,
                (
                    children_of(old(self).tree(), old(self).nodes()[entity].id),
                    parent_of(old(self).tree(), old(self).nodes()[entity].id),
                    None,
                ),
            ),
            old(self).nodes().contains_key(entity) ==> final(self).layout_dirty(
                old(self).nodes()[entity].id,
            ),
            forall|n: u64| old(self).layout_dirty(n) ==> #[trigger] final(self).layout_dirty(n),
            !old(self).nodes().contains_key(entity) ==> final(self).tree() == old(self).tree(),
    {
        let ghost t0 = self.tree();
        if let Some(node) = self.entity_to_taffy.get(&entity) {
            tree_set_node_context(&mut self.taffy, node.id, None);
            proof {
                assert(self.tree().dom() =~= t0.dom());
                lemma_same_links(t0, self.tree(), Map::empty());
                lemma_invariant_same_tree_nodes(t0, self.tree(), self.nodes(), self.viewports());
            }
        }
    }
    /// Removes each entity from the entity map, then its node and viewport node from the tree.
    /// The former parent of a removed node is marked dirty first.
    pub fn remove_entities(&mut self, entities: &[u64])
        requires
            old(self).well_formed(),
        ensures
            final(self).well_formed(),
            old(self).layout_acyclic() ==> final(self).layout_acyclic(),
            final(self).nodes() == old(self).nodes().remove_keys(entities@.to_set()),
            final(self).viewports() == old(self).viewports().remove_keys(entities@.to_set()),
            final(self).computed() == old(self).computed().remove_keys(entities@.to_set()),
            final(self).tree().dom() == old(self).tree().dom().difference(
                removed_nodes(old(self).nodes(), entities@),
            ),
            (forall|j: int| 0 <= j < entities@.len() ==> !old(self).nodes().contains_key(
                #[trigger] entities@[j],
            )) ==> final(self).tree() == old(self).tree(),
            forall|e: u64|
                #![trigger old(self).nodes()[e]]
                entities@.contains(e) && old(self).nodes().contains_key(e) && parent_of(
                    old(self).tree(),
                    old(self).nodes()[e].id,
                ) is Some && final(self).tree().contains_key(
                    parent_of(old(self).tree(), old(self).nodes()[e].id)->0,
                ) ==> final(self).layout_dirty(parent_of(old(self).tree(), old(self).nodes()[e].id)->0),
    {
        let ghost t0 = self.tree();
        let ghost n0 = self.nodes();
        let ghost v0 = self.viewports();
        let ghost c0 = self.computed();
        let mut i: usize = 0;
        proof {
            assert(removed_nodes(n0, entities@.subrange(0, 0)) =~= Set::<u64>::empty());
            assert(self.tree().dom() =~= t0.dom().difference(Set::<u64>::empty()));
            assert(entities@.subrange(0, 0).to_set() =~= Set::<u64>::empty());
            assert(self.nodes() =~= n0.remove_keys(Set::<u64>::empty()));
            assert(self.viewports() =~= v0.remove_keys(Set::<u64>::empty()));
            assert(self.computed() =~= c0.remove_keys(Set::<u64>::empty()));
        }
        while i < entities.len()
            invariant
                0 <= i <= entities.len(),
                surface_invariant(t0, n0, v0),
                surface_invariant(self.tree(), self.nodes(), self.viewports()),
                cache_invariant(self.computed(), self.viewports()),
                self.solves_recorded(),
                tree_acyclic(t0) ==> tree_acyclic(self.tree()),
                self.nodes() == n0.remove_keys(entities@.subrange(0, i as int).to_set()),
                self.viewports() == v0.remove_keys(entities@.subrange(0, i as int).to_set()),
                self.computed() == c0.remove_keys(entities@.subrange(0, i as int).to_set()),
                self.tree().dom() == t0.dom().difference(
                    removed_nodes(n0, entities@.subrange(0, i as int)),
                ),
                (forall|j: int| 0 <= j < i ==> !n0.contains_key(#[trigger] entities@[j])) ==> self.tree()
                    == t0,
                parents_kept_or_gone(self.tree(), t0),
                forall|e: u64|
                    #![trigger n0[e]]
                    entities@.subrange(0, i as int).contains(e) && n0.contains_key(e) && parent_of(
                        t0,
                        n0[e].id,
                    ) is Some && self.tree().contains_key(parent_of(t0, n0[e].id)->0) ==> self.layout_dirty(
                        parent_of(t0, n0[e].id)->0,
                    ),
            decreases entities.len() - i,
        {
            let entity = entities[i];
            let ghost prefix = entities@.subrange(0, i as int);
            let ghost next = entities@.subrange(0, i as int + 1);
            proof {
                assert(next.drop_last() =~= prefix);
                assert forall|e: u64| next.contains(e) <==> (prefix.contains(e) || e == entity) by {
                    if next.contains(e) {
                        let j = choose|j: int| 0 <= j < next.len() && next[j] == e;
                        if j < prefix.len() {
                            assert(prefix[j] == e);
                        }
                    }
                    if prefix.contains(e) {
                        let j = choose|j: int| 0 <= j < prefix.len() && prefix[j] == e;
                        assert(next[j] == e);
                    }
                    if e == entity {
                        assert(next[i as int] == e);
                    }
                }
                assert(next.to_set() =~= prefix.to_set().insert(entity));
            }
            let ghost t1 = self.tree();
            let ghost n1 = self.nodes();
            let ghost v1 = self.viewports();
            let ghost c1 = self.computed();
            match self.entity_to_taffy.remove(&entity) {
                Some(node) => {
                    proof {
                        assert(n1.contains_key(entity) && n1[entity] == node);
                    }
                    if let Some(parent) = tree_parent(&self.taffy, node.id) {
                        tree_mark_dirty(&mut self.taffy, parent);
                    }
                    proof {
                        assert(self.tree() == t1);
                    }
                    tree_remove(&mut self.taffy, node.id);
                    proof {
                        lemma_remove_keeps_consistent(t1, node.id);
                    }
                    let ghost t2 = self.tree();
                    if let Some(viewport_id) = node.viewport_id {
                        proof {
                            assert(t1.contains_key(viewport_id));
                            assert(t2.contains_key(viewport_id));
                        }
                        tree_remove(&mut self.taffy, viewport_id);
                        proof {
                            lemma_remove_keeps_consistent(t2, viewport_id);
                        }
                    }
                    proof {
                        let t = self.tree();
                        let n = self.nodes();
                        assert(t.dom().subset_of(t1.dom()));
                        assert(!t.contains_key(node.id));
                        assert forall|e: u64| #[trigger] n.contains_key(e) implies t.contains_key(
                            n[e].id,
                        ) by {
                            assert(n1.contains_key(e) && n1[e] == n[e] && e != entity);
                            assert(t1.contains_key(n1[e].id));
                            assert(owns(n1[e], n1[e].id));
                            assert(!owns(node, n1[e].id));
                        }
                        assert forall|e: u64| #[trigger]
                            n.contains_key(e) && n[e].viewport_id is Some implies t.contains_key(
                                n[e].viewport_id->0,
                            ) && n[e].viewport_id->0 != n[e].id by {
                            assert(n1.contains_key(e) && n1[e] == n[e] && e != entity);
                            assert(t1.contains_key(n1[e].viewport_id->0));
                            assert(owns(n1[e], n1[e].viewport_id->0));
                            assert(!owns(node, n1[e].viewport_id->0));
                        }
                        assert forall|e1: u64, e2: u64, x: u64|
                            n.contains_key(e1) && n.contains_key(e2) && e1 != e2
                                && #[trigger] owns(n[e1], x) implies !#[trigger] owns(n[e2], x) by {
                            assert(n1.contains_key(e1) && n1.contains_key(e2));
                        }
                    }
                },
                None => {},
            }
            self.root_entity_to_viewport_node.remove(&entity);
            self.computed_viewports.remove(&entity);
            proof {
                let n = self.nodes();
                let v = self.viewports();
                assert(n =~= n0.remove_keys(next.to_set()));
                assert(v =~= v0.remove_keys(next.to_set()));
                assert(self.computed() =~= c0.remove_keys(next.to_set()));
                assert forall|e: u64| #[trigger]
                    v.contains_key(e) <==> (n.contains_key(e) && n[e].viewport_id is Some) by {
                    if e != entity {
                        assert(v1.contains_key(e) <==> (n1.contains_key(e) && n1[e].viewport_id is Some));
                    }
                }
                assert forall|e: u64| #[trigger] v.contains_key(e) implies n[e].viewport_id == Some(v[e]) by {
                    assert(v1.contains_key(e));
                }
                assert forall|e: u64| #[trigger] self.computed().contains_key(e) implies v.contains_key(e)
                    && self.computed()[e].0 == v[e] by {
                    assert(c1.contains_key(e));
                }
                let t = self.tree();
                let before = removed_nodes(n0, prefix);
                let after = removed_nodes(n0, next);
                assert forall|x: u64| t.dom().contains(x) <==> t0.dom().difference(after).contains(x) by {
                    if after.contains(x) && !before.contains(x) {
                        let e = choose|e: u64|
                            #![trigger owns(n0[e], x)]
                            next.contains(e) && n0.contains_key(e) && owns(n0[e], x);
                        assert(e == entity);
                        assert(!prefix.contains(entity));
                        assert(n1.contains_key(entity) && n1[entity] == n0[entity]);
                    }
                    if before.contains(x) {
                        let e = choose|e: u64|
                            #![trigger owns(n0[e], x)]
                            prefix.contains(e) && n0.contains_key(e) && owns(n0[e], x);
                        assert(next.contains(e));
                    }
                    if t0.dom().contains(x) && !before.contains(x) && !after.contains(x) {
                        if n1.contains_key(entity) {
                            assert(!prefix.contains(entity));
                            assert(n0.contains_key(entity) && n1[entity] == n0[entity]);
                            assert(!owns(n0[entity], x));
                        }
                    }
                }
                assert(t.dom() =~= t0.dom().difference(after));
            }
            i = i + 1;
        }
        proof {
            assert(entities@.subrange(0, entities@.len() as int) =~= entities@);
        }
    }

    /// Solves the layout of the UI root `ui_root_entity` for a render target of
    /// `render_target_resolution` physical pixels, using `measure` for nodes with a context.
    /// The last solve is reused, without calling the layout tree, when it was made for the same
    /// viewport at the same resolution and the viewport has not been invalidated since;
    /// otherwise the tree is solved. Either way the viewport's layout cache holds, after, a solve
    /// made for `render_target_resolution`.
    pub fn compute_layout<F>(
        &mut self,
        ui_root_entity: u64,
        render_target_resolution: UVec2,
        measure: F,
    ) where
        F: FnMut(taffy::LayoutInput, taffy::NodeId, Option<&mut u64>, &NodeStyle) -> taffy::LayoutOutput,

        requires
            old(self).well_formed(),
            old(self).layout_acyclic(),
            old(self).nodes().contains_key(ui_root_entity),
        ensures
            final(self).well_formed(),
            final(self).layout_acyclic(),
            final(self).viewports().contains_key(ui_root_entity),
            final(self).nodes().dom() == old(self).nodes().dom(),
            final(self).nodes()[ui_root_entity].viewport_id == Some(
                final(self).viewports()[ui_root_entity],
            ),
            final(self).computed() == old(self).computed().insert(
                ui_root_entity,
                (final(self).viewports()[ui_root_entity], render_target_resolution),
            ),
            old(self).viewports().contains_key(ui_root_entity) ==> {
                &&& final(self).nodes() == old(self).nodes()
                &&& final(self).viewports() == old(self).viewports()
                &&& final(self).tree().dom() == old(self).tree().dom()
                &&& forall|n: u64| #[trigger]
                    old(self).tree().contains_key(n) ==> children_of(final(self).tree(), n)
                        == children_of(old(self).tree(), n) && parent_of(final(self).tree(), n)
                        == parent_of(old(self).tree(), n)
            },
            old(self).computed().contains_key(ui_root_entity) && old(self).computed()[ui_root_entity].1
                == render_target_resolution && !old(self).layout_dirty(
                old(self).computed()[ui_root_entity].0,
            ) ==> *final(self) == *old(self),
            !final(self).layout_dirty(final(self).viewports()[ui_root_entity]),
            final(self).layout_solved_for(
                final(self).viewports()[ui_root_entity],
                render_target_resolution,
            ),
    {
        let implicit_viewport_node = self.get_or_insert_taffy_viewport_node(ui_root_entity);
        let cached = match self.computed_viewports.get(&ui_root_entity) {
            Some(entry) => Some(*entry),
            None => None,
        };
        if layout_is_current(
            cached,
            implicit_viewport_node,
            render_target_resolution,
            tree_dirty(&self.taffy, implicit_viewport_node),
        ) {
            proof {
                assert(self.computed() =~= self.computed().insert(
                    ui_root_entity,
                    (implicit_viewport_node, render_target_resolution),
                ));
            }
            return;
        }
        let ghost t0 = self.tree();
        let ghost k0 = self.taffy;
        let ghost s0 = *self;
        proof {
            assert(self.nodes().contains_key(ui_root_entity));
        }
        tree_compute_layout_with_measure(
            &mut self.taffy,
            implicit_viewport_node,
            render_target_resolution,
            measure,
        );
        proof {
            lemma_same_links(t0, self.tree(), Map::empty());
            lemma_invariant_same_tree_nodes(t0, self.tree(), self.nodes(), self.viewports());
        }
        self.computed_viewports.insert(
            ui_root_entity,
            (implicit_viewport_node, render_target_resolution),
        );
        proof {
            let n = self.nodes();
            let v = self.viewports();
            assert forall|e: u64| #[trigger] v.contains_key(e) implies parent_of(self.tree(), v[e]) is None by {
                assert(s0.viewports().contains_key(e));
                assert(t0.contains_key(v[e]));
            }
            assert forall|e: u64| #[trigger]
                self.computed().contains_key(e) && !self.layout_dirty(self.computed()[e].0)
                    implies self.layout_solved_for(self.computed()[e].0, self.computed()[e].1) by {
                if e != ui_root_entity {
                    let x = self.computed()[e].0;
                    let r = self.computed()[e].1;
                    assert(s0.computed().contains_key(e));
                    assert(v.contains_key(e) && x == v[e]);
                    assert(owns(n[e], x));
                    assert(owns(n[ui_root_entity], implicit_viewport_node));
                    assert(x != implicit_viewport_node);
                    assert(t0.contains_key(x));
                    assert(parent_of(t0, x) is None);
                    assert(!is_ancestor_or_self(t0, implicit_viewport_node, x)) by {
                        if is_ancestor_or_self(t0, implicit_viewport_node, x) {
                            let k = choose|k: nat| ancestor_within(t0, x, implicit_viewport_node, k);
                            assert(ancestor_within(t0, x, implicit_viewport_node, k));
                        }
                    }
                    assert(!taffy_dirty(k0, x));
                    assert(taffy_solved_for(k0, x, r.x, r.y));
                }
            }
        }
    }

    /// The layout of `entity`'s node: the final layout (rounded, unless `use_rounding` is false)
    /// and the unrounded layout. Does not compute anything; an entity with no node is an
    /// `InvalidHierarchy` error.
    pub fn get_layout(&self, entity: u64, use_rounding: bool) -> (result: Result<
        (taffy::Layout, taffy::Layout),
        LayoutError,
    >)
        requires
            self.well_formed(),
        ensures
            result is Ok <==> self.nodes().contains_key(entity),
            result matches Err(e) ==> e is InvalidHierarchy,
            !use_rounding ==> (result matches Ok(r) ==> r.0 == r.1),
    {
        let node = match self.entity_to_taffy.get(&entity) {
            Some(node) => *node,
            None => {
                return Err(LayoutError::InvalidHierarchy);
            },
        };
        let unrounded = tree_unrounded_layout(&self.taffy, node.id);
        let layout = if use_rounding {
            match tree_layout(&self.taffy, node.id) {
                Ok(layout) => layout,
                Err(err) => {
                    return Err(LayoutError::TaffyError(err));
                },
            }
        } else {
            unrounded
        };
        Ok((layout, unrounded))
    }

    /// The layout nodes of `entity`, if it has any.
    pub fn taffy_node(&self, entity: u64) -> (node: Option<LayoutNode>)
        ensures
            node is Some <==> self.nodes().contains_key(entity),
            node is Some ==> node->0 == self.nodes()[entity],
    {
        match self.entity_to_taffy.get(&entity) {
            Some(node) => Some(*node),
            None => None,
        }
    }

    /// The implicit viewport node of the UI root `entity`, if it has one.
    pub fn viewport_node(&self, entity: u64) -> (viewport: Option<u64>)
        ensures
            viewport is Some <==> self.viewports().contains_key(entity),
            viewport is Some ==> viewport->0 == self.viewports()[entity],
    {
        match self.root_entity_to_viewport_node.get(&entity) {
            Some(viewport) => Some(*viewport),
            None => None,
        }
    }

    /// Whether a solve of the UI root `entity` is cached.
    pub fn has_computed_layout(&self, entity: u64) -> (cached: bool)
        ensures
            cached == self.computed().contains_key(entity),
    {
        self.computed_viewports.contains_key(&entity)
    }

    /// Whether giving `entity` these `children` keeps the layout tree free of cycles: no child's
    /// node is the entity's node or one of its ancestors. Found by walking up from the entity's
    /// node; a walk longer than the tree can hold answers `false`.
    pub fn children_keep_layout_acyclic(&self, entity: u64, children: &[u64]) -> (keeps: bool)
        requires
            self.well_formed(),
            self.nodes().contains_key(entity),
        ensures
            keeps ==> forall|i: int|
                0 <= i < children@.len() && self.nodes().contains_key(#[trigger] children@[i])
                    ==> !is_ancestor_or_self(
                    self.tree(),
                    self.nodes()[children@[i]].id,
                    self.nodes()[entity].id,
                ),
    {
        let start = self.entity_to_taffy.get(&entity).unwrap().id;
        let ghost t = self.tree();
        let mut chain: Vec<u64> = Vec::new();
        let mut current = start;
        let len = self.entity_to_taffy.len();
        let mut fuel: usize = if len < usize::MAX / 2 {
            2 * len + 1
        } else {
            usize::MAX
        };
        let mut complete = false;
        while fuel > 0
            invariant_except_break
                !complete,
            invariant
                surface_invariant(self.tree(), self.nodes(), self.viewports()),
                t == self.tree(),
                t.contains_key(current),
                complete ==> forall|a: u64, k: nat|
                    #[trigger] ancestor_within(t, start, a, k) ==> chain@.contains(a),
                !complete ==> forall|a: u64, k: nat|
                    #[trigger] ancestor_within(t, start, a, k) ==> chain@.contains(a)
                        || ancestor_within(t, current, a, k),
            ensures
                complete ==> forall|a: u64, k: nat|
                    #[trigger] ancestor_within(t, start, a, k) ==> chain@.contains(a),
            decreases fuel,
        {
            let ghost pre = chain@;
            chain.push(current);
            proof {
                assert(chain@ == pre.push(current));
                assert(chain@[chain@.len() - 1] == current);
            }
            match tree_parent(&self.taffy, current) {
                None => {
                    proof {
                        assert forall|a: u64, k: nat|
                            #[trigger] ancestor_within(t, start, a, k) implies chain@.contains(a) by {
                            if pre.contains(a) {
                                let j = choose|j: int| 0 <= j < pre.len() && pre[j] == a;
                                assert(chain@[j] == a);
                            } else {
                                assert(ancestor_within(t, current, a, k));
                                assert(a == current);
                            }
                        }
                    }
                    complete = true;
                    break;
                },
                Some(parent) => {
                    proof {
                        assert(t.contains_key(parent));
                        assert forall|a: u64, k: nat|
                            #[trigger] ancestor_within(t, start, a, k) implies chain@.contains(a)
                                || ancestor_within(t, parent, a, k) by {
                            if pre.contains(a) {
                                let j = choose|j: int| 0 <= j < pre.len() && pre[j] == a;
                                assert(chain@[j] == a);
                            } else if a != current {
                                assert(ancestor_within(t, current, a, k));
                                lemma_ancestor_more_links(t, parent, a, (k - 1) as nat);
                                assert((k - 1 + 1) as nat == k);
                            }
                        }
                    }
                    current = parent;
                },
            }
            fuel = fuel - 1;
        }
        if !complete {
            return false;
        }
        let mut i: usize = 0;
        while i < children.len()
            invariant
                0 <= i <= children@.len(),
                t == self.tree(),
                forall|a: u64, k: nat| #[trigger] ancestor_within(t, start, a, k) ==> chain@.contains(a),
                self.nodes().contains_key(entity),
                start == self.nodes()[entity].id,
                forall|j: int|
                    0 <= j < i && self.nodes().contains_key(#[trigger] children@[j]) ==> !is_ancestor_or_self(
                        t,
                        self.nodes()[children@[j]].id,
                        start,
                    ),
            decreases children.len() - i,
        {
            if let Some(child) = self.entity_to_taffy.get(&children[i]) {
                let mut k: usize = 0;
                while k < chain.len()
                    invariant
                        0 <= k <= chain@.len(),
                        forall|m: int| 0 <= m < k ==> chain@[m] != child.id,
                    decreases chain.len() - k,
                {
                    if chain[k] == child.id {
                        return false;
                    }
                    k = k + 1;
                }
                proof {
                    if is_ancestor_or_self(t, child.id, start) {
                        let d = choose|d: nat| ancestor_within(t, start, child.id, d);
                        assert(chain@.contains(child.id));
                        let m = choose|m: int| 0 <= m < chain@.len() && chain@[m] == child.id;
                        assert(chain@[m] != child.id);
                    }
                }
            }
            i = i + 1;
        }
        true
    }

    /// Read access to the layout tree.
    pub fn layout_tree(&self) -> (tree: &taffy::TaffyTree<u64>)
        ensures
            taffy_nodes(*tree) == self.tree(),
    {
        &self.taffy
    }
}

impl core::default::Default for UiSurface {
    fn default() -> (surface: UiSurface)
        ensures
            surface.well_formed(),
            surface.layout_acyclic(),
            surface.nodes() == Map::<u64, LayoutNode>::empty(),
            surface.viewports() == Map::<u64, u64>::empty(),
            surface.computed() == Map::<u64, (u64, UVec2)>::empty(),
            surface.tree() == Map::<u64, NodeEntry>::empty(),
    {
        let taffy = tree_new();
        let surface = UiSurface {
            root_entity_to_viewport_node: HashMap::new(),
            entity_to_taffy: HashMap::new(),
            taffy,
            computed_viewports: HashMap::new(),
            taffy_children_scratch: Vec::new(),
        };
        assert(surface.tree() =~= Map::<u64, NodeEntry>::empty());
        assert(ranked_by(surface.tree(), Map::<u64, nat>::empty()));
        surface
    }
}

/// A cached solve always belongs to a UI root and names the viewport node the root has now,
/// so a recreated viewport never reuses the layout solved for an earlier one.
pub proof fn lemma_cached_layout_names_current_viewport(surface: &UiSurface, entity: u64)
    requires
        surface.well_formed(),
        surface.computed().contains_key(entity),
    ensures
        surface.viewports().contains_key(entity),
        surface.nodes().contains_key(entity),
        surface.computed()[entity].0 == surface.viewports()[entity],
        surface.nodes()[entity].viewport_id == Some(surface.computed()[entity].0),
{
}

/// The layout tree of a surface is consistent, and every layout node of a mapped entity, its
/// own and its viewport, is a node of the tree.
pub proof fn lemma_mapped_nodes_are_live(surface: &UiSurface, entity: u64)
    requires
        surface.well_formed(),
        surface.nodes().contains_key(entity),
    ensures
        tree_consistent(surface.tree()),
        surface.tree().contains_key(surface.nodes()[entity].id),
        surface.nodes()[entity].viewport_id matches Some(v) ==> surface.tree().contains_key(v)
            && surface.viewports().contains_key(entity) && surface.viewports()[entity] == v,
{
    let n = surface.nodes();
    if n[entity].viewport_id is Some {
        assert(surface.viewports().contains_key(entity));
        assert(n[entity].viewport_id == Some(surface.viewports()[entity]));
    }
}

} // verus!
