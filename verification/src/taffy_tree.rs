//! The layout tree of `taffy`, as the UI surface uses it.
//!
//! A `TaffyTree<u64>` is seen through one name, [`taffy_nodes`]: a map from each live node id
//! to its children (in order), its parent and its node context. The wrappers below state what
//! each tree method does to that map, as the method bodies of `taffy` show it.
use vstd::prelude::*;

use crate::ui_surface::UVec2;
use taffy::TaffyTree;

verus! {

#[verifier::external_type_specification]
#[verifier::external_body]
#[verifier::reject_recursive_types(NodeContext)]
pub struct ExTaffyTree<NodeContext>(taffy::TaffyTree<NodeContext>);

/// The style of a layout node, held whole and opaque: `taffy::Style` has a type parameter
/// bounded by a trait of `taffy`, so it cannot be declared as an outside type.
#[verifier::external_body]
pub struct NodeStyle(pub taffy::Style);

#[verifier::external_type_specification]
#[verifier::external_body]
pub struct ExTaffyLayout(taffy::Layout);

#[verifier::external_type_specification]
#[verifier::external_body]
pub struct ExTaffyError(taffy::TaffyError);

#[verifier::external_type_specification]
#[verifier::external_body]
pub struct ExTaffyNodeId(taffy::NodeId);

#[verifier::external_type_specification]
#[verifier::external_body]
pub struct ExTaffyLayoutInput(taffy::LayoutInput);

#[verifier::external_type_specification]
#[verifier::external_body]
pub struct ExTaffyLayoutOutput(taffy::LayoutOutput);

/// The layout tree of the UI surface; node contexts are `u64` keys.
pub type LayoutTree = TaffyTree<u64>;

/// What one node of the tree holds: its children in order, its parent and its context.
pub type NodeEntry = (Seq<u64>, Option<u64>, Option<u64>);

/// The live nodes of a layout tree, keyed by the `u64` form of their `NodeId`.
pub uninterp spec fn taffy_nodes(tree: taffy::TaffyTree<u64>) -> Map<u64, (Seq<u64>, Option<u64>, Option<u64>)>;

pub open spec fn children_of(view: Map<u64, NodeEntry>, n: u64) -> Seq<u64> {
    view[n].0
}

pub open spec fn parent_of(view: Map<u64, NodeEntry>, n: u64) -> Option<u64> {
    view[n].1
}

pub open spec fn context_of(view: Map<u64, NodeEntry>, n: u64) -> Option<u64> {
    view[n].2
}

/// Parent and child links agree: a node's parent lists it exactly once among its children,
/// every listed child names that parent, and every link stays inside the tree.
pub open spec fn tree_consistent(view: Map<u64, NodeEntry>) -> bool {
    &&& forall|n: u64| #[trigger] view.contains_key(n) && parent_of(view, n) is Some ==> {
        let p = parent_of(view, n)->0;
        view.contains_key(p) && children_of(view, p).contains(n)
    }
    &&& forall|p: u64, i: int|
        #![trigger view.contains_key(p), children_of(view, p)[i]]
        view.contains_key(p) && 0 <= i < children_of(view, p).len() ==> {
            let c = children_of(view, p)[i];
            view.contains_key(c) && parent_of(view, c) == Some(p)
        }
    &&& forall|p: u64| #[trigger] view.contains_key(p) ==> children_of(view, p).no_duplicates()
}

/// Some rank strictly decreases from each node to each of its children: the tree has no cycle.
pub open spec fn ranked_by(view: Map<u64, NodeEntry>, rank: Map<u64, nat>) -> bool {
    forall|p: u64, i: int|
        #![trigger view.contains_key(p), children_of(view, p)[i]]
        view.contains_key(p) && 0 <= i < children_of(view, p).len() ==> {
            let c = children_of(view, p)[i];
            rank.contains_key(c) && rank.contains_key(p) && rank[c] < rank[p]
        }
}

pub open spec fn tree_acyclic(view: Map<u64, NodeEntry>) -> bool {
    exists|rank: Map<u64, nat>| ranked_by(view, rank)
}

pub open spec fn not_in(list: Seq<u64>) -> spec_fn(u64) -> bool {
    |c: u64| !list.contains(c)
}

pub open spec fn other_than(node: u64) -> spec_fn(u64) -> bool {
    |c: u64| c != node
}

/// The tree after `set_children(parent, children)`: `parent` gets exactly `children`, each of
/// them leaves the list of its former parent, and the former children of `parent` that are not
/// kept lose their parent.
pub open spec fn view_after_set_children(
    view: Map<u64, NodeEntry>,
    parent: u64,
    children: Seq<u64>,
) -> Map<u64, NodeEntry> {
    Map::new(
        |n: u64| view.contains_key(n),
        |n: u64|
            (
                if n == parent {
                    children
                } else {
                    children_of(view, n).filter(not_in(children))
                },
                if children.contains(n) {
                    Some(parent)
                } else if children_of(view, parent).contains(n) {
                    None
                } else {
                    parent_of(view, n)
                },
                context_of(view, n),
            ),
    )
}

/// The tree after `remove(node)`: the node is gone, no list names it any more and its
/// children have no parent.
pub open spec fn view_after_remove(view: Map<u64, NodeEntry>, node: u64) -> Map<u64, NodeEntry> {
    Map::new(
        |n: u64| view.contains_key(n) && n != node,
        |n: u64|
            (
                children_of(view, n).filter(other_than(node)),
                if children_of(view, node).contains(n) {
                    None
                } else {
                    parent_of(view, n)
                },
                context_of(view, n),
            ),
    )
}

/// Filtering keeps a list free of duplicates.
pub proof fn lemma_filter_no_duplicates(s: Seq<u64>, p: spec_fn(u64) -> bool)
    requires
        s.no_duplicates(),
    ensures
        s.filter(p).no_duplicates(),
    decreases s.len(),
{
    reveal(Seq::filter);
    if s.len() > 0 {
        let rest = s.drop_last();
        assert(rest.no_duplicates());
        lemma_filter_no_duplicates(rest, p);
        if p(s.last()) {
            if rest.filter(p).contains(s.last()) {
                rest.lemma_filter_contains_rev(p, s.last());
                let k = choose|k: int| 0 <= k < rest.len() && rest[k] == s.last();
                assert(s[k] == s[s.len() - 1]);
            }
        }
    }
}

/// Two views with the same nodes, children and parents are alike for consistency and ranks.
pub proof fn lemma_same_links(a: Map<u64, NodeEntry>, b: Map<u64, NodeEntry>, rank: Map<u64, nat>)
    requires
        a.dom() == b.dom(),
        forall|n: u64| #[trigger]
            a.contains_key(n) ==> children_of(a, n) == children_of(b, n) && parent_of(a, n)
                == parent_of(b, n),
    ensures
        tree_consistent(a) ==> tree_consistent(b),
        ranked_by(a, rank) ==> ranked_by(b, rank),
        tree_acyclic(a) ==> tree_acyclic(b),
{
    assert forall|n: u64| b.contains_key(n) implies #[trigger] a.contains_key(n) by {
        assert(b.dom().contains(n));
    }
    if tree_acyclic(a) {
        let r = choose|r: Map<u64, nat>| ranked_by(a, r);
        assert(ranked_by(b, r));
    }
}

/// Adding a node with no link keeps the tree consistent and ranked.
pub proof fn lemma_insert_leaf(view: Map<u64, NodeEntry>, id: u64, context: Option<u64>)
    requires
        tree_consistent(view),
        !view.contains_key(id),
    ensures
        tree_consistent(view.insert(id, (Seq::empty(), None, context))),
        tree_acyclic(view) ==> tree_acyclic(view.insert(id, (Seq::empty(), None, context))),
{
    let v2 = view.insert(id, (Seq::empty(), None, context));
    assert forall|p: u64, i: int|
        #![trigger v2.contains_key(p), children_of(v2, p)[i]]
        v2.contains_key(p) && 0 <= i < children_of(v2, p).len() implies {
            let c = children_of(v2, p)[i];
            v2.contains_key(c) && parent_of(v2, c) == Some(p)
        } by {
        assert(view.contains_key(p));
        assert(view.contains_key(children_of(view, p)[i]));
    }
    if tree_acyclic(view) {
        let r = choose|r: Map<u64, nat>| ranked_by(view, r);
        assert forall|p: u64, i: int|
            #![trigger v2.contains_key(p), children_of(v2, p)[i]]
            v2.contains_key(p) && 0 <= i < children_of(v2, p).len() implies {
                let c = children_of(v2, p)[i];
                r.contains_key(c) && r.contains_key(p) && r[c] < r[p]
            } by {
            assert(view.contains_key(p));
        }
        assert(ranked_by(v2, r));
    }
}

/// Removing a node keeps the tree consistent and ranked.
pub proof fn lemma_remove_keeps_consistent(view: Map<u64, NodeEntry>, node: u64)
    requires
        tree_consistent(view),
        view.contains_key(node),
    ensures
        tree_consistent(view_after_remove(view, node)),
        tree_acyclic(view) ==> tree_acyclic(view_after_remove(view, node)),
        view_after_remove(view, node).dom() == view.dom().remove(node),
{
    let v2 = view_after_remove(view, node);
    let keep = other_than(node);
    assert(v2.dom() =~= view.dom().remove(node));
    assert forall|n: u64| #[trigger]
        v2.contains_key(n) && parent_of(v2, n) is Some implies {
            let p = parent_of(v2, n)->0;
            v2.contains_key(p) && children_of(v2, p).contains(n)
        } by {
        let p = parent_of(v2, n)->0;
        assert(parent_of(view, n) == Some(p));
        assert(view.contains_key(p) && children_of(view, p).contains(n));
        if p == node {
            assert(children_of(view, node).contains(n));
        }
        let k = choose|k: int| 0 <= k < children_of(view, p).len() && children_of(view, p)[k] == n;
        children_of(view, p).lemma_filter_contains(keep, k);
    }
    assert forall|p: u64, i: int|
        #![trigger v2.contains_key(p), children_of(v2, p)[i]]
        v2.contains_key(p) && 0 <= i < children_of(v2, p).len() implies {
            let c = children_of(v2, p)[i];
            v2.contains_key(c) && parent_of(v2, c) == Some(p)
        } by {
        let c = children_of(v2, p)[i];
        let s = children_of(view, p);
        s.lemma_filter_pred(keep, i);
        assert(s.filter(keep).contains(c));
        s.lemma_filter_contains_rev(keep, c);
        let k = choose|k: int| 0 <= k < s.len() && s[k] == c;
        assert(view.contains_key(c) && parent_of(view, c) == Some(p));
        if children_of(view, node).contains(c) {
            let j = choose|j: int| 0 <= j < children_of(view, node).len() && children_of(view, node)[j] == c;
            assert(parent_of(view, c) == Some(node));
        }
    }
    assert forall|p: u64| #[trigger] v2.contains_key(p) implies children_of(v2, p).no_duplicates() by {
        lemma_filter_no_duplicates(children_of(view, p), keep);
    }
    if tree_acyclic(view) {
        let r = choose|r: Map<u64, nat>| ranked_by(view, r);
        assert forall|p: u64, i: int|
            #![trigger v2.contains_key(p), children_of(v2, p)[i]]
            v2.contains_key(p) && 0 <= i < children_of(v2, p).len() implies {
                let c = children_of(v2, p)[i];
                r.contains_key(c) && r.contains_key(p) && r[c] < r[p]
            } by {
            let c = children_of(v2, p)[i];
            let s = children_of(view, p);
            s.lemma_filter_pred(keep, i);
            assert(s.filter(keep).contains(c));
            s.lemma_filter_contains_rev(keep, c);
            let k = choose|k: int| 0 <= k < s.len() && s[k] == c;
            assert(view.contains_key(p) && 0 <= k < children_of(view, p).len());
        }
        assert(ranked_by(v2, r));
    }
}

/// `set_children` with live, distinct children keeps the tree consistent.
pub proof fn lemma_set_children_keeps_consistent(
    view: Map<u64, NodeEntry>,
    parent: u64,
    children: Seq<u64>,
)
    requires
        tree_consistent(view),
        view.contains_key(parent),
        children.no_duplicates(),
        forall|i: int| 0 <= i < children.len() ==> view.contains_key(#[trigger] children[i]),
    ensures
        tree_consistent(view_after_set_children(view, parent, children)),
        view_after_set_children(view, parent, children).dom() == view.dom(),
{
    let v2 = view_after_set_children(view, parent, children);
    let keep = not_in(children);
    assert(v2.dom() =~= view.dom());
    assert forall|n: u64| #[trigger]
        v2.contains_key(n) && parent_of(v2, n) is Some implies {
            let p = parent_of(v2, n)->0;
            v2.contains_key(p) && children_of(v2, p).contains(n)
        } by {
        if !children.contains(n) {
            let q = parent_of(view, n)->0;
            assert(view.contains_key(q) && children_of(view, q).contains(n));
            let k = choose|k: int| 0 <= k < children_of(view, q).len() && children_of(view, q)[k] == n;
            children_of(view, q).lemma_filter_contains(keep, k);
        }
    }
    assert forall|p: u64, i: int|
        #![trigger v2.contains_key(p), children_of(v2, p)[i]]
        v2.contains_key(p) && 0 <= i < children_of(v2, p).len() implies {
            let c = children_of(v2, p)[i];
            v2.contains_key(c) && parent_of(v2, c) == Some(p)
        } by {
        let c = children_of(v2, p)[i];
        if p == parent {
            assert(children.contains(c));
        } else {
            let s = children_of(view, p);
            s.lemma_filter_pred(keep, i);
            assert(s.filter(keep).contains(c));
            s.lemma_filter_contains_rev(keep, c);
            let k = choose|k: int| 0 <= k < s.len() && s[k] == c;
            assert(view.contains_key(c) && parent_of(view, c) == Some(p));
            if children_of(view, parent).contains(c) {
                let j = choose|j: int| 0 <= j < children_of(view, parent).len() && children_of(view, parent)[j] == c;
                assert(parent_of(view, c) == Some(parent));
            }
        }
    }
    assert forall|p: u64| #[trigger] v2.contains_key(p) implies children_of(v2, p).no_duplicates() by {
        if p != parent {
            lemma_filter_no_duplicates(children_of(view, p), keep);
        }
    }
}

/// Giving a fresh node a single existing child keeps the tree free of cycles.
pub proof fn lemma_new_parent_keeps_acyclic(view: Map<u64, NodeEntry>, fresh: u64, child: u64)
    requires
        tree_consistent(view),
        tree_acyclic(view),
        view.contains_key(child),
        !view.contains_key(fresh),
    ensures
        tree_acyclic(
            view_after_set_children(
                view.insert(fresh, (Seq::empty(), None, None)),
                fresh,
                seq![child],
            ),
        ),
{
    let v1 = view.insert(fresh, (Seq::empty(), None, None));
    let cs = seq![child];
    let v2 = view_after_set_children(v1, fresh, cs);
    let r = choose|r: Map<u64, nat>| ranked_by(view, r);
    let r0: nat = if r.contains_key(child) { r[child] } else { 0 };
    let r2 = r.insert(child, r0).insert(fresh, r0 + 1);
    assert forall|p: u64, i: int|
        #![trigger v2.contains_key(p), children_of(v2, p)[i]]
        v2.contains_key(p) && 0 <= i < children_of(v2, p).len() implies {
            let c = children_of(v2, p)[i];
            r2.contains_key(c) && r2.contains_key(p) && r2[c] < r2[p]
        } by {
        if p != fresh {
            let s = children_of(v1, p);
            let keep = not_in(cs);
            s.lemma_filter_pred(keep, i);
            let c = children_of(v2, p)[i];
            assert(s.filter(keep).contains(c));
            s.lemma_filter_contains_rev(keep, c);
            let k = choose|k: int| 0 <= k < s.len() && s[k] == c;
            assert(view.contains_key(p));
            assert(children_of(view, p)[k] == c);
            assert(cs[0] == child);
            assert(!cs.contains(c));
            assert(c != child);
            assert(view.contains_key(c));
            if p == child {
                assert(r.contains_key(child));
            }
        }
    }
    assert(ranked_by(v2, r2));
}

/// `a` is `n` or an ancestor of `n` reached within `k` parent links.
pub open spec fn ancestor_within(view: Map<u64, NodeEntry>, n: u64, a: u64, k: nat) -> bool
    decreases k,
{
    n == a || (k > 0 && view.contains_key(n) && parent_of(view, n) is Some && ancestor_within(
        view,
        parent_of(view, n)->0,
        a,
        (k - 1) as nat,
    ))
}

/// `a` is `n` or one of its ancestors.
pub open spec fn is_ancestor_or_self(view: Map<u64, NodeEntry>, a: u64, n: u64) -> bool {
    exists|k: nat| ancestor_within(view, n, a, k)
}

/// The parent of an ancestor is an ancestor, one link further.
pub proof fn lemma_ancestor_step(view: Map<u64, NodeEntry>, n: u64, a: u64, k: nat)
    requires
        ancestor_within(view, n, a, k),
        view.contains_key(a),
        parent_of(view, a) is Some,
    ensures
        ancestor_within(view, n, parent_of(view, a)->0, k + 1),
    decreases k,
{
    let p = parent_of(view, a)->0;
    if n == a {
        assert(ancestor_within(view, p, p, k));
    } else {
        let q = parent_of(view, n)->0;
        lemma_ancestor_step(view, q, a, (k - 1) as nat);
        assert((k + 1 - 1) as nat == k);
    }
}

/// Reaching an ancestor within `k` links means reaching it within more.
pub proof fn lemma_ancestor_more_links(view: Map<u64, NodeEntry>, n: u64, a: u64, k: nat)
    requires
        ancestor_within(view, n, a, k),
    ensures
        ancestor_within(view, n, a, k + 1),
    decreases k,
{
    if n != a {
        lemma_ancestor_more_links(view, parent_of(view, n)->0, a, (k - 1) as nat);
        assert((k + 1 - 1) as nat == k);
    }
}

/// Removing a node gives no node a new ancestor.
pub proof fn lemma_remove_keeps_ancestors(view: Map<u64, NodeEntry>, node: u64, n: u64, a: u64, k: nat)
    requires
        ancestor_within(view_after_remove(view, node), n, a, k),
    ensures
        ancestor_within(view, n, a, k),
    decreases k,
{
    let v2 = view_after_remove(view, node);
    if n != a {
        let q = parent_of(v2, n)->0;
        assert(parent_of(view, n) == Some(q));
        lemma_remove_keeps_ancestors(view, node, q, a, (k - 1) as nat);
    }
}

/// The sum of the ranks of some nodes, a node without a rank counting as zero.
pub open spec fn rank_sum(rank: Map<u64, nat>, nodes: Seq<u64>) -> nat
    decreases nodes.len(),
{
    if nodes.len() == 0 {
        0
    } else {
        rank_sum(rank, nodes.drop_last()) + if rank.contains_key(nodes.last()) {
            rank[nodes.last()]
        } else {
            0
        }
    }
}

proof fn lemma_rank_sum_bounds(rank: Map<u64, nat>, nodes: Seq<u64>, i: int)
    requires
        0 <= i < nodes.len(),
        rank.contains_key(nodes[i]),
    ensures
        rank[nodes[i]] <= rank_sum(rank, nodes),
    decreases nodes.len(),
{
    if i < nodes.len() - 1 {
        lemma_rank_sum_bounds(rank, nodes.drop_last(), i);
    }
}

/// `set_children` keeps a tree free of cycles when no new child is the parent or one of its
/// ancestors.
pub proof fn lemma_set_children_keeps_acyclic(view: Map<u64, NodeEntry>, parent: u64, children: Seq<u64>)
    requires
        tree_consistent(view),
        tree_acyclic(view),
        view.contains_key(parent),
        children.no_duplicates(),
        forall|i: int| 0 <= i < children.len() ==> view.contains_key(#[trigger] children[i]),
        forall|i: int|
            0 <= i < children.len() ==> !is_ancestor_or_self(view, #[trigger] children[i], parent),
    ensures
        tree_acyclic(view_after_set_children(view, parent, children)),
{
    let v2 = view_after_set_children(view, parent, children);
    let r = choose|r: Map<u64, nat>| ranked_by(view, r);
    let bound: nat = rank_sum(r, children) + 1;
    let r2 = Map::new(
        |n: u64| view.contains_key(n),
        |n: u64|
            (if r.contains_key(n) {
                r[n]
            } else {
                0
            }) + if is_ancestor_or_self(view, n, parent) {
                bound
            } else {
                0
            },
    );
    assert(ancestor_within(view, parent, parent, 0));
    assert forall|p: u64, i: int|
        #![trigger v2.contains_key(p), children_of(v2, p)[i]]
        v2.contains_key(p) && 0 <= i < children_of(v2, p).len() implies {
            let c = children_of(v2, p)[i];
            r2.contains_key(c) && r2.contains_key(p) && r2[c] < r2[p]
        } by {
        let c = children_of(v2, p)[i];
        if p == parent {
            assert(children[i] == c);
            assert(view.contains_key(c));
            assert(!is_ancestor_or_self(view, c, parent));
            if r.contains_key(c) {
                lemma_rank_sum_bounds(r, children, i);
            }
        } else {
            let keep = not_in(children);
            let s = children_of(view, p);
            s.lemma_filter_pred(keep, i);
            assert(s.filter(keep).contains(c));
            s.lemma_filter_contains_rev(keep, c);
            let j = choose|j: int| 0 <= j < s.len() && s[j] == c;
            assert(view.contains_key(p) && 0 <= j < children_of(view, p).len());
            assert(view.contains_key(c) && parent_of(view, c) == Some(p));
            assert(r.contains_key(c) && r.contains_key(p) && r[c] < r[p]);
            if is_ancestor_or_self(view, c, parent) {
                let k = choose|k: nat| ancestor_within(view, parent, c, k);
                lemma_ancestor_step(view, parent, c, k);
                assert(is_ancestor_or_self(view, p, parent));
            }
        }
    }
    assert(ranked_by(v2, r2));
}

/// Whether the layout cache of a node of the tree is empty, as `TaffyTree::dirty` reports it.
pub uninterp spec fn taffy_dirty(tree: taffy::TaffyTree<u64>, node: u64) -> bool;

/// Whether the final-layout entry of `node`'s layout cache holds a solve made for a parent size
/// of `width` by `height` pixels, as a top-level solve with that much definite available space
/// stores it.
pub uninterp spec fn taffy_solved_for(tree: taffy::TaffyTree<u64>, node: u64, width: u32, height: u32) -> bool;

/// Calls `TaffyTree::new`: a tree with no node.
#[verifier::external_body]
pub(crate) fn tree_new() -> (fresh: LayoutTree)
    ensures
        taffy_nodes(fresh).dom() == Set::<u64>::empty(),
{
    taffy::TaffyTree::new()
}

/// Calls `TaffyTree::new_leaf`: inserts a node with no child, no parent, no context and an
/// empty layout cache under a key that no live node has; the caches of the other nodes are
/// left alone. It always returns `Ok`.
#[verifier::external_body]
pub(crate) fn tree_new_leaf(tree: &mut taffy::TaffyTree<u64>, style: NodeStyle) -> (id: u64)
    ensures
        !taffy_nodes(*old(tree)).contains_key(id),
        taffy_nodes(*final(tree)) == taffy_nodes(*old(tree)).insert(id, (Seq::empty(), None, None)),
        taffy_dirty(*final(tree), id),
        forall|n: u64| n != id && taffy_dirty(*old(tree), n) ==> #[trigger] taffy_dirty(*final(tree), n),
        forall|n: u64, w: u32, h: u32|
            taffy_nodes(*final(tree)).contains_key(n) && taffy_solved_for(*old(tree), n, w, h) && !taffy_dirty(*final(tree), n)
                ==> #[trigger] taffy_solved_for(*final(tree), n, w, h),
{
    u64::from(tree.new_leaf(style.0).unwrap())
}

/// Calls `TaffyTree::new_leaf_with_context`: as `new_leaf`, with `context` stored on the node.
#[verifier::external_body]
pub(crate) fn tree_new_leaf_with_context(
    tree: &mut taffy::TaffyTree<u64>,
    style: NodeStyle,
    context: u64,
) -> (id: u64)
    ensures
        !taffy_nodes(*old(tree)).contains_key(id),
        taffy_nodes(*final(tree)) == taffy_nodes(*old(tree)).insert(
            id,
            (Seq::empty(), None, Some(context)),
        ),
        taffy_dirty(*final(tree), id),
        forall|n: u64| n != id && taffy_dirty(*old(tree), n) ==> #[trigger] taffy_dirty(*final(tree), n),
        forall|n: u64, w: u32, h: u32|
            taffy_nodes(*final(tree)).contains_key(n) && taffy_solved_for(*old(tree), n, w, h) && !taffy_dirty(*final(tree), n)
                ==> #[trigger] taffy_solved_for(*final(tree), n, w, h),
{
    u64::from(tree.new_leaf_with_context(style.0, context).unwrap())
}

/// Calls `TaffyTree::remove` on a live node of a consistent tree: the node leaves the tree, the
/// list of its parent (the only list that names it) and the parent links of its children; the
/// parent's cache is cleared and other caches are only ever cleared, never filled or changed. Indexing a dead key
/// panics, and a list naming a dead node would be indexed, hence the `requires`.
#[verifier::external_body]
pub(crate) fn tree_remove(tree: &mut taffy::TaffyTree<u64>, node: u64)
    requires
        tree_consistent(taffy_nodes(*old(tree))),
        taffy_nodes(*old(tree)).contains_key(node),
    ensures
        taffy_nodes(*final(tree)) == view_after_remove(taffy_nodes(*old(tree)), node),
        parent_of(taffy_nodes(*old(tree)), node) matches Some(p) ==> taffy_dirty(*final(tree), p),
        forall|n: u64| n != node && taffy_dirty(*old(tree), n) ==> #[trigger] taffy_dirty(*final(tree), n),
        forall|n: u64, w: u32, h: u32|
            taffy_nodes(*final(tree)).contains_key(n) && taffy_solved_for(*old(tree), n, w, h) && !taffy_dirty(*final(tree), n)
                ==> #[trigger] taffy_solved_for(*final(tree), n, w, h),
{
    tree.remove(taffy::NodeId::from(node)).unwrap();
}

/// Calls `TaffyTree::set_node_context` on a live node: replaces its context and marks it dirty
/// (caches are only ever cleared).
#[verifier::external_body]
pub(crate) fn tree_set_node_context(tree: &mut taffy::TaffyTree<u64>, node: u64, context: Option<u64>)
    requires
        tree_consistent(taffy_nodes(*old(tree))),
        taffy_nodes(*old(tree)).contains_key(node),
    ensures
        taffy_nodes(*final(tree)) == taffy_nodes(*old(tree)).insert(
            node,
            (
                children_of(taffy_nodes(*old(tree)), node),
                parent_of(taffy_nodes(*old(tree)), node),
                context,
            ),
        ),
        taffy_dirty(*final(tree), node),
        forall|n: u64| taffy_dirty(*old(tree), n) ==> #[trigger] taffy_dirty(*final(tree), n),
        forall|n: u64, w: u32, h: u32|
            taffy_nodes(*final(tree)).contains_key(n) && taffy_solved_for(*old(tree), n, w, h) && !taffy_dirty(*final(tree), n)
                ==> #[trigger] taffy_solved_for(*final(tree), n, w, h),
{
    tree.set_node_context(taffy::NodeId::from(node), context).unwrap();
}

/// Calls `TaffyTree::set_children`. On a consistent tree, with live and distinct children,
/// `remove_child` inside it finds each child in the list of its former parent, so it does not
/// panic; the result is [`view_after_set_children`].
#[verifier::external_body]
pub(crate) fn tree_set_children(tree: &mut taffy::TaffyTree<u64>, parent: u64, children: &[u64])
    requires
        tree_consistent(taffy_nodes(*old(tree))),
        taffy_nodes(*old(tree)).contains_key(parent),
        children@.no_duplicates(),
        forall|i: int|
            0 <= i < children@.len() ==> taffy_nodes(*old(tree)).contains_key(#[trigger] children@[i]),
    ensures
        taffy_nodes(*final(tree)) == view_after_set_children(
            taffy_nodes(*old(tree)),
            parent,
            children@,
        ),
        taffy_dirty(*final(tree), parent),
        forall|n: u64| taffy_dirty(*old(tree), n) ==> #[trigger] taffy_dirty(*final(tree), n),
        forall|n: u64, w: u32, h: u32|
            taffy_nodes(*final(tree)).contains_key(n) && taffy_solved_for(*old(tree), n, w, h) && !taffy_dirty(*final(tree), n)
                ==> #[trigger] taffy_solved_for(*final(tree), n, w, h),
{
    let ids: Vec<taffy::NodeId> = children.iter().map(|c| taffy::NodeId::from(*c)).collect();
    tree.set_children(taffy::NodeId::from(parent), &ids).unwrap();
}

/// Calls `TaffyTree::style` and compares the stored style with `style` by `!=`. Styles are not
/// modelled here, so nothing is stated of the answer.
#[verifier::external_body]
pub(crate) fn tree_style_differs(tree: &taffy::TaffyTree<u64>, node: u64, style: &NodeStyle) -> bool
    requires
        taffy_nodes(*tree).contains_key(node),
{
    tree.style(taffy::NodeId::from(node)).unwrap() != &style.0
}

/// Calls `TaffyTree::set_style`: replaces the style and marks the node dirty; links and
/// contexts stay as they were, and caches are only ever cleared.
#[verifier::external_body]
pub(crate) fn tree_set_style(tree: &mut taffy::TaffyTree<u64>, node: u64, style: NodeStyle)
    requires
        tree_consistent(taffy_nodes(*old(tree))),
        taffy_nodes(*old(tree)).contains_key(node),
    ensures
        taffy_nodes(*final(tree)) == taffy_nodes(*old(tree)),
        taffy_dirty(*final(tree), node),
        forall|n: u64| taffy_dirty(*old(tree), n) ==> #[trigger] taffy_dirty(*final(tree), n),
        forall|n: u64, w: u32, h: u32|
            taffy_nodes(*final(tree)).contains_key(n) && taffy_solved_for(*old(tree), n, w, h) && !taffy_dirty(*final(tree), n)
                ==> #[trigger] taffy_solved_for(*final(tree), n, w, h),
{
    tree.set_style(taffy::NodeId::from(node), style.0).unwrap();
}

/// Calls `TaffyTree::dirty`: whether the node's layout cache is empty. The cache is not
/// modelled here; the answer is named [`taffy_dirty`].
#[verifier::external_body]
pub(crate) fn tree_dirty(tree: &taffy::TaffyTree<u64>, node: u64) -> (dirty: bool)
    requires
        taffy_nodes(*tree).contains_key(node),
    ensures
        dirty == taffy_dirty(*tree, node),
{
    tree.dirty(taffy::NodeId::from(node)).unwrap()
}

/// Calls `TaffyTree::mark_dirty`: clears the node's cache, then its ancestors' up to the first
/// that was already empty; links and contexts stay as they were. Which ancestors it reaches
/// depends on the caches, so only the node itself is stated.
#[verifier::external_body]
pub(crate) fn tree_mark_dirty(tree: &mut taffy::TaffyTree<u64>, node: u64)
    requires
        tree_consistent(taffy_nodes(*old(tree))),
        taffy_nodes(*old(tree)).contains_key(node),
    ensures
        taffy_nodes(*final(tree)) == taffy_nodes(*old(tree)),
        taffy_dirty(*final(tree), node),
        forall|n: u64| taffy_dirty(*old(tree), n) ==> #[trigger] taffy_dirty(*final(tree), n),
        forall|n: u64, w: u32, h: u32|
            taffy_nodes(*final(tree)).contains_key(n) && taffy_solved_for(*old(tree), n, w, h) && !taffy_dirty(*final(tree), n)
                ==> #[trigger] taffy_solved_for(*final(tree), n, w, h),
{
    tree.mark_dirty(taffy::NodeId::from(node)).unwrap();
}

/// Calls `TaffyTree::parent`: the node's parent link.
#[verifier::external_body]
pub(crate) fn tree_parent(tree: &taffy::TaffyTree<u64>, node: u64) -> (parent: Option<u64>)
    requires
        taffy_nodes(*tree).contains_key(node),
    ensures
        parent == parent_of(taffy_nodes(*tree), node),
{
    tree.parent(taffy::NodeId::from(node)).map(u64::from)
}

/// Calls `TaffyTree::layout`, which returns `Ok` for every live node. The layout values are
/// not modelled here.
#[verifier::external_body]
pub(crate) fn tree_layout(tree: &taffy::TaffyTree<u64>, node: u64) -> (layout: Result<
    taffy::Layout,
    taffy::TaffyError,
>)
    requires
        taffy_nodes(*tree).contains_key(node),
    ensures
        layout is Ok,
{
    tree.layout(taffy::NodeId::from(node)).copied()
}

/// Calls `TaffyTree::unrounded_layout`. The layout values are not modelled here.
#[verifier::external_body]
pub(crate) fn tree_unrounded_layout(tree: &taffy::TaffyTree<u64>, node: u64) -> taffy::Layout
    requires
        taffy_nodes(*tree).contains_key(node),
{
    *tree.unrounded_layout(taffy::NodeId::from(node))
}

/// How a node lays out its children.
#[derive(Clone, Copy, Debug, PartialEq, Eq, Structural)]
pub enum DisplayMode {
    Flex,
    Grid,
    Block,
}

/// How the items of a grid or flex container align on an axis.
#[derive(Clone, Copy, Debug, PartialEq, Eq, Structural)]
pub enum ItemAlignment {
    Start,
    End,
    Center,
    Stretch,
}

/// Builds a `taffy::Style` from plain values, the rest default: the display mode, width and
/// height as fractions of the parent (`1` is 100%, through `style_helpers::percent`), and the
/// item alignment on both axes. Styles are not modelled, so nothing is stated of the result.
#[verifier::external_body]
pub(crate) fn node_style(
    display: DisplayMode,
    width_fraction: u8,
    height_fraction: u8,
    align_items: ItemAlignment,
    justify_items: ItemAlignment,
) -> NodeStyle {
    let align = |a| match a { ItemAlignment::Start => taffy::AlignItems::START,
        ItemAlignment::End => taffy::AlignItems::END, ItemAlignment::Center => taffy::AlignItems::CENTER,
        ItemAlignment::Stretch => taffy::AlignItems::STRETCH };
    let display = match display { DisplayMode::Flex => taffy::Display::Flex,
        DisplayMode::Grid => taffy::Display::Grid, DisplayMode::Block => taffy::Display::Block };
    let width = taffy::style_helpers::percent(width_fraction);
    let height = taffy::style_helpers::percent(height_fraction);
    let (align_items, justify_items) = (align(align_items), align(justify_items));
    let size = taffy::Size { width, height };
    NodeStyle(taffy::Style { display, size, align_items, justify_items, ..Default::default() })
}

/// Calls `TaffyTree::compute_layout_with_measure` on `node` with `available.x` by `available.y`
/// pixels of definite available space. It lays out the subtree of `node` (recursing into children, so
/// the tree must have no cycle) and rounds it; node links stay as they were. `measure` is
/// handed each node's input, id, context (mutably, so contexts are left unsaid) and a copy of
/// its style. The layout of `node` itself is stored in its cache, keyed by that available
/// space as the size of its parent, so it is not dirty after and is solved for that space.
/// Nodes outside the subtree of `node` keep their caches.
#[verifier::external_body]
pub(crate) fn tree_compute_layout_with_measure<F>(
    tree: &mut taffy::TaffyTree<u64>,
    node: u64,
    available: UVec2,
    mut measure: F,
) where F: FnMut(taffy::LayoutInput, taffy::NodeId, Option<&mut u64>, &NodeStyle) -> taffy::LayoutOutput
    requires
        taffy_nodes(*old(tree)).contains_key(node),
        tree_consistent(taffy_nodes(*old(tree))),
        tree_acyclic(taffy_nodes(*old(tree))),
    ensures
        taffy_nodes(*final(tree)).dom() == taffy_nodes(*old(tree)).dom(),
        !taffy_dirty(*final(tree), node),
        taffy_solved_for(*final(tree), node, available.x, available.y),
        forall|n: u64|
            taffy_nodes(*old(tree)).contains_key(n) && !is_ancestor_or_self(taffy_nodes(*old(tree)), node, n)
                && taffy_dirty(*old(tree), n) ==> #[trigger] taffy_dirty(*final(tree), n),
        forall|n: u64, w: u32, h: u32|
            taffy_nodes(*old(tree)).contains_key(n) && !is_ancestor_or_self(taffy_nodes(*old(tree)), node, n)
                && taffy_solved_for(*old(tree), n, w, h) ==> #[trigger] taffy_solved_for(*final(tree), n, w, h),
        forall|n: u64| #[trigger]
            taffy_nodes(*old(tree)).contains_key(n) ==> children_of(taffy_nodes(*final(tree)), n)
                == children_of(taffy_nodes(*old(tree)), n) && parent_of(
                taffy_nodes(*final(tree)),
                n,
            ) == parent_of(taffy_nodes(*old(tree)), n),
{
    let space = taffy::Size {
        width: taffy::AvailableSpace::Definite(taffy::style_helpers::length(available.x)),
        height: taffy::AvailableSpace::Definite(taffy::style_helpers::length(available.y)),
    };
    tree.compute_layout_with_measure(taffy::NodeId::from(node), space, |input, id, context, style| {
        measure(input, id, context, &NodeStyle(style.clone()))
    }).unwrap();
}

} // verus!
