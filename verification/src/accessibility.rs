//! Accessibility of UI nodes: labels computed from text, the label component, and the chain
//! of ancestor transforms that places a node's bounds.
use vstd::prelude::*;
use vstd::string::StringExecFns;

verus! {

/// The texts of a node joined by single spaces.
pub open spec fn join_with_spaces(texts: Seq<Seq<char>>) -> Seq<char>
    decreases texts.len(),
{
    if texts.len() == 0 {
        Seq::empty()
    } else if texts.len() == 1 {
        texts[0]
    } else {
        join_with_spaces(texts.drop_last()) + seq![' '] + texts.last()
    }
}

/// The characters of each string.
pub open spec fn texts_view(texts: Seq<String>) -> Seq<Seq<char>> {
    texts.map_values(|s: String| s@)
}

/// Joins texts with single spaces.
pub fn join_texts(texts: &[String]) -> (joined: String)
    ensures
        joined@ == join_with_spaces(texts_view(texts@)),
{
    let mut joined = String::new();
    let mut i: usize = 0;
    while i < texts.len()
        invariant
            0 <= i <= texts@.len(),
            joined@ == join_with_spaces(texts_view(texts@.subrange(0, i as int))),
        decreases texts.len() - i,
    {
        let ghost before = joined@;
        proof {
            let next = texts_view(texts@.subrange(0, i + 1));
            assert(next.drop_last() =~= texts_view(texts@.subrange(0, i as int)));
            assert(next.last() == texts@[i as int]@);
        }
        if i > 0 {
            proof {
                reveal_strlit(" ");
            }
            joined.append(" ");
        }
        joined.append(texts[i].as_str());
        proof {
            let next = texts_view(texts@.subrange(0, i + 1));
            if i == 0 {
                assert(next.len() == 1);
                assert(joined@ =~= next[0]);
            } else {
                assert(joined@ =~= before + seq![' '] + next.last());
            }
        }
        i = i + 1;
    }
    proof {
        assert(texts@.subrange(0, texts@.len() as int) =~= texts@);
    }
    joined
}

/// The label of a node from the texts of its first `n` children: the texts of the last child
/// that has any, joined with spaces; none when no child has text.
pub open spec fn children_label(children: Seq<Vec<String>>, n: int) -> Option<Seq<char>>
    decreases n,
{
    if n <= 0 {
        None
    } else if children[n - 1]@.len() > 0 {
        Some(join_with_spaces(texts_view(children[n - 1]@)))
    } else {
        children_label(children, n - 1)
    }
}

/// Computes the label of a node from the texts of its UI children, in child order.
pub fn calc_label(children: &[Vec<String>]) -> (name: Option<String>)
    ensures
        match name {
            Some(s) => children_label(children@, children@.len() as int) == Some(s@),
            None => children_label(children@, children@.len() as int) is None,
        },
{
    let mut name: Option<String> = None;
    let mut i: usize = 0;
    while i < children.len()
        invariant
            0 <= i <= children@.len(),
            match name {
                Some(s) => children_label(children@, i as int) == Some(s@),
                None => children_label(children@, i as int) is None,
            },
        decreases children.len() - i,
    {
        if children[i].len() > 0 {
            name = Some(join_texts(children[i].as_slice()));
        }
        i = i + 1;
    }
    name
}

/// The roles that UI widgets give their accessibility node.
#[derive(Clone, Copy, Debug, PartialEq, Eq, Structural)]
pub enum UiRole {
    Button,
    Image,
    Label,
}

/// The text an accessibility node update writes.
pub enum TextProperty {
    /// Set the label, or clear it when there is none.
    Label(Option<String>),
    /// Set the value.
    Value(String),
}

/// How a widget's accessibility node changes: its role, and its label or value.
pub struct AccessibleUpdate {
    pub role: UiRole,
    pub text: TextProperty,
}

/// The accessibility update of a button: the button role, labelled by its children's text.
pub fn button_update(children: &[Vec<String>]) -> (update: AccessibleUpdate)
    ensures
        update.role == UiRole::Button,
        update.text matches TextProperty::Label(label) && match label {
            Some(s) => children_label(children@, children@.len() as int) == Some(s@),
            None => children_label(children@, children@.len() as int) is None,
        },
{
    AccessibleUpdate { role: UiRole::Button, text: TextProperty::Label(calc_label(children)) }
}

/// The accessibility update of an image that is not a button: the image role, labelled by
/// its children's text.
pub fn image_update(children: &[Vec<String>]) -> (update: AccessibleUpdate)
    ensures
        update.role == UiRole::Image,
        update.text matches TextProperty::Label(label) && match label {
            Some(s) => children_label(children@, children@.len() as int) == Some(s@),
            None => children_label(children@, children@.len() as int) is None,
        },
{
    AccessibleUpdate { role: UiRole::Image, text: TextProperty::Label(calc_label(children)) }
}

/// The accessibility update of a text label: the label role, with its own texts joined by
/// spaces as the value.
pub fn label_update(texts: &[String]) -> (update: AccessibleUpdate)
    ensures
        update.role == UiRole::Label,
        update.text matches TextProperty::Value(v) && v@ == join_with_spaces(texts_view(texts@)),
{
    AccessibleUpdate { role: UiRole::Label, text: TextProperty::Value(join_texts(texts)) }
}

/// A label for a node's accessibility node, given apart from its other accessibility
/// attributes.
#[derive(Clone, Debug)]
pub struct AccessibleLabel(pub String);

impl AccessibleLabel {
    /// Makes a new `AccessibleLabel`.
    pub fn new<T: Into<String>>(text: T) -> (label: AccessibleLabel)
        ensures
            call_ensures(T::into, (text,), label.0),
    {
        AccessibleLabel(text.into())
    }
}

/// An ancestor of an accessible node, as the placement of its bounds sees it.
#[derive(Clone, Copy, Debug, PartialEq, Eq, Structural)]
pub enum AncestorKind {
    /// An accessible UI node: it has an accessibility node and a UI transform.
    UiTransform,
    /// An accessibility node with no UI transform, and whether it carries its own transform.
    SemanticOnly { has_transform: bool },
    /// Neither.
    Other,
}

/// Whether ancestor `i` is composed into the parent transform: every ancestor before it is
/// not an accessible UI node, and it is either an accessible UI node or a semantic-only node
/// with a transform.
pub open spec fn in_transform_chain(ancestors: Seq<AncestorKind>, i: int) -> bool {
    &&& 0 <= i < ancestors.len()
    &&& forall|j: int| 0 <= j < i ==> #[trigger] ancestors[j] != AncestorKind::UiTransform
    &&& (ancestors[i] == AncestorKind::UiTransform || ancestors[i] == (AncestorKind::SemanticOnly {
        has_transform: true,
    }))
}

/// The ancestors, nearest first, whose transforms place an accessible node's bounds: the
/// semantic-only ancestors with a transform up to, and including, the nearest accessible UI
/// ancestor. Composing them in this order, each on the left, gives the parent transform.
pub fn parent_transform_chain(ancestors: &[AncestorKind]) -> (chain: Vec<usize>)
    ensures
        forall|a: int, b: int| 0 <= a < b < chain@.len() ==> chain@[a] < chain@[b],
        forall|k: int| 0 <= k < chain@.len() ==> in_transform_chain(ancestors@, #[trigger] chain@[k] as int),
        forall|i: int| in_transform_chain(ancestors@, i) ==> #[trigger] chain@.contains(i as usize),
{
    let mut chain: Vec<usize> = Vec::new();
    let mut i: usize = 0;
    while i < ancestors.len()
        invariant
            0 <= i <= ancestors@.len(),
            forall|j: int| 0 <= j < i ==> #[trigger] ancestors@[j] != AncestorKind::UiTransform,
            forall|a: int, b: int| 0 <= a < b < chain@.len() ==> chain@[a] < chain@[b],
            forall|k: int| 0 <= k < chain@.len() ==> chain@[k] < i && in_transform_chain(
                ancestors@,
                #[trigger] chain@[k] as int,
            ),
            forall|j: int| 0 <= j < i && in_transform_chain(ancestors@, j) ==> #[trigger] chain@.contains(
                j as usize,
            ),
        decreases ancestors.len() - i,
    {
        match ancestors[i] {
            AncestorKind::UiTransform => {
                let ghost before = chain@;
                chain.push(i);
                proof {
                    assert(chain@[chain@.len() - 1] == i);
                    assert forall|j: int| in_transform_chain(ancestors@, j) implies #[trigger] chain@.contains(
                        j as usize,
                    ) by {
                        if j < i {
                            assert(before.contains(j as usize));
                            let k = choose|k: int| 0 <= k < before.len() && before[k] == j as usize;
                            assert(chain@[k] == j as usize);
                        } else if j == i {
                            assert(chain@[chain@.len() - 1] == j as usize);
                        } else {
                            assert(ancestors@[i as int] == AncestorKind::UiTransform);
                        }
                    }
                }
                return chain;
            },
            AncestorKind::SemanticOnly { has_transform } => {
                if has_transform {
                    let ghost before = chain@;
                    chain.push(i);
                    proof {
                        assert forall|j: int|
                            0 <= j < i + 1 && in_transform_chain(ancestors@, j) implies #[trigger] chain@.contains(
                            j as usize,
                        ) by {
                            if j < i {
                                assert(before.contains(j as usize));
                                let k = choose|k: int| 0 <= k < before.len() && before[k] == j as usize;
                                assert(chain@[k] == j as usize);
                            } else {
                                assert(chain@[chain@.len() - 1] == j as usize);
                            }
                        }
                    }
                }
            },
            AncestorKind::Other => {},
        }
        i = i + 1;
    }
    chain
}

} // verus!
