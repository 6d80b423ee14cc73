use accesskit::Affine;
use bevy_logic::accessibility::{
    button_update, calc_label, image_update, join_texts, label_update, parent_transform_chain,
    AccessibleLabel, AncestorKind, TextProperty, UiRole,
};

/// An ancestor of an accessible node and the transform it carries.
enum Ancestor {
    Ui(Affine),
    Semantic(Option<Affine>),
    Plain,
}

/// The transform of a node relative to its parent's coordinate space, as the bounds sync
/// composes it from the ancestors (nearest first) and the node's own UI transform.
fn relative_transform(ancestors: &[Ancestor], own: Affine) -> Option<Affine> {
    let kinds: Vec<AncestorKind> = ancestors
        .iter()
        .map(|a| match a {
            Ancestor::Ui(_) => AncestorKind::UiTransform,
            Ancestor::Semantic(t) => AncestorKind::SemanticOnly { has_transform: t.is_some() },
            Ancestor::Plain => AncestorKind::Other,
        })
        .collect();
    let mut parent = Affine::IDENTITY;
    for i in parent_transform_chain(&kinds) {
        let t = match &ancestors[i] {
            Ancestor::Ui(t) => *t,
            Ancestor::Semantic(Some(t)) => *t,
            _ => panic!("ancestor {i} has no transform"),
        };
        parent = t * parent;
    }
    let transform = parent.inverse() * own;
    (transform.is_finite() && transform != Affine::IDENTITY).then_some(transform)
}

#[test]
fn bounds_follow_the_nearest_semantic_parent_across_layout_entities() {
    let parent = Ancestor::Ui(Affine::translate((100., 200.)));
    let tab = Affine::translate((130., 240.));
    assert_eq!(
        relative_transform(&[Ancestor::Plain, parent], tab),
        Some(Affine::translate((30., 40.)))
    );
    // Adding/removing a semantic parent changes the relative transform even
    // when none of the global UI transforms or bounds have changed.
    let parent = || Ancestor::Ui(Affine::translate((100., 200.)));
    assert_eq!(
        relative_transform(&[Ancestor::Ui(Affine::translate((110., 210.))), parent()], tab),
        Some(Affine::translate((20., 30.)))
    );
    assert_eq!(
        relative_transform(&[Ancestor::Plain, parent()], tab),
        Some(Affine::translate((30., 40.)))
    );
    // A semantic-only group inherits the outer UI coordinate space, even
    // though the group has no UI transform of its own.
    assert_eq!(
        relative_transform(&[Ancestor::Semantic(None), parent()], tab),
        Some(Affine::translate((30., 40.)))
    );
    let layout = || Ancestor::Semantic(Some(Affine::translate((10., 20.)) * Affine::scale(2.)));
    assert_eq!(
        relative_transform(&[layout(), parent()], tab),
        Some(Affine::translate((10., 10.)) * Affine::scale(0.5))
    );
    let inner = || Ancestor::Semantic(Some(Affine::translate((4., 6.))));
    assert_eq!(
        relative_transform(&[inner(), layout(), parent()], tab),
        Some(Affine::translate((6., 4.)) * Affine::scale(0.5))
    );
    assert_eq!(
        relative_transform(&[inner(), layout(), Ancestor::Ui(Affine::scale(0.))], tab),
        None
    );
}

#[test]
fn transform_chain_stops_at_nearest_ui_ancestor() {
    let kinds = [
        AncestorKind::SemanticOnly { has_transform: true },
        AncestorKind::Other,
        AncestorKind::SemanticOnly { has_transform: false },
        AncestorKind::SemanticOnly { has_transform: true },
        AncestorKind::UiTransform,
        AncestorKind::SemanticOnly { has_transform: true },
        AncestorKind::UiTransform,
    ];
    assert_eq!(parent_transform_chain(&kinds), vec![0, 3, 4]);
    assert_eq!(parent_transform_chain(&[AncestorKind::Other, AncestorKind::SemanticOnly { has_transform: true }]), vec![1]);
    assert_eq!(parent_transform_chain(&[]), Vec::<usize>::new());
}

fn texts(values: &[&str]) -> Vec<String> {
    values.iter().map(|s| s.to_string()).collect()
}

#[test]
fn label_is_the_last_child_with_text_joined_by_spaces() {
    let children = vec![texts(&["Save"]), texts(&["Save", "all", "files"]), texts(&[])];
    assert_eq!(calc_label(&children), Some("Save all files".to_string()));
    assert_eq!(calc_label(&[texts(&[]), texts(&[])]), None);
    assert_eq!(calc_label(&[]), None);
    assert_eq!(join_texts(&texts(&["a", "", "b"])), "a  b");
    assert_eq!(join_texts(&[]), "");
}

#[test]
fn widget_updates_set_role_and_text() {
    let children = vec![texts(&["Ok"])];
    let update = button_update(&children);
    assert_eq!(update.role, UiRole::Button);
    assert!(matches!(update.text, TextProperty::Label(Some(ref s)) if s == "Ok"));
    let update = image_update(&[]);
    assert_eq!(update.role, UiRole::Image);
    assert!(matches!(update.text, TextProperty::Label(None)));
    let update = label_update(&texts(&["Hello", "world"]));
    assert_eq!(update.role, UiRole::Label);
    assert!(matches!(update.text, TextProperty::Value(ref s) if s == "Hello world"));
    // A label with no text still gets an empty value.
    assert!(matches!(label_update(&[]).text, TextProperty::Value(ref s) if s.is_empty()));
}

#[test]
fn accessible_label_holds_its_text() {
    assert_eq!(AccessibleLabel::new("Play").0, "Play");
    assert_eq!(AccessibleLabel::new(String::from("Quit")).0, "Quit");
}
