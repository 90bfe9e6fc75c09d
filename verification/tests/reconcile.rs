use vdom_runtime::counter::CounterHandler;
use vdom_runtime::html::{Html, Mailbox};
use vdom_runtime::sync::{get_patches_with_id, Patch};

fn leaf(text: &str) -> Html<CounterHandler> {
    Html::Text { value: text.to_string() }
}

fn el(id: &str, children: Vec<Html<CounterHandler>>) -> Html<CounterHandler> {
    Html::Node {
        tag: "div".to_string(),
        id: id.to_string(),
        attributes: vec![],
        styling: vec![],
        events: vec![],
        mailbox: Mailbox(vec![]),
        children,
    }
}

#[test]
fn sync_identical_trees_is_a_noop() {
    // Syncing a tree against an identical clone of itself performs zero
    // live-surface mutations, for both the text-equal and the
    // element-equal cases.
    let mut old_tree = el("_r", vec![el("_a", vec![leaf("x")]), leaf("y")]);
    let new_tree = el("_r", vec![el("_a", vec![leaf("x")]), leaf("y")]);
    let patches = old_tree.sync(&new_tree, &"_r".to_string());
    assert!(patches.is_empty());
    assert_eq!(old_tree, new_tree);

    let mut old_text = leaf("same");
    let new_text = leaf("same");
    let patches = old_text.sync(&new_text, &"_p".to_string());
    assert!(patches.is_empty());
    assert_eq!(old_text, new_text);
}

#[test]
fn sync_one_changed_text_leaf_gives_one_patch() {
    // Two trees differing only in one text leaf's value: exactly one
    // text-content mutation, addressed to that leaf's parent, and the
    // rest of the surface untouched.
    let mut old_tree = el("_r", vec![el("_a", vec![leaf("x")]), el("_b", vec![leaf("y")])]);
    let new_tree = el("_n", vec![el("_m", vec![leaf("x")]), el("_k", vec![leaf("z")])]);
    let patches = old_tree.sync(&new_tree, &"_r".to_string());
    assert_eq!(
        patches,
        vec![Patch::SetChildText { parent_id: "_b".to_string(), value: "z".to_string() }]
    );
    // The old tree keeps its identities and adopts the new text.
    assert_eq!(old_tree, el("_r", vec![el("_a", vec![leaf("x")]), el("_b", vec![leaf("z")])]));
}

#[test]
fn sync_mismatched_child_counts_is_a_noop() {
    // A 2-child element synced against a 3-child replacement: no child
    // reconciliation happens, and neither side is partially mutated.
    let mut old_tree = el("_r", vec![el("_a", vec![leaf("x")]), el("_b", vec![leaf("y")])]);
    let new_tree = el(
        "_n",
        vec![el("_m", vec![leaf("1")]), el("_k", vec![leaf("2")]), el("_j", vec![leaf("3")])],
    );
    let patches = old_tree.sync(&new_tree, &"_r".to_string());
    assert!(patches.is_empty());
    assert_eq!(old_tree, el("_r", vec![el("_a", vec![leaf("x")]), el("_b", vec![leaf("y")])]));
    assert_eq!(
        new_tree,
        el(
            "_n",
            vec![el("_m", vec![leaf("1")]), el("_k", vec![leaf("2")]), el("_j", vec![leaf("3")])]
        )
    );
}

#[test]
fn sync_shape_mismatch_is_a_noop() {
    let mut old_tree = el("_r", vec![leaf("x")]);
    let new_tree = leaf("x");
    let patches = old_tree.sync(&new_tree, &"_p".to_string());
    assert!(patches.is_empty());
    assert_eq!(old_tree, el("_r", vec![leaf("x")]));
}

#[test]
fn patch_id_reads_the_target() {
    let p: Patch<CounterHandler> =
        Patch::SetChildText { parent_id: "_b".to_string(), value: "z".to_string() };
    assert_eq!(p.id(), Some("_b".to_string()));
    let p2: Patch<CounterHandler> = Patch::SetNode { id: "_a".to_string(), value: leaf("t") };
    assert_eq!(p2.id(), Some("_a".to_string()));
    let p3: Patch<CounterHandler> = Patch::SetChildren { id: "_c".to_string(), value: vec![] };
    assert_eq!(p3.id(), Some("_c".to_string()));
}

#[test]
fn get_patches_with_id_filters_in_order() {
    let patches: Vec<Patch<CounterHandler>> = vec![
        Patch::SetChildText { parent_id: "_a".to_string(), value: "1".to_string() },
        Patch::SetChildText { parent_id: "_b".to_string(), value: "2".to_string() },
        Patch::SetChildText { parent_id: "_a".to_string(), value: "3".to_string() },
    ];
    let found = get_patches_with_id(patches, "_a".to_string());
    assert_eq!(
        found,
        vec![
            Patch::SetChildText { parent_id: "_a".to_string(), value: "1".to_string() },
            Patch::SetChildText { parent_id: "_a".to_string(), value: "3".to_string() },
        ]
    );
}
