use vdom_runtime::counter::{init, update, view, Counter, CounterMsg};
use vdom_runtime::html::{EventPayload, Html};
use vdom_runtime::runtime::{Component, Process};
use vdom_runtime::sync::Patch;

fn click() -> EventPayload {
    EventPayload { data: String::new() }
}

fn child_id(tree: &Html<vdom_runtime::counter::CounterHandler>, i: usize) -> String {
    match tree {
        Html::Node { children, .. } => children[i].id().expect("child is an element"),
        Html::Text { .. } => panic!("root is a text leaf"),
    }
}

fn headline_text(tree: &Html<vdom_runtime::counter::CounterHandler>) -> String {
    match tree {
        Html::Node { children, .. } => match &children[0] {
            Html::Node { children, .. } => match &children[0] {
                Html::Text { value } => value.clone(),
                Html::Node { .. } => panic!("headline child is not text"),
            },
            Html::Text { .. } => panic!("headline is not an element"),
        },
        Html::Text { .. } => panic!("root is a text leaf"),
    }
}

#[test]
fn counter_update_steps() {
    let mut c = init();
    assert_eq!(c.value, 0);
    update(&mut c, CounterMsg::Increment);
    update(&mut c, CounterMsg::Increment);
    update(&mut c, CounterMsg::Decrement);
    assert_eq!(c.value, 1);
    let mut top = Counter { value: i32::MAX };
    update(&mut top, CounterMsg::Increment);
    assert_eq!(top.value, i32::MAX);
    let mut bottom = Counter { value: i32::MIN };
    update(&mut bottom, CounterMsg::Decrement);
    assert_eq!(bottom.value, i32::MIN);
}

#[test]
fn counter_view_shape() {
    let t = view(&Counter { value: -12 });
    assert_eq!(headline_text(&t), "-12");
    match &t {
        Html::Node { children, .. } => assert_eq!(children.len(), 3),
        Html::Text { .. } => unreachable!(),
    }
}

#[test]
fn first_mount_serializes_the_initial_view() {
    let (process, mount) = vdom_runtime::runtime::test();
    assert_eq!(process.model_ref().value, 0);
    assert!(mount.markup.starts_with("<div id=\""));
    assert!(mount.markup.contains(">0<"));
    assert!(mount.markup.contains("Increment"));
    assert!(mount.markup.contains("Decrement"));
    // One listener per button, registered children before parent.
    assert_eq!(mount.listeners.len(), 2);
    assert_eq!(mount.listeners[0].event_name, "click");
    assert_eq!(mount.listeners[1].event_name, "click");
    // The stylesheet holds the root, headline (base and hover) and the
    // two buttons' scoped rules.
    assert_eq!(process.style_rules().len(), 5);
    assert!(process.style_rules()[0].contains("display: flex;"));
    assert!(process.style_rules()[2].contains(":hover"));
}

#[test]
fn three_increments_and_a_decrement_leave_two() {
    // A counter with Increment and Decrement: clicking Increment three
    // times and Decrement once yields a model of 2, and the rendered text
    // reads "2" after the corresponding render pass.
    let (mut process, _mount) = vdom_runtime::runtime::test();
    let increment_id = child_id(process.active_tree(), 1);
    let decrement_id = child_id(process.active_tree(), 2);
    let headline_id = child_id(process.active_tree(), 0);

    assert!(process.deliver(&increment_id, "click".to_string(), click()));
    assert!(process.deliver(&increment_id, "click".to_string(), click()));
    assert!(process.deliver(&increment_id, "click".to_string(), click()));
    assert!(process.deliver(&decrement_id, "click".to_string(), click()));

    // Frame one drains one entry per mailbox: one increment, one decrement.
    let patches = process.tick();
    assert_eq!(process.model_ref().value, 0);
    assert!(patches.is_empty());
    assert_eq!(headline_text(process.active_tree()), "0");

    let patches = process.tick();
    assert_eq!(process.model_ref().value, 1);
    assert_eq!(
        patches,
        vec![Patch::SetChildText { parent_id: headline_id.clone(), value: "1".to_string() }]
    );

    let patches = process.tick();
    assert_eq!(process.model_ref().value, 2);
    assert_eq!(
        patches,
        vec![Patch::SetChildText { parent_id: headline_id.clone(), value: "2".to_string() }]
    );
    assert_eq!(headline_text(process.active_tree()), "2");

    // Ids never change across syncs.
    assert_eq!(child_id(process.active_tree(), 0), headline_id);
    assert_eq!(child_id(process.active_tree(), 1), increment_id);
    assert_eq!(child_id(process.active_tree(), 2), decrement_id);
}

#[test]
fn tick_without_events_changes_nothing() {
    let component = Component { model: init() };
    let (mut process, _mount) = Process::new(component);
    let patches = process.tick();
    assert!(patches.is_empty());
    assert_eq!(process.model_ref().value, 0);
}

#[test]
fn deliver_to_unknown_id_is_reported() {
    let (mut process, _mount) = vdom_runtime::runtime::test();
    assert!(!process.deliver(&"nowhere".to_string(), "click".to_string(), click()));
}
