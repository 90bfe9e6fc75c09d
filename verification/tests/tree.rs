use vdom_runtime::counter::CounterHandler;
use vdom_runtime::html::{
    Attribute, EventPayload, Html, ListenerReg, Mailbox, Style, TreeError,
};

fn click_payload() -> EventPayload {
    EventPayload { data: String::new() }
}

#[test]
fn new_node_is_empty_element_with_fresh_id() {
    let t: Html<CounterHandler> = Html::new_node("div".to_string());
    match &t {
        Html::Node { tag, id, attributes, styling, events, mailbox, children } => {
            assert_eq!(tag, "div");
            assert!(id.starts_with('_'));
            assert!(id.len() >= 2);
            assert!(attributes.is_empty());
            assert!(styling.is_empty());
            assert!(events.is_empty());
            assert!(mailbox.0.is_empty());
            assert!(children.is_empty());
        },
        Html::Text { .. } => panic!("new_node built a text leaf"),
    }
}

#[test]
fn id_getter() {
    let t: Html<CounterHandler> = Html::new_node("div".to_string());
    assert!(t.id().is_some());
    let leaf: Html<CounterHandler> = Html::Text { value: "x".to_string() };
    assert_eq!(leaf.id(), None);
}

#[test]
fn mutating_a_text_leaf_is_refused() {
    let mut leaf: Html<CounterHandler> = Html::Text { value: "x".to_string() };
    assert_eq!(
        leaf.add_attribute(Attribute::Toggle { key: "hidden".to_string(), value: true }),
        Err(TreeError::TextMutation)
    );
    assert_eq!(
        leaf.add_style(Style::Style { property: "color".to_string(), value: "red".to_string() }),
        Err(TreeError::TextMutation)
    );
    assert_eq!(
        leaf.add_child(Html::Text { value: "y".to_string() }),
        Err(TreeError::TextMutation)
    );
    assert_eq!(
        leaf.add_event_handler("click".to_string(), CounterHandler::EmitIncrement),
        Err(TreeError::TextMutation)
    );
    assert_eq!(leaf, Html::Text { value: "x".to_string() });
}

#[test]
fn add_attribute_appends() {
    let mut t: Html<CounterHandler> = Html::new_node("div".to_string());
    t.add_attribute(Attribute::Pair { key: "class".to_string(), value: "box".to_string() })
        .unwrap();
    t.add_attribute(Attribute::Toggle { key: "hidden".to_string(), value: true }).unwrap();
    match &t {
        Html::Node { attributes, .. } => {
            assert_eq!(attributes.len(), 2);
            assert!(attributes[0].is_pair());
            assert_eq!(attributes[0].key(), "class");
            assert_eq!(attributes[0].value(), Some("box".to_string()));
            assert!(!attributes[1].is_pair());
            assert_eq!(attributes[1].key(), "hidden");
            assert_eq!(attributes[1].value(), None);
        },
        Html::Text { .. } => unreachable!(),
    }
}

#[test]
fn mailbox_is_a_fifo_queue() {
    let mut m = Mailbox::new();
    assert_eq!(m.remove(), None);
    m.insert("click".to_string(), EventPayload { data: "a".to_string() });
    m.insert("keyup".to_string(), EventPayload { data: "b".to_string() });
    assert_eq!(m.unpack().len(), 2);
    let first = m.remove().unwrap();
    assert_eq!(first.0, "click");
    assert_eq!(first.1.data, "a");
    let second = m.remove().unwrap();
    assert_eq!(second.0, "keyup");
    assert_eq!(m.remove(), None);
}

#[test]
fn second_registration_replaces_handler_but_not_listener() {
    // Two handlers for the same (node, event name) pair, registered in
    // sequence: the map keeps only the second, while the platform
    // listener, keyed by event name alone, keeps feeding the same mailbox.
    let mut node: Html<CounterHandler> = Html::new_node("button".to_string());
    let id = node.id().unwrap();
    node.add_event_handler("click".to_string(), CounterHandler::EmitIncrement).unwrap();
    let regs_before: Vec<ListenerReg> = node.attach_event_listeners();
    assert_eq!(regs_before.len(), 1);
    assert_eq!(regs_before[0].event_name, "click");
    assert_eq!(regs_before[0].node_id, id);

    // An event arrives through the originally registered listener.
    assert!(node.insert_event(&id, "click".to_string(), click_payload()));

    // The application swaps the handler on the next render.
    node.add_event_handler("click".to_string(), CounterHandler::EmitDecrement).unwrap();
    match &node {
        Html::Node { events, .. } => assert_eq!(events.len(), 1),
        Html::Text { .. } => unreachable!(),
    }
    let regs_after = node.attach_event_listeners();
    assert_eq!(regs_after, regs_before);

    // The queued event is interpreted by the handler current at dispatch.
    let handler = node.lookup_handler(&"click".to_string()).unwrap();
    assert_eq!(handler.fun, CounterHandler::EmitDecrement);
    let msgs = node.tick();
    assert_eq!(msgs, vec![vdom_runtime::counter::CounterMsg::Decrement]);
}

#[test]
fn lookup_handler_misses_unknown_names() {
    let mut node: Html<CounterHandler> = Html::new_node("button".to_string());
    node.add_event_handler("click".to_string(), CounterHandler::EmitIncrement).unwrap();
    assert!(node.lookup_handler(&"click".to_string()).is_some());
    assert!(node.lookup_handler(&"keyup".to_string()).is_none());
}

#[test]
fn insert_event_reaches_only_the_named_node() {
    let mut child: Html<CounterHandler> = Html::new_node("span".to_string());
    let child_id = child.id().unwrap();
    let mut root: Html<CounterHandler> = Html::new_node("div".to_string());
    root.add_child(child).unwrap();
    assert!(root.insert_event(&child_id, "click".to_string(), click_payload()));
    assert!(!root.insert_event(&"no_such_id".to_string(), "click".to_string(), click_payload()));
    match &root {
        Html::Node { mailbox, children, .. } => {
            assert!(mailbox.0.is_empty());
            match &children[0] {
                Html::Node { mailbox, .. } => assert_eq!(mailbox.0.len(), 1),
                Html::Text { .. } => unreachable!(),
            }
        },
        Html::Text { .. } => unreachable!(),
    }
}

#[test]
fn attach_listeners_children_before_parent() {
    let mut child: Html<CounterHandler> = Html::new_node("button".to_string());
    let child_id = child.id().unwrap();
    child.add_event_handler("click".to_string(), CounterHandler::EmitIncrement).unwrap();
    let mut root: Html<CounterHandler> = Html::new_node("div".to_string());
    let root_id = root.id().unwrap();
    root.add_event_handler("keyup".to_string(), CounterHandler::EmitDecrement).unwrap();
    root.add_child(child).unwrap();
    let regs = root.attach_event_listeners();
    assert_eq!(
        regs,
        vec![
            ListenerReg { node_id: child_id, event_name: "click".to_string() },
            ListenerReg { node_id: root_id, event_name: "keyup".to_string() },
        ]
    );
    assert_eq!(root.delete_event_listeners(), regs);
}
