use vdom_runtime::counter::{CounterHandler, CounterMsg};
use vdom_runtime::html::{EventPayload, Handler, Html, ListenerRef, Mailbox};

fn ev(data: &str) -> EventPayload {
    EventPayload { data: data.to_string() }
}

fn handler(fun: CounterHandler) -> Handler<CounterHandler> {
    Handler { fun, js_ref: ListenerRef { event_name: "click".to_string() } }
}

fn element(
    id: &str,
    events: Vec<(String, Handler<CounterHandler>)>,
    mail: Vec<(String, EventPayload)>,
    children: Vec<Html<CounterHandler>>,
) -> Html<CounterHandler> {
    Html::Node {
        tag: "div".to_string(),
        id: id.to_string(),
        attributes: vec![],
        styling: vec![],
        events,
        mailbox: Mailbox(mail),
        children,
    }
}

#[test]
fn tick_on_empty_mailboxes_returns_nothing() {
    let child = element("_c", vec![("click".to_string(), handler(CounterHandler::EmitIncrement))], vec![], vec![]);
    let mut root = element("_r", vec![], vec![], vec![child, Html::Text { value: "x".to_string() }]);
    let msgs = root.tick();
    assert!(msgs.is_empty());
}

#[test]
fn tick_drains_children_before_parent() {
    // Depth two, pending entries at both levels: the child's message must
    // come strictly before the parent's.
    let child = element(
        "_c",
        vec![("click".to_string(), handler(CounterHandler::EmitIncrement))],
        vec![("click".to_string(), ev("from child"))],
        vec![],
    );
    let mut root = element(
        "_r",
        vec![("click".to_string(), handler(CounterHandler::EmitDecrement))],
        vec![("click".to_string(), ev("from root"))],
        vec![child],
    );
    let msgs = root.tick();
    assert_eq!(msgs, vec![CounterMsg::Increment, CounterMsg::Decrement]);
}

#[test]
fn tick_drains_at_most_one_entry_per_mailbox() {
    let mut node = element(
        "_n",
        vec![("click".to_string(), handler(CounterHandler::EmitIncrement))],
        vec![
            ("click".to_string(), ev("first")),
            ("click".to_string(), ev("second")),
        ],
        vec![],
    );
    let msgs = node.tick();
    assert_eq!(msgs, vec![CounterMsg::Increment]);
    match &node {
        Html::Node { mailbox, .. } => {
            assert_eq!(mailbox.0.len(), 1);
            assert_eq!(mailbox.0[0].1.data, "second");
        },
        Html::Text { .. } => unreachable!(),
    }
    let msgs2 = node.tick();
    assert_eq!(msgs2, vec![CounterMsg::Increment]);
    assert!(node.tick().is_empty());
}

#[test]
fn tick_drops_entries_without_a_handler() {
    let mut node = element(
        "_n",
        vec![("click".to_string(), handler(CounterHandler::EmitIncrement))],
        vec![("keyup".to_string(), ev("stale"))],
        vec![],
    );
    let msgs = node.tick();
    assert!(msgs.is_empty());
    match &node {
        Html::Node { mailbox, .. } => assert!(mailbox.0.is_empty()),
        Html::Text { .. } => unreachable!(),
    }
}

#[test]
fn handlers_always_compare_interchangeable() {
    // Handlers are transient closures, not comparable data: any two count
    // as equal, whatever functions they carry.
    let a = handler(CounterHandler::EmitIncrement);
    let b = handler(CounterHandler::EmitDecrement);
    assert_eq!(a, b);
    assert_eq!(a, a.clone());
}

#[test]
fn handler_eval_ignores_payload_for_counter() {
    let h = handler(CounterHandler::EmitIncrement);
    assert_eq!(h.eval(&ev("anything")), CounterMsg::Increment);
    assert_eq!(h.eval(&ev("")), CounterMsg::Increment);
}
