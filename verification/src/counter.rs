use vstd::prelude::*;

use crate::html::{
    attribute_view, lemma_styling_views_index, lemma_tree_contents_index, style_view,
    styling_views, tree_content, tree_contents, Attribute, AttributeView, EventPayload, Handler,
    HandlerFn, Html, Style, StyleView, TreeContent,
};
use crate::runtime::Application;
use crate::text::spec_decimal_i32;

verus! {

///////////////////////////////////////////////////////////////////////////////
// THE COUNTER APPLICATION
///////////////////////////////////////////////////////////////////////////////

#[derive(Debug, PartialEq, Eq, Structural, Clone, Copy)]
pub enum CounterMsg {
    Increment,
    Decrement,
}

#[derive(Debug, PartialEq, Eq, Structural, Clone, Copy)]
pub struct Counter {
    pub value: i32,
}

/// The starting model: a counter at zero.
pub fn init() -> (c: Counter)
    ensures
        c.value == 0,
{
    Counter { value: 0 }
}

/// One update step: Increment raises the value by one and Decrement lowers
/// it by one; at the ends of the machine range the value stays put.
pub open spec fn spec_counter_update(c: Counter, msg: CounterMsg) -> Counter {
    match msg {
        CounterMsg::Increment => {
            if c.value < i32::MAX {
                Counter { value: (c.value + 1) as i32 }
            } else {
                c
            }
        },
        CounterMsg::Decrement => {
            if c.value > i32::MIN {
                Counter { value: (c.value - 1) as i32 }
            } else {
                c
            }
        },
    }
}

pub fn update(counter: &mut Counter, msg: CounterMsg)
    ensures
        *final(counter) == spec_counter_update(*old(counter), msg),
{
    match msg {
        CounterMsg::Increment => {
            if counter.value < i32::MAX {
                *counter = Counter { value: counter.value + 1 };
            }
        },
        CounterMsg::Decrement => {
            if counter.value > i32::MIN {
                *counter = Counter { value: counter.value - 1 };
            }
        },
    }
}

/// The handler values the counter's view registers: each click emits one
/// fixed message, whatever the raw payload holds.
#[derive(Debug, PartialEq, Eq, Structural, Clone, Copy)]
pub enum CounterHandler {
    EmitIncrement,
    EmitDecrement,
}

impl HandlerFn for CounterHandler {
    type Msg = CounterMsg;

    open spec fn spec_eval(&self, payload: EventPayload) -> CounterMsg {
        match self {
            CounterHandler::EmitIncrement => CounterMsg::Increment,
            CounterHandler::EmitDecrement => CounterMsg::Decrement,
        }
    }

    fn eval(&self, payload: &EventPayload) -> (m: CounterMsg) {
        match self {
            CounterHandler::EmitIncrement => CounterMsg::Increment,
            CounterHandler::EmitDecrement => CounterMsg::Decrement,
        }
    }
}

impl Application for Counter {
    type Msg = CounterMsg;

    type H = CounterHandler;

    open spec fn spec_update(self, msg: CounterMsg) -> Counter {
        spec_counter_update(self, msg)
    }

    open spec fn spec_view(self) -> TreeContent<CounterHandler> {
        counter_view_content(self)
    }

    fn update(&mut self, msg: CounterMsg) {
        update(self, msg)
    }

    fn view(&self) -> Html<CounterHandler> {
        view(self)
    }
}

/// One style declaration, read as content.
pub open spec fn decl_view(property: Seq<char>, value: Seq<char>) -> StyleView {
    StyleView::Declaration { property, value }
}

/// The shared styling of the two buttons, read as content.
pub open spec fn button_styling() -> Seq<StyleView> {
    seq![
        decl_view("padding"@, "14px"@),
        decl_view("margin"@, "12px"@),
        decl_view("border_radius"@, "12px"@),
        decl_view("font_weight"@, "bolder"@),
        decl_view("font_size"@, "2em"@),
        decl_view("text_transform"@, "uppercase"@),
        decl_view("outline"@, "none"@),
        decl_view("user_select"@, "none"@),
        decl_view("border"@, "1px solid #676767"@),
        decl_view("background_color"@, "#676767"@),
        decl_view("color"@, "#fff"@),
    ]
}

/// The content of one of the counter's buttons.
pub open spec fn button_content(label: Seq<char>, handler: CounterHandler) -> TreeContent<
    CounterHandler,
> {
    TreeContent::Node {
        tag: "button"@,
        attributes: Seq::empty(),
        styling: button_styling(),
        events: seq![("click"@, handler)],
        mailbox: Seq::empty(),
        children: seq![TreeContent::Text { value: label }],
    }
}

/// The content of the headline that shows the value.
pub open spec fn headline_content(c: Counter) -> TreeContent<CounterHandler> {
    TreeContent::Node {
        tag: "h1"@,
        attributes: Seq::empty(),
        styling: seq![
            StyleView::PseudoClass(
                "hover"@,
                seq![decl_view("font_size"@, "8em"@), decl_view("color"@, "#848484"@)],
            ),
            decl_view("display"@, "flex"@),
            decl_view("justify_content"@, "center"@),
            decl_view("font_family"@, "monospace"@),
            decl_view("font_size"@, "5em"@),
            decl_view("padding"@, "0"@),
            decl_view("margin"@, "0"@),
            decl_view("color"@, "#444"@),
            decl_view("transition_duration"@, "0.5s"@),
            decl_view("transition_timing_function"@, "ease"@),
        ],
        events: Seq::empty(),
        mailbox: Seq::empty(),
        children: seq![TreeContent::Text { value: spec_decimal_i32(c.value as int) }],
    }
}

/// The content of the whole counter view for a model: a column holding the
/// headline and the two buttons.
pub open spec fn counter_view_content(c: Counter) -> TreeContent<CounterHandler> {
    TreeContent::Node {
        tag: "div"@,
        attributes: Seq::empty(),
        styling: seq![
            decl_view("display"@, "flex"@),
            decl_view("flex_direction"@, "column"@),
            decl_view("width"@, "60%"@),
            decl_view("margin"@, "0 auto"@),
        ],
        events: Seq::empty(),
        mailbox: Seq::empty(),
        children: seq![
            headline_content(c),
            button_content("Increment"@, CounterHandler::EmitIncrement),
            button_content("Decrement"@, CounterHandler::EmitDecrement),
        ],
    }
}


fn decl(property: &str, value: &str) -> (s: Style)
    ensures
        s matches Style::Style { property: p, value: v } && p@ == property@ && v@ == value@,
{
    Style::Style { property: String::from_str(property), value: String::from_str(value) }
}

/// Styles one of the two buttons; both share their look.
fn style_button(button: &mut Html<CounterHandler>)
    requires
        (*old(button)) is Node,
    ensures
        (*final(button)) is Node,
        (*final(button))->tag == (*old(button))->tag,
        (*final(button))->id == (*old(button))->id,
        (*final(button))->attributes == (*old(button))->attributes,
        (*final(button))->events == (*old(button))->events,
        (*final(button))->mailbox == (*old(button))->mailbox,
        (*final(button))->children == (*old(button))->children,
        styling_views((*final(button))->styling@) == styling_views((*old(button))->styling@)
            + button_styling(),
{
    button.add_style(decl("padding", "14px")).unwrap();
    button.add_style(decl("margin", "12px")).unwrap();
    button.add_style(decl("border_radius", "12px")).unwrap();
    button.add_style(decl("font_weight", "bolder")).unwrap();
    button.add_style(decl("font_size", "2em")).unwrap();
    button.add_style(decl("text_transform", "uppercase")).unwrap();
    button.add_style(decl("outline", "none")).unwrap();
    button.add_style(decl("user_select", "none")).unwrap();
    button.add_style(decl("border", "1px solid #676767")).unwrap();
    button.add_style(decl("background_color", "#676767")).unwrap();
    button.add_style(decl("color", "#fff")).unwrap();
    proof {
        lemma_styling_views_index((*old(button))->styling@);
        lemma_styling_views_index((*button)->styling@);
        assert(styling_views((*button)->styling@) =~~= styling_views((*old(button))->styling@)
            + button_styling());
    }
}

/// Renders the counter: a column with the value as a headline, above an
/// increment and a decrement button wired to their messages.
pub fn view(counter: &Counter) -> (t: Html<CounterHandler>)
    ensures
        t is Node,
        tree_content(t) == counter_view_content(*counter),
{
    let mut root: Html<CounterHandler> = Html::new_node(String::from_str("div"));
    root.add_style(decl("display", "flex")).unwrap();
    root.add_style(decl("flex_direction", "column")).unwrap();
    root.add_style(decl("width", "60%")).unwrap();
    root.add_style(decl("margin", "0 auto")).unwrap();

    let mut headline: Html<CounterHandler> = Html::new_node(String::from_str("h1"));
    let mut hover_body: Vec<Style> = Vec::new();
    hover_body.push(decl("font_size", "8em"));
    hover_body.push(decl("color", "#848484"));
    let hover_style = Style::PseudoClass(String::from_str("hover"), hover_body);
    let ghost hover_snap = hover_style;
    headline.add_style(hover_style).unwrap();
    headline.add_style(decl("display", "flex")).unwrap();
    headline.add_style(decl("justify_content", "center")).unwrap();
    headline.add_style(decl("font_family", "monospace")).unwrap();
    headline.add_style(decl("font_size", "5em")).unwrap();
    headline.add_style(decl("padding", "0")).unwrap();
    headline.add_style(decl("margin", "0")).unwrap();
    headline.add_style(decl("color", "#444")).unwrap();
    headline.add_style(decl("transition_duration", "0.5s")).unwrap();
    headline.add_style(decl("transition_timing_function", "ease")).unwrap();
    headline.add_child(Html::Text { value: crate::text::i32_string(counter.value) }).unwrap();

    let mut increment: Html<CounterHandler> = Html::new_node(String::from_str("button"));
    style_button(&mut increment);
    increment.add_event_handler(String::from_str("click"), CounterHandler::EmitIncrement).unwrap();
    increment.add_child(Html::Text { value: String::from_str("Increment") }).unwrap();

    let mut decrement: Html<CounterHandler> = Html::new_node(String::from_str("button"));
    style_button(&mut decrement);
    decrement.add_event_handler(String::from_str("click"), CounterHandler::EmitDecrement).unwrap();
    decrement.add_child(Html::Text { value: String::from_str("Decrement") }).unwrap();

    proof {
        reveal(Seq::filter);
        lemma_styling_views_index(headline->styling@);
        lemma_styling_views_index(hover_snap->1@);
        lemma_tree_contents_index(headline->children@);
        assert(styling_views(hover_snap->1@) =~~= seq![
            decl_view("font_size"@, "8em"@),
            decl_view("color"@, "#848484"@),
        ]);
        assert(style_view(hover_snap) =~~= StyleView::PseudoClass(
            "hover"@,
            seq![decl_view("font_size"@, "8em"@), decl_view("color"@, "#848484"@)],
        ));
        assert(headline->attributes@.map_values(|a: Attribute| attribute_view(a))
            =~= Seq::<AttributeView>::empty());
        assert(styling_views(headline->styling@) =~~= headline_content(
            *counter,
        )->Node_styling);
        assert(headline->events@.map_values(
            |e: (String, Handler<CounterHandler>)| (e.0@, e.1.fun),
        ) =~= Seq::<(Seq<char>, CounterHandler)>::empty());
        assert(headline->mailbox.0@.map_values(
            |e: (String, EventPayload)| (e.0@, e.1.data@),
        ) =~= Seq::<(Seq<char>, Seq<char>)>::empty());
        assert(tree_contents(headline->children@) =~~= seq![
            TreeContent::<CounterHandler>::Text { value: spec_decimal_i32(counter.value as int) },
        ]);
        assert(tree_content(headline) =~~= headline_content(*counter));
        lemma_tree_contents_index(increment->children@);
        assert(styling_views(increment->styling@) =~~= button_styling());
        assert(increment->events@.map_values(
            |e: (String, Handler<CounterHandler>)| (e.0@, e.1.fun),
        ) =~~= seq![("click"@, CounterHandler::EmitIncrement)]);
        assert(tree_contents(increment->children@) =~~= seq![
            TreeContent::<CounterHandler>::Text { value: "Increment"@ },
        ]);
        assert(tree_content(increment) =~~= button_content(
            "Increment"@,
            CounterHandler::EmitIncrement,
        ));
        lemma_tree_contents_index(decrement->children@);
        assert(styling_views(decrement->styling@) =~~= button_styling());
        assert(decrement->events@.map_values(
            |e: (String, Handler<CounterHandler>)| (e.0@, e.1.fun),
        ) =~~= seq![("click"@, CounterHandler::EmitDecrement)]);
        assert(tree_contents(decrement->children@) =~~= seq![
            TreeContent::<CounterHandler>::Text { value: "Decrement"@ },
        ]);
        assert(tree_content(decrement) =~~= button_content(
            "Decrement"@,
            CounterHandler::EmitDecrement,
        ));
    }
    let ghost head_snap = headline;
    let ghost inc_snap = increment;
    let ghost dec_snap = decrement;
    root.add_child(headline).unwrap();
    root.add_child(increment).unwrap();
    root.add_child(decrement).unwrap();
    proof {
        lemma_styling_views_index(root->styling@);
        lemma_tree_contents_index(root->children@);
        assert(root->children@ =~= seq![head_snap, inc_snap, dec_snap]);
        assert(tree_contents(root->children@) =~~= seq![
            headline_content(*counter),
            button_content("Increment"@, CounterHandler::EmitIncrement),
            button_content("Decrement"@, CounterHandler::EmitDecrement),
        ]);
        assert(root->attributes@.map_values(|a: Attribute| attribute_view(a))
            =~= Seq::<AttributeView>::empty());
        assert(styling_views(root->styling@) =~~= counter_view_content(*counter)->Node_styling);
        assert(root->events@.map_values(
            |e: (String, Handler<CounterHandler>)| (e.0@, e.1.fun),
        ) =~= Seq::<(Seq<char>, CounterHandler)>::empty());
        assert(root->mailbox.0@.map_values(
            |e: (String, EventPayload)| (e.0@, e.1.data@),
        ) =~= Seq::<(Seq<char>, Seq<char>)>::empty());
        assert(tree_content(root) =~~= counter_view_content(*counter));
    }
    root
}

} // verus!
