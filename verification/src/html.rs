use vstd::prelude::*;

use crate::text::{spec_dashed, spec_join};

verus! {

broadcast use vstd::seq_lib::group_seq_properties;

///////////////////////////////////////////////////////////////////////////////
// HTML ATTRIBUTES
///////////////////////////////////////////////////////////////////////////////

#[derive(Debug, Clone, PartialEq)]
pub enum Attribute {
    Pair { key: String, value: String },
    Toggle { key: String, value: bool },
}

impl Attribute {
    /// The attribute's key, whichever variant it is.
    pub open spec fn spec_key(self) -> Seq<char> {
        match self {
            Attribute::Pair { key, .. } => key@,
            Attribute::Toggle { key, .. } => key@,
        }
    }

    pub fn is_pair(&self) -> (r: bool)
        ensures
            r == (self is Pair),
    {
        match self {
            Attribute::Pair { .. } => true,
            _ => false,
        }
    }

    pub fn key(&self) -> (r: String)
        ensures
            r@ == self.spec_key(),
    {
        match self {
            Attribute::Pair { key, .. } => key.clone(),
            Attribute::Toggle { key, .. } => key.clone(),
        }
    }

    pub fn value(&self) -> (r: Option<String>)
        ensures
            match *self {
                Attribute::Pair { value, .. } => r matches Some(v) && v@ == value@,
                Attribute::Toggle { .. } => r is None,
            },
    {
        match self {
            Attribute::Pair { value, .. } => Some(value.clone()),
            Attribute::Toggle { .. } => None,
        }
    }
}

///////////////////////////////////////////////////////////////////////////////
// CSS STYLING
///////////////////////////////////////////////////////////////////////////////

#[derive(Debug, PartialEq)]
pub enum Style {
    Style { property: String, value: String },
    PseudoClass(String, Vec<Style>),
}

/// The text of one declaration, `property: value;`, with underscores in the
/// property name turned into hyphens; pseudo-class groups render to nothing
/// inside a declaration block.
pub open spec fn spec_render_decl(s: Style) -> Option<Seq<char>> {
    match s {
        Style::Style { property, value } => Some(
            spec_dashed(property@) + seq![':', ' '] + value@ + seq![';'],
        ),
        Style::PseudoClass(_, _) => None,
    }
}

/// The declaration texts of a style list, one per plain declaration, in
/// order; pseudo-class groups contribute nothing.
pub open spec fn spec_decl_texts(styles: Seq<Style>) -> Seq<Seq<char>> {
    styles.filter_map(|s: Style| spec_render_decl(s))
}


/// The text a declaration renders to, and nothing for a pseudo-class
/// group; the total companion of `spec_render_decl`.
pub open spec fn spec_decl_text_of(s: Style) -> Seq<char> {
    match spec_render_decl(s) {
        Some(d) => d,
        None => Seq::empty(),
    }
}

/// A declaration block holds exactly one `property: value;` entry per
/// plain declaration of the style list, in their order, and no text at
/// all for a pseudo-class group.
pub proof fn lemma_decl_block_entries(styles: Seq<Style>)
    ensures
        spec_decl_texts(styles) == styles.filter(|s: Style| s is Style).map_values(
            |s: Style| spec_decl_text_of(s),
        ),
        spec_decl_texts(styles).len() == styles.filter(|s: Style| s is Style).len(),
    decreases styles.len(),
{
    reveal(Seq::filter);
    if styles.len() == 0 {
        assert(spec_decl_texts(styles) =~= styles.filter(|s: Style| s is Style).map_values(
            |s: Style| spec_decl_text_of(s),
        ));
    } else {
        lemma_decl_block_entries(styles.drop_last());
        assert(spec_decl_texts(styles) =~= styles.filter(|s: Style| s is Style).map_values(
            |s: Style| spec_decl_text_of(s),
        ));
    }
}

/// A whole declaration block: `selector {decl; decl; ...}`.
pub open spec fn spec_render_decls(selector: Seq<char>, styles: Seq<Style>) -> Seq<char> {
    selector + seq![' ', '{'] + spec_join(spec_decl_texts(styles), seq![' ']) + seq!['}']
}

/// The selector text for a pseudo-class group scoped to a node:
/// `#nodeId:pseudoName`.
pub open spec fn spec_pseudo_selector_text(node_id: Seq<char>, pseudo_name: Seq<char>) -> Seq<
    char,
> {
    seq!['#'] + node_id + seq![':'] + pseudo_name
}

/// The rendered rule of a pseudo-class group, scoped to a node id; `None`
/// for a plain declaration.
pub open spec fn spec_pseudo_rule(s: Style, node_id: Seq<char>) -> Option<Seq<char>> {
    match s {
        Style::Style { .. } => None,
        Style::PseudoClass(name, body) => Some(
            spec_render_decls(spec_pseudo_selector_text(node_id, name@), body@),
        ),
    }
}

impl Style {
    /// Renders every plain declaration of `styles` into one block headed by
    /// `selector`; pseudo-class groups are ignored here.
    pub fn render_decls(selector: &String, styles: &Vec<Style>) -> (r: String)
        ensures
            r@ == spec_render_decls(selector@, styles@),
    {
        let mut inner: Vec<String> = Vec::new();
        let mut i: usize = 0;
        while i < styles.len()
            invariant
                i <= styles@.len(),
                inner.deep_view() == spec_decl_texts(styles@.subrange(0, i as int)),
            decreases styles@.len() - i,
        {
            match styles[i].render_decl() {
                Some(decl) => {
                    inner.push(decl);
                },
                None => {},
            }
            proof {
                let prefix = styles@.subrange(0, i as int);
                assert(styles@.subrange(0, i + 1).drop_last() =~= prefix);
                assert(styles@.subrange(0, i + 1).last() == styles@[i as int]);
                match spec_render_decl(styles@[i as int]) {
                    Some(d) => {
                        assert(inner.deep_view() =~= prefix.filter_map(
                            |s: Style| spec_render_decl(s),
                        ) + seq![d]);
                    },
                    None => {},
                }
            }
            i = i + 1;
        }
        proof {
            assert(styles@.subrange(0, styles@.len() as int) =~= styles@);
            reveal_strlit(" {");
            reveal_strlit(" ");
            reveal_strlit("}");
            assert(" {"@ =~= seq![' ', '{']);
            assert(" "@ =~= seq![' ']);
            assert("}"@ =~= seq!['}']);
        }
        let mut r = selector.clone();
        r.append(" {");
        let body = crate::text::join_strings(&inner, " ");
        r.append(body.as_str());
        r.append("}");
        proof {
            assert(r@ =~= spec_render_decls(selector@, styles@));
        }
        r
    }

    /// Renders a plain declaration as `property: value;`; a pseudo-class
    /// group renders to `None`.
    pub fn render_decl(&self) -> (r: Option<String>)
        ensures
            match spec_render_decl(*self) {
                Some(d) => r matches Some(s) && s@ == d,
                None => r is None,
            },
    {
        match self {
            Style::Style { property, value } => {
                proof {
                    reveal_strlit(": ");
                    reveal_strlit(";");
                }
                let mut s = crate::text::dash_underscores(property.as_str());
                s.append(": ");
                s.append(value.as_str());
                s.append(";");
                proof {
                    assert(s@ =~= spec_dashed(property@) + seq![':', ' '] + value@ + seq![';']);
                }
                Some(s)
            },
            Style::PseudoClass(_, _) => None,
        }
    }

    /// Renders a pseudo-class group as a rule scoped under `#nodeId:pseudo`;
    /// a plain declaration renders to `None`.
    pub fn render_pseudo_selector(&self, node_id: &String) -> (r: Option<String>)
        ensures
            match spec_pseudo_rule(*self, node_id@) {
                Some(rule) => r matches Some(s) && s@ == rule,
                None => r is None,
            },
    {
        match self {
            Style::Style { .. } => None,
            Style::PseudoClass(pseudo_name, body) => {
                proof {
                    reveal_strlit("#");
                    reveal_strlit(":");
                }
                let mut selector = String::from_str("#");
                selector.append(node_id.as_str());
                selector.append(":");
                selector.append(pseudo_name.as_str());
                proof {
                    assert(selector@ =~= spec_pseudo_selector_text(node_id@, pseudo_name@));
                }
                Some(Style::render_decls(&selector, body))
            },
        }
    }
}

///////////////////////////////////////////////////////////////////////////////
// EVENTS
///////////////////////////////////////////////////////////////////////////////

/// The raw payload a platform event delivers; the runtime never looks
/// inside, it only hands it to the application's handler.
#[derive(Debug, PartialEq)]
pub struct EventPayload {
    pub data: String,
}

impl Clone for EventPayload {
    fn clone(&self) -> (r: Self)
        ensures
            r == *self,
    {
        EventPayload { data: self.data.clone() }
    }
}

/// An application-side event handler: a value that turns a raw event
/// payload into an application message.  `spec_eval` is the mathematical
/// meaning an implementation commits to.
pub trait HandlerFn: Sized {
    type Msg;

    spec fn spec_eval(&self, payload: EventPayload) -> Self::Msg;

    fn eval(&self, payload: &EventPayload) -> (m: Self::Msg)
        ensures
            m == self.spec_eval(*payload),
    ;
}

/// The identity of the platform-level callback registered for a node's
/// event; it is keyed by event name alone, never by the handler that
/// happens to be current.
#[derive(Debug, Clone, PartialEq)]
pub struct ListenerRef {
    pub event_name: String,
}

/// Pairs the application's handler function with the stable reference to
/// the platform callback registered when the event was first attached.
#[derive(Debug, Clone)]
pub struct Handler<EH> {
    pub fun: EH,
    pub js_ref: ListenerRef,
}

/// Handlers are transient closures, not comparable data: any two compare
/// as interchangeable.
impl<EH> PartialEq for Handler<EH> {
    fn eq(&self, other: &Handler<EH>) -> bool {
        true
    }
}

impl<EH> vstd::std_specs::cmp::PartialEqSpecImpl for Handler<EH> {
    open spec fn obeys_eq_spec() -> bool {
        true
    }

    open spec fn eq_spec(&self, other: &Handler<EH>) -> bool {
        true
    }
}

impl<EH: HandlerFn> Handler<EH> {
    pub fn eval(&self, arg: &EventPayload) -> (m: EH::Msg)
        ensures
            m == self.fun.spec_eval(*arg),
    {
        self.fun.eval(arg)
    }
}

///////////////////////////////////////////////////////////////////////////////
// MAILBOX
///////////////////////////////////////////////////////////////////////////////

/// A node's queue of pending `(event name, payload)` entries, appended by
/// the platform listener and drained from the front, one entry per tick.
#[derive(Debug, Clone, PartialEq)]
pub struct Mailbox(pub Vec<(String, EventPayload)>);

impl Mailbox {
    /// The queued entries, front of the queue first.
    pub fn unpack(&self) -> (r: &Vec<(String, EventPayload)>)
        ensures
            r@ == self.0@,
    {
        &self.0
    }

    pub fn new() -> (r: Self)
        ensures
            r.0@ == Seq::<(String, EventPayload)>::empty(),
    {
        Mailbox(Vec::new())
    }

    /// Appends an entry at the back of the queue.
    pub fn insert(&mut self, event_name: String, value: EventPayload)
        ensures
            final(self).0@ == old(self).0@.push((event_name, value)),
    {
        self.0.push((event_name, value));
    }

    /// Pops the front entry, if any.
    pub fn remove(&mut self) -> (r: Option<(String, EventPayload)>)
        ensures
            old(self).0@.len() == 0 ==> r is None && final(self).0@ == old(self).0@,
            old(self).0@.len() > 0 ==> (r matches Some(e) && e == old(self).0@[0]
                && final(self).0@ == old(self).0@.drop_first()),
    {
        if self.0.is_empty() {
            None
        } else {
            let e = self.0.remove(0);
            proof {
                assert(old(self).0@.subrange(1, old(self).0@.len() as int)
                    =~= old(self).0@.drop_first());
            }
            Some(e)
        }
    }
}

///////////////////////////////////////////////////////////////////////////////
// VIRTUAL-DOM NODE
///////////////////////////////////////////////////////////////////////////////

/// Mutating a text leaf as if it were an element is a tree-construction
/// bug; the mutators report it as a typed error.
#[derive(Debug, Clone, Copy, PartialEq, Eq, Structural)]
pub enum TreeError {
    TextMutation,
}

/// One revision of the virtual document tree: an element carrying its
/// identity, attributes, styles, handlers, mailbox and children, or a bare
/// text leaf.
#[derive(Debug, PartialEq)]
pub enum Html<EH> {
    Node {
        tag: String,
        id: String,
        attributes: Vec<Attribute>,
        styling: Vec<Style>,
        events: Vec<(String, Handler<EH>)>,
        mailbox: Mailbox,
        children: Vec<Html<EH>>,
    },
    Text { value: String },
}

/// The height of a tree: text leaves count zero, an element counts one
/// more than its tallest child.  Recursions over trees measure this.
pub open spec fn depth<EH>(t: Html<EH>) -> nat
    decreases t,
{
    match t {
        Html::Text { .. } => 0,
        Html::Node { children, .. } => 1 + depth_seq(children@),
    }
}

/// The largest height among the trees of `s`; zero when `s` is empty.
pub open spec fn depth_seq<EH>(s: Seq<Html<EH>>) -> nat
    decreases s,
{
    if s.len() == 0 {
        0
    } else {
        let d0 = depth(s[0]);
        let dr = depth_seq(s.drop_first());
        if d0 > dr {
            d0
        } else {
            dr
        }
    }
}

pub proof fn lemma_depth_elem<EH>(s: Seq<Html<EH>>, i: int)
    requires
        0 <= i < s.len(),
    ensures
        depth(s[i]) <= depth_seq(s),
    decreases s.len(),
{
    if i > 0 {
        lemma_depth_elem(s.drop_first(), i - 1);
    }
}

/// The ids of every element of the tree, in preorder.
pub open spec fn node_ids<EH>(t: Html<EH>) -> Seq<Seq<char>>
    decreases t,
{
    match t {
        Html::Text { .. } => Seq::empty(),
        Html::Node { id, children, .. } => seq![id@] + node_ids_seq(children@),
    }
}

pub open spec fn node_ids_seq<EH>(s: Seq<Html<EH>>) -> Seq<Seq<char>>
    decreases s,
{
    if s.len() == 0 {
        Seq::empty()
    } else {
        node_ids_seq(s.drop_last()) + node_ids(s.last())
    }
}

/// Every element id occurs once in the tree.
pub open spec fn ids_unique<EH>(t: Html<EH>) -> bool {
    node_ids(t).no_duplicates()
}

/// The handler registered under `name`, scanning the entries in order.
pub open spec fn spec_lookup<EH>(
    events: Seq<(String, Handler<EH>)>,
    name: Seq<char>,
) -> Option<Handler<EH>>
    decreases events.len(),
{
    if events.len() == 0 {
        None
    } else if events[0].0@ == name {
        Some(events[0].1)
    } else {
        spec_lookup(events.drop_first(), name)
    }
}

/// The handler registered under `name` in the tree's own handler map;
/// `None` on a text leaf.
pub open spec fn spec_node_lookup<EH>(t: Html<EH>, name: Seq<char>) -> Option<Handler<EH>> {
    match t {
        Html::Node { events, .. } => spec_lookup(events@, name),
        Html::Text { .. } => None,
    }
}

/// No two handler entries share an event name: the handler list is a map.
/// A fresh node starts empty and replacement-style registration keeps it
/// so.
pub open spec fn events_unique<EH>(events: Seq<(String, Handler<EH>)>) -> bool {
    forall|i: int, j: int| 0 <= i < j < events.len() ==> events[i].0@ != events[j].0@
}

proof fn lemma_filter_keeps_events_unique<EH>(
    s: Seq<(String, Handler<EH>)>,
    pred: spec_fn((String, Handler<EH>)) -> bool,
)
    requires
        events_unique(s),
    ensures
        events_unique(s.filter(pred)),
    decreases s.len(),
{
    reveal(Seq::filter);
    if s.len() > 0 {
        assert(events_unique(s.drop_last()));
        lemma_filter_keeps_events_unique(s.drop_last(), pred);
        let f = s.drop_last().filter(pred);
        if pred(s.last()) {
            assert forall|i: int| 0 <= i < f.len() implies f[i].0@ != s.last().0@ by {
                assert(f.contains(f[i]));
                s.drop_last().lemma_filter_contains_rev(pred, f[i]);
                let k = choose|k: int|
                    0 <= k < s.drop_last().len() && s.drop_last()[k] == f[i];
                assert(s[k] == f[i]);
                assert(s[k].0@ != s[s.len() - 1].0@);
            }
            assert(events_unique(f.push(s.last())));
        }
    }
}

/// Two trees are both elements and agree on everything but their child
/// lists.
pub open spec fn same_node_except_children<EH>(a: Html<EH>, b: Html<EH>) -> bool {
    &&& a is Node
    &&& b is Node
    &&& a->tag == b->tag
    &&& a->id == b->id
    &&& a->attributes == b->attributes
    &&& a->styling == b->styling
    &&& a->events == b->events
    &&& a->mailbox == b->mailbox
}

/// Relies on rand::random::<u16>: draws the number a fresh node's id is
/// built from; nothing is assumed about the value drawn.
#[verifier::external_body]
fn random_u16() -> u16 {
    rand::random::<u16>()
}

impl<EH> Html<EH> {
    /// A fresh element with the given tag, a newly drawn id and everything
    /// else empty.
    pub fn new_node(tag: String) -> (t: Html<EH>)
        ensures
            t is Node,
            t->tag == tag,
            t->id@.len() >= 2 && t->id@[0] == '_',
            t->attributes@ == Seq::<Attribute>::empty(),
            t->styling@ == Seq::<Style>::empty(),
            t->events@ == Seq::<(String, Handler<EH>)>::empty(),
            events_unique(t->events@),
            t->mailbox.0@ == Seq::<(String, EventPayload)>::empty(),
            t->children@ == Seq::<Html<EH>>::empty(),
    {
        let n = random_u16();
        let mut id = String::from_str("_");
        let digits = crate::text::u32_string(n as u32);
        id.append(digits.as_str());
        proof {
            reveal_strlit("_");
            assert(id@[0] == '_');
        }
        Html::Node {
            tag,
            id,
            attributes: Vec::new(),
            styling: Vec::new(),
            events: Vec::new(),
            mailbox: Mailbox::new(),
            children: Vec::new(),
        }
    }

    /// An element's id; a text leaf has none.
    pub fn id(&self) -> (r: Option<String>)
        ensures
            match *self {
                Html::Node { .. } => r matches Some(s) && s@ == self->id@,
                Html::Text { .. } => r is None,
            },
    {
        match self {
            Html::Node { id, .. } => Some(id.clone()),
            Html::Text { .. } => None,
        }
    }

    /// Appends an attribute; appending to a text leaf is refused.
    pub fn add_attribute(&mut self, attribute: Attribute) -> (r: Result<(), TreeError>)
        ensures
            (*old(self)) is Node ==> (r is Ok && (*final(self)) is Node
                && (*final(self))->attributes@ == (*old(self))->attributes@.push(attribute)
                && same_node_except_attributes(*old(self), *final(self))),
            (*old(self)) is Text ==> r == Result::<(), TreeError>::Err(TreeError::TextMutation)
                && *final(self) == *old(self),
    {
        let mut taken = Html::Text { value: String::new() };
        core::mem::swap(self, &mut taken);
        match taken {
            Html::Node { tag, id, mut attributes, styling, events, mailbox, children } => {
                attributes.push(attribute);
                *self = Html::Node { tag, id, attributes, styling, events, mailbox, children };
                Ok(())
            },
            Html::Text { value } => {
                *self = Html::Text { value };
                Err(TreeError::TextMutation)
            },
        }
    }

    /// Appends a style; styling a text leaf is refused.
    pub fn add_style(&mut self, style: Style) -> (r: Result<(), TreeError>)
        ensures
            (*old(self)) is Node ==> (r is Ok && (*final(self)) is Node
                && (*final(self))->styling@ == (*old(self))->styling@.push(style)
                && same_node_except_styling(*old(self), *final(self))),
            (*old(self)) is Text ==> r == Result::<(), TreeError>::Err(TreeError::TextMutation)
                && *final(self) == *old(self),
    {
        let mut taken = Html::Text { value: String::new() };
        core::mem::swap(self, &mut taken);
        match taken {
            Html::Node { tag, id, attributes, mut styling, events, mailbox, children } => {
                styling.push(style);
                *self = Html::Node { tag, id, attributes, styling, events, mailbox, children };
                Ok(())
            },
            Html::Text { value } => {
                *self = Html::Text { value };
                Err(TreeError::TextMutation)
            },
        }
    }

    /// Appends a child; a text leaf takes no children.
    pub fn add_child(&mut self, child: Html<EH>) -> (r: Result<(), TreeError>)
        ensures
            (*old(self)) is Node ==> (r is Ok && (*final(self)) is Node
                && (*final(self))->children@ == (*old(self))->children@.push(child)
                && same_node_except_children(*old(self), *final(self))),
            (*old(self)) is Text ==> r == Result::<(), TreeError>::Err(TreeError::TextMutation)
                && *final(self) == *old(self),
    {
        let mut taken = Html::Text { value: String::new() };
        core::mem::swap(self, &mut taken);
        match taken {
            Html::Node { tag, id, attributes, styling, events, mailbox, mut children } => {
                children.push(child);
                *self = Html::Node { tag, id, attributes, styling, events, mailbox, children };
                Ok(())
            },
            Html::Text { value } => {
                *self = Html::Text { value };
                Err(TreeError::TextMutation)
            },
        }
    }

    /// Registers `fun` for `event_name`, replacing any handler already
    /// registered under that name; the platform listener reference stays
    /// keyed by the event name alone.  Registering on a text leaf is
    /// refused.
    #[verifier::loop_isolation(false)]
    #[verifier::rlimit(30)]
    pub fn add_event_handler(&mut self, event_name: String, fun: EH) -> (r: Result<
        (),
        TreeError,
    >)
        ensures
            (*old(self)) is Node ==> (r is Ok && (*final(self)) is Node
                && (*final(self))->events@ == (*old(self))->events@.filter(
                |e: (String, Handler<EH>)| e.0@ != event_name@,
            ).push((event_name, Handler { fun, js_ref: ListenerRef { event_name } }))
                && same_node_except_events(*old(self), *final(self))
                && (events_unique((*old(self))->events@) ==> events_unique(
                (*final(self))->events@,
            ))),
            (*old(self)) is Text ==> r == Result::<(), TreeError>::Err(TreeError::TextMutation)
                && *final(self) == *old(self),
    {
        let mut taken = Html::Text { value: String::new() };
        core::mem::swap(self, &mut taken);
        match taken {
            Html::Node { tag, id, attributes, styling, events: drained, mailbox, children } => {
                let ghost pred = |e: (String, Handler<EH>)| e.0@ != event_name@;
                let mut drained = drained;
                let mut events: Vec<(String, Handler<EH>)> = Vec::new();
                let ghost orig = drained@;
                let ghost mut done: int = 0;
                proof {
                    reveal(Seq::filter);
                    assert(orig.subrange(0, 0).filter(pred) =~= Seq::<(
                        String,
                        Handler<EH>,
                    )>::empty());
                }
                while drained.len() > 0
                    invariant
                        0 <= done <= orig.len(),
                        drained@ == orig.subrange(done, orig.len() as int),
                        events@ == orig.subrange(0, done).filter(pred),
                    decreases drained@.len(),
                {
                    let e = drained.remove(0);
                    proof {
                        assert(e == orig[done]);
                        assert(drained@ =~= orig.subrange(done + 1, orig.len() as int));
                    }
                    let keep = !crate::text::string_eq_string(&e.0, &event_name);
                    if keep {
                        events.push(e);
                    }
                    proof {
                        reveal(Seq::filter);
                        assert(0 <= done && done < orig.len());
                        let s1 = orig.subrange(0, done + 1);
                        assert(s1.len() == done + 1);
                        assert(s1.drop_last() =~= orig.subrange(0, done));
                        assert(s1.last() == orig[done]);
                        if pred(orig[done]) {
                            assert(s1.filter(pred) == orig.subrange(0, done).filter(pred).push(
                                orig[done],
                            ));
                        } else {
                            assert(s1.filter(pred) == orig.subrange(0, done).filter(pred));
                        }
                        assert(keep == pred(orig[done]));
                        assert(events@ == if keep {
                            orig.subrange(0, done).filter(pred).push(orig[done])
                        } else {
                            orig.subrange(0, done).filter(pred)
                        });
                        assert(events@ == s1.filter(pred));
                        done = done + 1;
                    }
                }
                proof {
                    assert(orig.subrange(0, orig.len() as int) =~= orig);
                }
                let js_ref = ListenerRef { event_name: event_name.clone() };
                events.push((event_name, Handler { fun, js_ref }));
                proof {
                    if events_unique(orig) {
                        lemma_filter_keeps_events_unique(orig, pred);
                        let f = orig.filter(pred);
                        assert forall|i: int| 0 <= i < f.len() implies f[i].0@
                            != event_name@ by {
                            orig.lemma_filter_pred(pred, i);
                        }
                        assert(events_unique(events@));
                    }
                }
                *self = Html::Node { tag, id, attributes, styling, events, mailbox, children };
                Ok(())
            },
            Html::Text { value } => {
                *self = Html::Text { value };
                Err(TreeError::TextMutation)
            },
        }
    }

    /// The handler currently registered under `key`, if any; text leaves
    /// hold no handlers.
    pub fn lookup_handler(&self, key: &String) -> (r: Option<&Handler<EH>>)
        ensures
            match spec_node_lookup(*self, key@) {
                Some(h) => r matches Some(rr) && *rr == h,
                None => r is None,
            },
    {
        match self {
            Html::Node { events, .. } => lookup_in(events, key),
            Html::Text { .. } => None,
        }
    }
}

/// Scans a handler list for the first entry registered under `key`.
#[verifier::loop_isolation(false)]
fn lookup_in<'a, EH>(events: &'a Vec<(String, Handler<EH>)>, key: &String) -> (r: Option<
    &'a Handler<EH>,
>)
    ensures
        match spec_lookup(events@, key@) {
            Some(h) => r matches Some(rr) && *rr == h,
            None => r is None,
        },
{
    proof {
        assert(events@.subrange(0, events@.len() as int) =~= events@);
    }
    let mut i: usize = 0;
    while i < events.len()
        invariant
            i <= events@.len(),
            spec_lookup(events@, key@) == spec_lookup(
                events@.subrange(i as int, events@.len() as int),
                key@,
            ),
            forall|j: int| 0 <= j < i ==> events@[j].0.view() != key@,
        decreases events@.len() - i,
    {
        proof {
            assert(events@.subrange(i as int, events@.len() as int)[0] == events@[i as int]);
        }
        if crate::text::string_eq_string(&events[i].0, key) {
            proof {
                let suf = events@.subrange(i as int, events@.len() as int);
                assert(suf[0] == events@[i as int]);
                assert(spec_lookup(suf, key@) == Some(suf[0].1));
            }
            return Some(&events[i].1);
        }
        proof {
            assert(events@.subrange(i as int, events@.len() as int).drop_first()
                =~= events@.subrange(i + 1, events@.len() as int));
        }
        i = i + 1;
    }
    None
}

/// Two trees are both elements and agree on everything but their
/// attribute lists.
pub open spec fn same_node_except_attributes<EH>(a: Html<EH>, b: Html<EH>) -> bool {
    &&& a is Node
    &&& b is Node
    &&& a->tag == b->tag
    &&& a->id == b->id
    &&& a->styling == b->styling
    &&& a->events == b->events
    &&& a->mailbox == b->mailbox
    &&& a->children == b->children
}

/// Two trees are both elements and agree on everything but their style
/// lists.
pub open spec fn same_node_except_styling<EH>(a: Html<EH>, b: Html<EH>) -> bool {
    &&& a is Node
    &&& b is Node
    &&& a->tag == b->tag
    &&& a->id == b->id
    &&& a->attributes == b->attributes
    &&& a->events == b->events
    &&& a->mailbox == b->mailbox
    &&& a->children == b->children
}

/// Two trees are both elements and agree on everything but their handler
/// maps.
pub open spec fn same_node_except_events<EH>(a: Html<EH>, b: Html<EH>) -> bool {
    &&& a is Node
    &&& b is Node
    &&& a->tag == b->tag
    &&& a->id == b->id
    &&& a->attributes == b->attributes
    &&& a->styling == b->styling
    &&& a->mailbox == b->mailbox
    &&& a->children == b->children
}


///////////////////////////////////////////////////////////////////////////////
// TREE CONTENT
///////////////////////////////////////////////////////////////////////////////

/// An attribute, read as characters.
#[verifier::ext_equal]
pub enum AttributeView {
    Pair { key: Seq<char>, value: Seq<char> },
    Toggle { key: Seq<char>, value: bool },
}

/// A style, read as characters; a pseudo-class group keeps its body.
#[verifier::ext_equal]
pub enum StyleView {
    Declaration { property: Seq<char>, value: Seq<char> },
    PseudoClass(Seq<char>, Seq<StyleView>),
}

/// Everything a view function determines about the tree it builds, with
/// every machine string read as its characters.  Node ids are drawn at
/// random at construction time and are no function of the model, so the
/// content leaves them out.
#[verifier::ext_equal]
pub enum TreeContent<EH> {
    Node {
        tag: Seq<char>,
        attributes: Seq<AttributeView>,
        styling: Seq<StyleView>,
        events: Seq<(Seq<char>, EH)>,
        mailbox: Seq<(Seq<char>, Seq<char>)>,
        children: Seq<TreeContent<EH>>,
    },
    Text { value: Seq<char> },
}

pub open spec fn attribute_view(a: Attribute) -> AttributeView {
    match a {
        Attribute::Pair { key, value } => AttributeView::Pair { key: key@, value: value@ },
        Attribute::Toggle { key, value } => AttributeView::Toggle { key: key@, value },
    }
}

pub open spec fn style_view(s: Style) -> StyleView
    decreases s, 1int,
{
    match s {
        Style::Style { property, value } => StyleView::Declaration {
            property: property@,
            value: value@,
        },
        Style::PseudoClass(name, body) => StyleView::PseudoClass(name@, styling_views(body@)),
    }
}

/// The styles of a list, read as `StyleView`s, in order.
pub open spec fn styling_views(s: Seq<Style>) -> Seq<StyleView>
    decreases s, 0int,
{
    if s.len() == 0 {
        Seq::empty()
    } else {
        styling_views(s.drop_last()).push(style_view(s.last()))
    }
}

pub proof fn lemma_styling_views_index(s: Seq<Style>)
    ensures
        styling_views(s).len() == s.len(),
        forall|i: int| 0 <= i < s.len() ==> #[trigger] styling_views(s)[i] == style_view(s[i]),
    decreases s,
{
    if s.len() > 0 {
        lemma_styling_views_index(s.drop_last());
    }
}

/// The content of a tree: its text, structure, attributes, styles,
/// handlers and mailboxes, without the randomly drawn ids.
pub open spec fn tree_content<EH>(t: Html<EH>) -> TreeContent<EH>
    decreases t, 1int,
{
    match t {
        Html::Text { value } => TreeContent::Text { value: value@ },
        Html::Node { tag, attributes, styling, events, mailbox, children, .. } => {
            TreeContent::Node {
                tag: tag@,
                attributes: attributes@.map_values(|a: Attribute| attribute_view(a)),
                styling: styling_views(styling@),
                events: events@.map_values(|e: (String, Handler<EH>)| (e.0@, e.1.fun)),
                mailbox: mailbox.0@.map_values(|e: (String, EventPayload)| (e.0@, e.1.data@)),
                children: tree_contents(children@),
            }
        },
    }
}

/// The contents of a child list, in order.
pub open spec fn tree_contents<EH>(s: Seq<Html<EH>>) -> Seq<TreeContent<EH>>
    decreases s, 0int,
{
    if s.len() == 0 {
        Seq::empty()
    } else {
        tree_contents(s.drop_last()).push(tree_content(s.last()))
    }
}

pub proof fn lemma_tree_contents_index<EH>(s: Seq<Html<EH>>)
    ensures
        tree_contents(s).len() == s.len(),
        forall|i: int| 0 <= i < s.len() ==> #[trigger] tree_contents(s)[i] == tree_content(s[i]),
    decreases s,
{
    if s.len() > 0 {
        lemma_tree_contents_index(s.drop_last());
    }
}

///////////////////////////////////////////////////////////////////////////////
// EVENT DISPATCH (TICK)
///////////////////////////////////////////////////////////////////////////////

/// A mailbox's entries after one tick visited it: the front entry is gone,
/// an empty queue stays empty.
pub open spec fn drained_mailbox(m: Seq<(String, EventPayload)>) -> Seq<(String, EventPayload)> {
    if m.len() > 0 {
        m.drop_first()
    } else {
        m
    }
}

/// The message this element itself dispatches in one tick: the handler
/// currently registered under the front mailbox entry's event name, applied
/// to its payload; nothing when the mailbox is empty or no handler is
/// registered under that name.
pub open spec fn own_msgs<EH: HandlerFn>(t: Html<EH>) -> Seq<EH::Msg> {
    match t {
        Html::Text { .. } => Seq::empty(),
        Html::Node { events, mailbox, .. } => {
            if mailbox.0@.len() > 0 {
                let entry = mailbox.0@[0];
                match spec_lookup(events@, entry.0@) {
                    Some(h) => seq![h.fun.spec_eval(entry.1)],
                    None => Seq::empty(),
                }
            } else {
                Seq::empty()
            }
        },
    }
}

/// The messages one tick of the tree produces: each subtree's messages,
/// children before their parent, left to right.
pub open spec fn tick_msgs<EH: HandlerFn>(t: Html<EH>) -> Seq<EH::Msg>
    decreases t,
{
    match t {
        Html::Text { .. } => Seq::empty(),
        Html::Node { children, .. } => tick_msgs_seq(children@) + own_msgs(t),
    }
}

pub open spec fn tick_msgs_seq<EH: HandlerFn>(s: Seq<Html<EH>>) -> Seq<EH::Msg>
    decreases s,
{
    if s.len() == 0 {
        Seq::empty()
    } else {
        tick_msgs_seq(s.drop_last()) + tick_msgs(s.last())
    }
}

/// How one tick rewrites the tree: every mailbox loses its front entry and
/// everything else is untouched.
pub open spec fn tick_rel<EH>(t: Html<EH>, r: Html<EH>) -> bool
    decreases t,
{
    match t {
        Html::Text { .. } => r == t,
        Html::Node { .. } => {
            &&& r is Node
            &&& r->tag == t->tag
            &&& r->id == t->id
            &&& r->attributes == t->attributes
            &&& r->styling == t->styling
            &&& r->events == t->events
            &&& r->mailbox.0@ == drained_mailbox(t->mailbox.0@)
            &&& tick_rel_seq(t->children@, r->children@)
        },
    }
}

pub open spec fn tick_rel_seq<EH>(o: Seq<Html<EH>>, r: Seq<Html<EH>>) -> bool
    decreases o,
{
    &&& r.len() == o.len()
    &&& if o.len() == 0 {
        true
    } else {
        tick_rel_seq(o.drop_last(), r.drop_last()) && tick_rel(o.last(), r.last())
    }
}

/// No node of the tree has a pending mailbox entry.
pub open spec fn all_mailboxes_empty<EH>(t: Html<EH>) -> bool
    decreases t,
{
    match t {
        Html::Text { .. } => true,
        Html::Node { mailbox, children, .. } => mailbox.0@.len() == 0 && all_mailboxes_empty_seq(
            children@,
        ),
    }
}

pub open spec fn all_mailboxes_empty_seq<EH>(s: Seq<Html<EH>>) -> bool
    decreases s,
{
    if s.len() == 0 {
        true
    } else {
        all_mailboxes_empty_seq(s.drop_last()) && all_mailboxes_empty(s.last())
    }
}

/// A tick of a tree whose mailboxes are all empty dispatches no message.
pub proof fn lemma_tick_empty_mailboxes<EH: HandlerFn>(t: Html<EH>)
    requires
        all_mailboxes_empty(t),
    ensures
        tick_msgs(t) == Seq::<EH::Msg>::empty(),
    decreases t,
{
    match t {
        Html::Text { .. } => {},
        Html::Node { children, .. } => {
            lemma_tick_empty_mailboxes_seq(children@);
            assert(tick_msgs(t) =~= Seq::<EH::Msg>::empty());
        },
    }
}

pub proof fn lemma_tick_empty_mailboxes_seq<EH: HandlerFn>(s: Seq<Html<EH>>)
    requires
        all_mailboxes_empty_seq(s),
    ensures
        tick_msgs_seq(s) == Seq::<EH::Msg>::empty(),
    decreases s,
{
    if s.len() > 0 {
        lemma_tick_empty_mailboxes_seq(s.drop_last());
        lemma_tick_empty_mailboxes(s.last());
        assert(tick_msgs_seq(s) =~= Seq::<EH::Msg>::empty());
    }
}

/// A tick drains children strictly before their parent: the messages of an
/// element's tick are exactly the children's messages, in child order,
/// followed by whatever the element itself dispatches.
pub proof fn lemma_tick_children_first<EH: HandlerFn>(t: Html<EH>)
    requires
        t is Node,
    ensures
        tick_msgs(t) == tick_msgs_seq(t->children@) + own_msgs(t),
{
}

/// A tick never changes an id: the drained tree carries exactly the ids of
/// the old tree, in the same positions.
pub proof fn lemma_tick_preserves_ids<EH>(t: Html<EH>, r: Html<EH>)
    requires
        tick_rel(t, r),
    ensures
        node_ids(r) == node_ids(t),
    decreases t,
{
    match t {
        Html::Text { .. } => {
            assert(node_ids(r) =~= node_ids(t));
        },
        Html::Node { .. } => {
            lemma_tick_preserves_ids_seq(t->children@, r->children@);
            assert(node_ids(r) =~= node_ids(t));
        },
    }
}

pub proof fn lemma_tick_preserves_ids_seq<EH>(o: Seq<Html<EH>>, r: Seq<Html<EH>>)
    requires
        tick_rel_seq(o, r),
    ensures
        node_ids_seq(r) == node_ids_seq(o),
    decreases o,
{
    if o.len() > 0 {
        lemma_tick_preserves_ids_seq(o.drop_last(), r.drop_last());
        lemma_tick_preserves_ids(o.last(), r.last());
        assert(node_ids_seq(r) =~= node_ids_seq(o));
    } else {
        assert(node_ids_seq(r) =~= node_ids_seq(o));
    }
}

impl<EH: HandlerFn> Html<EH> {
    /// One dispatch pass over the tree: children first, post-order, left to
    /// right, then at most one entry of this node's own mailbox; an entry
    /// whose event name has no handler registered in this tree is dropped
    /// silently.
    pub fn tick(&mut self) -> (msgs: Vec<EH::Msg>)
        ensures
            tick_rel(*old(self), *final(self)),
            msgs@ == tick_msgs(*old(self)),
    {
        let mut taken = Html::Text { value: String::new() };
        core::mem::swap(self, &mut taken);
        let (rest, msgs) = Self::tick_owned(taken);
        *self = rest;
        msgs
    }

    #[verifier::loop_isolation(false)]
    fn tick_owned(t: Html<EH>) -> (res: (Html<EH>, Vec<EH::Msg>))
        ensures
            tick_rel(t, res.0),
            res.1@ == tick_msgs(t),
        decreases depth(t),
    {
        let ghost t0 = t;
        match t {
            Html::Text { value } => (Html::Text { value }, Vec::new()),
            Html::Node { tag, id, attributes, styling, events, mut mailbox, mut children } => {
                let mut new_children: Vec<Html<EH>> = Vec::new();
                let mut msgs: Vec<EH::Msg> = Vec::new();
                let ghost orig_children = children@;
                let ghost mut done: int = 0;
                proof {
                    assert(orig_children.subrange(0, 0) =~= Seq::<Html<EH>>::empty());
                }
                while children.len() > 0
                    invariant
                        0 <= done <= orig_children.len(),
                        children@ == orig_children.subrange(done, orig_children.len() as int),
                        tick_rel_seq(orig_children.subrange(0, done), new_children@),
                        msgs@ == tick_msgs_seq(orig_children.subrange(0, done)),
                    decreases children@.len(),
                {
                    let c = children.remove(0);
                    proof {
                        assert(c == orig_children[done]);
                        assert(children@ =~= orig_children.subrange(
                            done + 1,
                            orig_children.len() as int,
                        ));
                        lemma_depth_elem(orig_children, done);
                    }
                    let (c2, mut cm) = Self::tick_owned(c);
                    let ghost prev_children = new_children@;
                    new_children.push(c2);
                    msgs.append(&mut cm);
                    proof {
                        let s1 = orig_children.subrange(0, done + 1);
                        assert(s1.drop_last() =~= orig_children.subrange(0, done));
                        assert(s1.last() == orig_children[done]);
                        assert(new_children@.drop_last() =~= prev_children);
                        assert(new_children@.last() == c2);
                        assert(tick_rel_seq(s1, new_children@));
                        assert(msgs@ == tick_msgs_seq(s1));
                        done = done + 1;
                    }
                }
                proof {
                    assert(orig_children.subrange(0, orig_children.len() as int)
                        =~= orig_children);
                }
                let entry = mailbox.remove();
                match entry {
                    None => {},
                    Some((name, payload)) => {
                        match lookup_in(&events, &name) {
                            None => {},
                            Some(h) => {
                                let m = h.eval(&payload);
                                msgs.push(m);
                            },
                        }
                    },
                }
                let rebuilt = Html::Node {
                    tag,
                    id,
                    attributes,
                    styling,
                    events,
                    mailbox,
                    children: new_children,
                };
                proof {
                    assert(tick_rel(t0, rebuilt));
                    assert(msgs@ =~= tick_msgs(t0));
                }
                (rebuilt, msgs)
            },
        }
    }
}

///////////////////////////////////////////////////////////////////////////////
// RENDERING
///////////////////////////////////////////////////////////////////////////////

/// The rendered text of one attribute: `key="value"` for a pair, the bare
/// key for a toggle that is present.  The node's own `id` attribute and
/// absent toggles render to nothing.
pub open spec fn spec_attr_text(a: Attribute) -> Option<Seq<char>> {
    match a {
        Attribute::Pair { key, value } => {
            if key@ == "id"@ {
                None
            } else {
                Some(key@ + seq!['=', '"'] + value@ + seq!['"'])
            }
        },
        Attribute::Toggle { key, value } => {
            if key@ == "id"@ || !value {
                None
            } else {
                Some(key@)
            }
        },
    }
}

pub open spec fn spec_attrs_texts(attrs: Seq<Attribute>) -> Seq<Seq<char>> {
    attrs.filter_map(|a: Attribute| spec_attr_text(a))
}

/// The markup of a tree: a text leaf is its text; an element is
/// `<tag id="..." attrs>children</tag>`, the synthesized id first and the
/// rendered attributes after it when there are any.
pub open spec fn spec_markup<EH>(t: Html<EH>) -> Seq<char>
    decreases t,
{
    match t {
        Html::Text { value } => value@,
        Html::Node { .. } => {
            let attrs = spec_attrs_texts(t->attributes@);
            let attr_part = if attrs.len() == 0 {
                Seq::<char>::empty()
            } else {
                seq![' '] + spec_join(attrs, seq![' '])
            };
            seq!['<'] + t->tag@ + seq![' ', 'i', 'd', '=', '"'] + t->id@ + seq!['"'] + attr_part
                + seq!['>'] + spec_markup_seq(t->children@) + seq!['<', '/'] + t->tag@ + seq!['>']
        },
    }
}

pub open spec fn spec_markup_seq<EH>(s: Seq<Html<EH>>) -> Seq<char>
    decreases s,
{
    if s.len() == 0 {
        Seq::empty()
    } else {
        spec_markup_seq(s.drop_last()) + spec_markup(s.last())
    }
}

/// The stylesheet rules of one element: its base block `#id {...}`
/// followed by one `#id:pseudo {...}` block per pseudo-class group.
pub open spec fn spec_own_css_rules<EH>(t: Html<EH>) -> Seq<Seq<char>> {
    match t {
        Html::Text { .. } => Seq::empty(),
        Html::Node { .. } => seq![spec_render_decls(seq!['#'] + t->id@, t->styling@)]
            + t->styling@.filter_map(|s: Style| spec_pseudo_rule(s, t->id@)),
    }
}

/// The stylesheet rules of the whole tree, each node's own rules before
/// its children's, in document order.
pub open spec fn spec_css_rules<EH>(t: Html<EH>) -> Seq<Seq<char>>
    decreases t,
{
    match t {
        Html::Text { .. } => Seq::empty(),
        Html::Node { .. } => spec_own_css_rules(t) + spec_css_rules_seq(t->children@),
    }
}

pub open spec fn spec_css_rules_seq<EH>(s: Seq<Html<EH>>) -> Seq<Seq<char>>
    decreases s,
{
    if s.len() == 0 {
        Seq::empty()
    } else {
        spec_css_rules_seq(s.drop_last()) + spec_css_rules(s.last())
    }
}

impl<EH> Html<EH> {
    #[verifier::loop_isolation(false)]
    fn attr_texts(&self) -> (r: Vec<String>)
        requires
            self is Node,
        ensures
            r.deep_view() == spec_attrs_texts(self->attributes@),
    {
        match self {
            Html::Node { attributes, .. } => {
                let mut r: Vec<String> = Vec::new();
                let mut i: usize = 0;
                proof {
                    assert(r.deep_view() =~= spec_attrs_texts(attributes@.subrange(0, 0)));
                }
                while i < attributes.len()
                    invariant
                        i <= attributes@.len(),
                        r.deep_view() == spec_attrs_texts(attributes@.subrange(0, i as int)),
                    decreases attributes@.len() - i,
                {
                    let ghost prev = r.deep_view();
                    match &attributes[i] {
                        Attribute::Pair { key, value } => {
                            if !crate::text::string_eq_str(key, "id") {
                                proof {
                                    reveal_strlit("=\"");
                                    reveal_strlit("\"");
                                }
                                let mut text = key.clone();
                                text.append("=\"");
                                text.append(value.as_str());
                                text.append("\"");
                                proof {
                                    assert(text@ =~= key@ + seq!['=', '"'] + value@ + seq!['"']);
                                }
                                r.push(text);
                            }
                        },
                        Attribute::Toggle { key, value } => {
                            if !crate::text::string_eq_str(key, "id") && *value {
                                r.push(key.clone());
                            }
                        },
                    }
                    proof {
                        let s1 = attributes@.subrange(0, i + 1);
                        assert(s1.drop_last() =~= attributes@.subrange(0, i as int));
                        assert(s1.last() == attributes@[i as int]);
                        match spec_attr_text(attributes@[i as int]) {
                            Some(d) => {
                                assert(r.deep_view() =~= prev + seq![d]);
                            },
                            None => {
                                assert(r.deep_view() =~= prev);
                            },
                        }
                        assert(r.deep_view() == spec_attrs_texts(s1));
                    }
                    i = i + 1;
                }
                proof {
                    assert(attributes@.subrange(0, attributes@.len() as int) =~= attributes@);
                }
                r
            },
            Html::Text { .. } => {
                proof {
                    assert(false);
                }
                Vec::new()
            },
        }
    }

    /// Inserts this element's own scoped rules into the style mount: the
    /// base block first, then one block per pseudo-class group.
    #[verifier::loop_isolation(false)]
    fn render_css(&self, style_mount: &mut crate::cssom::StyleMount)
        requires
            self is Node,
        ensures
            final(style_mount).rules.deep_view() == old(style_mount).rules.deep_view()
                + spec_own_css_rules(*self),
    {
        match self {
            Html::Node { id, styling, .. } => {
                proof {
                    reveal_strlit("#");
                }
                let mut selector = String::from_str("#");
                selector.append(id.as_str());
                proof {
                    assert(selector@ =~= seq!['#'] + id@);
                }
                let rule = Style::render_decls(&selector, styling);
                let ghost rules0 = style_mount.rules.deep_view();
                style_mount.insert(rule);
                proof {
                    assert(style_mount.rules.deep_view() =~= rules0 + seq![
                        spec_render_decls(seq!['#'] + id@, styling@),
                    ]);
                }
                let ghost base = style_mount.rules.deep_view();
                let mut i: usize = 0;
                proof {
                    assert(style_mount.rules.deep_view() =~= base + styling@.subrange(
                        0,
                        0,
                    ).filter_map(|s: Style| spec_pseudo_rule(s, id@)));
                }
                while i < styling.len()
                    invariant
                        i <= styling@.len(),
                        style_mount.rules.deep_view() == base + styling@.subrange(
                            0,
                            i as int,
                        ).filter_map(|s: Style| spec_pseudo_rule(s, id@)),
                    decreases styling@.len() - i,
                {
                    let ghost prev = style_mount.rules.deep_view();
                    match styling[i].render_pseudo_selector(id) {
                        Some(rendered) => {
                            style_mount.insert(rendered);
                        },
                        None => {},
                    }
                    proof {
                        let s1 = styling@.subrange(0, i + 1);
                        assert(s1.drop_last() =~= styling@.subrange(0, i as int));
                        assert(s1.last() == styling@[i as int]);
                        match spec_pseudo_rule(styling@[i as int], id@) {
                            Some(d) => {
                                assert(style_mount.rules.deep_view() =~= prev + seq![d]);
                            },
                            None => {
                                assert(style_mount.rules.deep_view() =~= prev);
                            },
                        }
                        assert(style_mount.rules.deep_view() == base + s1.filter_map(
                            |s: Style| spec_pseudo_rule(s, id@),
                        ));
                    }
                    i = i + 1;
                }
                proof {
                    assert(styling@.subrange(0, styling@.len() as int) =~= styling@);
                    assert(style_mount.rules.deep_view() =~= old(style_mount).rules.deep_view()
                        + spec_own_css_rules(*self));
                }
            },
            Html::Text { .. } => {
                proof {
                    assert(false);
                }
            },
        }
    }

    /// Serializes the whole tree to markup in one pass, inserting every
    /// node's scoped rules into the style mount on the way, parents before
    /// children.
    #[verifier::loop_isolation(false)]
    pub fn render(&self, style_mount: &mut crate::cssom::StyleMount) -> (markup: String)
        ensures
            markup@ == spec_markup(*self),
            final(style_mount).rules.deep_view() == old(style_mount).rules.deep_view()
                + spec_css_rules(*self),
        decreases depth(*self),
    {
        match self {
            Html::Text { value } => {
                proof {
                    assert(old(style_mount).rules.deep_view() + spec_css_rules(*self)
                        =~= old(style_mount).rules.deep_view());
                }
                value.clone()
            },
            Html::Node { tag, id, children, .. } => {
                self.render_css(style_mount);
                let attrs = self.attr_texts();
                proof {
                    reveal_strlit("<");
                    reveal_strlit(" id=\"");
                    reveal_strlit("\"");
                    reveal_strlit(" ");
                    reveal_strlit(">");
                    reveal_strlit("</");
                }
                let mut markup = String::from_str("<");
                markup.append(tag.as_str());
                markup.append(" id=\"");
                markup.append(id.as_str());
                markup.append("\"");
                if attrs.len() > 0 {
                    markup.append(" ");
                    let joined = crate::text::join_strings(&attrs, " ");
                    markup.append(joined.as_str());
                }
                markup.append(">");
                proof {
                    let at = spec_attrs_texts((*self)->attributes@);
                    let attr_part = if at.len() == 0 {
                        Seq::<char>::empty()
                    } else {
                        seq![' '] + spec_join(at, seq![' '])
                    };
                    assert(" "@ =~= seq![' ']);
                    assert(markup@ =~= seq!['<'] + tag@ + seq![' ', 'i', 'd', '=', '"'] + id@
                        + seq!['"'] + attr_part + seq!['>']);
                }
                let ghost head = markup@;
                let ghost rules_mid = style_mount.rules.deep_view();
                let mut i: usize = 0;
                proof {
                    assert(markup@ =~= head + spec_markup_seq(children@.subrange(0, 0)));
                    assert(style_mount.rules.deep_view() =~= rules_mid + spec_css_rules_seq(
                        children@.subrange(0, 0),
                    ));
                }
                while i < children.len()
                    invariant
                        i <= children@.len(),
                        markup@ == head + spec_markup_seq(children@.subrange(0, i as int)),
                        style_mount.rules.deep_view() == rules_mid + spec_css_rules_seq(
                            children@.subrange(0, i as int),
                        ),
                    decreases children@.len() - i,
                {
                    proof {
                        lemma_depth_elem(children@, i as int);
                    }
                    let child_markup = children[i].render(style_mount);
                    markup.append(child_markup.as_str());
                    proof {
                        let s1 = children@.subrange(0, i + 1);
                        assert(s1.drop_last() =~= children@.subrange(0, i as int));
                        assert(s1.last() == children@[i as int]);
                        assert(markup@ =~= head + spec_markup_seq(s1));
                        assert(style_mount.rules.deep_view() =~= rules_mid + spec_css_rules_seq(
                            s1,
                        ));
                    }
                    i = i + 1;
                }
                proof {
                    assert(children@.subrange(0, children@.len() as int) =~= children@);
                }
                markup.append("</");
                markup.append(tag.as_str());
                markup.append(">");
                proof {
                    assert(markup@ =~= spec_markup(*self));
                    assert(style_mount.rules.deep_view() =~= old(style_mount).rules.deep_view()
                        + spec_css_rules(*self));
                }
                markup
            },
        }
    }
}

///////////////////////////////////////////////////////////////////////////////
// LISTENER REGISTRATION
///////////////////////////////////////////////////////////////////////////////

/// One platform registration: which element, and which event name, the
/// platform callback that feeds the element's mailbox is keyed by.
#[derive(Debug, Clone, PartialEq)]
pub struct ListenerReg {
    pub node_id: String,
    pub event_name: String,
}

/// The registrations an element itself asks for: one per handler entry,
/// keyed by its id, in the order the handlers stand in the map.
pub open spec fn spec_own_regs<EH>(t: Html<EH>) -> Seq<ListenerReg> {
    match t {
        Html::Text { .. } => Seq::empty(),
        Html::Node { id, events, .. } => events@.map_values(
            |e: (String, Handler<EH>)| ListenerReg { node_id: id, event_name: e.0 },
        ),
    }
}

/// The registrations a whole mount performs: children's registrations
/// first, post-order, then the element's own.
pub open spec fn spec_listener_regs<EH>(t: Html<EH>) -> Seq<ListenerReg>
    decreases t,
{
    match t {
        Html::Text { .. } => Seq::empty(),
        Html::Node { .. } => spec_listener_regs_seq(t->children@) + spec_own_regs(t),
    }
}

pub open spec fn spec_listener_regs_seq<EH>(s: Seq<Html<EH>>) -> Seq<ListenerReg>
    decreases s,
{
    if s.len() == 0 {
        Seq::empty()
    } else {
        spec_listener_regs_seq(s.drop_last()) + spec_listener_regs(s.last())
    }
}

impl<EH> Html<EH> {
    /// The platform registrations to perform when this tree is mounted:
    /// exactly one listener per handler entry, children registered before
    /// their parent.
    #[verifier::loop_isolation(false)]
    pub fn attach_event_listeners(&self) -> (regs: Vec<ListenerReg>)
        ensures
            regs@ == spec_listener_regs(*self),
        decreases depth(*self),
    {
        match self {
            Html::Text { .. } => Vec::new(),
            Html::Node { id, events, children, .. } => {
                let mut regs: Vec<ListenerReg> = Vec::new();
                let mut i: usize = 0;
                proof {
                    assert(regs@ =~= spec_listener_regs_seq(children@.subrange(0, 0)));
                }
                while i < children.len()
                    invariant
                        i <= children@.len(),
                        regs@ == spec_listener_regs_seq(children@.subrange(0, i as int)),
                    decreases children@.len() - i,
                {
                    proof {
                        lemma_depth_elem(children@, i as int);
                    }
                    let mut child_regs = children[i].attach_event_listeners();
                    regs.append(&mut child_regs);
                    proof {
                        let s1 = children@.subrange(0, i + 1);
                        assert(s1.drop_last() =~= children@.subrange(0, i as int));
                        assert(s1.last() == children@[i as int]);
                        assert(regs@ =~= spec_listener_regs_seq(s1));
                    }
                    i = i + 1;
                }
                proof {
                    assert(children@.subrange(0, children@.len() as int) =~= children@);
                }
                let ghost child_part = regs@;
                let mut j: usize = 0;
                proof {
                    assert(regs@ =~= child_part + events@.subrange(0, 0).map_values(
                        |e: (String, Handler<EH>)| ListenerReg { node_id: *id, event_name: e.0 },
                    ));
                }
                while j < events.len()
                    invariant
                        j <= events@.len(),
                        regs@ == child_part + events@.subrange(0, j as int).map_values(
                            |e: (String, Handler<EH>)| ListenerReg {
                                node_id: *id,
                                event_name: e.0,
                            },
                        ),
                    decreases events@.len() - j,
                {
                    regs.push(ListenerReg { node_id: id.clone(), event_name: events[j].0.clone() });
                    proof {
                        assert(regs@ =~= child_part + events@.subrange(0, j + 1).map_values(
                            |e: (String, Handler<EH>)| ListenerReg {
                                node_id: *id,
                                event_name: e.0,
                            },
                        ));
                    }
                    j = j + 1;
                }
                proof {
                    assert(events@.subrange(0, events@.len() as int) =~= events@);
                    assert(regs@ =~= spec_listener_regs(*self));
                }
                regs
            },
        }
    }

    /// The inverse walk, used before a subtree is discarded: the same
    /// command list, children first, for the platform to deregister.
    pub fn delete_event_listeners(&self) -> (regs: Vec<ListenerReg>)
        ensures
            regs@ == spec_listener_regs(*self),
    {
        self.attach_event_listeners()
    }
}

///////////////////////////////////////////////////////////////////////////////
// EVENT DELIVERY
///////////////////////////////////////////////////////////////////////////////

/// Some element of the tree carries this id.
pub open spec fn has_node_id<EH>(t: Html<EH>, id: Seq<char>) -> bool
    decreases t,
{
    match t {
        Html::Text { .. } => false,
        Html::Node { .. } => t->id@ == id || has_node_id_seq(t->children@, id),
    }
}

pub open spec fn has_node_id_seq<EH>(s: Seq<Html<EH>>, id: Seq<char>) -> bool
    decreases s,
{
    if s.len() == 0 {
        false
    } else {
        has_node_id_seq(s.drop_last(), id) || has_node_id(s.last(), id)
    }
}

/// How delivering one raw event rewrites the tree: every element whose id
/// reads `id` gets `(name, payload)` appended to its mailbox, and nothing
/// else moves.  With unique ids, at most one mailbox grows.
pub open spec fn deliver_rel<EH>(
    t: Html<EH>,
    r: Html<EH>,
    id: Seq<char>,
    name: String,
    payload: EventPayload,
) -> bool
    decreases t,
{
    match t {
        Html::Text { .. } => r == t,
        Html::Node { .. } => {
            &&& r is Node
            &&& r->tag == t->tag
            &&& r->id == t->id
            &&& r->attributes == t->attributes
            &&& r->styling == t->styling
            &&& r->events == t->events
            &&& r->mailbox.0@ == if t->id@ == id {
                t->mailbox.0@.push((name, payload))
            } else {
                t->mailbox.0@
            }
            &&& deliver_rel_seq(t->children@, r->children@, id, name, payload)
        },
    }
}

pub open spec fn deliver_rel_seq<EH>(
    o: Seq<Html<EH>>,
    r: Seq<Html<EH>>,
    id: Seq<char>,
    name: String,
    payload: EventPayload,
) -> bool
    decreases o,
{
    &&& r.len() == o.len()
    &&& if o.len() == 0 {
        true
    } else {
        deliver_rel_seq(o.drop_last(), r.drop_last(), id, name, payload) && deliver_rel(
            o.last(),
            r.last(),
            id,
            name,
            payload,
        )
    }
}


/// Delivering an event never changes an id either: mailboxes grow, the
/// tree's ids stay exactly where they were.
pub proof fn lemma_deliver_preserves_ids<EH>(
    t: Html<EH>,
    r: Html<EH>,
    id: Seq<char>,
    name: String,
    payload: EventPayload,
)
    requires
        deliver_rel(t, r, id, name, payload),
    ensures
        node_ids(r) == node_ids(t),
    decreases t,
{
    match t {
        Html::Text { .. } => {
            assert(node_ids(r) =~= node_ids(t));
        },
        Html::Node { .. } => {
            lemma_deliver_preserves_ids_seq(t->children@, r->children@, id, name, payload);
            assert(node_ids(r) =~= node_ids(t));
        },
    }
}

pub proof fn lemma_deliver_preserves_ids_seq<EH>(
    o: Seq<Html<EH>>,
    r: Seq<Html<EH>>,
    id: Seq<char>,
    name: String,
    payload: EventPayload,
)
    requires
        deliver_rel_seq(o, r, id, name, payload),
    ensures
        node_ids_seq(r) == node_ids_seq(o),
    decreases o,
{
    if o.len() > 0 {
        lemma_deliver_preserves_ids_seq(o.drop_last(), r.drop_last(), id, name, payload);
        lemma_deliver_preserves_ids(o.last(), r.last(), id, name, payload);
        assert(node_ids_seq(r) =~= node_ids_seq(o));
    } else {
        assert(node_ids_seq(r) =~= node_ids_seq(o));
    }
}

impl<EH> Html<EH> {
    /// Delivers a raw platform event to the mailbox of the element whose id
    /// reads `node_id`; this is what the platform callback registered for
    /// that element does.  Returns whether any element carried the id.
    pub fn insert_event(
        &mut self,
        node_id: &String,
        event_name: String,
        value: EventPayload,
    ) -> (delivered: bool)
        ensures
            deliver_rel(*old(self), *final(self), node_id@, event_name, value),
            delivered == has_node_id(*old(self), node_id@),
    {
        let mut taken = Html::Text { value: String::new() };
        core::mem::swap(self, &mut taken);
        let (rest, delivered) = Self::deliver_owned(taken, node_id, &event_name, &value);
        *self = rest;
        delivered
    }

    #[verifier::loop_isolation(false)]
    fn deliver_owned(t: Html<EH>, node_id: &String, event_name: &String, value: &EventPayload) -> (res: (
        Html<EH>,
        bool,
    ))
        ensures
            deliver_rel(t, res.0, node_id@, *event_name, *value),
            res.1 == has_node_id(t, node_id@),
        decreases depth(t),
    {
        let ghost t0 = t;
        match t {
            Html::Text { value: v } => (Html::Text { value: v }, false),
            Html::Node { tag, id, attributes, styling, events, mut mailbox, mut children } => {
                let own_hit = crate::text::string_eq_string(&id, node_id);
                if own_hit {
                    mailbox.insert(event_name.clone(), value.clone());
                }
                let mut new_children: Vec<Html<EH>> = Vec::new();
                let mut hit = own_hit;
                let ghost orig_children = children@;
                let ghost mut done: int = 0;
                let ghost mut child_hit_so_far = false;
                proof {
                    assert(orig_children.subrange(0, 0) =~= Seq::<Html<EH>>::empty());
                }
                while children.len() > 0
                    invariant
                        0 <= done <= orig_children.len(),
                        children@ == orig_children.subrange(done, orig_children.len() as int),
                        deliver_rel_seq(
                            orig_children.subrange(0, done),
                            new_children@,
                            node_id@,
                            *event_name,
                            *value,
                        ),
                        child_hit_so_far == has_node_id_seq(
                            orig_children.subrange(0, done),
                            node_id@,
                        ),
                        hit == (own_hit || child_hit_so_far),
                    decreases children@.len(),
                {
                    let c = children.remove(0);
                    proof {
                        assert(c == orig_children[done]);
                        assert(children@ =~= orig_children.subrange(
                            done + 1,
                            orig_children.len() as int,
                        ));
                        lemma_depth_elem(orig_children, done);
                    }
                    let (c2, child_hit) = Self::deliver_owned(c, node_id, event_name, value);
                    let ghost prev_children = new_children@;
                    new_children.push(c2);
                    if child_hit {
                        hit = true;
                    }
                    proof {
                        let s1 = orig_children.subrange(0, done + 1);
                        assert(s1.drop_last() =~= orig_children.subrange(0, done));
                        assert(s1.last() == orig_children[done]);
                        assert(new_children@.drop_last() =~= prev_children);
                        assert(new_children@.last() == c2);
                        assert(deliver_rel_seq(s1, new_children@, node_id@, *event_name, *value));
                        child_hit_so_far = child_hit_so_far || child_hit;
                        done = done + 1;
                    }
                }
                proof {
                    assert(orig_children.subrange(0, orig_children.len() as int)
                        =~= orig_children);
                }
                let rebuilt = Html::Node {
                    tag,
                    id,
                    attributes,
                    styling,
                    events,
                    mailbox,
                    children: new_children,
                };
                proof {
                    assert(deliver_rel(t0, rebuilt, node_id@, *event_name, *value));
                }
                (rebuilt, hit)
            },
        }
    }
}

} // verus!
