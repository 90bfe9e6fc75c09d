use vstd::prelude::*;

use crate::cssom::StyleMount;
use crate::html::{
    deliver_rel, has_node_id, node_ids, spec_css_rules, spec_listener_regs, spec_markup,
    tick_msgs, tick_rel, tree_content, EventPayload, HandlerFn, Html, ListenerReg, TreeContent,
};
use crate::sync::{
    lemma_sync_preserves_ids, sync_patches, sync_rel, Patch,
};

verus! {

///////////////////////////////////////////////////////////////////////////////
// FRAMEWORK
///////////////////////////////////////////////////////////////////////////////

/// An application, implemented by its model type: an update step that
/// folds a message into the model, and a view that renders the model to a
/// virtual tree.
pub trait Application: Sized {
    type Msg;

    type H: HandlerFn<Msg = Self::Msg>;

    /// The mathematical meaning of one update step.
    spec fn spec_update(self, msg: Self::Msg) -> Self;

    /// The content of the tree the view renders for this model.  Node ids
    /// are drawn at random at construction time and are no function of the
    /// model, so the content leaves them out; everything else is pinned.
    spec fn spec_view(self) -> TreeContent<Self::H>;

    fn update(&mut self, msg: Self::Msg)
        ensures
            *final(self) == (*old(self)).spec_update(msg),
    ;

    fn view(&self) -> (t: Html<Self::H>)
        ensures
            tree_content(t) == (*self).spec_view(),
    ;
}

/// The model after folding a sequence of messages through the update step,
/// in arrival order.
pub open spec fn fold_msgs<A: Application>(m: A, msgs: Seq<A::Msg>) -> A
    decreases msgs.len(),
{
    if msgs.len() == 0 {
        m
    } else {
        fold_msgs(m.spec_update(msgs[0]), msgs.drop_first())
    }
}

/// The immutable application triple the runtime is mounted with; the
/// update and view functions travel with the model's type.
pub struct Component<A: Application> {
    pub model: A,
}

/// What the first mount hands the platform: the serialized markup of the
/// initial tree and the listener registrations to perform, children before
/// parents.  The stylesheet rules stand in the process's style mount.
pub struct MountOutput {
    pub markup: String,
    pub listeners: Vec<ListenerReg>,
}

/// One running application: the model, the active virtual tree the live
/// surface currently shows, and the process-wide style mount.
pub struct Process<A: Application> {
    component: Component<A>,
    active_vnode: Html<A::H>,
    style_mount: StyleMount,
}

impl<A: Application> Process<A> {
    /// The current model.
    pub closed spec fn model(self) -> A {
        self.component.model
    }

    /// The active virtual tree.
    pub closed spec fn active(self) -> Html<A::H> {
        self.active_vnode
    }

    /// The texts of the rules the style mount holds.
    pub closed spec fn mount_rules(self) -> Seq<Seq<char>> {
        self.style_mount.rules.deep_view()
    }

    pub fn active_tree(&self) -> (t: &Html<A::H>)
        ensures
            *t == self.active(),
    {
        &self.active_vnode
    }

    pub fn model_ref(&self) -> (m: &A)
        ensures
            *m == self.model(),
    {
        &self.component.model
    }

    pub fn style_rules(&self) -> (r: &Vec<String>)
        ensures
            r.deep_view() == self.mount_rules(),
    {
        &self.style_mount.rules
    }

    pub fn root_is_node(&self) -> (b: bool)
        ensures
            b == (self.active() is Node),
    {
        match &self.active_vnode {
            Html::Node { .. } => true,
            Html::Text { .. } => false,
        }
    }

    /// First mount: renders the initial view to markup and stylesheet
    /// rules in one pass, with no diffing, and lists the listeners the
    /// platform must register.
    pub fn new(component: Component<A>) -> (r: (Process<A>, MountOutput))
        ensures
            r.0.model() == component.model,
            tree_content(r.0.active()) == component.model.spec_view(),
            r.1.markup@ == spec_markup(r.0.active()),
            r.0.mount_rules() == spec_css_rules(r.0.active()),
            r.1.listeners@ == spec_listener_regs(r.0.active()),
    {
        let active = component.model.view();
        let mut style_mount = StyleMount::new();
        let markup = active.render(&mut style_mount);
        let listeners = active.attach_event_listeners();
        proof {
            assert(style_mount.rules.deep_view() =~= spec_css_rules(active));
        }
        (
            Process { component, active_vnode: active, style_mount },
            MountOutput { markup, listeners },
        )
    }

    /// Render phase: reconciles the active tree against a candidate and
    /// returns the mutations the live surface needs.  The candidate's
    /// content is adopted where shapes agree; the active tree's node
    /// identities survive unchanged.
    pub fn sync(&mut self, new: Html<A::H>) -> (patches: Vec<Patch<A::H>>)
        requires
            old(self).active() is Node,
        ensures
            final(self).model() == old(self).model(),
            final(self).mount_rules() == old(self).mount_rules(),
            sync_rel(old(self).active(), new, final(self).active()),
            patches@ == sync_patches(old(self).active(), new, old(self).active()->id),
            node_ids(final(self).active()) == node_ids(old(self).active()),
    {
        let root_id = match &self.active_vnode {
            Html::Node { id, .. } => id.clone(),
            Html::Text { .. } => {
                proof {
                    assert(false);
                }
                String::new()
            },
        };
        let patches = self.active_vnode.sync(&new, &root_id);
        proof {
            lemma_sync_preserves_ids(old(self).active(), new, self.active_vnode);
        }
        patches
    }

    /// One frame: Dispatch, then Render.  Dispatch drains at most one
    /// mailbox entry per node of the active tree and folds the resulting
    /// messages through the update step in arrival order; Render recomputes
    /// the view and syncs the active tree against it.  Returns the
    /// mutations the live surface needs.
    #[verifier::loop_isolation(false)]
    pub fn tick(&mut self) -> (patches: Vec<Patch<A::H>>)
        requires
            old(self).active() is Node,
        ensures
            final(self).model() == fold_msgs(
                old(self).model(),
                tick_msgs(old(self).active()),
            ),
            exists|mid: Html<A::H>, cand: Html<A::H>|
                {
                    &&& tick_rel(old(self).active(), mid)
                    &&& tree_content(cand) == final(self).model().spec_view()
                    &&& #[trigger] sync_rel(mid, cand, final(self).active())
                    &&& patches@ == sync_patches(mid, cand, mid->id)
                },
            node_ids(final(self).active()) == node_ids(old(self).active()),
    {
        let mut msgs = self.active_vnode.tick();
        let ghost all_msgs = msgs@;
        let ghost mid = self.active_vnode;
        let ghost model0 = self.component.model;
        while msgs.len() > 0
            invariant
                fold_msgs(model0, all_msgs) == fold_msgs(self.component.model, msgs@),
                self.active_vnode == mid,
                self.style_mount == old(self).style_mount,
            decreases msgs@.len(),
        {
            let ghost msgs_pre = msgs@;
            let m = msgs.remove(0);
            proof {
                assert(msgs@ =~= msgs_pre.drop_first());
            }
            self.component.model.update(m);
        }
        let candidate = self.component.model.view();
        let ghost cand = candidate;
        proof {
            crate::html::lemma_tick_preserves_ids(old(self).active(), mid);
        }
        let patches = self.sync(candidate);
        proof {
            assert(tick_rel(old(self).active(), mid) && tree_content(cand)
                == self.component.model.spec_view() && sync_rel(mid, cand, self.active_vnode)
                && patches@ == sync_patches(mid, cand, mid->id));
        }
        patches
    }

    /// Delivers one raw platform event to the mailbox of the element whose
    /// id reads `node_id`: what the platform callback registered for that
    /// element does when the event fires.
    pub fn deliver(&mut self, node_id: &String, event_name: String, value: EventPayload) -> (delivered:
        bool)
        ensures
            deliver_rel(
                old(self).active(),
                final(self).active(),
                node_id@,
                event_name,
                value,
            ),
            delivered == has_node_id(old(self).active(), node_id@),
            final(self).model() == old(self).model(),
            final(self).mount_rules() == old(self).mount_rules(),
    {
        self.active_vnode.insert_event(node_id, event_name, value)
    }
}

///////////////////////////////////////////////////////////////////////////////
// DEV
///////////////////////////////////////////////////////////////////////////////

/// Builds the counter application and performs its first mount; the
/// platform shell takes it from there, one frame at a time.
pub fn test() -> (r: (Process<crate::counter::Counter>, MountOutput))
    ensures
        r.0.model().value == 0,
        tree_content(r.0.active()) == r.0.model().spec_view(),
        r.1.markup@ == spec_markup(r.0.active()),
        r.0.mount_rules() == spec_css_rules(r.0.active()),
        r.1.listeners@ == spec_listener_regs(r.0.active()),
{
    let component = Component { model: crate::counter::init() };
    Process::new(component)
}

} // verus!
