use vstd::prelude::*;

use crate::html::{
    depth, ids_unique, lemma_depth_elem, lemma_tree_contents_index, node_ids, node_ids_seq,
    same_node_except_children, tree_content, tree_contents, Html,
};

verus! {

broadcast use vstd::seq_lib::group_seq_properties;

///////////////////////////////////////////////////////////////////////////////
// PATCHES
///////////////////////////////////////////////////////////////////////////////

/// One mutation of the live surface, keyed by the id of the element it
/// touches.
#[derive(Debug, PartialEq)]
pub enum Patch<EH> {
    SetChildText { parent_id: String, value: String },
    SetNode { id: String, value: Html<EH> },
    SetChildren { id: String, value: Vec<Html<EH>> },
}

/// The id of the element a patch touches.
pub open spec fn spec_patch_id<EH>(p: Patch<EH>) -> Seq<char> {
    match p {
        Patch::SetChildText { parent_id, .. } => parent_id@,
        Patch::SetNode { id, .. } => id@,
        Patch::SetChildren { id, .. } => id@,
    }
}

impl<EH> Patch<EH> {
    pub fn id(&self) -> (r: Option<String>)
        ensures
            r matches Some(s) && s@ == spec_patch_id(*self),
    {
        match self {
            Patch::SetChildText { parent_id, .. } => Some(parent_id.clone()),
            Patch::SetNode { id, .. } => Some(id.clone()),
            Patch::SetChildren { id, .. } => Some(id.clone()),
        }
    }
}

/// Keeps exactly the patches whose id reads `id`, in their given order.
#[verifier::loop_isolation(false)]
pub fn get_patches_with_id<EH>(patches: Vec<Patch<EH>>, id: String) -> (r: Vec<Patch<EH>>)
    ensures
        r@ == patches@.filter(|p: Patch<EH>| spec_patch_id(p) == id@),
{
    let ghost pred = |p: Patch<EH>| spec_patch_id(p) == id@;
    let ghost orig = patches@;
    let mut patches = patches;
    let mut results: Vec<Patch<EH>> = Vec::new();
    let ghost mut done: int = 0;
    proof {
        reveal(Seq::filter);
        assert(orig.subrange(0, 0).filter(pred) =~= Seq::<Patch<EH>>::empty());
    }
    while patches.len() > 0
        invariant
            0 <= done <= orig.len(),
            patches@ == orig.subrange(done, orig.len() as int),
            results@ == orig.subrange(0, done).filter(pred),
        decreases patches@.len(),
    {
        let p = patches.remove(0);
        proof {
            assert(p == orig[done]);
            assert(patches@ =~= orig.subrange(done + 1, orig.len() as int));
        }
        let keep = match p.id() {
            Some(pid) => crate::text::string_eq_string(&pid, &id),
            None => false,
        };
        if keep {
            results.push(p);
        }
        proof {
            reveal(Seq::filter);
            let s1 = orig.subrange(0, done + 1);
            assert(s1.drop_last() =~= orig.subrange(0, done));
            assert(s1.last() == orig[done]);
            assert(keep == pred(orig[done]));
            assert(results@ == s1.filter(pred));
            done = done + 1;
        }
    }
    proof {
        assert(orig.subrange(0, orig.len() as int) =~= orig);
    }
    results
}

///////////////////////////////////////////////////////////////////////////////
// DIFF / SYNC ENGINE
///////////////////////////////////////////////////////////////////////////////

/// How sync rewrites the old tree so that it shows the new tree's content:
/// text leaves take the new text; elements with equally many children keep
/// everything of their own and reconcile the children pairwise; any other
/// pairing is left untouched.
pub open spec fn sync_rel<EH>(o: Html<EH>, n: Html<EH>, r: Html<EH>) -> bool
    decreases o,
{
    match (o, n) {
        (Html::Text { value: v1 }, Html::Text { value: v2 }) => {
            if v1@ == v2@ {
                r == o
            } else {
                r == (Html::Text::<EH> { value: v2 })
            }
        },
        (Html::Node { .. }, Html::Node { .. }) => {
            if o->children@.len() == n->children@.len() {
                &&& same_node_except_children(o, r)
                &&& sync_rel_seq(o->children@, n->children@, r->children@)
            } else {
                r == o
            }
        },
        _ => r == o,
    }
}

pub open spec fn sync_rel_seq<EH>(o: Seq<Html<EH>>, n: Seq<Html<EH>>, r: Seq<Html<EH>>) -> bool
    decreases o,
{
    &&& r.len() == o.len()
    &&& if o.len() == 0 {
        true
    } else {
        sync_rel_seq(o.drop_last(), n.drop_last(), r.drop_last()) && sync_rel(
            o.last(),
            n.last(),
            r.last(),
        )
    }
}

/// The live-surface mutations sync performs, in the order it performs
/// them: one text write per changed text leaf, addressed to the leaf's
/// parent element; nothing for mismatched shapes or child counts.
pub open spec fn sync_patches<EH>(o: Html<EH>, n: Html<EH>, parent_id: String) -> Seq<Patch<EH>>
    decreases o,
{
    match (o, n) {
        (Html::Text { value: v1 }, Html::Text { value: v2 }) => {
            if v1@ == v2@ {
                Seq::empty()
            } else {
                seq![Patch::SetChildText { parent_id, value: v2 }]
            }
        },
        (Html::Node { .. }, Html::Node { .. }) => {
            if o->children@.len() == n->children@.len() {
                sync_patches_seq(o->children@, n->children@, o->id)
            } else {
                Seq::empty()
            }
        },
        _ => Seq::empty(),
    }
}

pub open spec fn sync_patches_seq<EH>(
    o: Seq<Html<EH>>,
    n: Seq<Html<EH>>,
    parent_id: String,
) -> Seq<Patch<EH>>
    decreases o,
{
    if o.len() == 0 {
        Seq::empty()
    } else {
        sync_patches_seq(o.drop_last(), n.drop_last(), parent_id) + sync_patches(
            o.last(),
            n.last(),
            parent_id,
        )
    }
}

impl<EH> Html<EH> {
    /// Reconciles this tree, in place, against `new`, and returns the
    /// mutations the live surface needs; `parent_id` addresses the element
    /// that holds this subtree's text content.
    pub fn sync(&mut self, new: &Html<EH>, parent_id: &String) -> (patches: Vec<Patch<EH>>)
        ensures
            sync_rel(*old(self), *new, *final(self)),
            patches@ == sync_patches(*old(self), *new, *parent_id),
    {
        let mut taken = Html::Text { value: String::new() };
        core::mem::swap(self, &mut taken);
        let (rest, patches) = Self::sync_owned(taken, new, parent_id);
        *self = rest;
        patches
    }

    #[verifier::loop_isolation(false)]
    fn sync_owned(o: Html<EH>, n: &Html<EH>, parent_id: &String) -> (res: (
        Html<EH>,
        Vec<Patch<EH>>,
    ))
        ensures
            sync_rel(o, *n, res.0),
            res.1@ == sync_patches(o, *n, *parent_id),
        decreases depth(o),
    {
        let ghost o0 = o;
        match o {
            Html::Text { value } => {
                match n {
                    Html::Text { value: v2 } => {
                        if !crate::text::string_eq_string(&value, v2) {
                            let mut patches: Vec<Patch<EH>> = Vec::new();
                            patches.push(
                                Patch::SetChildText {
                                    parent_id: parent_id.clone(),
                                    value: v2.clone(),
                                },
                            );
                            proof {
                                assert(patches@ =~= sync_patches(o0, *n, *parent_id));
                            }
                            (Html::Text { value: v2.clone() }, patches)
                        } else {
                            (Html::Text { value }, Vec::new())
                        }
                    },
                    Html::Node { .. } => (Html::Text { value }, Vec::new()),
                }
            },
            Html::Node { tag, id, attributes, styling, events, mailbox, mut children } => {
                match n {
                    Html::Node { children: nc, .. } => {
                        if children.len() == nc.len() {
                            let mut new_children: Vec<Html<EH>> = Vec::new();
                            let mut patches: Vec<Patch<EH>> = Vec::new();
                            let ghost orig_children = children@;
                            let mut i: usize = 0;
                            proof {
                                assert(orig_children.subrange(0, 0) =~= Seq::<Html<EH>>::empty());
                                assert(nc@.subrange(0, 0) =~= Seq::<Html<EH>>::empty());
                            }
                            while children.len() > 0
                                invariant
                                    i == orig_children.len() - children@.len(),
                                    children@ == orig_children.subrange(
                                        i as int,
                                        orig_children.len() as int,
                                    ),
                                    sync_rel_seq(
                                        orig_children.subrange(0, i as int),
                                        nc@.subrange(0, i as int),
                                        new_children@,
                                    ),
                                    patches@ == sync_patches_seq(
                                        orig_children.subrange(0, i as int),
                                        nc@.subrange(0, i as int),
                                        id,
                                    ),
                                decreases children@.len(),
                            {
                                let c = children.remove(0);
                                proof {
                                    assert(c == orig_children[i as int]);
                                    assert(children@ =~= orig_children.subrange(
                                        i + 1,
                                        orig_children.len() as int,
                                    ));
                                    lemma_depth_elem(orig_children, i as int);
                                }
                                let (c2, mut cp) = Self::sync_owned(c, &nc[i], &id);
                                let ghost prev_children = new_children@;
                                let ghost prev_patches = patches@;
                                new_children.push(c2);
                                patches.append(&mut cp);
                                proof {
                                    let s1 = orig_children.subrange(0, i + 1);
                                    let t1 = nc@.subrange(0, i + 1);
                                    assert(s1.drop_last() =~= orig_children.subrange(0, i as int));
                                    assert(t1.drop_last() =~= nc@.subrange(0, i as int));
                                    assert(s1.last() == orig_children[i as int]);
                                    assert(t1.last() == nc@[i as int]);
                                    assert(new_children@.drop_last() =~= prev_children);
                                    assert(new_children@.last() == c2);
                                    assert(sync_rel_seq(s1, t1, new_children@));
                                    assert(patches@ == sync_patches_seq(s1, t1, id));
                                }
                                i = i + 1;
                            }
                            proof {
                                assert(orig_children.subrange(0, orig_children.len() as int)
                                    =~= orig_children);
                                assert(nc@.subrange(0, nc@.len() as int) =~= nc@);
                            }
                            let rebuilt = Html::Node {
                                tag,
                                id,
                                attributes,
                                styling,
                                events,
                                mailbox,
                                children: new_children,
                            };
                            proof {
                                assert(sync_rel(o0, *n, rebuilt));
                            }
                            (rebuilt, patches)
                        } else {
                            (
                                Html::Node {
                                    tag,
                                    id,
                                    attributes,
                                    styling,
                                    events,
                                    mailbox,
                                    children,
                                },
                                Vec::new(),
                            )
                        }
                    },
                    Html::Text { .. } => {
                        (
                            Html::Node { tag, id, attributes, styling, events, mailbox, children },
                            Vec::new(),
                        )
                    },
                }
            },
        }
    }
}

///////////////////////////////////////////////////////////////////////////////
// LAWS
///////////////////////////////////////////////////////////////////////////////

/// Sync never changes an id: a tree rewritten by sync carries exactly the
/// ids of the old tree, in the same positions; in particular, id
/// uniqueness survives every sync.
pub proof fn lemma_sync_preserves_ids<EH>(o: Html<EH>, n: Html<EH>, r: Html<EH>)
    requires
        sync_rel(o, n, r),
    ensures
        node_ids(r) == node_ids(o),
    decreases o,
{
    match o {
        Html::Text { .. } => {
            assert(node_ids(r) =~= node_ids(o));
        },
        Html::Node { .. } => {
            match n {
                Html::Node { .. } => {
                    if o->children@.len() == n->children@.len() {
                        lemma_sync_preserves_ids_seq(o->children@, n->children@, r->children@);
                        assert(node_ids(r) =~= node_ids(o));
                    }
                },
                Html::Text { .. } => {},
            }
        },
    }
}

pub proof fn lemma_sync_preserves_ids_seq<EH>(
    o: Seq<Html<EH>>,
    n: Seq<Html<EH>>,
    r: Seq<Html<EH>>,
)
    requires
        sync_rel_seq(o, n, r),
    ensures
        node_ids_seq(r) == node_ids_seq(o),
    decreases o,
{
    if o.len() > 0 {
        lemma_sync_preserves_ids_seq(o.drop_last(), n.drop_last(), r.drop_last());
        lemma_sync_preserves_ids(o.last(), n.last(), r.last());
        assert(node_ids_seq(r) =~= node_ids_seq(o));
    } else {
        assert(node_ids_seq(r) =~= node_ids_seq(o));
    }
}

/// Id uniqueness is an invariant of sync.
pub proof fn lemma_sync_preserves_id_uniqueness<EH>(o: Html<EH>, n: Html<EH>, r: Html<EH>)
    requires
        sync_rel(o, n, r),
        ids_unique(o),
    ensures
        ids_unique(r),
{
    lemma_sync_preserves_ids(o, n, r);
}

/// `n` shows the same content as `o` wherever sync looks: aligned text
/// leaves read the same and aligned elements have equally many children.
pub open spec fn renders_alike<EH>(o: Html<EH>, n: Html<EH>) -> bool
    decreases o,
{
    match (o, n) {
        (Html::Text { value: v1 }, Html::Text { value: v2 }) => v1@ == v2@,
        (Html::Node { .. }, Html::Node { .. }) => {
            &&& o->children@.len() == n->children@.len()
            &&& renders_alike_seq(o->children@, n->children@)
        },
        _ => false,
    }
}

pub open spec fn renders_alike_seq<EH>(o: Seq<Html<EH>>, n: Seq<Html<EH>>) -> bool
    decreases o,
{
    &&& n.len() == o.len()
    &&& if o.len() == 0 {
        true
    } else {
        renders_alike_seq(o.drop_last(), n.drop_last()) && renders_alike(o.last(), n.last())
    }
}

/// `b` is the same tree as `a` but for the identity of its strings and
/// vectors: every field reads equal, position by position.
pub open spec fn tree_equiv<EH>(a: Html<EH>, b: Html<EH>) -> bool
    decreases a,
{
    match (a, b) {
        (Html::Text { value: v1 }, Html::Text { value: v2 }) => v1@ == v2@,
        (Html::Node { .. }, Html::Node { .. }) => {
            &&& b->tag == a->tag
            &&& b->id == a->id
            &&& b->attributes == a->attributes
            &&& b->styling == a->styling
            &&& b->events == a->events
            &&& b->mailbox == a->mailbox
            &&& a->children@.len() == b->children@.len()
            &&& tree_equiv_seq(a->children@, b->children@)
        },
        _ => false,
    }
}

pub open spec fn tree_equiv_seq<EH>(a: Seq<Html<EH>>, b: Seq<Html<EH>>) -> bool
    decreases a,
{
    &&& b.len() == a.len()
    &&& if a.len() == 0 {
        true
    } else {
        tree_equiv_seq(a.drop_last(), b.drop_last()) && tree_equiv(a.last(), b.last())
    }
}

/// Syncing a tree against one that shows the same content is a no-op: no
/// live-surface mutation is produced, and the old tree comes through
/// unchanged, field for field.  This covers both the text-equal and the
/// element-equal cases; syncing a tree against itself is the special case
/// `n == o`.
pub proof fn lemma_sync_noop<EH>(o: Html<EH>, n: Html<EH>, r: Html<EH>, parent_id: String)
    requires
        renders_alike(o, n),
    ensures
        sync_patches(o, n, parent_id) == Seq::<Patch<EH>>::empty(),
        sync_rel(o, n, r) ==> tree_equiv(o, r),
    decreases o,
{
    match o {
        Html::Text { .. } => {},
        Html::Node { .. } => {
            match n {
                Html::Node { .. } => {
                    lemma_sync_noop_seq(o->children@, n->children@, r->children@, o->id);
                    assert(sync_patches(o, n, parent_id) =~= Seq::<Patch<EH>>::empty());
                    if sync_rel(o, n, r) {
                        assert(tree_equiv(o, r));
                    }
                },
                Html::Text { .. } => {},
            }
        },
    }
}

pub proof fn lemma_sync_noop_seq<EH>(
    o: Seq<Html<EH>>,
    n: Seq<Html<EH>>,
    r: Seq<Html<EH>>,
    parent_id: String,
)
    requires
        renders_alike_seq(o, n),
    ensures
        sync_patches_seq(o, n, parent_id) == Seq::<Patch<EH>>::empty(),
        sync_rel_seq(o, n, r) ==> tree_equiv_seq(o, r),
    decreases o,
{
    if o.len() > 0 {
        lemma_sync_noop_seq(o.drop_last(), n.drop_last(), r.drop_last(), parent_id);
        lemma_sync_noop(o.last(), n.last(), r.last(), parent_id);
        assert(sync_patches_seq(o, n, parent_id) =~= Seq::<Patch<EH>>::empty());
    } else {
        assert(sync_patches_seq(o, n, parent_id) =~= Seq::<Patch<EH>>::empty());
    }
}


/// Trees of equal content show the same text and structure everywhere sync
/// looks; with `lemma_sync_noop`, syncing one against the other is a no-op.
/// In particular, a frame whose view reproduces the active tree's content
/// mutates nothing.
pub proof fn lemma_equal_content_renders_alike<EH>(a: Html<EH>, b: Html<EH>)
    requires
        tree_content(a) == tree_content(b),
    ensures
        renders_alike(a, b),
    decreases a,
{
    match a {
        Html::Text { .. } => {
            assert(tree_content(b) is Text);
        },
        Html::Node { .. } => {
            assert(tree_content(b) is Node);
            lemma_equal_content_renders_alike_seq(a->children@, b->children@);
        },
    }
}

pub proof fn lemma_equal_content_renders_alike_seq<EH>(a: Seq<Html<EH>>, b: Seq<Html<EH>>)
    requires
        tree_contents(a) == tree_contents(b),
    ensures
        renders_alike_seq(a, b),
    decreases a,
{
    lemma_tree_contents_index(a);
    lemma_tree_contents_index(b);
    if a.len() > 0 {
        assert(tree_contents(a).drop_last() =~= tree_contents(a.drop_last()));
        assert(tree_contents(b).drop_last() =~= tree_contents(b.drop_last()));
        lemma_equal_content_renders_alike_seq(a.drop_last(), b.drop_last());
        assert(tree_contents(a).last() == tree_content(a.last()));
        assert(tree_contents(b).last() == tree_content(b.last()));
        lemma_equal_content_renders_alike(a.last(), b.last());
    }
}

/// Sync of a tree against itself: zero patches, tree unchanged.
pub proof fn lemma_sync_self_noop<EH>(t: Html<EH>, r: Html<EH>, parent_id: String)
    ensures
        sync_patches(t, t, parent_id) == Seq::<Patch<EH>>::empty(),
        sync_rel(t, t, r) ==> tree_equiv(t, r),
{
    lemma_renders_alike_refl(t);
    lemma_sync_noop(t, t, r, parent_id);
}

pub proof fn lemma_renders_alike_refl<EH>(t: Html<EH>)
    ensures
        renders_alike(t, t),
    decreases t,
{
    match t {
        Html::Text { .. } => {},
        Html::Node { .. } => {
            lemma_renders_alike_seq_refl(t->children@);
        },
    }
}

pub proof fn lemma_renders_alike_seq_refl<EH>(s: Seq<Html<EH>>)
    ensures
        renders_alike_seq(s, s),
    decreases s,
{
    if s.len() > 0 {
        lemma_renders_alike_seq_refl(s.drop_last());
        lemma_renders_alike_refl(s.last());
    }
}

} // verus!
