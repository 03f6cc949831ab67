//! The virtual node.

use crate::component::Component;
use crate::html::scope::{AnyScope, ScopeId, TypeIdentity};
use crate::scheduler::{Scheduler, SchedulerView};
use crate::surface::{anchored, spliced, Surface, SurfaceHandle, SurfaceView};
use crate::virtual_dom::vcomp::{VChild, VComp};
use crate::virtual_dom::vlist::VList;
use crate::virtual_dom::vtag::VTag;
use crate::virtual_dom::vtext::VText;
use std::rc::Rc;
use vstd::prelude::*;
use vstd::std_specs::convert::FromSpecImpl;

verus! {

/// A virtual node: the description of one piece of the surface.
pub enum VNode<C: Component> {
    /// An element.
    VTag(Box<VTag<C>>),
    /// A run of text.
    VText(VText),
    /// A nested component.
    VComp(VComp<C>),
    /// A fragment.
    VList(VList<C>),
    /// A surface node made elsewhere, shown as it is.
    VRef(SurfaceHandle),
}

/// What a virtual node asks for, without what applying it has left in it: the
/// references to the surface and the scopes of mounted components.
pub enum Description<C: Component> {
    Tag {
        tag: Seq<char>,
        attributes: Seq<(Seq<char>, Seq<char>)>,
        listeners: Seq<(Seq<char>, u64)>,
        children: Seq<Description<C>>,
    },
    Text { text: Seq<char> },
    Comp { type_id: TypeIdentity, props: C::Properties, key: Option<Seq<char>> },
    List { children: Seq<Description<C>> },
    Ref { node: SurfaceHandle },
}

/// Whether `after` is a well-formed surface with the nodes of `before`, each as it
/// was unless it is in `touched`, but for the children of `parent`.
pub open spec fn kept(
    before: SurfaceView,
    after: SurfaceView,
    touched: Set<SurfaceHandle>,
    parent: SurfaceHandle,
) -> bool {
    &&& after.wf()
    &&& before.evolves_to(after)
    &&& before.preserved_outside(after, touched, parent)
}

/// What detaching a node that asks for `description` achieves.
///
/// The surface keeps all that the node does not refer to, but for the children
/// of `parent`. The tasks that destroy the components mounted below the node are
/// submitted, in the order of `scopes`. Where the surface showed the node, none of
/// its nodes in `top` is a child of `parent` any longer.
pub open spec fn detached<C: Component>(
    before: SurfaceView,
    after: SurfaceView,
    waiting: SchedulerView<C>,
    submitted: SchedulerView<C>,
    nodes: Set<SurfaceHandle>,
    top: Set<SurfaceHandle>,
    scopes: Seq<ScopeId>,
    shown: bool,
    parent: SurfaceHandle,
) -> bool {
    &&& kept(before, after, nodes, parent)
    &&& after.nodes.len() == before.nodes.len()
    &&& submitted == waiting.pushed_all(SchedulerView::<C>::destroys(scopes))
    &&& waiting.extends_to(submitted)
    &&& shown ==> forall|h: SurfaceHandle|
        top.contains(h) ==> (#[trigger] after.parent(h)).is_none()
}

/// What detaching an ancestor achieves: nothing where there is none; else
/// what detaching the node achieves, and where the node does not refer to
/// `parent`, it has left the children of `parent`.
pub open spec fn ancestor_detached<C: Component>(
    ancestor: Option<VNode<C>>,
    before: SurfaceView,
    after: SurfaceView,
    waiting: SchedulerView<C>,
    submitted: SchedulerView<C>,
    parent: SurfaceHandle,
) -> bool {
    match ancestor {
        Some(node) => {
            &&& detached(
                before,
                after,
                waiting,
                submitted,
                node.nodes(),
                node.top_nodes(),
                node.scopes(),
                node.rendered(before, parent) && node.distinct(),
                parent,
            )
            &&& before.contains(parent) && !node.nodes().contains(parent) ==> removed_from(
                before,
                after,
                parent,
                node.flat(),
            )
        },
        None => after == before && submitted == waiting,
    }
}

/// Whether `next` is the node that followed a node standing for `flat` among
/// the children of `parent`: wherever it stood, `next` is the first node of what
/// stood behind it, or none where nothing did.
pub open spec fn followed(
    surface: SurfaceView,
    parent: SurfaceHandle,
    flat: Seq<SurfaceHandle>,
    next: Option<SurfaceHandle>,
) -> bool {
    forall|front: Seq<SurfaceHandle>, back: Seq<SurfaceHandle>|
        #[trigger] spliced(surface.children(parent), front, flat, back) ==> anchored(next, back)
}

/// The node that an optional reference refers to, as a list.
pub open spec fn listed(reference: Option<SurfaceHandle>) -> Seq<SurfaceHandle> {
    match reference {
        Some(h) => seq![h],
        None => Seq::empty(),
    }
}

/// The surface nodes that an ancestor stands for among the children of its
/// parent, in the order in which they stand.
pub open spec fn ancestor_flat<C: Component>(ancestor: Option<VNode<C>>) -> Seq<SurfaceHandle> {
    match ancestor {
        Some(a) => a.flat(),
        None => Seq::empty(),
    }
}

/// Whether a node that stood for `flat` among the children of `parent`, and for
/// nothing else there, has left them: wherever it stood, what was in front of it
/// is now followed by what was behind it.
pub open spec fn removed_from(
    before: SurfaceView,
    after: SurfaceView,
    parent: SurfaceHandle,
    flat: Seq<SurfaceHandle>,
) -> bool {
    forall|front: Seq<SurfaceHandle>, back: Seq<SurfaceHandle>|
        #[trigger] spliced(before.children(parent), front, flat, back) ==> after.children(parent)
            == front + back
}

/// Whether a node took the place of its ancestor among the children of
/// `parent`: wherever the ancestor stood, with `next_sibling` the anchor of what
/// was behind it, the node now stands between what was in front of the ancestor
/// and what was behind it.
pub open spec fn placed(
    before: SurfaceView,
    after: SurfaceView,
    parent: SurfaceHandle,
    next_sibling: Option<SurfaceHandle>,
    old_flat: Seq<SurfaceHandle>,
    new_flat: Seq<SurfaceHandle>,
) -> bool {
    forall|front: Seq<SurfaceHandle>, back: Seq<SurfaceHandle>|
        #[trigger] spliced(before.children(parent), front, old_flat, back) && anchored(
            next_sibling,
            back,
        ) ==> after.children(parent) == front + new_flat + back
}

/// What applying a node without outside references achieves for the order of
/// the surface, where the ancestor does not refer to `parent`: the node takes the
/// place of its ancestor among the children of `parent`; and if the children of
/// every element of the ancestor stood below it in their order, so do now those
/// of every element of the node.
pub open spec fn arranged<C: Component>(
    before: SurfaceView,
    after: SurfaceView,
    parent: SurfaceHandle,
    next_sibling: Option<SurfaceHandle>,
    ancestor: Option<VNode<C>>,
    new_flat: Seq<SurfaceHandle>,
    laid_out: bool,
) -> bool {
    &&& placed(before, after, parent, next_sibling, ancestor_flat(ancestor), new_flat)
    &&& (ancestor matches Some(a) ==> a.laid_out(before)) ==> laid_out
}

/// The first node of a list, if it has one.
pub open spec fn head(flat: Seq<SurfaceHandle>) -> Option<SurfaceHandle> {
    if flat.len() > 0 {
        Some(flat[0])
    } else {
        None
    }
}

/// The slots of the components that an ancestor has mounted, in the order in
/// which its nodes stand.
pub open spec fn ancestor_scopes<C: Component>(ancestor: Option<VNode<C>>) -> Seq<ScopeId> {
    match ancestor {
        Some(a) => a.scopes(),
        None => Seq::empty(),
    }
}

/// The surface nodes that an ancestor refers to.
pub open spec fn ancestor_nodes<C: Component>(ancestor: Option<VNode<C>>) -> Set<SurfaceHandle> {
    match ancestor {
        Some(a) => a.nodes(),
        None => Set::empty(),
    }
}

/// Whether an ancestor is fit to be reconciled with: it refers to nodes of the
/// surface, and to none of them twice. A node that was applied to the surface
/// before is so.
pub open spec fn reconcilable<C: Component>(
    ancestor: Option<VNode<C>>,
    surface: SurfaceView,
) -> bool {
    ancestor matches Some(a) ==> a.distinct() && forall|h: SurfaceHandle|
        #[trigger] a.nodes().contains(h) ==> surface.contains(h)
}

/// Whether each of `nodes` is one of `reused` or was created between `before` and `after`.
pub open spec fn drawn_from(
    nodes: Set<SurfaceHandle>,
    reused: Set<SurfaceHandle>,
    before: SurfaceView,
    after: SurfaceView,
) -> bool {
    forall|h: SurfaceHandle|
        #[trigger] nodes.contains(h) ==> reused.contains(h) || before.nodes.len() <= h
            < after.nodes.len()
}

/// What applying a node without outside references to a surface achieves: the
/// surface shows the node; the node refers to no surface node twice, and to none
/// but those of its ancestor and those created for it; and the surface is as it
/// was outside the nodes of the ancestor and the children of `parent`.
pub open spec fn reconciled(
    rendered: bool,
    distinct: bool,
    nodes: Set<SurfaceHandle>,
    reused: Set<SurfaceHandle>,
    before: SurfaceView,
    after: SurfaceView,
    parent: SurfaceHandle,
) -> bool {
    &&& rendered
    &&& distinct
    &&& drawn_from(nodes, reused, before, after)
    &&& before.preserved_outside(after, reused, parent)
}

/// Whether a node that asks for `description` asks for nothing but what the
/// surface shows already: the ancestor asked for the same, the surface shows it as
/// a child of `parent`, and every component below it is mounted. A node that holds
/// a reference to an outside node never does, as such a node is always inserted anew.
pub open spec fn already_shown<C: Component>(
    description: Description<C>,
    ref_free: bool,
    ancestor: Option<VNode<C>>,
    surface: SurfaceView,
    parent: SurfaceHandle,
) -> bool {
    &&& ref_free
    &&& ancestor matches Some(a)
    &&& a.description() == description
    &&& a.rendered(surface, parent)
    &&& a.distinct()
    &&& a.mounted()
}

/// The anchor that a node passes on to the sibling in front of it: its first
/// surface node, or the anchor it was given where it has none.
pub open spec fn anchor(
    first_node: Option<SurfaceHandle>,
    next_sibling: Option<SurfaceHandle>,
) -> Option<SurfaceHandle> {
    match first_node {
        Some(h) => Some(h),
        None => next_sibling,
    }
}

impl<C: Component> VNode<C> {
    /// The surface nodes that the node and the nodes below it refer to.
    pub open spec fn nodes(&self) -> Set<SurfaceHandle>
        decreases self,
    {
        match self {
            VNode::VTag(vtag) => vtag.nodes(),
            VNode::VText(vtext) => vtext.nodes(),
            VNode::VComp(vcomp) => vcomp.nodes(),
            VNode::VList(vlist) => vlist.nodes(),
            VNode::VRef(h) => set![*h],
        }
    }

    /// Whether no surface node is referred to twice by the node and the nodes below it.
    pub open spec fn distinct(&self) -> bool
        decreases self,
    {
        match self {
            VNode::VTag(vtag) => vtag.distinct(),
            VNode::VText(_) => true,
            VNode::VComp(vcomp) => vcomp.distinct(),
            VNode::VList(vlist) => vlist.distinct(),
            VNode::VRef(_) => true,
        }
    }

    /// Whether neither the node nor a node below it is a reference to an outside
    /// surface node.
    pub open spec fn ref_free(&self) -> bool
        decreases self,
    {
        match self {
            VNode::VTag(vtag) => vtag.ref_free(),
            VNode::VText(_) => true,
            VNode::VComp(_) => true,
            VNode::VList(vlist) => vlist.ref_free(),
            VNode::VRef(_) => false,
        }
    }

    /// Whether the node ends with a surface node of its own: it refers to one,
    /// or is a fragment whose last child ends with one.
    pub open spec fn ends(&self) -> bool
        decreases self,
    {
        match self {
            VNode::VTag(vtag) => vtag.reference.is_some(),
            VNode::VText(vtext) => vtext.reference.is_some(),
            VNode::VComp(vcomp) => vcomp.node_ref.is_some() && vcomp.end_ref.is_some(),
            VNode::VList(vlist) => vlist.ends(),
            VNode::VRef(_) => true,
        }
    }

    /// Whether every component asked for by the node or a node below it is mounted.
    pub open spec fn mounted(&self) -> bool
        decreases self,
    {
        match self {
            VNode::VTag(vtag) => vtag.children.mounted(),
            VNode::VText(_) => true,
            VNode::VComp(vcomp) => vcomp.scope.is_some(),
            VNode::VList(vlist) => vlist.mounted(),
            VNode::VRef(_) => true,
        }
    }

    /// Whether the surface shows the node, and the nodes below it, as a child of `parent`.
    pub open spec fn rendered(&self, surface: SurfaceView, parent: SurfaceHandle) -> bool
        decreases self,
    {
        match self {
            VNode::VTag(vtag) => vtag.rendered(surface, parent),
            VNode::VText(vtext) => vtext.rendered(surface, parent),
            VNode::VComp(vcomp) => vcomp.rendered(surface, parent),
            VNode::VList(vlist) => vlist.rendered(surface, parent),
            VNode::VRef(h) => surface.is_child(parent, *h),
        }
    }

    /// The surface nodes that the node itself stands for among the children of
    /// its parent, without those below them.
    pub open spec fn top_nodes(&self) -> Set<SurfaceHandle>
        decreases self,
    {
        match self {
            VNode::VTag(vtag) => vtag.top_nodes(),
            VNode::VText(vtext) => vtext.nodes(),
            VNode::VComp(vcomp) => vcomp.nodes(),
            VNode::VList(vlist) => vlist.top_nodes(),
            VNode::VRef(h) => set![*h],
        }
    }

    /// The surface nodes that the node stands for among the children of its
    /// parent, in the order in which they stand.
    pub open spec fn flat(&self) -> Seq<SurfaceHandle>
        decreases self,
    {
        match self {
            VNode::VTag(vtag) => listed(vtag.reference),
            VNode::VText(vtext) => listed(vtext.reference),
            VNode::VComp(vcomp) => vcomp.flat(),
            VNode::VList(vlist) => vlist.flat(),
            VNode::VRef(h) => seq![*h],
        }
    }

    /// Whether the surface holds below each element of the node exactly the
    /// nodes that the children of the element stand for, in their order.
    pub open spec fn laid_out(&self, surface: SurfaceView) -> bool
        decreases self,
    {
        match self {
            VNode::VTag(vtag) => vtag.laid_out(surface),
            VNode::VText(_) => true,
            VNode::VComp(_) => true,
            VNode::VList(vlist) => vlist.laid_out(surface),
            VNode::VRef(_) => true,
        }
    }

    /// The slots of the components mounted by the node and the nodes below it,
    /// in the order in which the nodes stand.
    pub open spec fn scopes(&self) -> Seq<ScopeId>
        decreases self,
    {
        match self {
            VNode::VTag(vtag) => vtag.children.scopes(),
            VNode::VText(_) => Seq::empty(),
            VNode::VComp(vcomp) => vcomp.scopes(),
            VNode::VList(vlist) => vlist.scopes(),
            VNode::VRef(_) => Seq::empty(),
        }
    }

    /// Whether the node and the nodes below it hold nothing that applying them
    /// leaves: no reference to the surface, and no scope of a mounted component.
    pub open spec fn unapplied(&self) -> bool
        decreases self,
    {
        match self {
            VNode::VTag(vtag) => vtag.unapplied(),
            VNode::VText(vtext) => vtext.reference.is_none(),
            VNode::VComp(vcomp) => vcomp.unapplied(),
            VNode::VList(vlist) => vlist.unapplied(),
            VNode::VRef(_) => true,
        }
    }

    /// The first surface node of the node, if it has one.
    pub open spec fn first_node(&self) -> Option<SurfaceHandle>
        decreases self,
    {
        match self {
            VNode::VTag(vtag) => vtag.reference,
            VNode::VText(vtext) => vtext.reference,
            VNode::VComp(vcomp) => vcomp.node_ref,
            VNode::VList(vlist) => vlist.first_node(),
            VNode::VRef(h) => Some(*h),
        }
    }

    /// What the node asks for.
    pub open spec fn description(&self) -> Description<C>
        decreases self, 0nat,
    {
        match self {
            VNode::VTag(vtag) => vtag.description(),
            VNode::VText(vtext) => vtext.description(),
            VNode::VComp(vcomp) => vcomp.description(),
            VNode::VList(vlist) => vlist.description(),
            VNode::VRef(h) => Description::Ref { node: *h },
        }
    }

    /// The key of the node, if it has one.
    pub fn key(&self) -> (key: Option<&crate::virtual_dom::key::Key>)
        ensures
            match *self {
                VNode::VComp(vcomp) => match key {
                    Some(k) => vcomp.key == Some(*k),
                    None => vcomp.key.is_none(),
                },
                _ => key.is_none(),
            },
    {
        match self {
            VNode::VComp(vcomp) => match &vcomp.key {
                Some(key) => Some(key),
                None => None,
            },
            _ => None,
        }
    }

    /// The first surface node of the node, if it has one.
    #[verifier::loop_isolation(false)]
    pub fn first(&self) -> (first: Option<SurfaceHandle>)
        ensures
            first == self.first_node(),
        decreases self,
    {
        match self {
            VNode::VTag(vtag) => vtag.reference,
            VNode::VText(vtext) => vtext.reference,
            VNode::VComp(vcomp) => vcomp.node_ref,
            VNode::VList(vlist) => {
                let mut i: usize = 0;
                while i < vlist.children.len()
                    invariant
                        i <= vlist.children@.len(),
                        VList::first_node_from(vlist.children@, 0) == VList::first_node_from(
                            vlist.children@,
                            i as int,
                        ),
                    decreases vlist.children@.len() - i,
                {
                    if let Some(h) = vlist.children[i].first() {
                        assert(VList::first_node_from(vlist.children@, i as int) == Some(h));
                        assert(self.first_node() == vlist.first_node());
                        return Some(h);
                    }
                    i += 1;
                }
                assert(self.first_node() == vlist.first_node());
                None
            },
            VNode::VRef(h) => Some(*h),
        }
    }

    /// A node that the surface shows is still shown after a change that left its
    /// surface nodes as they were.
    pub proof fn lemma_rendered_kept(&self, before: SurfaceView, after: SurfaceView, parent: SurfaceHandle)
        requires
            self.rendered(before, parent),
            forall|h: SurfaceHandle| #[trigger] self.nodes().contains(h) ==> before.shown_alike(after, h),
        ensures
            self.rendered(after, parent),
        decreases self,
    {
        match self {
            VNode::VTag(vtag) => {
                assert(self.nodes() == vtag.nodes());
                assert(vtag.rendered(before, parent));
                vtag.lemma_rendered_kept(before, after, parent);
                assert(vtag.rendered(after, parent));
                assert(self.rendered(after, parent) == vtag.rendered(after, parent));
            },
            VNode::VText(vtext) => {
                assert(self.nodes() == vtext.nodes());
                assert(self.nodes().contains(vtext.reference.unwrap()));
            },
            VNode::VComp(vcomp) => {
                assert(self.nodes() == vcomp.nodes());
                assert(self.nodes().contains(vcomp.node_ref.unwrap()));
                assert(self.nodes().contains(vcomp.end_ref.unwrap()));
            },
            VNode::VList(vlist) => {
                assert(self.nodes() == vlist.nodes());
                vlist.lemma_rendered_kept(before, after, parent);
            },
            VNode::VRef(h) => {
                assert(self.nodes().contains(*h));
            },
        }
    }

    /// The first surface node of a node that the surface shows is the first of
    /// those that it stands for.
    pub proof fn lemma_first_node(&self, surface: SurfaceView, parent: SurfaceHandle)
        requires
            self.rendered(surface, parent),
        ensures
            self.first_node() == head(self.flat()),
        decreases self,
    {
        match self {
            VNode::VList(vlist) => {
                vlist.lemma_first_node(surface, parent, 0);
            },
            _ => {},
        }
    }

    /// A node whose elements hold their children in order still does after a
    /// change that left the children of its surface nodes as they were.
    pub proof fn lemma_laid_out_kept(&self, before: SurfaceView, after: SurfaceView)
        requires
            self.laid_out(before),
            forall|h: SurfaceHandle|
                #[trigger] self.nodes().contains(h) ==> after.children(h) == before.children(h),
        ensures
            self.laid_out(after),
        decreases self,
    {
        match self {
            VNode::VTag(vtag) => {
                assert(self.nodes() == vtag.nodes());
                vtag.lemma_laid_out_kept(before, after);
            },
            VNode::VList(vlist) => {
                assert(self.nodes() == vlist.nodes());
                vlist.lemma_laid_out_kept(before, after);
            },
            _ => {},
        }
    }

    /// A node that the surface shows refers to nodes of the surface only.
    pub proof fn lemma_rendered_contained(&self, surface: SurfaceView, parent: SurfaceHandle)
        requires
            self.rendered(surface, parent),
        ensures
            forall|h: SurfaceHandle| #[trigger] self.nodes().contains(h) ==> surface.contains(h),
        decreases self,
    {
        match self {
            VNode::VTag(vtag) => {
                assert(self.nodes() == vtag.nodes());
                vtag.lemma_rendered_contained(surface, parent);
            },
            VNode::VText(vtext) => {
                assert(self.nodes() == vtext.nodes());
            },
            VNode::VComp(vcomp) => {
                assert(self.nodes() == vcomp.nodes());
            },
            VNode::VList(vlist) => {
                assert(self.nodes() == vlist.nodes());
                vlist.lemma_rendered_contained(surface, parent);
            },
            VNode::VRef(h) => {},
        }
    }

    /// Takes every surface node that the node owns out of `parent`, and ends the
    /// components mounted below it. Returns the node that followed the last node
    /// taken out.
    pub fn detach(
        &mut self,
        surface: &mut Surface,
        scheduler: &mut Scheduler<C>,
        parent: SurfaceHandle,
    ) -> (next: Option<SurfaceHandle>)
        requires
            old(surface).wf(),
        ensures
            detached(
                old(surface)@,
                final(surface)@,
                old(scheduler)@,
                final(scheduler)@,
                old(self).nodes(),
                old(self).top_nodes(),
                old(self).scopes(),
                old(self).rendered(old(surface)@, parent) && old(self).distinct(),
                parent,
            ),
            final(self).unapplied(),
            final(self).description() == old(self).description(),
            old(surface)@.contains(parent) && !old(self).nodes().contains(parent) ==> removed_from(
                old(surface)@,
                final(surface)@,
                parent,
                old(self).flat(),
            ),
            old(surface)@.contains(parent) && !old(self).nodes().contains(parent) && old(
                self,
            ).distinct() && old(self).ends() ==> followed(
                old(surface)@,
                parent,
                old(self).flat(),
                next,
            ),
            *old(self) matches VNode::VText(vtext) ==> final(surface)@ == old(surface)@.without(
                parent,
                vtext.reference,
            ) && next == old(surface)@.next_sibling_in(parent, vtext.reference),
            *old(self) matches VNode::VRef(h) ==> final(surface)@ == old(surface)@.without(
                parent,
                Some(h),
            ) && next == old(surface)@.next_sibling_in(parent, Some(h)),
            *old(self) matches VNode::VComp(vcomp) ==> final(surface)@ == old(surface)@.without(
                parent,
                vcomp.node_ref,
            ).without(parent, vcomp.end_ref) && next == old(surface)@.without(
                parent,
                vcomp.node_ref,
            ).next_sibling_in(parent, vcomp.end_ref),
            *old(self) matches VNode::VTag(vtag) ==> (old(surface)@.contains(parent)
                && !vtag.nodes().contains(parent) && vtag.distinct() ==> next == old(
                surface,
            )@.next_sibling_in(parent, vtag.reference)),
        decreases *old(self),
    {
        proof {
            old(scheduler)@.lemma_destroys_one(0);
            old(scheduler)@.lemma_destroys_extend(old(self).scopes());
            match *old(self) {
                VNode::VComp(vcomp) => {
                    if vcomp.scope.is_some() {
                        old(scheduler)@.lemma_destroys_one(vcomp.scope.unwrap().id);
                    }
                    assert(old(self).nodes() == vcomp.nodes());
                    assert(old(self).top_nodes() == vcomp.nodes());
                },
                VNode::VText(vtext) => {
                    assert(old(self).nodes() == vtext.nodes());
                    assert(old(self).top_nodes() == vtext.nodes());
                    if old(surface)@.contains(parent) {
                        Self::lemma_one_removed(old(surface)@, parent, vtext.reference);
                        if vtext.reference.is_some() {
                            Self::lemma_one_followed(old(surface)@, parent, vtext.reference);
                        }
                    }
                },
                VNode::VRef(h) => {
                    if old(surface)@.contains(parent) {
                        Self::lemma_one_removed(old(surface)@, parent, Some(h));
                        Self::lemma_one_followed(old(surface)@, parent, Some(h));
                    }
                },
                VNode::VTag(vtag) => {
                    assert(old(self).nodes() == vtag.nodes());
                    assert(old(self).top_nodes() == vtag.top_nodes());
                    if old(surface)@.contains(parent) {
                        if vtag.reference.is_some() {
                            Self::lemma_one_followed(old(surface)@, parent, vtag.reference);
                        }
                    }
                },
                VNode::VList(vlist) => {
                    assert(old(self).nodes() == vlist.nodes());
                    assert(old(self).top_nodes() == vlist.top_nodes());
                },
            }
        }
        match self {
            VNode::VTag(vtag) => vtag.detach(surface, scheduler, parent),
            VNode::VText(vtext) => vtext.detach(surface, parent),
            VNode::VComp(vcomp) => vcomp.detach(surface, scheduler, parent),
            VNode::VList(vlist) => vlist.detach(surface, scheduler, parent),
            VNode::VRef(h) => {
                proof {
                    surface@.lemma_without_frame(parent, Some(*h));
                }
                surface.remove(parent, *h)
            },
        }
    }

    /// The node that follows the one node that a reference refers to is what
    /// followed it wherever it stood.
    pub proof fn lemma_one_followed(
        surface: SurfaceView,
        parent: SurfaceHandle,
        reference: Option<SurfaceHandle>,
    )
        requires
            surface.wf(),
            surface.contains(parent),
            reference.is_some(),
        ensures
            followed(
                surface,
                parent,
                listed(reference),
                surface.next_sibling_in(parent, reference),
            ),
    {
        assert forall|front: Seq<SurfaceHandle>, back: Seq<SurfaceHandle>| #[trigger]
            spliced(surface.children(parent), front, listed(reference), back) implies anchored(
            surface.next_sibling_in(parent, reference),
            back,
        ) by {
            surface.lemma_next_in_middle(parent, reference.unwrap(), front, back);
        }
    }

    /// Taking the one node that a reference refers to out of `parent` takes it
    /// out from wherever it stood.
    pub proof fn lemma_one_removed(
        surface: SurfaceView,
        parent: SurfaceHandle,
        reference: Option<SurfaceHandle>,
    )
        requires
            surface.wf(),
            surface.contains(parent),
        ensures
            removed_from(surface, surface.without(parent, reference), parent, listed(reference)),
    {
        assert forall|front: Seq<SurfaceHandle>, back: Seq<SurfaceHandle>| #[trigger]
            spliced(
                surface.children(parent),
                front,
                listed(reference),
                back,
            ) implies surface.without(parent, reference).children(parent) == front + back by {
            match reference {
                Some(h) => {
                    surface.lemma_without_middle(parent, h, front, back);
                },
                None => {
                    assert(front + Seq::<SurfaceHandle>::empty() + back =~= front + back);
                },
            }
        }
    }

    /// The nodes that a node stands for among the children of its parent are
    /// among the nodes that it refers to.
    pub proof fn lemma_top_nodes(&self)
        ensures
            self.top_nodes().subset_of(self.nodes()),
        decreases self,
    {
        match self {
            VNode::VTag(vtag) => {},
            VNode::VText(_) => {},
            VNode::VComp(_) => {},
            VNode::VList(vlist) => {
                vlist.lemma_top_nodes();
            },
            VNode::VRef(_) => {},
        }
    }

    /// Takes an ancestor that is not reused out of `parent`.
    pub fn detach_ancestor(
        ancestor: Option<VNode<C>>,
        surface: &mut Surface,
        scheduler: &mut Scheduler<C>,
        parent: SurfaceHandle,
    )
        requires
            old(surface).wf(),
        ensures
            kept(old(surface)@, final(surface)@, ancestor_nodes(ancestor), parent),
            final(surface)@.nodes.len() == old(surface)@.nodes.len(),
            old(scheduler)@.extends_to(final(scheduler)@),
            ancestor.is_none() ==> final(surface)@ == old(surface)@ && final(scheduler)@ == old(scheduler)@,
            final(scheduler)@ == old(scheduler)@.pushed_all(
                SchedulerView::<C>::destroys(ancestor_scopes(ancestor)),
            ),
            old(scheduler)@.reconciles(
                final(scheduler)@,
                ancestor_scopes(ancestor).to_set(),
                Set::empty(),
            ),
            ancestor matches Some(node) ==> detached(
                old(surface)@,
                final(surface)@,
                old(scheduler)@,
                final(scheduler)@,
                node.nodes(),
                node.top_nodes(),
                node.scopes(),
                node.rendered(old(surface)@, parent) && node.distinct(),
                parent,
            ),
            old(surface)@.contains(parent) && !ancestor_nodes(ancestor).contains(parent)
                ==> removed_from(old(surface)@, final(surface)@, parent, ancestor_flat(ancestor)),
    {
        proof {
            if old(surface)@.contains(parent) {
                Self::lemma_one_removed(old(surface)@, parent, None);
            }
            old(scheduler)@.lemma_reconciles_destroys(ancestor_scopes(ancestor));
        }
        match ancestor {
            Some(node) => {
                let mut node = node;
                node.detach(surface, scheduler, parent);
            },
            None => {},
        }
    }

    /// What of its ancestor a node kept when it was applied, by its kind.
    ///
    /// A text keeps the text node of an ancestor that is a text shown below
    /// `parent`, and gives it the new text; an element keeps the element of an
    /// ancestor of the same tag; a component keeps the mounted component and the
    /// fences of an ancestor of the same type and key, hands it the new
    /// properties, and leaves the surface as it is. A node that keeps nothing has
    /// its ancestor detached first, and then gets the node that is created next,
    /// inserted in front of `next_sibling`: a component gets the next two, its last
    /// fence first, and its first fence in front of the last.
    #[verifier::opaque]
    pub open spec fn reused(
        &self,
        after: VNode<C>,
        ancestor: Option<VNode<C>>,
        surface: SurfaceView,
        shown: SurfaceView,
        waiting: SchedulerView<C>,
        submitted: SchedulerView<C>,
        parent: SurfaceHandle,
        next_sibling: Option<SurfaceHandle>,
        first: Option<SurfaceHandle>,
    ) -> bool {
        match *self {
            VNode::VText(vtext) => {
                &&& after matches VNode::VText(shown_text)
                &&& shown_text.reference == first
                &&& match VText::reusable(ancestor, surface, parent) {
                    Some(h) => first == Some(h) && shown == surface.with_text(h, vtext.text@)
                        && submitted == waiting,
                    None => first == Some(surface.nodes.len() as SurfaceHandle) && exists|
                        cleared: SurfaceView,
                    |
                        #[trigger] ancestor_detached(
                            ancestor,
                            surface,
                            cleared,
                            waiting,
                            submitted,
                            parent,
                        ) && shown == cleared.added_text(parent, vtext.text@, next_sibling),
                }
            },
            VNode::VTag(vtag) => {
                &&& after matches VNode::VTag(shown_tag)
                &&& shown_tag.reference == first
                &&& first == Some(
                    match VTag::reusable(vtag.tag@, ancestor, surface, parent) {
                        Some(h) => h,
                        None => surface.nodes.len() as SurfaceHandle,
                    },
                )
            },
            VNode::VComp(vcomp) => {
                &&& after matches VNode::VComp(mounted)
                &&& mounted.node_ref == first
                &&& match VComp::reusable(vcomp.type_id, vcomp.key, ancestor, surface, parent) {
                    Some((scope, first_fence, last_fence)) => {
                        &&& mounted.scope == Some(scope)
                        &&& mounted.node_ref == Some(first_fence)
                        &&& mounted.end_ref == Some(last_fence)
                        &&& shown == surface
                        &&& submitted == waiting.pushed(
                            crate::scheduler::ComponentRunnable {
                                scope: scope.id,
                                task: crate::scheduler::ComponentTask::Update(
                                    crate::scheduler::UpdateTask::Properties(
                                        vcomp.props,
                                        Some(last_fence),
                                    ),
                                ),
                            },
                        )
                    },
                    None => {
                        &&& mounted.end_ref == Some(surface.nodes.len() as SurfaceHandle)
                        &&& mounted.node_ref == Some((surface.nodes.len() + 1) as SurfaceHandle)
                        &&& shown.nodes.len() == surface.nodes.len() + 2
                        &&& exists|cleared: SurfaceView, emptied: SchedulerView<C>|
                            #[trigger] ancestor_detached(
                                ancestor,
                                surface,
                                cleared,
                                waiting,
                                emptied,
                                parent,
                            ) && shown == cleared.added_text(
                                parent,
                                Seq::empty(),
                                next_sibling,
                            ).added_text(parent, Seq::empty(), mounted.end_ref)
                    },
                }
            },
            _ => true,
        }
    }

    /// What applying the node makes of the node, of the surface and of the scheduler.
    ///
    /// The surface stays well formed and loses no node. The scheduler gets
    /// tasks that create, update and destroy components, and no others: each
    /// component that the node holds afterwards is a new one, whose creation and
    /// first update wait, or one of the ancestor, which was handed new properties;
    /// and each component of the ancestor that the node does not hold was told to
    /// end. The node
    /// asks for what it asked for before, and has mounted every component that it
    /// asks for, unless the scheduler ran out of scopes. For a node without outside
    /// references and an ancestor that refers to nodes of the surface, and to none
    /// twice: the surface shows the node; the node refers to no surface node twice
    /// and to none but those of its ancestor and those made for it; nothing of the
    /// surface changed outside the nodes of the ancestor and the children of
    /// `parent`; and `first` is the first surface node of the node, or
    /// `next_sibling` where it has none. Where the ancestor asked for the same as the
    /// node and the surface showed it, the surface is as it was. Where the ancestor
    /// does not refer to `parent`, the node stands where the ancestor stood. A
    /// What the node kept of its ancestor is what its kind keeps; the children of a
    /// fragment or an element were applied place by place, each with the ancestor
    /// at its place. A
    /// fragment without children that has siblings holds its place with one empty
    /// text node. An outside node is inserted as it is, once its ancestor was
    /// detached, unless it cannot stand below `parent`.
    pub open spec fn applied(
        &self,
        after: VNode<C>,
        ancestor: Option<VNode<C>>,
        surface: SurfaceView,
        shown: SurfaceView,
        waiting: SchedulerView<C>,
        submitted: SchedulerView<C>,
        parent: SurfaceHandle,
        next_sibling: Option<SurfaceHandle>,
        first: Option<SurfaceHandle>,
    ) -> bool
        decreases self, 2nat,
    {
        &&& shown.wf()
        &&& surface.evolves_to(shown)
        &&& self.reused(
            after,
            ancestor,
            surface,
            shown,
            waiting,
            submitted,
            parent,
            next_sibling,
            first,
        )
        &&& *self matches VNode::VList(vlist) ==> after matches VNode::VList(shown_list)
            && vlist.placewise(
            shown_list,
            ancestor,
            surface,
            shown,
            waiting,
            submitted,
            parent,
            next_sibling,
            first,
        )
        &&& *self matches VNode::VTag(vtag) ==> after matches VNode::VTag(shown_tag)
            && vtag.children_applied(
            *shown_tag,
            ancestor,
            surface,
            shown,
            waiting,
            submitted,
            parent,
            next_sibling,
        )
        &&& waiting.extends_to(submitted)
        &&& waiting.reconciles(submitted, ancestor_scopes(ancestor).to_set(), after.scopes().to_set())
        &&& after.description() == self.description()
        &&& submitted.scopes < usize::MAX ==> after.mounted()
        &&& self.ref_free() && reconcilable(ancestor, surface) ==> reconciled(
            after.rendered(shown, parent),
            after.distinct(),
            after.nodes(),
            ancestor_nodes(ancestor),
            surface,
            shown,
            parent,
        ) && first == anchor(after.first_node(), next_sibling)
        &&& already_shown(self.description(), self.ref_free(), ancestor, surface, parent) ==> shown
            == surface
        &&& self.ref_free() && reconcilable(ancestor, surface) && !ancestor_nodes(ancestor).contains(
            parent,
        ) ==> arranged(
            surface,
            shown,
            parent,
            next_sibling,
            ancestor,
            after.flat(),
            after.laid_out(shown),
        )
        &&& *self matches VNode::VList(vlist) ==> (vlist.children@.len() == 0 && !vlist.no_siblings
            ==> (after is VList && VList::holds_place(
            after->VList_0.children@,
            shown,
            parent,
            first,
        )))
        &&& *self matches VNode::VRef(h) ==> after == *self && exists|cleared: SurfaceView|
            {
                &&& #[trigger] ancestor_detached(
                    ancestor,
                    surface,
                    cleared,
                    waiting,
                    submitted,
                    parent,
                )
                &&& shown == (if cleared.can_insert(parent, h) {
                    cleared.inserted(parent, h, next_sibling)
                } else {
                    cleared
                })
                &&& first == (if cleared.can_insert(parent, h) {
                    Some(h)
                } else {
                    next_sibling
                })
            }
    }

    /// Makes the surface show the node as a child of `parent`, in front of
    /// `next_sibling`.
    ///
    /// What the ancestor left in the surface is reused where the two nodes are of
    /// one kind and identity: an element of the same tag is kept and given the new
    /// attributes and listeners, a text node is kept and given the new text, a
    /// component of the same type and key is kept and handed the new properties.
    /// The children of a node are reconciled place by place with those of its
    /// ancestor. An ancestor that cannot be reused is detached, and the node is
    /// made anew. A reference to an outside node is never reused: its ancestor is
    /// detached and the node is inserted.
    ///
    /// Returns the anchor for the sibling in front: the first surface node of the
    /// node, or `next_sibling` where the node has none.
    pub fn apply(
        &mut self,
        surface: &mut Surface,
        scheduler: &mut Scheduler<C>,
        parent_scope: &Rc<AnyScope>,
        parent: SurfaceHandle,
        next_sibling: Option<SurfaceHandle>,
        ancestor: Option<VNode<C>>,
    ) -> (first: Option<SurfaceHandle>)
        requires
            old(surface).wf(),
            old(surface)@.is_element(parent),
        ensures
            old(self).applied(
                *final(self),
                ancestor,
                old(surface)@,
                final(surface)@,
                old(scheduler)@,
                final(scheduler)@,
                parent,
                next_sibling,
                first,
            ),
        decreases *old(self),
    {
        proof {
            reveal(VNode::reused);
        }
        match self {
            VNode::VTag(vtag) => {
                let first = vtag.apply(
                    surface,
                    scheduler,
                    parent_scope,
                    parent,
                    next_sibling,
                    ancestor,
                );
                proof {
                    assert(old(self).reused(
                        *self,
                        ancestor,
                        old(surface)@,
                        surface@,
                        old(scheduler)@,
                        scheduler@,
                        parent,
                        next_sibling,
                        first,
                    ));
                    assert(old(self)->VTag_0.children_applied(
                        *self->VTag_0,
                        ancestor,
                        old(surface)@,
                        surface@,
                        old(scheduler)@,
                        scheduler@,
                        parent,
                        next_sibling,
                    ));
                    assert(old(self).nodes() == old(self)->VTag_0.nodes());
                    assert(self.nodes() == self->VTag_0.nodes());
                    assert(self.description() == old(self).description());
                }
                first
            },
            VNode::VText(vtext) => {
                let first = vtext.apply(surface, scheduler, parent, next_sibling, ancestor);
                proof {
                    assert(old(self).reused(
                        *self,
                        ancestor,
                        old(surface)@,
                        surface@,
                        old(scheduler)@,
                        scheduler@,
                        parent,
                        next_sibling,
                        first,
                    ));
                }
                first
            },
            VNode::VComp(vcomp) => {
                let first = vcomp.apply(
                    surface,
                    scheduler,
                    parent_scope,
                    parent,
                    next_sibling,
                    ancestor,
                );
                proof {
                    assert(old(self).reused(
                        *self,
                        ancestor,
                        old(surface)@,
                        surface@,
                        old(scheduler)@,
                        scheduler@,
                        parent,
                        next_sibling,
                        first,
                    ));
                }
                first
            },
            VNode::VList(vlist) => {
                let first = vlist.apply(
                    surface,
                    scheduler,
                    parent_scope,
                    parent,
                    next_sibling,
                    ancestor,
                );
                proof {
                    assert(old(self).reused(
                        *self,
                        ancestor,
                        old(surface)@,
                        surface@,
                        old(scheduler)@,
                        scheduler@,
                        parent,
                        next_sibling,
                        first,
                    ));
                    assert(old(self)->VList_0.placewise(
                        self->VList_0,
                        ancestor,
                        old(surface)@,
                        surface@,
                        old(scheduler)@,
                        scheduler@,
                        parent,
                        next_sibling,
                        first,
                    ));
                }
                first
            },
            VNode::VRef(h) => {
                let ghost start = surface@;
                Self::detach_ancestor(ancestor, surface, scheduler, parent);
                let ghost middle = surface@;
                let done = surface.insert_before(parent, *h, next_sibling);
                proof {
                    assert(ancestor_detached(
                        ancestor,
                        start,
                        middle,
                        old(scheduler)@,
                        scheduler@,
                        parent,
                    ));
                    if done {
                        middle.lemma_inserted_wf(parent, *h, next_sibling);
                        assert(middle.evolves_to(surface@)) by {
                            middle.lemma_unlinked_wf(*h);
                        }
                    }
                    start.lemma_evolves_twice(middle, surface@);
                }
                if done {
                    Some(*h)
                } else {
                    next_sibling
                }
            },
        }
    }
}


/// Applying a node against itself changes nothing.
///
/// A node without outside references is applied to the surface, with no
/// ancestor; the scheduler has scopes left then. A second node that asks for the
/// same is applied with the first as its ancestor. The surface after the second
/// time is the surface after the first: no node was created, moved or taken out,
/// and no content was written.
pub proof fn lemma_diff_against_itself_changes_nothing<C: Component>(
    node: VNode<C>,
    applied: VNode<C>,
    again: VNode<C>,
    applied_again: VNode<C>,
    surface: SurfaceView,
    shown: SurfaceView,
    shown_again: SurfaceView,
    waiting: SchedulerView<C>,
    submitted: SchedulerView<C>,
    submitted_again: SchedulerView<C>,
    parent: SurfaceHandle,
    next_sibling: Option<SurfaceHandle>,
    next_sibling_again: Option<SurfaceHandle>,
    first: Option<SurfaceHandle>,
    first_again: Option<SurfaceHandle>,
)
    requires
        node.ref_free(),
        again.ref_free(),
        again.description() == node.description(),
        node.applied(
            applied,
            None,
            surface,
            shown,
            waiting,
            submitted,
            parent,
            next_sibling,
            first,
        ),
        submitted.scopes < usize::MAX,
        again.applied(
            applied_again,
            Some(applied),
            shown,
            shown_again,
            submitted,
            submitted_again,
            parent,
            next_sibling_again,
            first_again,
        ),
    ensures
        shown_again == shown,
        shown_again.patches == shown.patches,
{
    assert(reconcilable(None::<VNode<C>>, surface));
    assert(already_shown(again.description(), again.ref_free(), Some(applied), shown, parent));
}

/// A fragment that has siblings and loses its children keeps its place.
///
/// A fragment without children that has siblings is applied where its
/// ancestor stood between `front` and `back` among the children of `parent`, with
/// `next_sibling` the anchor of `back`. Afterwards the fragment holds one child, an
/// empty text node, and the children of `parent` are `front`, then that one node,
/// then `back`.
pub proof fn lemma_empty_list_keeps_its_place<C: Component>(
    list: VList<C>,
    applied: VNode<C>,
    ancestor: Option<VNode<C>>,
    surface: SurfaceView,
    shown: SurfaceView,
    waiting: SchedulerView<C>,
    submitted: SchedulerView<C>,
    parent: SurfaceHandle,
    next_sibling: Option<SurfaceHandle>,
    first: Option<SurfaceHandle>,
    front: Seq<SurfaceHandle>,
    back: Seq<SurfaceHandle>,
)
    requires
        list.children@.len() == 0,
        !list.no_siblings,
        reconcilable(ancestor, surface),
        !ancestor_nodes(ancestor).contains(parent),
        spliced(surface.children(parent), front, ancestor_flat(ancestor), back),
        anchored(next_sibling, back),
        VNode::VList(list).applied(
            applied,
            ancestor,
            surface,
            shown,
            waiting,
            submitted,
            parent,
            next_sibling,
            first,
        ),
    ensures
        applied is VList,
        VList::holds_place(applied->VList_0.children@, shown, parent, first),
        first is Some,
        shown.children(parent) == front + seq![first->0] + back,
{
    let node = VNode::VList(list);
    assert(node.ref_free());
    let shown_list = applied->VList_0;
    assert(applied.flat() == shown_list.flat());
    assert(VList::flat_between(shown_list.children@, 0, 0) =~= Seq::empty());
    assert(shown_list.flat() =~= seq![first->0]) by {
        assert(shown_list.children@[0].flat() == seq![first->0]);
        assert(Seq::<SurfaceHandle>::empty() + shown_list.children@[0].flat()
            =~= shown_list.children@[0].flat());
    }
}

impl<C: Component> From<VText> for VNode<C> {
    fn from(vtext: VText) -> (node: VNode<C>) {
        VNode::VText(vtext)
    }
}

impl<C: Component> FromSpecImpl<VText> for VNode<C> {
    open spec fn obeys_from_spec() -> bool {
        true
    }

    open spec fn from_spec(vtext: VText) -> VNode<C> {
        VNode::VText(vtext)
    }
}

impl<C: Component> From<VList<C>> for VNode<C> {
    fn from(vlist: VList<C>) -> (node: VNode<C>) {
        VNode::VList(vlist)
    }
}

impl<C: Component> FromSpecImpl<VList<C>> for VNode<C> {
    open spec fn obeys_from_spec() -> bool {
        true
    }

    open spec fn from_spec(vlist: VList<C>) -> VNode<C> {
        VNode::VList(vlist)
    }
}

impl<C: Component> From<VTag<C>> for VNode<C> {
    fn from(vtag: VTag<C>) -> (node: VNode<C>) {
        VNode::VTag(Box::new(vtag))
    }
}

impl<C: Component> FromSpecImpl<VTag<C>> for VNode<C> {
    open spec fn obeys_from_spec() -> bool {
        true
    }

    open spec fn from_spec(vtag: VTag<C>) -> VNode<C> {
        VNode::VTag(Box::new(vtag))
    }
}

impl<C: Component> From<VComp<C>> for VNode<C> {
    fn from(vcomp: VComp<C>) -> (node: VNode<C>) {
        VNode::VComp(vcomp)
    }
}

impl<C: Component> FromSpecImpl<VComp<C>> for VNode<C> {
    open spec fn obeys_from_spec() -> bool {
        true
    }

    open spec fn from_spec(vcomp: VComp<C>) -> VNode<C> {
        VNode::VComp(vcomp)
    }
}

impl<C: Component> From<VChild<C>> for VNode<C> {
    fn from(vchild: VChild<C>) -> (node: VNode<C>) {
        VNode::VComp(vchild.into_vcomp())
    }
}

impl<C: Component> FromSpecImpl<VChild<C>> for VNode<C> {
    open spec fn obeys_from_spec() -> bool {
        true
    }

    open spec fn from_spec(vchild: VChild<C>) -> VNode<C> {
        VNode::VComp(VComp::asked_by(vchild))
    }
}

} // verus!
