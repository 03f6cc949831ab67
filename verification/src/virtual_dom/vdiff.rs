//! What every kind of virtual node can do: leave the surface, and be shown by it.

use crate::component::Component;
use crate::html::scope::AnyScope;
use crate::scheduler::Scheduler;
use crate::surface::{Surface, SurfaceHandle};
use crate::virtual_dom::vcomp::VComp;
use crate::virtual_dom::vlist::VList;
use crate::virtual_dom::vnode::{detached, followed, removed_from, VNode};
use crate::virtual_dom::vtag::VTag;
use crate::virtual_dom::vtext::VText;
use std::rc::Rc;
use vstd::prelude::*;

verus! {

/// The two operations of the engine, on any kind of virtual node.
pub trait VDiff<C: Component>: Sized {
    /// The node, as a virtual node of any kind.
    spec fn node(&self) -> VNode<C>;

    /// Takes every surface node that the node owns out of `parent`, and ends
    /// the components mounted below it. Returns the node that followed the last
    /// node taken out.
    fn detach(
        &mut self,
        surface: &mut Surface,
        scheduler: &mut Scheduler<C>,
        parent: SurfaceHandle,
    ) -> (next: Option<SurfaceHandle>)
        requires
            old(surface).wf(),
        ensures
            detached(
                old(surface)@,
                final(surface)@,
                old(scheduler)@,
                final(scheduler)@,
                old(self).node().nodes(),
                old(self).node().top_nodes(),
                old(self).node().scopes(),
                old(self).node().rendered(old(surface)@, parent) && old(self).node().distinct(),
                parent,
            ),
            final(self).node().unapplied(),
            final(self).node().description() == old(self).node().description(),
            old(surface)@.contains(parent) && !old(self).node().nodes().contains(parent)
                ==> removed_from(
                old(surface)@,
                final(surface)@,
                parent,
                old(self).node().flat(),
            ),
            old(surface)@.contains(parent) && !old(self).node().nodes().contains(parent) && old(
                self,
            ).node().distinct() && old(self).node().ends() ==> followed(
                old(surface)@,
                parent,
                old(self).node().flat(),
                next,
            ),
    ;

    /// Makes the surface show the node as a child of `parent`, in front of
    /// `next_sibling`, reusing what `ancestor` left there. Returns the anchor for
    /// the sibling in front.
    fn apply(
        &mut self,
        surface: &mut Surface,
        scheduler: &mut Scheduler<C>,
        parent_scope: &Rc<AnyScope>,
        parent: SurfaceHandle,
        next_sibling: Option<SurfaceHandle>,
        ancestor: Option<VNode<C>>,
    ) -> (first: Option<SurfaceHandle>)
        requires
            old(surface).wf(),
            old(surface)@.is_element(parent),
        ensures
            old(self).node().applied(
                final(self).node(),
                ancestor,
                old(surface)@,
                final(surface)@,
                old(scheduler)@,
                final(scheduler)@,
                parent,
                next_sibling,
                first,
            ),
    ;
}

impl<C: Component> VDiff<C> for VNode<C> {
    open spec fn node(&self) -> VNode<C> {
        *self
    }

    fn detach(
        &mut self,
        surface: &mut Surface,
        scheduler: &mut Scheduler<C>,
        parent: SurfaceHandle,
    ) -> (next: Option<SurfaceHandle>) {
        VNode::detach(self, surface, scheduler, parent)
    }

    fn apply(
        &mut self,
        surface: &mut Surface,
        scheduler: &mut Scheduler<C>,
        parent_scope: &Rc<AnyScope>,
        parent: SurfaceHandle,
        next_sibling: Option<SurfaceHandle>,
        ancestor: Option<VNode<C>>,
    ) -> (first: Option<SurfaceHandle>) {
        VNode::apply(self, surface, scheduler, parent_scope, parent, next_sibling, ancestor)
    }
}

impl<C: Component> VDiff<C> for VTag<C> {
    open spec fn node(&self) -> VNode<C> {
        VNode::VTag(Box::new(*self))
    }

    fn detach(
        &mut self,
        surface: &mut Surface,
        scheduler: &mut Scheduler<C>,
        parent: SurfaceHandle,
    ) -> (next: Option<SurfaceHandle>) {
        proof {
            if surface@.contains(parent) && self.reference.is_some() {
                VNode::<C>::lemma_one_followed(surface@, parent, self.reference);
            }
        }
        VTag::detach(self, surface, scheduler, parent)
    }

    fn apply(
        &mut self,
        surface: &mut Surface,
        scheduler: &mut Scheduler<C>,
        parent_scope: &Rc<AnyScope>,
        parent: SurfaceHandle,
        next_sibling: Option<SurfaceHandle>,
        ancestor: Option<VNode<C>>,
    ) -> (first: Option<SurfaceHandle>) {
        proof {
            reveal(VNode::reused);
        }
        VTag::apply(self, surface, scheduler, parent_scope, parent, next_sibling, ancestor)
    }
}

impl<C: Component> VDiff<C> for VList<C> {
    open spec fn node(&self) -> VNode<C> {
        VNode::VList(*self)
    }

    fn detach(
        &mut self,
        surface: &mut Surface,
        scheduler: &mut Scheduler<C>,
        parent: SurfaceHandle,
    ) -> (next: Option<SurfaceHandle>) {
        VList::detach(self, surface, scheduler, parent)
    }

    fn apply(
        &mut self,
        surface: &mut Surface,
        scheduler: &mut Scheduler<C>,
        parent_scope: &Rc<AnyScope>,
        parent: SurfaceHandle,
        next_sibling: Option<SurfaceHandle>,
        ancestor: Option<VNode<C>>,
    ) -> (first: Option<SurfaceHandle>) {
        proof {
            reveal(VNode::reused);
        }
        VList::apply(self, surface, scheduler, parent_scope, parent, next_sibling, ancestor)
    }
}

impl<C: Component> VDiff<C> for VComp<C> {
    open spec fn node(&self) -> VNode<C> {
        VNode::VComp(*self)
    }

    fn detach(
        &mut self,
        surface: &mut Surface,
        scheduler: &mut Scheduler<C>,
        parent: SurfaceHandle,
    ) -> (next: Option<SurfaceHandle>) {
        proof {
            scheduler@.lemma_destroys_one(0);
            if self.scope.is_some() {
                scheduler@.lemma_destroys_one(self.scope.unwrap().id);
            }
            assert(self.node().nodes() == self.nodes());
            assert(self.node().top_nodes() == self.nodes());
        }
        VComp::detach(self, surface, scheduler, parent)
    }

    fn apply(
        &mut self,
        surface: &mut Surface,
        scheduler: &mut Scheduler<C>,
        parent_scope: &Rc<AnyScope>,
        parent: SurfaceHandle,
        next_sibling: Option<SurfaceHandle>,
        ancestor: Option<VNode<C>>,
    ) -> (first: Option<SurfaceHandle>) {
        proof {
            reveal(VNode::reused);
        }
        VComp::apply(self, surface, scheduler, parent_scope, parent, next_sibling, ancestor)
    }
}

impl<C: Component> VDiff<C> for VText {
    open spec fn node(&self) -> VNode<C> {
        VNode::VText(*self)
    }

    fn detach(
        &mut self,
        surface: &mut Surface,
        scheduler: &mut Scheduler<C>,
        parent: SurfaceHandle,
    ) -> (next: Option<SurfaceHandle>) {
        proof {
            scheduler@.lemma_destroys_one(0);
            scheduler@.lemma_destroys_extend(Seq::empty());
            assert(VDiff::<C>::node(self).nodes() == self.nodes());
            assert(VDiff::<C>::node(self).top_nodes() == self.nodes());
            if surface@.contains(parent) {
                VNode::<C>::lemma_one_removed(surface@, parent, self.reference);
                if self.reference.is_some() {
                    VNode::<C>::lemma_one_followed(surface@, parent, self.reference);
                }
            }
        }
        VText::detach(self, surface, parent)
    }

    fn apply(
        &mut self,
        surface: &mut Surface,
        scheduler: &mut Scheduler<C>,
        parent_scope: &Rc<AnyScope>,
        parent: SurfaceHandle,
        next_sibling: Option<SurfaceHandle>,
        ancestor: Option<VNode<C>>,
    ) -> (first: Option<SurfaceHandle>) {
        proof {
            reveal(VNode::reused);
        }
        VText::apply(self, surface, scheduler, parent, next_sibling, ancestor)
    }
}

} // verus!
