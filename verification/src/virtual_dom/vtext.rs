//! The virtual text node.

use crate::component::Component;
use crate::scheduler::{Scheduler, SchedulerView};
use crate::surface::{
    anchored, lemma_insert_middle, spliced, Patch, Surface, SurfaceHandle, SurfaceView,
};
use crate::virtual_dom::vnode::{ancestor_detached, ancestor_flat, ancestor_nodes, ancestor_scopes, kept, listed, placed, reconcilable, reconciled, Description, VNode};
use vstd::prelude::*;

verus! {

/// A virtual text node: a run of text, and the surface node that shows it once
/// the node has been applied.
#[derive(Debug)]
pub struct VText {
    /// The text to show.
    pub text: String,
    /// The surface node that shows the text, set by applying the node.
    pub reference: Option<SurfaceHandle>,
}

impl VText {
    /// The surface nodes that the node refers to.
    pub open spec fn nodes(&self) -> Set<SurfaceHandle> {
        match self.reference {
            Some(h) => set![h],
            None => Set::empty(),
        }
    }

    /// Whether the surface shows the node as a child of `parent`.
    pub open spec fn rendered(&self, surface: SurfaceView, parent: SurfaceHandle) -> bool {
        &&& self.reference matches Some(h)
        &&& surface.is_text(h)
        &&& surface.node(h).text == self.text@
        &&& surface.parent(h) == Some(parent)
    }

    /// Creates a virtual text node with the content `text`.
    pub fn new(text: String) -> (vtext: VText)
        ensures
            vtext.text == text,
            vtext.reference.is_none(),
    {
        VText { text, reference: None }
    }

    /// Takes the text node out of `parent` and returns the node that followed it.
    pub fn detach(&mut self, surface: &mut Surface, parent: SurfaceHandle) -> (next: Option<
        SurfaceHandle,
    >)
        requires
            old(surface).wf(),
        ensures
            final(surface)@ == old(surface)@.without(parent, old(self).reference),
            next == old(surface)@.next_sibling_in(parent, old(self).reference),
            kept(old(surface)@, final(surface)@, old(self).nodes(), parent),
            final(self).reference.is_none(),
            final(self).text == old(self).text,
    {
        proof {
            surface@.lemma_without_frame(parent, self.reference);
        }
        match self.reference.take() {
            Some(h) => surface.remove(parent, h),
            None => None,
        }
    }
}


impl VText {
    /// What the node asks for.
    pub open spec fn description<C: Component>(&self) -> Description<C> {
        Description::Text { text: self.text@ }
    }

    /// The text node that `ancestor` left in the surface as a child of `parent`,
    /// if it is a text node and left one.
    pub open spec fn reusable<C: Component>(
        ancestor: Option<VNode<C>>,
        surface: SurfaceView,
        parent: SurfaceHandle,
    ) -> Option<SurfaceHandle> {
        match ancestor {
            Some(VNode::VText(a)) => match a.reference {
                Some(h) => if surface.is_text(h) && surface.parent(h) == Some(parent) {
                    Some(h)
                } else {
                    None
                },
                None => None,
            },
            _ => None,
        }
    }

    /// Makes the surface show the text as a child of `parent`, in front of
    /// `next_sibling`. The text node of an ancestor that is a text node is kept and
    /// given the new text; any other ancestor is detached and a text node is created.
    pub fn apply<C: Component>(
        &mut self,
        surface: &mut Surface,
        scheduler: &mut Scheduler<C>,
        parent: SurfaceHandle,
        next_sibling: Option<SurfaceHandle>,
        ancestor: Option<VNode<C>>,
    ) -> (first: Option<SurfaceHandle>)
        requires
            old(surface).wf(),
            old(surface)@.is_element(parent),
        ensures
            final(surface).wf(),
            old(surface)@.evolves_to(final(surface)@),
            old(scheduler)@.extends_to(final(scheduler)@),
            final(scheduler)@ == old(scheduler)@.pushed_all(
                SchedulerView::<C>::destroys(ancestor_scopes(ancestor)),
            ),
            old(scheduler)@.reconciles(
                final(scheduler)@,
                ancestor_scopes(ancestor).to_set(),
                Set::empty(),
            ),
            final(self).text == old(self).text,
            final(self).reference == first,
            final(self).rendered(final(surface)@, parent),
            match Self::reusable(ancestor, old(surface)@, parent) {
                Some(h) => first == Some(h) && final(surface)@ == old(surface)@.with_text(
                    h,
                    old(self).text@,
                ) && final(scheduler)@ == old(scheduler)@,
                None => first == Some(old(surface)@.nodes.len() as SurfaceHandle) && exists|
                    cleared: SurfaceView,
                |
                    #[trigger] ancestor_detached(
                        ancestor,
                        old(surface)@,
                        cleared,
                        old(scheduler)@,
                        final(scheduler)@,
                        parent,
                    ) && final(surface)@ == cleared.added_text(
                        parent,
                        old(self).text@,
                        next_sibling,
                    ),
            },
            reconcilable(ancestor, old(surface)@) ==> reconciled(
                final(self).rendered(final(surface)@, parent),
                true,
                final(self).nodes(),
                ancestor_nodes(ancestor),
                old(surface)@,
                final(surface)@,
                parent,
            ),
            !ancestor_nodes(ancestor).contains(parent) ==> placed(
                old(surface)@,
                final(surface)@,
                parent,
                next_sibling,
                ancestor_flat(ancestor),
                listed(final(self).reference),
            ),
    {
        let mut kept_node: Option<SurfaceHandle> = None;
        if let Some(VNode::VText(a)) = &ancestor {
            if let Some(h) = a.reference {
                if surface.is_text(h) && surface.parent(h) == Some(parent) {
                    kept_node = Some(h);
                }
            }
        }
        assert(kept_node == Self::reusable(ancestor, surface@, parent));
        match kept_node {
            Some(h) => {
                surface.set_text(h, self.text.as_str());
                self.reference = Some(h);
                proof {
                    scheduler@.lemma_destroys_one(0);
                    scheduler@.lemma_reconciles_destroys(ancestor_scopes(ancestor));
                    assert(ancestor_nodes(ancestor).contains(h));
                    assert(self.nodes() =~= set![h]);
                }
                Some(h)
            },
            None => {
                let ghost start = surface@;
                VNode::detach_ancestor(ancestor, surface, scheduler, parent);
                let ghost middle = surface@;
                let h = surface.add_text(parent, self.text.as_str(), next_sibling);
                self.reference = Some(h);
                proof {
                    assert(ancestor_detached(
                        ancestor,
                        start,
                        middle,
                        old(scheduler)@,
                        scheduler@,
                        parent,
                    ));
                    assert(surface@ == middle.added_text(parent, old(self).text@, next_sibling));
                    start.lemma_evolves_twice(middle, surface@);
                    start.lemma_preserved_twice(
                        middle,
                        surface@,
                        ancestor_nodes(ancestor),
                        parent,
                        Set::empty(),
                        parent,
                        ancestor_nodes(ancestor),
                    );
                    assert(self.nodes() =~= set![h]);
                    if !ancestor_nodes(ancestor).contains(parent) {
                        assert forall|front: Seq<SurfaceHandle>, back: Seq<SurfaceHandle>| #[trigger]
                            spliced(start.children(parent), front, ancestor_flat(ancestor), back)
                                && anchored(next_sibling, back) implies surface@.children(parent)
                            == front + listed(self.reference) + back by {
                            assert(middle.children(parent) == front + back);
                            assert(middle.children(parent).no_duplicates());
                            lemma_insert_middle(front, back, h, next_sibling);
                        }
                    }
                }
                Some(h)
            },
        }
    }
}

} // verus!
