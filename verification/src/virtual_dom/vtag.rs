//! The virtual element.

use crate::component::Component;
use crate::html::scope::{AnyScope, ScopeId};
use crate::scheduler::{Scheduler, SchedulerView};
use crate::surface::{
    anchored, attributes_view, lemma_insert_middle, listeners_view, spliced, Attribute, Listener,
    Surface, SurfaceHandle, SurfaceView,
};
use crate::virtual_dom::classes::{joined, Classes};
use crate::virtual_dom::vlist::VList;
use crate::virtual_dom::vnode::{already_shown, ancestor_detached, ancestor_flat, ancestor_nodes, ancestor_scopes, anchor, arranged, detached, drawn_from, kept, listed, placed, reconcilable, reconciled, removed_from, Description, VNode};
use std::rc::Rc;
use vstd::prelude::*;

verus! {

/// A virtual element: a tag with attributes, listeners and children, and the
/// surface element that shows it once the node has been applied.
pub struct VTag<C: Component> {
    /// The tag of the element. It never changes: an element of another tag is another element.
    pub tag: String,
    /// The surface element, set by applying the node.
    pub reference: Option<SurfaceHandle>,
    /// The attributes of the element.
    pub attributes: Vec<Attribute>,
    /// The listeners of the element.
    pub listeners: Vec<Listener>,
    /// The children of the element.
    pub children: VList<C>,
}

impl<C: Component> VTag<C> {
    /// The surface nodes that the node and the nodes below it refer to.
    pub open spec fn nodes(&self) -> Set<SurfaceHandle>
        decreases self,
    {
        match self.reference {
            Some(h) => self.children.nodes().insert(h),
            None => self.children.nodes(),
        }
    }

    /// The surface element of the node, if it has one.
    pub open spec fn top_nodes(&self) -> Set<SurfaceHandle> {
        match self.reference {
            Some(h) => set![h],
            None => Set::empty(),
        }
    }

    /// Whether the surface holds below the element exactly the nodes that its
    /// children stand for, in their order, and so on below them.
    pub open spec fn laid_out(&self, surface: SurfaceView) -> bool
        decreases self,
    {
        &&& self.reference matches Some(h) ==> surface.children(h) == self.children.flat()
        &&& self.children.laid_out(surface)
    }

    /// Whether the node and the nodes below it hold nothing that applying them leaves.
    pub open spec fn unapplied(&self) -> bool
        decreases self,
    {
        self.reference.is_none() && self.children.unapplied()
    }

    /// Whether no surface node is referred to twice by the node and the nodes below it.
    pub open spec fn distinct(&self) -> bool
        decreases self,
    {
        &&& self.children.distinct()
        &&& self.reference matches Some(h) ==> !self.children.nodes().contains(h)
    }

    /// Whether no node below this one is a reference to an outside surface node.
    pub open spec fn ref_free(&self) -> bool
        decreases self,
    {
        self.children.ref_free()
    }

    /// Whether the surface shows the node as a child of `parent`, and the nodes
    /// below it as children of its element.
    pub open spec fn rendered(&self, surface: SurfaceView, parent: SurfaceHandle) -> bool
        decreases self,
    {
        &&& self.reference matches Some(h)
        &&& surface.is_element(h)
        &&& surface.node(h).tag == self.tag@
        &&& surface.node(h).attributes == attributes_view(self.attributes@)
        &&& surface.node(h).listeners == listeners_view(self.listeners@)
        &&& surface.parent(h) == Some(parent)
        &&& self.children.rendered(surface, h)
    }

    /// Creates a virtual element with the tag `tag`.
    pub fn new(tag: &str) -> (vtag: VTag<C>)
        ensures
            vtag.tag@ == tag@,
            vtag.reference.is_none(),
            vtag.attributes@.len() == 0,
            vtag.listeners@.len() == 0,
            vtag.children.children@.len() == 0,
            vtag.children.no_siblings,
    {
        VTag {
            tag: tag.to_owned(),
            reference: None,
            attributes: Vec::new(),
            listeners: Vec::new(),
            children: VList::new(true),
        }
    }

    /// The tag of the element.
    pub fn tag(&self) -> (tag: &String)
        ensures
            tag@ == self.tag@,
    {
        &self.tag
    }

    /// Adds a child.
    pub fn add_child(&mut self, child: VNode<C>)
        ensures
            final(self).children.children@ == old(self).children.children@.push(child),
            final(self).children.no_siblings == old(self).children.no_siblings,
            final(self).tag == old(self).tag,
            final(self).reference == old(self).reference,
            final(self).attributes == old(self).attributes,
            final(self).listeners == old(self).listeners,
    {
        self.children.add_child(child);
    }

    /// Adds several children, in order.
    pub fn add_children(&mut self, children: Vec<VNode<C>>)
        ensures
            final(self).children.children@ == old(self).children.children@ + children@,
            final(self).children.no_siblings == old(self).children.no_siblings,
            final(self).tag == old(self).tag,
            final(self).reference == old(self).reference,
            final(self).attributes == old(self).attributes,
            final(self).listeners == old(self).listeners,
    {
        let mut children = children;
        let ghost added = children@;
        self.children.children.append(&mut children);
    }

    /// Sets the attribute `name` to `value`, in place of an earlier value or as a new attribute.
    pub fn add_attribute(&mut self, name: &str, value: &str)
        ensures
            final(self).tag == old(self).tag,
            final(self).reference == old(self).reference,
            final(self).listeners == old(self).listeners,
            final(self).children == old(self).children,
            attributes_view(final(self).attributes@) == Self::with_attribute(
                attributes_view(old(self).attributes@),
                name@,
                value@,
            ),
    {
        let wanted = name.to_owned();
        let mut i: usize = 0;
        while i < self.attributes.len()
            invariant
                i <= self.attributes.len(),
                wanted@ == name@,
                *self == *old(self),
                Self::first_named(attributes_view(self.attributes@), name@, 0)
                    == Self::first_named(attributes_view(self.attributes@), name@, i as int),
            decreases self.attributes.len() - i,
        {
            if self.attributes[i].name == wanted {
                self.attributes[i].value = value.to_owned();
                assert(attributes_view(self.attributes@) =~= attributes_view(
                    old(self).attributes@,
                ).update(i as int, (name@, value@)));
                return ;
            }
            assert(attributes_view(self.attributes@)[i as int].0 != name@);
            i += 1;
        }
        self.attributes.push(Attribute { name: wanted, value: value.to_owned() });
        assert(attributes_view(self.attributes@) =~= attributes_view(old(self).attributes@).push(
            (name@, value@),
        ));
    }

    /// The first place from `from` on at which `attributes` holds the name `name`,
    /// or the length of `attributes` if there is none.
    pub open spec fn first_named(
        attributes: Seq<(Seq<char>, Seq<char>)>,
        name: Seq<char>,
        from: int,
    ) -> int
        decreases attributes.len() - from,
    {
        if 0 <= from < attributes.len() {
            if attributes[from].0 == name {
                from
            } else {
                Self::first_named(attributes, name, from + 1)
            }
        } else {
            attributes.len() as int
        }
    }

    /// `attributes` with `name` set to `value`: in place of the first attribute
    /// of that name, or at the end.
    pub open spec fn with_attribute(
        attributes: Seq<(Seq<char>, Seq<char>)>,
        name: Seq<char>,
        value: Seq<char>,
    ) -> Seq<(Seq<char>, Seq<char>)> {
        let at = Self::first_named(attributes, name, 0);
        if at < attributes.len() {
            attributes.update(at, (name, value))
        } else {
            attributes.push((name, value))
        }
    }

    /// Sets the `class` attribute to the classes of `classes`, with a space
    /// between one and the next.
    pub fn set_classes(&mut self, classes: &Classes)
        ensures
            final(self).tag == old(self).tag,
            final(self).reference == old(self).reference,
            final(self).listeners == old(self).listeners,
            final(self).children == old(self).children,
            attributes_view(final(self).attributes@) == Self::with_attribute(
                attributes_view(old(self).attributes@),
                "class"@,
                joined(classes@, classes@.len() as int),
            ),
    {
        let value = classes.to_string();
        self.add_attribute("class", value.as_str());
    }

    /// Adds a listener.
    pub fn add_listener(&mut self, listener: Listener)
        ensures
            final(self).listeners@ == old(self).listeners@.push(listener),
            final(self).tag == old(self).tag,
            final(self).reference == old(self).reference,
            final(self).attributes == old(self).attributes,
            final(self).children == old(self).children,
    {
        self.listeners.push(listener);
    }
}


impl<C: Component> VTag<C> {
    /// Takes the element out of `parent`, and ends the components mounted below
    /// it. Returns the node that followed the element.
    pub fn detach(
        &mut self,
        surface: &mut Surface,
        scheduler: &mut Scheduler<C>,
        parent: SurfaceHandle,
    ) -> (next: Option<SurfaceHandle>)
        requires
            old(surface).wf(),
        ensures
            detached(
                old(surface)@,
                final(surface)@,
                old(scheduler)@,
                final(scheduler)@,
                old(self).nodes(),
                old(self).top_nodes(),
                old(self).children.scopes(),
                old(self).rendered(old(surface)@, parent) && old(self).distinct(),
                parent,
            ),
            final(self).unapplied(),
            final(self).description() == old(self).description(),
            old(surface)@.contains(parent) && !old(self).nodes().contains(parent) ==> removed_from(
                old(surface)@,
                final(surface)@,
                parent,
                listed(old(self).reference),
            ),
            old(surface)@.contains(parent) && !old(self).nodes().contains(parent) && old(
                self,
            ).distinct() ==> next == old(surface)@.next_sibling_in(parent, old(self).reference),
        decreases *old(self),
    {
        // An element that was never applied has no children in the surface: they
        // are detached from a place where no node stands.
        let inner = match self.reference {
            Some(h) => h,
            None => surface.len(),
        };
        let ghost start = surface@;
        let ghost waiting = scheduler@;
        self.children.detach(surface, scheduler, inner);
        let ghost middle = surface@;
        proof {
            middle.lemma_without_frame(parent, self.reference);
        }
        let next = match self.reference.take() {
            Some(h) => surface.remove(parent, h),
            None => None,
        };
        proof {
            start.lemma_evolves_twice(middle, surface@);
            start.lemma_preserved_twice(
                middle,
                surface@,
                old(self).children.nodes(),
                inner,
                match old(self).reference {
                    Some(h) => set![h],
                    None => Set::empty(),
                },
                parent,
                old(self).nodes(),
            );
            if old(self).rendered(start, parent) && old(self).distinct() {
                let h = old(self).reference.unwrap();
                assert(!old(self).children.nodes().contains(h));
                assert(start.contains(h));
                assert(middle.is_child(parent, h));
            }
            if start.contains(parent) && !old(self).nodes().contains(parent) {
                assert(!old(self).children.nodes().contains(parent));
                assert(inner != parent);
                assert(middle.node(parent) == start.node(parent));
                VNode::<C>::lemma_one_removed(middle, parent, old(self).reference);
            }
        }
        next
    }
}

impl<C: Component> VTag<C> {
    /// What the node asks for.
    pub open spec fn description(&self) -> Description<C>
        decreases self, 0nat,
    {
        Description::Tag {
            tag: self.tag@,
            attributes: attributes_view(self.attributes@),
            listeners: listeners_view(self.listeners@),
            children: self.children.descriptions(),
        }
    }

    /// The children of the ancestor whose element is kept, as the fragment
    /// that the children of the element are reconciled with.
    pub open spec fn below(
        tag: Seq<char>,
        ancestor: Option<VNode<C>>,
        surface: SurfaceView,
        parent: SurfaceHandle,
    ) -> Option<VNode<C>> {
        match Self::reusable(tag, ancestor, surface, parent) {
            Some(_) => Some(VNode::VList(ancestor->0->VTag_0.children)),
            None => None,
        }
    }

    /// Whether `prepared` and `emptied` can be what was left for the children
    /// of an element: no node of the surface was lost, and nothing was submitted
    /// but tasks that create, update or destroy.
    pub open spec fn readied(
        surface: SurfaceView,
        prepared: SurfaceView,
        waiting: SchedulerView<C>,
        emptied: SchedulerView<C>,
    ) -> bool {
        surface.evolves_to(prepared) && waiting.extends_to(emptied)
    }

    /// Whether the children of the element were applied place by place below
    /// the element, with the children of the ancestor whose element was kept, or
    /// with nothing where none was kept. An element that is kept was given the new
    /// attributes and listeners first. Where none was kept, the ancestor was
    /// detached, and the element was created, inserted in front of `next_sibling`
    /// and given its attributes and listeners.
    #[verifier::opaque]
    pub open spec fn children_applied(
        &self,
        after: VTag<C>,
        ancestor: Option<VNode<C>>,
        surface: SurfaceView,
        shown: SurfaceView,
        waiting: SchedulerView<C>,
        submitted: SchedulerView<C>,
        parent: SurfaceHandle,
        next_sibling: Option<SurfaceHandle>,
    ) -> bool
        decreases self, 1nat,
    {
        after.reference.is_some() && exists|
            prepared: SurfaceView,
            emptied: SchedulerView<C>,
            inner: Option<SurfaceHandle>,
        |
            #![trigger Self::readied(surface, prepared, waiting, emptied), listed(inner)]
            {
                &&& Self::readied(surface, prepared, waiting, emptied)
                &&& self.children.placewise(
                    after.children,
                    Self::below(self.tag@, ancestor, surface, parent),
                    prepared,
                    shown,
                    emptied,
                    submitted,
                    after.reference.unwrap(),
                    None,
                    inner,
                )
                &&& Self::reusable(self.tag@, ancestor, surface, parent) matches Some(h) ==> prepared
                    == surface.with_attributes(h, attributes_view(self.attributes@)).with_listeners(
                    h,
                    listeners_view(self.listeners@),
                ) && emptied == waiting
                &&& Self::reusable(self.tag@, ancestor, surface, parent).is_none() ==> exists|
                    cleared: SurfaceView,
                |
                    #[trigger] ancestor_detached(
                        ancestor,
                        surface,
                        cleared,
                        waiting,
                        emptied,
                        parent,
                    ) && prepared == cleared.added_element(
                        parent,
                        self.tag@,
                        next_sibling,
                    ).with_attributes(
                        cleared.nodes.len() as SurfaceHandle,
                        attributes_view(self.attributes@),
                    ).with_listeners(
                        cleared.nodes.len() as SurfaceHandle,
                        listeners_view(self.listeners@),
                    )
            }
    }

    /// The element that `ancestor` left in the surface as a child of `parent`, if
    /// it is an element of the tag `tag` and left one.
    pub open spec fn reusable(
        tag: Seq<char>,
        ancestor: Option<VNode<C>>,
        surface: SurfaceView,
        parent: SurfaceHandle,
    ) -> Option<SurfaceHandle> {
        match ancestor {
            Some(VNode::VTag(a)) => match a.reference {
                Some(h) => if a.tag@ == tag && surface.is_element(h) && surface.node(h).tag == tag
                    && surface.parent(h) == Some(parent) {
                    Some(h)
                } else {
                    None
                },
                None => None,
            },
            _ => None,
        }
    }

    /// An element that the surface shows is still shown after a change that left
    /// its surface nodes as they were.
    pub proof fn lemma_rendered_kept(&self, before: SurfaceView, after: SurfaceView, parent: SurfaceHandle)
        requires
            self.rendered(before, parent),
            forall|h: SurfaceHandle| #[trigger] self.nodes().contains(h) ==> before.shown_alike(after, h),
        ensures
            self.rendered(after, parent),
        decreases self,
    {
        let h = self.reference.unwrap();
        assert(self.nodes().contains(h));
        assert(before.shown_alike(after, h));
        assert forall|x: SurfaceHandle| self.children.nodes().contains(x) implies before.shown_alike(
            after,
            x,
        ) by {
            assert(self.nodes().contains(x));
        }
        assert(self.children.rendered(before, h));
        self.children.lemma_rendered_kept(before, after, h);
        assert(self.children.rendered(after, h));
        assert(after.is_element(h));
        assert(after.node(h).tag == self.tag@);
        assert(after.parent(h) == Some(parent));
    }

    /// An element that holds its children in order, and so on below them, still
    /// does after a change that left the children of its surface nodes as they were.
    pub proof fn lemma_laid_out_kept(&self, before: SurfaceView, after: SurfaceView)
        requires
            self.laid_out(before),
            forall|h: SurfaceHandle|
                #[trigger] self.nodes().contains(h) ==> after.children(h) == before.children(h),
        ensures
            self.laid_out(after),
        decreases self,
    {
        if self.reference.is_some() {
            assert(self.nodes().contains(self.reference.unwrap()));
        }
        assert forall|h: SurfaceHandle| #[trigger]
            self.children.nodes().contains(h) implies after.children(h) == before.children(h) by {
            assert(self.nodes().contains(h));
        }
        self.children.lemma_laid_out_kept(before, after);
    }

    /// An element that the surface shows refers to nodes of the surface only.
    pub proof fn lemma_rendered_contained(&self, surface: SurfaceView, parent: SurfaceHandle)
        requires
            self.rendered(surface, parent),
        ensures
            forall|h: SurfaceHandle| #[trigger] self.nodes().contains(h) ==> surface.contains(h),
        decreases self,
    {
        self.children.lemma_rendered_contained(surface, self.reference.unwrap());
        assert forall|h: SurfaceHandle| #[trigger] self.nodes().contains(h) implies surface.contains(
            h,
        ) by {
            if h != self.reference.unwrap() {
                assert(self.children.nodes().contains(h));
            }
        }
    }

    /// Makes the surface show the element as a child of `parent`, in front of
    /// `next_sibling`, and its children below it.
    ///
    /// The element of an ancestor of the same tag is kept: it is given the new
    /// attributes and listeners, and the children are reconciled with those of the
    /// ancestor. Any other ancestor is detached, and the element is created.
    #[verifier::rlimit(50)]
    pub fn apply(
        &mut self,
        surface: &mut Surface,
        scheduler: &mut Scheduler<C>,
        parent_scope: &Rc<AnyScope>,
        parent: SurfaceHandle,
        next_sibling: Option<SurfaceHandle>,
        ancestor: Option<VNode<C>>,
    ) -> (first: Option<SurfaceHandle>)
        requires
            old(surface).wf(),
            old(surface)@.is_element(parent),
        ensures
            final(surface).wf(),
            old(surface)@.evolves_to(final(surface)@),
            old(scheduler)@.extends_to(final(scheduler)@),
            old(scheduler)@.reconciles(
                final(scheduler)@,
                ancestor_scopes(ancestor).to_set(),
                final(self).children.scopes().to_set(),
            ),
            old(self).children_applied(
                *final(self),
                ancestor,
                old(surface)@,
                final(surface)@,
                old(scheduler)@,
                final(scheduler)@,
                parent,
                next_sibling,
            ),
            final(self).description() == old(self).description(),
            final(scheduler)@.scopes < usize::MAX ==> final(self).children.mounted(),
            final(self).reference == first,
            first == (match Self::reusable(old(self).tag@, ancestor, old(surface)@, parent) {
                Some(h) => Some(h),
                None => Some(old(surface)@.nodes.len() as SurfaceHandle),
            }),
            old(self).ref_free() && reconcilable(ancestor, old(surface)@) ==> reconciled(
                final(self).rendered(final(surface)@, parent),
                final(self).distinct(),
                final(self).nodes(),
                ancestor_nodes(ancestor),
                old(surface)@,
                final(surface)@,
                parent,
            ),
            already_shown(
                old(self).description(),
                old(self).ref_free(),
                ancestor,
                old(surface)@,
                parent,
            ) ==> final(surface)@ == old(surface)@,
            old(self).ref_free() && reconcilable(ancestor, old(surface)@) && !ancestor_nodes(
                ancestor,
            ).contains(parent) ==> arranged(
                old(surface)@,
                final(surface)@,
                parent,
                next_sibling,
                ancestor,
                listed(final(self).reference),
                final(self).laid_out(final(surface)@),
            ),
        decreases *old(self),
    {
        let ghost shown = already_shown(
            old(self).description(),
            old(self).ref_free(),
            ancestor,
            old(surface)@,
            parent,
        );
        proof {
            if shown {
                assert(ancestor->0.description() == old(self).description());
                assert(ancestor->0 is VTag);
                let a = ancestor->0->VTag_0;
                assert(a.rendered(old(surface)@, parent));
                assert(a.tag@ == old(self).tag@);
            }
        }
        let mut kept_node: Option<SurfaceHandle> = None;
        if let Some(VNode::VTag(a)) = &ancestor {
            if let Some(h) = a.reference {
                if a.tag == self.tag && surface.is_element(h) && *surface.tag(h) == self.tag
                    && surface.parent(h) == Some(parent) {
                    kept_node = Some(h);
                }
            }
        }
        assert(kept_node == Self::reusable(self.tag@, ancestor, surface@, parent));
        let ghost premise = old(self).ref_free() && reconcilable(ancestor, old(surface)@);
        let ghost start = surface@;
        let ghost waiting = scheduler@;
        match kept_node {
            Some(h) => {
                let below = match ancestor {
                    Some(VNode::VTag(a)) => {
                        let a: VTag<C> = *a;
                        Some(VNode::VList(a.children))
                    },
                    _ => None,
                };
                surface.set_attributes(h, &self.attributes);
                let ghost first_step = surface@;
                surface.set_listeners(h, &self.listeners);
                let ghost second_step = surface@;
                self.reference = Some(h);
                proof {
                    start.lemma_content_frame(first_step, h, parent);
                    first_step.lemma_content_frame(second_step, h, parent);
                    start.lemma_evolves_twice(first_step, second_step);
                }
                proof {
                    if shown {
                        let a = ancestor->0->VTag_0;
                        assert(second_step == start);
                        assert(below->0.rendered(second_step, h));
                        assert(below->0.distinct());
                        assert(below->0.mounted());
                        assert(below->0.description() == old(self).children.description());
                    }
                }
                let ghost prepared_queue = scheduler@;
                let inner = self.children.apply(surface, scheduler, parent_scope, h, None, below);
                proof {
                    assert(below == Self::below(old(self).tag@, ancestor, start, parent));
                    assert(old(self).children.placewise(
                        self.children,
                        Self::below(old(self).tag@, ancestor, start, parent),
                        second_step,
                        surface@,
                        prepared_queue,
                        scheduler@,
                        h,
                        None,
                        inner,
                    ));
                    assert(prepared_queue == waiting);
                    assert(Self::readied(start, second_step, waiting, prepared_queue));
                    assert(listed(inner) == listed(inner));
                    assert(second_step == start.with_attributes(
                        h,
                        attributes_view(old(self).attributes@),
                    ).with_listeners(h, listeners_view(old(self).listeners@)));
                    assert(old(self).children_applied(
                        *self,
                        ancestor,
                        start,
                        surface@,
                        waiting,
                        scheduler@,
                        parent,
                        next_sibling,
                    )) by {
                        reveal(VTag::children_applied);
                    }
                    start.lemma_evolves_twice(second_step, surface@);
                    assert(ancestor_scopes(below) == ancestor_scopes(ancestor));
                    if premise {
                        let a = ancestor->0->VTag_0;
                        assert(ancestor->0.distinct());
                        assert(a.distinct());
                        assert(a.reference == Some(h));
                        assert(ancestor_nodes(below) =~= a.children.nodes());
                        assert(a.nodes() =~= a.children.nodes().insert(h));
                        assert(ancestor_nodes(ancestor) =~= a.nodes());
                        assert(ancestor_nodes(ancestor).contains(h));
                        assert(ancestor_nodes(below).subset_of(ancestor_nodes(ancestor)));
                        assert(!ancestor_nodes(below).contains(h));
                        assert(old(self).children.ref_free());
                        assert(below->0.distinct());
                        assert forall|x: SurfaceHandle|
                            below->0.nodes().contains(x) implies second_step.contains(x) by {
                            assert(ancestor_nodes(below).contains(x));
                            assert(ancestor->0.nodes().contains(x));
                            assert(start.contains(x));
                        }
                        assert(reconcilable(below, second_step));
                        assert(second_step.shown_alike(surface@, h));
                        assert(drawn_from(
                            self.nodes(),
                            ancestor_nodes(ancestor),
                            start,
                            surface@,
                        ));
                        assert(start.preserved_outside(surface@, ancestor_nodes(ancestor), parent))
                            by {
                            assert forall|x: SurfaceHandle|
                                #![trigger surface@.node(x)]
                                start.contains(x) && !ancestor_nodes(ancestor).contains(
                                    x,
                                ) implies surface@.contains(x) && surface@.node(x) == start.node(
                                x,
                            ) by {
                                assert(x != h);
                                assert(first_step.node(x) == start.node(x));
                                assert(second_step.node(x) == first_step.node(x));
                                assert(!ancestor_nodes(below).contains(x));
                            }
                        }
                        if !ancestor_nodes(ancestor).contains(parent) {
                            let a = ancestor->0->VTag_0;
                            assert(surface@.node(parent) == start.node(parent));
                            assert(ancestor_flat(ancestor) == listed(Some(h)));
                            if ancestor->0.laid_out(start) {
                                assert(a.laid_out(start));
                                assert(second_step.children(h) == start.children(h));
                                assert forall|x: SurfaceHandle| #[trigger]
                                    below->0.nodes().contains(x) implies second_step.children(x)
                                    == start.children(x) by {
                                    assert(x != h);
                                    assert(first_step.node(x) == start.node(x));
                                }
                                below->0.lemma_laid_out_kept(start, second_step);
                                assert(spliced(
                                    second_step.children(h),
                                    Seq::empty(),
                                    ancestor_flat(below),
                                    Seq::empty(),
                                )) by {
                                    assert(Seq::<SurfaceHandle>::empty() + a.children.flat()
                                        + Seq::<SurfaceHandle>::empty() =~= a.children.flat());
                                }
                                assert(anchored(None, Seq::empty()));
                                assert(Seq::<SurfaceHandle>::empty() + self.children.flat()
                                    + Seq::<SurfaceHandle>::empty() =~= self.children.flat());
                            }
                        }
                    }
                }
                Some(h)
            },
            None => {
                VNode::detach_ancestor(ancestor, surface, scheduler, parent);
                let ghost detached = surface@;
                let ghost emptied = scheduler@;
                let h = surface.add_element(parent, self.tag.as_str(), next_sibling);
                let ghost made = surface@;
                surface.set_attributes(h, &self.attributes);
                let ghost first_step = surface@;
                surface.set_listeners(h, &self.listeners);
                let ghost second_step = surface@;
                self.reference = Some(h);
                proof {
                    made.lemma_content_frame(first_step, h, parent);
                    first_step.lemma_content_frame(second_step, h, parent);
                    start.lemma_evolves_twice(detached, made);
                    start.lemma_evolves_twice(made, first_step);
                    start.lemma_evolves_twice(first_step, second_step);
                    made.lemma_evolves_twice(first_step, second_step);
                }
                let inner = self.children.apply(surface, scheduler, parent_scope, h, None, None);
                proof {
                    assert(Self::below(old(self).tag@, ancestor, start, parent).is_none());
                    assert(ancestor_detached(ancestor, start, detached, waiting, emptied, parent));
                    assert(made == detached.added_element(parent, old(self).tag@, next_sibling));
                    assert(h == detached.nodes.len());
                    assert(Self::readied(start, second_step, waiting, emptied));
                    assert(listed(inner) == listed(inner));
                    assert(old(self).children.placewise(
                        self.children,
                        Self::below(old(self).tag@, ancestor, start, parent),
                        second_step,
                        surface@,
                        emptied,
                        scheduler@,
                        h,
                        None,
                        inner,
                    ));
                    assert(old(self).children_applied(
                        *self,
                        ancestor,
                        start,
                        surface@,
                        waiting,
                        scheduler@,
                        parent,
                        next_sibling,
                    )) by {
                        reveal(VTag::children_applied);
                    }
                    start.lemma_evolves_twice(second_step, surface@);
                    waiting.lemma_extends_twice(emptied, scheduler@);
                    let olds = ancestor_scopes(ancestor).to_set();
                    let news = self.children.scopes().to_set();
                    assert(ancestor_scopes(None::<VNode<C>>).to_set() =~= Set::empty());
                    waiting.lemma_reconciles_twice(
                        emptied,
                        scheduler@,
                        olds,
                        Set::empty(),
                        Set::empty(),
                        news,
                    );
                    assert(olds.union(Set::empty()) =~= olds);
                    assert(Set::<ScopeId>::empty().union(news) =~= news);
                    if premise {
                        assert(second_step.shown_alike(surface@, h));
                        assert(drawn_from(
                            self.nodes(),
                            ancestor_nodes(ancestor),
                            start,
                            surface@,
                        ));
                        assert(start.preserved_outside(surface@, ancestor_nodes(ancestor), parent))
                            by {
                            assert forall|x: SurfaceHandle|
                                #![trigger surface@.node(x)]
                                start.contains(x) && !ancestor_nodes(ancestor).contains(
                                    x,
                                ) implies surface@.contains(x) && surface@.node(x) == (if x
                                == parent {
                                crate::surface::NodeView {
                                    children: surface@.node(x).children,
                                    ..start.node(x)
                                }
                            } else {
                                start.node(x)
                            }) by {
                                assert(x != h);
                                // The frame of the change speaks of this node.
                                let _ = detached.node(x);
                                // The frame of the change speaks of this node.
                                let _ = made.node(x);
                                assert(first_step.node(x) == made.node(x));
                                assert(second_step.node(x) == first_step.node(x));
                                assert(!Set::<SurfaceHandle>::empty().contains(x));
                            }
                        }
                        if !ancestor_nodes(ancestor).contains(parent) {
                            assert(surface@.node(parent) == made.node(parent)) by {
                                assert(first_step.node(parent) == made.node(parent));
                                assert(second_step.node(parent) == first_step.node(parent));
                                assert(!Set::<SurfaceHandle>::empty().contains(parent));
                            }
                            assert forall|front: Seq<SurfaceHandle>, back: Seq<SurfaceHandle>| #[trigger]
                                spliced(
                                    start.children(parent),
                                    front,
                                    ancestor_flat(ancestor),
                                    back,
                                ) && anchored(next_sibling, back) implies surface@.children(
                                parent,
                            ) == front + listed(self.reference) + back by {
                                assert(detached.children(parent) == front + back);
                                assert(detached.children(parent).no_duplicates());
                                lemma_insert_middle(front, back, h, next_sibling);
                            }
                            assert(second_step.children(h) =~= Seq::<SurfaceHandle>::empty());
                            assert(spliced(
                                second_step.children(h),
                                Seq::empty(),
                                ancestor_flat(None::<VNode<C>>),
                                Seq::empty(),
                            ));
                            assert(anchored(None, Seq::empty()));
                            assert(Seq::<SurfaceHandle>::empty() + self.children.flat()
                                + Seq::<SurfaceHandle>::empty() =~= self.children.flat());
                        }
                    }
                }
                Some(h)
            },
        }
    }
}

} // verus!
