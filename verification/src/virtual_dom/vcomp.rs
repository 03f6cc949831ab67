//! The virtual component.

use crate::component::Component;
use crate::html::scope::{share, AnyScope, Scope, ScopeId, TypeIdentity};
use crate::scheduler::{
    ComponentRunnable, ComponentTask, CreateTask, Scheduler, SchedulerView, UpdateTask,
};
use crate::surface::{
    anchored, lemma_insert_middle, spliced, Surface, SurfaceHandle, SurfaceView,
};
use crate::virtual_dom::key::{key_view, same_key, Key};
use crate::virtual_dom::vnode::{ancestor_detached, ancestor_flat, ancestor_nodes, ancestor_scopes, followed, kept, listed, placed, reconcilable, reconciled, removed_from, Description, VNode};
use std::rc::Rc;
use vstd::prelude::*;
use vstd::std_specs::convert::FromSpecImpl;
use vstd::std_specs::cmp::{PartialEqSpec, PartialEqSpecImpl};

verus! {

/// A virtual component: the request to have a component of some type, with some
/// properties, mounted at this place.
///
/// A mounted component owns a stretch of the children of its parent element. The
/// stretch is fenced by two empty text nodes: what the component shows stands
/// between them, so that neither the component nor its siblings need to know how
/// much the other shows.
pub struct VComp<C: Component> {
    /// The type of the component.
    pub type_id: TypeIdentity,
    /// The properties to hand to the component.
    pub props: Rc<C::Properties>,
    /// The scope of the mounted component, set by applying the node.
    pub scope: Option<Scope<C>>,
    /// The empty text node in front of what the component shows, set by applying the node.
    pub node_ref: Option<SurfaceHandle>,
    /// The empty text node behind what the component shows, set by applying the node.
    pub end_ref: Option<SurfaceHandle>,
    /// Tells the component apart from others of its type.
    pub key: Option<Key>,
}

impl<C: Component> VComp<C> {
    /// The surface nodes that the node refers to.
    pub open spec fn nodes(&self) -> Set<SurfaceHandle> {
        let first: Set<SurfaceHandle> = match self.node_ref {
            Some(h) => set![h],
            None => Set::empty(),
        };
        match self.end_ref {
            Some(h) => first.insert(h),
            None => first,
        }
    }

    /// The slot of the mounted component, if the node has mounted one.
    pub open spec fn scopes(&self) -> Seq<ScopeId> {
        match self.scope {
            Some(scope) => seq![scope.id],
            None => Seq::empty(),
        }
    }

    /// The two fences of the component, in the order in which they stand.
    pub open spec fn flat(&self) -> Seq<SurfaceHandle> {
        listed(self.node_ref) + listed(self.end_ref)
    }

    /// Whether the node holds nothing that applying it leaves.
    pub open spec fn unapplied(&self) -> bool {
        self.scope.is_none() && self.node_ref.is_none() && self.end_ref.is_none()
    }

    /// Whether the two fences of the component are two nodes.
    pub open spec fn distinct(&self) -> bool {
        self.node_ref.is_some() && self.end_ref.is_some() ==> self.node_ref != self.end_ref
    }

    /// What the node asks for.
    pub open spec fn description(&self) -> Description<C> {
        Description::Comp { type_id: self.type_id, props: *self.props, key: key_view(self.key) }
    }

    /// Whether the surface holds the two fences of the component as children of `parent`.
    pub open spec fn rendered(&self, surface: SurfaceView, parent: SurfaceHandle) -> bool {
        &&& self.node_ref matches Some(first)
        &&& self.end_ref matches Some(last)
        &&& first != last
        &&& surface.is_text(first)
        &&& surface.is_text(last)
        &&& surface.parent(first) == Some(parent)
        &&& surface.parent(last) == Some(parent)
    }

    /// The virtual component that asks for the child `vchild`, and is not mounted.
    pub open spec fn asked_by(vchild: VChild<C>) -> VComp<C> {
        VComp {
            type_id: vchild.type_id,
            props: Rc::new(vchild.props),
            scope: None,
            node_ref: None,
            end_ref: None,
            key: vchild.key,
        }
    }

    /// Another virtual component that asks for the same: the same type, the
    /// very same properties, and a key that spells the same. A virtual component
    /// that has mounted its component must not be cloned, as the clone would stand
    /// for the same component at another place.
    pub fn clone(&self) -> (vcomp: VComp<C>)
        requires
            self.scope.is_none(),
        ensures
            vcomp.type_id == self.type_id,
            vcomp.props == self.props,
            key_view(vcomp.key) == key_view(self.key),
            vcomp.scope.is_none(),
            vcomp.node_ref == self.node_ref,
            vcomp.end_ref == self.end_ref,
    {
        let key = match &self.key {
            Some(key) => Some(key.clone()),
            None => None,
        };
        VComp {
            type_id: self.type_id,
            props: share(&self.props),
            scope: None,
            node_ref: self.node_ref,
            end_ref: self.end_ref,
            key,
        }
    }

    /// Creates a virtual component of the type `type_id`.
    pub fn new(type_id: TypeIdentity, props: Rc<C::Properties>, key: Option<Key>) -> (vcomp: VComp<C>)
        ensures
            vcomp.type_id == type_id,
            vcomp.props == props,
            vcomp.key == key,
            vcomp.scope.is_none(),
            vcomp.node_ref.is_none(),
            vcomp.end_ref.is_none(),
    {
        VComp { type_id, props, scope: None, node_ref: None, end_ref: None, key }
    }

    /// The scheduler after the component at `scope`, if there is one, was told to end.
    pub open spec fn destroyed(scheduler: SchedulerView<C>, scope: Option<Scope<C>>) -> SchedulerView<C> {
        match scope {
            Some(scope) => scheduler.pushed(
                ComponentRunnable { scope: scope.id, task: ComponentTask::Destroy },
            ),
            None => scheduler,
        }
    }

    /// The node that follows the last fence, once the first fence is taken out,
    /// is what followed the two fences wherever they stood.
    proof fn lemma_fences_followed(
        start: SurfaceView,
        middle: SurfaceView,
        parent: SurfaceHandle,
        first: SurfaceHandle,
        last: SurfaceHandle,
    )
        requires
            start.wf(),
            middle.wf(),
            start.contains(parent),
            middle == start.without(parent, Some(first)),
        ensures
            followed(
                start,
                parent,
                listed(Some(first)) + listed(Some(last)),
                middle.next_sibling_in(parent, Some(last)),
            ),
    {
        assert forall|front: Seq<SurfaceHandle>, back: Seq<SurfaceHandle>| #[trigger]
            spliced(
                start.children(parent),
                front,
                listed(Some(first)) + listed(Some(last)),
                back,
            ) implies anchored(middle.next_sibling_in(parent, Some(last)), back) by {
            let one = listed(Some(first));
            let other = listed(Some(last));
            assert(front + (one + other) + back =~= front + one + (other + back));
            start.lemma_without_middle(parent, first, front, other + back);
            assert(front + (other + back) =~= front + other + back);
            assert(spliced(middle.children(parent), front, seq![last], back));
            start.lemma_without_frame(parent, Some(first));
            assert(middle.contains(parent));
            middle.lemma_next_in_middle(parent, last, front, back);
        }
    }

    /// Ends the mounted component and takes its fences out of `parent`. What the
    /// component shows leaves the surface when the scheduler runs the task that
    /// ends it. Returns the node that followed the component.
    pub fn detach(
        &mut self,
        surface: &mut Surface,
        scheduler: &mut Scheduler<C>,
        parent: SurfaceHandle,
    ) -> (next: Option<SurfaceHandle>)
        requires
            old(surface).wf(),
        ensures
            final(surface)@ == old(surface)@.without(parent, old(self).node_ref).without(
                parent,
                old(self).end_ref,
            ),
            next == old(surface)@.without(parent, old(self).node_ref).next_sibling_in(
                parent,
                old(self).end_ref,
            ),
            final(scheduler)@ == Self::destroyed(old(scheduler)@, old(self).scope),
            kept(old(surface)@, final(surface)@, old(self).nodes(), parent),
            final(surface)@.nodes.len() == old(surface)@.nodes.len(),
            old(scheduler)@.extends_to(final(scheduler)@),
            old(self).rendered(old(surface)@, parent) ==> final(surface)@.parent(
                old(self).node_ref.unwrap(),
            ).is_none() && final(surface)@.parent(old(self).end_ref.unwrap()).is_none(),
            old(surface)@.contains(parent) ==> removed_from(
                old(surface)@,
                final(surface)@,
                parent,
                old(self).flat(),
            ),
            old(surface)@.contains(parent) && old(self).node_ref.is_some() && old(
                self,
            ).end_ref.is_some() && old(self).distinct() ==> followed(
                old(surface)@,
                parent,
                old(self).flat(),
                next,
            ),
            final(self).scope.is_none(),
            final(self).node_ref.is_none(),
            final(self).end_ref.is_none(),
            final(self).type_id == old(self).type_id,
            final(self).props == old(self).props,
            final(self).key == old(self).key,
    {
        if let Some(scope) = self.scope.take() {
            let runnable = ComponentRunnable { scope: scope.id, task: ComponentTask::Destroy };
            proof {
                scheduler@.lemma_pushed_extends(runnable);
            }
            scheduler.push(runnable);
        }
        let ghost start = surface@;
        if let Some(first) = self.node_ref.take() {
            surface.remove(parent, first);
        }
        let ghost middle = surface@;
        let mut next: Option<SurfaceHandle> = None;
        if let Some(last) = self.end_ref.take() {
            next = surface.remove(parent, last);
        }
        proof {
            start.lemma_without_frame(parent, old(self).node_ref);
            middle.lemma_without_frame(parent, old(self).end_ref);
            if start.contains(parent) {
                VNode::<C>::lemma_one_removed(start, parent, old(self).node_ref);
                VNode::<C>::lemma_one_removed(middle, parent, old(self).end_ref);
                assert forall|front: Seq<SurfaceHandle>, back: Seq<SurfaceHandle>| #[trigger]
                    spliced(
                        start.children(parent),
                        front,
                        old(self).flat(),
                        back,
                    ) implies surface@.children(parent) == front + back by {
                    let first = listed(old(self).node_ref);
                    let last = listed(old(self).end_ref);
                    assert(front + (first + last) + back =~= front + first + (last + back));
                    assert(spliced(start.children(parent), front, first, last + back));
                    assert(front + (last + back) =~= front + last + back);
                    assert(spliced(middle.children(parent), front, last, back));
                }
                if old(self).node_ref.is_some() && old(self).end_ref.is_some() {
                    Self::lemma_fences_followed(
                        start,
                        middle,
                        parent,
                        old(self).node_ref.unwrap(),
                        old(self).end_ref.unwrap(),
                    );
                }
            }
            start.lemma_evolves_twice(middle, surface@);
            start.lemma_preserved_twice(
                middle,
                surface@,
                match old(self).node_ref {
                    Some(h) => set![h],
                    None => Set::empty(),
                },
                parent,
                match old(self).end_ref {
                    Some(h) => set![h],
                    None => Set::empty(),
                },
                parent,
                old(self).nodes(),
            );
        }
        next
    }
}


impl<C: Component> VComp<C> {
    /// The mounted component that `ancestor` left, with its two fences, if it is a
    /// component of the type `type_id` and the key `key` whose fences are in the
    /// surface as children of `parent`.
    pub open spec fn reusable(
        type_id: TypeIdentity,
        key: Option<Key>,
        ancestor: Option<VNode<C>>,
        surface: SurfaceView,
        parent: SurfaceHandle,
    ) -> Option<(Scope<C>, SurfaceHandle, SurfaceHandle)> {
        match ancestor {
            Some(VNode::VComp(a)) => if a.type_id == type_id && key_view(a.key) == key_view(key)
                && a.scope.is_some() && a.rendered(surface, parent) {
                Some((a.scope.unwrap(), a.node_ref.unwrap(), a.end_ref.unwrap()))
            } else {
                None
            },
            _ => None,
        }
    }

    /// The scheduler after a component was mounted: a scope was given out, and
    /// the tasks to create the component and to update it for the first time wait
    /// one behind the other.
    pub open spec fn mounted(
        scheduler: SchedulerView<C>,
        scope: Scope<C>,
        parent: SurfaceHandle,
        next_sibling: Option<SurfaceHandle>,
        props: Rc<C::Properties>,
    ) -> SchedulerView<C> {
        Scope::mounting(
            SchedulerView { scopes: scheduler.scopes + 1, ..scheduler },
            scope,
            parent,
            next_sibling,
            props,
        )
    }

    /// The scope that a component mounted below `parent_scope` by this node gets.
    pub open spec fn new_scope(
        type_id: TypeIdentity,
        parent_scope: Rc<AnyScope>,
        scheduler: SchedulerView<C>,
    ) -> Scope<C> {
        Scope {
            type_id,
            parent: Some(parent_scope),
            id: scheduler.scopes as usize,
            component: std::marker::PhantomData,
        }
    }

    /// Mounts the component as a child of `parent`, in front of `next_sibling`.
    ///
    /// The mounted component of an ancestor of the same type and key is kept: it is
    /// sent the new properties, and nothing in the surface changes. Any other
    /// ancestor is detached; the two fences are inserted, and the tasks that create
    /// the component and update it for the first time are submitted under the lock
    /// of the scheduler. Where the scheduler has no scope left to give, the fences
    /// are inserted and no component is mounted.
    pub fn apply(
        &mut self,
        surface: &mut Surface,
        scheduler: &mut Scheduler<C>,
        parent_scope: &Rc<AnyScope>,
        parent: SurfaceHandle,
        next_sibling: Option<SurfaceHandle>,
        ancestor: Option<VNode<C>>,
    ) -> (first: Option<SurfaceHandle>)
        requires
            old(surface).wf(),
            old(surface)@.is_element(parent),
        ensures
            final(surface).wf(),
            old(surface)@.evolves_to(final(surface)@),
            old(scheduler)@.extends_to(final(scheduler)@),
            final(self).type_id == old(self).type_id,
            final(self).props == old(self).props,
            final(self).key == old(self).key,
            final(self).node_ref == first,
            final(scheduler)@.scopes < usize::MAX ==> final(self).scope.is_some(),
            match Self::reusable(old(self).type_id, old(self).key, ancestor, old(surface)@, parent) {
                Some((scope, first_fence, last_fence)) => {
                    &&& final(self).scope == Some(scope)
                    &&& final(self).node_ref == Some(first_fence)
                    &&& final(self).end_ref == Some(last_fence)
                    &&& final(surface)@ == old(surface)@
                    &&& final(scheduler)@ == old(scheduler)@.pushed(
                        ComponentRunnable {
                            scope: scope.id,
                            task: ComponentTask::Update(
                                UpdateTask::Properties(old(self).props, Some(last_fence)),
                            ),
                        },
                    )
                },
                None => {
                    &&& final(self).end_ref == Some(old(surface)@.nodes.len() as SurfaceHandle)
                    &&& final(self).node_ref == Some((old(surface)@.nodes.len() + 1) as SurfaceHandle)
                    &&& final(surface)@.nodes.len() == old(surface)@.nodes.len() + 2
                    &&& exists|cleared: SurfaceView, emptied: SchedulerView<C>|
                        #[trigger] ancestor_detached(
                            ancestor,
                            old(surface)@,
                            cleared,
                            old(scheduler)@,
                            emptied,
                            parent,
                        ) && final(surface)@ == cleared.added_text(
                            parent,
                            Seq::empty(),
                            next_sibling,
                        ).added_text(parent, Seq::empty(), final(self).end_ref)
                    &&& {
                        let emptied = old(scheduler)@.pushed_all(
                            SchedulerView::<C>::destroys(ancestor_scopes(ancestor)),
                        );
                        &&& emptied.scopes < usize::MAX ==> {
                            let scope = Self::new_scope(old(self).type_id, *parent_scope, emptied);
                            &&& final(self).scope == Some(scope)
                            &&& final(scheduler)@ == Self::mounted(
                                emptied,
                                scope,
                                parent,
                                final(self).end_ref,
                                old(self).props,
                            )
                        }
                        &&& emptied.scopes == usize::MAX ==> final(self).scope.is_none()
                            && final(scheduler)@ == emptied
                    }
                },
            },
            old(scheduler)@.reconciles(
                final(scheduler)@,
                ancestor_scopes(ancestor).to_set(),
                final(self).scopes().to_set(),
            ),
            reconcilable(ancestor, old(surface)@) ==> reconciled(
                final(self).rendered(final(surface)@, parent),
                final(self).distinct(),
                final(self).nodes(),
                ancestor_nodes(ancestor),
                old(surface)@,
                final(surface)@,
                parent,
            ),
            !ancestor_nodes(ancestor).contains(parent) ==> placed(
                old(surface)@,
                final(surface)@,
                parent,
                next_sibling,
                ancestor_flat(ancestor),
                final(self).flat(),
            ),
    {
        let mut kept_scope: Option<(Scope<C>, SurfaceHandle, SurfaceHandle)> = None;
        if let Some(VNode::VComp(a)) = &ancestor {
            if a.type_id == self.type_id && same_key(&a.key, &self.key) {
                if let Some(scope) = &a.scope {
                    if let Some(first_fence) = a.node_ref {
                        if let Some(last_fence) = a.end_ref {
                            if first_fence != last_fence && surface.is_text(first_fence)
                                && surface.is_text(last_fence) && surface.parent(first_fence)
                                == Some(parent) && surface.parent(last_fence) == Some(parent) {
                                kept_scope = Some((scope.clone(), first_fence, last_fence));
                            }
                        }
                    }
                }
            }
        }
        assert(kept_scope == Self::reusable(self.type_id, self.key, ancestor, surface@, parent));
        match kept_scope {
            Some((scope, first_fence, last_fence)) => {
                let runnable = ComponentRunnable {
                    scope: scope.id,
                    task: ComponentTask::Update(
                        UpdateTask::Properties(share(&self.props), Some(last_fence)),
                    ),
                };
                proof {
                    scheduler@.lemma_pushed_extends(runnable);
                    scheduler@.lemma_reconciles_kept(
                        scope.id,
                        runnable.task->Update_0->Properties_0,
                        Some(last_fence),
                    );
                    assert(ancestor_scopes(ancestor).to_set() =~= set![scope.id]) by {
                        assert(ancestor_scopes(ancestor) =~= seq![scope.id]);
                        assert(seq![scope.id][0] == scope.id);
                    }
                    assert(ancestor_nodes(ancestor).contains(first_fence));
                    assert(ancestor_nodes(ancestor).contains(last_fence));
                    assert(ancestor_flat(ancestor) == seq![first_fence] + seq![last_fence]);
                }
                scheduler.push(runnable);
                self.scope = Some(scope);
                self.node_ref = Some(first_fence);
                self.end_ref = Some(last_fence);
                proof {
                    assert(self.nodes() =~= set![first_fence, last_fence]);
                    assert(self.rendered(surface@, parent));
                    assert(self.distinct());
                    assert(scheduler@ == old(scheduler)@.pushed(runnable));
                    assert(runnable.task == ComponentTask::<C>::Update(
                        UpdateTask::Properties(old(self).props, Some(last_fence)),
                    ));
                    assert(self.scopes().to_set() =~= set![scope.id]) by {
                        assert(self.scopes() =~= seq![scope.id]);
                        assert(seq![scope.id][0] == scope.id);
                    }
                }
                Some(first_fence)
            },
            None => {
                let ghost start = surface@;
                let ghost waiting = scheduler@;
                VNode::detach_ancestor(ancestor, surface, scheduler, parent);
                let ghost middle = surface@;
                let ghost detached = scheduler@;
                let last_fence = surface.add_text(parent, "", next_sibling);
                let ghost fenced = surface@;
                let first_fence = surface.add_text(parent, "", Some(last_fence));
                self.node_ref = Some(first_fence);
                self.end_ref = Some(last_fence);
                proof {
                    reveal_strlit("");
                    assert(""@ =~= Seq::<char>::empty());
                    assert(ancestor_detached(ancestor, start, middle, waiting, detached, parent));
                    assert(fenced == middle.added_text(parent, Seq::empty(), next_sibling));
                    assert(surface@ == fenced.added_text(parent, Seq::empty(), Some(last_fence)));
                }
                match scheduler.new_scope() {
                    Some(id) => {
                        let scope: Scope<C> = Scope::new(
                            self.type_id,
                            Some(share(parent_scope)),
                            id,
                        );
                        let scope = scope.mount_in_place(
                            scheduler,
                            parent,
                            Some(last_fence),
                            share(&self.props),
                        );
                        self.scope = Some(scope);
                        proof {
                            assert(scheduler@ =~= Self::mounted(
                                detached,
                                scope,
                                parent,
                                Some(last_fence),
                                self.props,
                            ));
                            detached.lemma_reconciles_mounted(
                                CreateTask {
                                    parent,
                                    next_sibling: Some(last_fence),
                                    props: self.props,
                                    scope,
                                },
                            );
                            assert(self.scopes().to_set() =~= set![scope.id]) by {
                                assert(self.scopes() =~= seq![scope.id]);
                                assert(seq![scope.id][0] == scope.id);
                            }
                            assert(detached.reconciles(
                                scheduler@,
                                Set::empty(),
                                self.scopes().to_set(),
                            ));
                        }
                    },
                    None => {
                        self.scope = None;
                        proof {
                            detached.lemma_reconciles_nothing();
                            assert(self.scopes().to_set() =~= Set::empty());
                        }
                    },
                }
                proof {
                    waiting.lemma_reconciles_twice(
                        detached,
                        scheduler@,
                        ancestor_scopes(ancestor).to_set(),
                        Set::empty(),
                        Set::empty(),
                        self.scopes().to_set(),
                    );
                    assert(ancestor_scopes(ancestor).to_set().union(Set::empty())
                        =~= ancestor_scopes(ancestor).to_set());
                    assert(Set::<ScopeId>::empty().union(self.scopes().to_set())
                        =~= self.scopes().to_set());
                }
                proof {
                    assert(detached.extends_to(scheduler@));
                    waiting.lemma_extends_twice(detached, scheduler@);
                    middle.lemma_evolves_twice(fenced, surface@);
                    start.lemma_evolves_twice(middle, surface@);
                    middle.lemma_preserved_twice(
                        fenced,
                        surface@,
                        Set::empty(),
                        parent,
                        Set::empty(),
                        parent,
                        Set::empty(),
                    );
                    start.lemma_preserved_twice(
                        middle,
                        surface@,
                        ancestor_nodes(ancestor),
                        parent,
                        Set::empty(),
                        parent,
                        ancestor_nodes(ancestor),
                    );
                    assert(self.nodes() =~= set![first_fence, last_fence]);
                    assert(fenced.shown_alike(surface@, last_fence));
                    if !ancestor_nodes(ancestor).contains(parent) {
                        assert forall|front: Seq<SurfaceHandle>, back: Seq<SurfaceHandle>| #[trigger]
                            spliced(start.children(parent), front, ancestor_flat(ancestor), back)
                                && anchored(next_sibling, back) implies surface@.children(parent)
                            == front + self.flat() + back by {
                            assert(middle.children(parent) == front + back);
                            assert(middle.children(parent).no_duplicates());
                            lemma_insert_middle(front, back, last_fence, next_sibling);
                            let behind = seq![last_fence] + back;
                            assert(front + seq![last_fence] + back =~= front + behind);
                            assert(fenced.children(parent).no_duplicates());
                            lemma_insert_middle(front, behind, first_fence, Some(last_fence));
                            assert(front + seq![first_fence] + behind =~= front + (seq![
                                first_fence,
                            ] + seq![last_fence]) + back);
                        }
                    }
                    assert(self.end_ref == Some(old(surface)@.nodes.len() as SurfaceHandle));
                    assert(self.node_ref == Some((old(surface)@.nodes.len() + 1) as SurfaceHandle));
                    assert(surface@.nodes.len() == old(surface)@.nodes.len() + 2);
                    assert(self.rendered(surface@, parent));
                    assert(self.distinct());
                    if detached.scopes < usize::MAX {
                        let scope = Self::new_scope(old(self).type_id, *parent_scope, detached);
                        assert(self.scope == Some(scope));
                        assert(scheduler@ == Self::mounted(
                            detached,
                            scope,
                            parent,
                            self.end_ref,
                            old(self).props,
                        ));
                    } else {
                        assert(self.scope.is_none());
                        assert(scheduler@ == detached);
                    }
                }
                Some(first_fence)
            },
        }
    }
}


/// A virtual child component: what a parent keeps of a component that it will
/// show, while it may still change its properties.
pub struct VChild<C: Component> {
    /// The type of the component.
    pub type_id: TypeIdentity,
    /// The properties of the component.
    pub props: C::Properties,
    /// Tells the component apart from others of its type.
    pub key: Option<Key>,
}

impl<C: Component> VChild<C> {
    /// Creates a child component of the type `type_id`.
    pub fn new(type_id: TypeIdentity, props: C::Properties, key: Option<Key>) -> (vchild: VChild<C>)
        ensures
            vchild.type_id == type_id,
            vchild.props == props,
            vchild.key == key,
    {
        VChild { type_id, props, key }
    }

    /// The virtual component that asks for this child.
    pub fn into_vcomp(self) -> (vcomp: VComp<C>)
        ensures
            vcomp == VComp::asked_by(self),
    {
        VComp::new(self.type_id, Rc::new(self.props), self.key)
    }
}

impl<C: Component> Clone for VChild<C> where C::Properties: Clone {
    fn clone(&self) -> (vchild: VChild<C>)
        ensures
            vchild.type_id == self.type_id,
            cloned(self.props, vchild.props),
            key_view(vchild.key) == key_view(self.key),
    {
        let key = match &self.key {
            Some(key) => Some(key.clone()),
            None => None,
        };
        VChild { type_id: self.type_id, props: self.props.clone(), key }
    }
}

impl<C: Component> From<VChild<C>> for VComp<C> {
    fn from(vchild: VChild<C>) -> (vcomp: VComp<C>) {
        vchild.into_vcomp()
    }
}

impl<C: Component> FromSpecImpl<VChild<C>> for VComp<C> {
    open spec fn obeys_from_spec() -> bool {
        true
    }

    open spec fn from_spec(vchild: VChild<C>) -> VComp<C> {
        VComp::asked_by(vchild)
    }
}

impl<C: Component> PartialEq for VComp<C> {
    /// Two virtual components are equal where they ask for the same type of
    /// component.
    fn eq(&self, other: &VComp<C>) -> (equal: bool) {
        self.type_id == other.type_id
    }
}

impl<C: Component> PartialEqSpecImpl for VComp<C> {
    open spec fn obeys_eq_spec() -> bool {
        true
    }

    open spec fn eq_spec(&self, other: &VComp<C>) -> bool {
        self.type_id == other.type_id
    }
}

impl<C: Component> PartialEq for VChild<C> {
    /// Two children are equal where their properties are.
    fn eq(&self, other: &VChild<C>) -> (equal: bool) {
        self.props == other.props
    }
}

impl<C: Component> PartialEqSpecImpl for VChild<C> {
    open spec fn obeys_eq_spec() -> bool {
        <C::Properties as PartialEqSpec>::obeys_eq_spec()
    }

    open spec fn eq_spec(&self, other: &VChild<C>) -> bool {
        self.props.eq_spec(&other.props)
    }
}

/// Turns a value that is written for a property of a component into the type
/// that the property has.
pub trait Transformer<FROM, TO> {
    /// Whether `to` is what `from` becomes.
    spec fn transforms(from: FROM, to: TO) -> bool;

    /// Transforms a value of one type into one of the other.
    fn transform(from: FROM) -> (to: TO)
        ensures
            Self::transforms(from, to),
    ;
}

impl<C: Component, T> Transformer<T, T> for VComp<C> {
    open spec fn transforms(from: T, to: T) -> bool {
        to == from
    }

    fn transform(from: T) -> (to: T) {
        from
    }
}

impl<'a, C: Component, T: Clone> Transformer<&'a T, T> for VComp<C> {
    open spec fn transforms(from: &'a T, to: T) -> bool {
        cloned(*from, to)
    }

    fn transform(from: &'a T) -> (to: T) {
        from.clone()
    }
}

impl<'a, C: Component> Transformer<&'a str, String> for VComp<C> {
    open spec fn transforms(from: &'a str, to: String) -> bool {
        to@ == from@
    }

    fn transform(from: &'a str) -> (to: String) {
        from.to_string()
    }
}

impl<C: Component, T> Transformer<T, Option<T>> for VComp<C> {
    open spec fn transforms(from: T, to: Option<T>) -> bool {
        to == Some(from)
    }

    fn transform(from: T) -> (to: Option<T>) {
        Some(from)
    }
}

impl<'a, C: Component, T: Clone> Transformer<&'a T, Option<T>> for VComp<C> {
    open spec fn transforms(from: &'a T, to: Option<T>) -> bool {
        to matches Some(value) && cloned(*from, value)
    }

    fn transform(from: &'a T) -> (to: Option<T>) {
        Some(from.clone())
    }
}

impl<'a, C: Component> Transformer<&'a str, Option<String>> for VComp<C> {
    open spec fn transforms(from: &'a str, to: Option<String>) -> bool {
        to matches Some(value) && value@ == from@
    }

    fn transform(from: &'a str) -> (to: Option<String>) {
        Some(from.to_string())
    }
}

impl<'a, C: Component> Transformer<Option<&'a str>, Option<String>> for VComp<C> {
    open spec fn transforms(from: Option<&'a str>, to: Option<String>) -> bool {
        match from {
            Some(text) => to matches Some(value) && value@ == text@,
            None => to.is_none(),
        }
    }

    fn transform(from: Option<&'a str>) -> (to: Option<String>) {
        match from {
            Some(text) => Some(text.to_string()),
            None => None,
        }
    }
}

} // verus!
