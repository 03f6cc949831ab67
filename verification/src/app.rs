//! The application: the component at the root, mounted into an element of the surface.

use crate::component::lifecycle::Runtime;
use crate::component::Component;
use crate::html::scope::{Scope, TypeIdentity};
use crate::scheduler::SchedulerView;
use crate::surface::{Surface, SurfaceHandle, SurfaceView};
use std::rc::Rc;
use vstd::prelude::*;

verus! {

/// An application that has not been mounted yet.
pub struct App<C: Component> {
    /// The type of the component at the root.
    pub type_id: TypeIdentity,
    pub component: std::marker::PhantomData<C>,
}

/// Whether `after` is `before` with every child taken out of `element`: the
/// element has no children, what were its children have no parent, no node was
/// made, and every other node is as it was.
pub open spec fn cleared(before: SurfaceView, after: SurfaceView, element: SurfaceHandle) -> bool {
    &&& before.evolves_to(after)
    &&& after.nodes.len() == before.nodes.len()
    &&& after.children(element).len() == 0
    &&& forall|child: SurfaceHandle|
        before.children(element).contains(child) ==> (#[trigger] after.parent(child)).is_none()
    &&& forall|node: SurfaceHandle|
        before.contains(node) && node != element && !before.children(element).contains(node)
            ==> #[trigger] after.node(node) == before.node(node)
}

/// Takes every child out of `element`.
pub fn clear_element(surface: &mut Surface, element: SurfaceHandle)
    requires
        old(surface).wf(),
        old(surface)@.is_element(element),
    ensures
        final(surface).wf(),
        cleared(old(surface)@, final(surface)@, element),
{
    let ghost all = surface@.children(element);
    let mut count = surface.children(element).len();
    proof {
        assert(all.no_duplicates());
        assert(surface@.children(element) =~= all.subrange(0, count as int));
    }
    while count > 0
        invariant
            surface.wf(),
            surface@.is_element(element),
            old(surface).wf(),
            old(surface)@.evolves_to(surface@),
            surface@.nodes.len() == old(surface)@.nodes.len(),
            count <= all.len(),
            count == surface@.children(element).len(),
            surface@.children(element) == all.subrange(0, count as int),
            forall|i: int| count <= i < all.len() ==> (#[trigger] surface@.parent(all[i])).is_none(),
            forall|node: SurfaceHandle|
                old(surface)@.contains(node) && node != element && !all.contains(node)
                    ==> #[trigger] surface@.node(node) == old(surface)@.node(node),
            all == old(surface)@.children(element),
            all.no_duplicates(),
        decreases count,
    {
        let ghost before = surface@;
        let last = surface.children(element)[count - 1];
        proof {
            assert(last == all[count - 1]);
            assert(before.is_child(element, before.children(element)[count - 1]));
            before.lemma_removed_frame(element, last);
            assert(before.children(element).no_duplicates());
            assert(before.children(element).index_of(last) == count - 1);
        }
        surface.remove(element, last);
        proof {
            old(surface)@.lemma_evolves_twice(before, surface@);
            assert(surface@.children(element) =~= all.subrange(0, count - 1)) by {
                assert(before.children(element).remove(count - 1) =~= before.children(
                    element,
                ).subrange(0, count - 1));
            }
            assert forall|i: int| count - 1 <= i < all.len() implies (#[trigger] surface@.parent(
                all[i],
            )).is_none() by {
                if i >= count {
                    assert(before.parent(all[i]).is_none());
                    assert(all[i] != last);
                    assert(old(surface)@.is_child(element, old(surface)@.children(element)[i]));
                    assert(all[i] != element);
                    assert(!set![last].contains(all[i]));
                    assert(before.contains(all[i]));
                    assert(surface@.node(all[i]) == before.node(all[i]));
                }
            }
            assert forall|node: SurfaceHandle|
                old(surface)@.contains(node) && node != element && !all.contains(
                    node,
                ) implies #[trigger] surface@.node(node) == old(surface)@.node(node) by {
                assert(before.node(node) == old(surface)@.node(node));
                assert(all.contains(last));
                assert(!set![last].contains(node));
                assert(before.contains(node));
            }
        }
        count = count - 1;
    }
    proof {
        assert forall|child: SurfaceHandle| all.contains(child) implies (#[trigger] surface@.parent(
            child,
        )).is_none() by {
            let i = choose|i: int| 0 <= i < all.len() && all[i] == child;
            assert(surface@.parent(all[i]).is_none());
        }
    }
}

impl<C: Component> App<C> {
    /// Creates an application with a component of the type `type_id` at its root.
    pub fn new(type_id: TypeIdentity) -> (app: App<C>)
        ensures
            app.type_id == type_id,
    {
        App { type_id, component: std::marker::PhantomData }
    }

    /// The scope that the component at the root gets.
    pub open spec fn root_scope(&self, scheduler: SchedulerView<C>) -> Scope<C> {
        Scope {
            type_id: self.type_id,
            parent: None,
            id: scheduler.scopes as usize,
            component: std::marker::PhantomData,
        }
    }

    /// What mounting the application into `element` makes of a runtime.
    ///
    /// What `element` held is taken out of it; the scope that is next is given
    /// to the component at the root, and the tasks that create it with `props`
    /// and update it for the first time are submitted. Then the tasks that wait
    /// run one after the other, until none is left, the scheduler is found
    /// locked, or as many ran as the runtime allows in one go.
    pub open spec fn mounts(
        &self,
        before: &Runtime<C>,
        after: &Runtime<C>,
        element: SurfaceHandle,
        props: Rc<C::Properties>,
        scope: Scope<C>,
    ) -> bool {
        &&& scope == self.root_scope(before.scheduler@)
        &&& exists|trace: Seq<Runtime<C>>|
            {
                &&& #[trigger] Runtime::ran_through(trace)
                &&& 0 < trace.len() <= before.limit + 1
                &&& cleared(before.surface@, trace[0].surface@, element)
                &&& trace[0].scheduler@ == Scope::mounting(
                    before.scheduler@.with_scope(),
                    scope,
                    element,
                    None,
                    props,
                )
                &&& trace[0].components@ == before.components@
                &&& trace[0].limit == before.limit
                &&& trace.last().same_state(after)
                &&& trace.len() <= before.limit ==> after.scheduler@.locked
                    || after.scheduler@.next().is_none()
            }
    }

    /// Mounts the application into `element`, with the default properties for
    /// the component at the root, and starts the scheduler.
    pub fn mount(self, runtime: &mut Runtime<C>, element: SurfaceHandle) -> (scope: Scope<C>) where
        C::Properties: Default,

        requires
            old(runtime).wf(),
            old(runtime).surface@.is_element(element),
            old(runtime).scheduler@.scopes < usize::MAX,
        ensures
            final(runtime).wf(),
            final(runtime).limit == old(runtime).limit,
            old(runtime).surface@.evolves_to(final(runtime).surface@),
            exists|props: Rc<C::Properties>| #[trigger]
                self.mounts(old(runtime), final(runtime), element, props, scope),
    {
        self.mount_with_props(runtime, element, Default::default())
    }

    /// Mounts the application into `element`, with the properties `props` for
    /// the component at the root, and starts the scheduler.
    pub fn mount_with_props(
        self,
        runtime: &mut Runtime<C>,
        element: SurfaceHandle,
        props: C::Properties,
    ) -> (scope: Scope<C>)
        requires
            old(runtime).wf(),
            old(runtime).surface@.is_element(element),
            old(runtime).scheduler@.scopes < usize::MAX,
        ensures
            final(runtime).wf(),
            final(runtime).limit == old(runtime).limit,
            old(runtime).surface@.evolves_to(final(runtime).surface@),
            self.mounts(old(runtime), final(runtime), element, Rc::new(props), scope),
    {
        let ghost start = *runtime;
        clear_element(&mut runtime.surface, element);
        let ghost emptied = *runtime;
        proof {
            assert forall|id: usize|
                (#[trigger] emptied.slot(id)) matches crate::component::lifecycle::Slot::Live(state)
                    ==> emptied.surface@.is_element(state.parent) by {
                assert(emptied.slot(id) == start.slot(id));
            }
        }
        let id = runtime.scheduler.new_scope().unwrap();
        let scope: Scope<C> = Scope::new(self.type_id, None, id);
        let scope = scope.mount_in_place(&mut runtime.scheduler, element, None, Rc::new(props));
        let ghost mounted = *runtime;
        proof {
            assert forall|id: usize|
                (#[trigger] mounted.slot(id)) matches crate::component::lifecycle::Slot::Live(state)
                    ==> mounted.surface@.is_element(state.parent) by {
                assert(mounted.slot(id) == emptied.slot(id));
            }
        }
        let ran = runtime.start();
        proof {
            start.surface@.lemma_evolves_twice(emptied.surface@, runtime.surface@);
            let trace = choose|trace: Seq<Runtime<C>>|
                {
                    &&& #[trigger] Runtime::ran_through(trace)
                    &&& trace.len() == ran + 1
                    &&& trace[0] == mounted
                    &&& trace[ran as int].same_state(runtime)
                };
            assert(trace.last() == trace[ran as int]);
            assert(Runtime::ran_through(trace));
        }
        scope
    }
}

} // verus!
