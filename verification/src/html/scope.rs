//! Scopes: the addresses under which the scheduler knows the mounted components.

use crate::callback::Callback;
use crate::component::lifecycle::{Runtime, Slot};
use crate::component::Component;
use crate::scheduler::{
    ComponentRunnable, ComponentTask, CreateTask, Scheduler, SchedulerView, UpdateTask,
};
use crate::surface::SurfaceHandle;
use std::marker::PhantomData;
use std::rc::Rc;
use vstd::prelude::*;
use vstd::std_specs::convert::FromSpecImpl;

verus! {

/// The slot of a component in the runtime. A slot is given out once and names the
/// same component for as long as the runtime lives.
pub type ScopeId = usize;

/// A stable identifier of the kind of a component. Two virtual components are
/// reconciled with each other only where their identifiers agree.
pub type TypeIdentity = u64;

/// Another pointer to what `rc` points to.
///
/// Calls `Rc::clone`. The clone points to the same allocation, so it holds the
/// same value.
#[verifier::external_body]
pub(crate) fn share<T>(rc: &Rc<T>) -> (shared: Rc<T>)
    ensures
        shared == *rc,
{
    Rc::clone(rc)
}

/// Whether the two pointers point to the same allocation.
///
/// Calls `Rc::ptr_eq`. Two pointers to the same allocation hold the same value.
#[verifier::external_body]
pub(crate) fn same_allocation<T>(a: &Rc<T>, b: &Rc<T>) -> (same: bool)
    ensures
        same ==> *a == *b,
{
    Rc::ptr_eq(a, b)
}

/// An untyped scope, used to reach the scopes above a component.
#[derive(Debug)]
pub struct AnyScope {
    pub type_id: TypeIdentity,
    pub parent: Option<Rc<AnyScope>>,
    pub id: ScopeId,
}

impl AnyScope {
    /// The scope of the component that no component stands above.
    pub fn root(type_id: TypeIdentity, id: ScopeId) -> (scope: AnyScope)
        ensures
            scope.type_id == type_id,
            scope.id == id,
            scope.parent.is_none(),
    {
        AnyScope { type_id, parent: None, id }
    }

    /// Returns the parent scope.
    pub fn get_parent(&self) -> (parent: Option<&AnyScope>)
        ensures
            match parent {
                Some(p) => self.parent.is_some() && *p == *self.parent.unwrap(),
                None => self.parent.is_none(),
            },
    {
        match &self.parent {
            Some(parent) => Some(&**parent),
            None => None,
        }
    }

    /// Returns the type of the linked component.
    pub fn get_type_id(&self) -> (type_id: &TypeIdentity)
        ensures
            *type_id == self.type_id,
    {
        &self.type_id
    }

    /// Returns the slot of the linked component.
    pub fn get_id(&self) -> (id: ScopeId)
        ensures
            id == self.id,
    {
        self.id
    }

    /// Turns the scope into a typed one. The caller names the type that it expects:
    /// asking for another type than the scope holds is a programming error.
    pub fn downcast<C: Component>(self, type_id: TypeIdentity) -> (scope: Scope<C>)
        requires
            self.type_id == type_id,
        ensures
            scope.type_id == self.type_id,
            scope.parent == self.parent,
            scope.id == self.id,
    {
        Scope { type_id: self.type_id, parent: self.parent, id: self.id, component: PhantomData }
    }
}

/// A scope of a component of type `C`: the address that messages for it are sent to.
pub struct Scope<C: Component> {
    pub type_id: TypeIdentity,
    pub parent: Option<Rc<AnyScope>>,
    pub id: ScopeId,
    pub component: PhantomData<C>,
}

impl<C: Component> Scope<C> {
    /// The untyped form of this scope.
    pub open spec fn any(&self) -> AnyScope {
        AnyScope { type_id: self.type_id, parent: self.parent, id: self.id }
    }

    /// Returns the parent scope.
    pub fn get_parent(&self) -> (parent: Option<&AnyScope>)
        ensures
            match parent {
                Some(p) => self.parent.is_some() && *p == *self.parent.unwrap(),
                None => self.parent.is_none(),
            },
    {
        match &self.parent {
            Some(parent) => Some(&**parent),
            None => None,
        }
    }

    /// Returns the type of the linked component.
    pub fn get_type_id(&self) -> (type_id: &TypeIdentity)
        ensures
            *type_id == self.type_id,
    {
        &self.type_id
    }

    /// Returns the slot of the linked component.
    pub fn get_id(&self) -> (id: ScopeId)
        ensures
            id == self.id,
    {
        self.id
    }

    /// The scope of a component of the type `type_id` in the slot `id`, below `parent`.
    pub fn new(type_id: TypeIdentity, parent: Option<Rc<AnyScope>>, id: ScopeId) -> (scope: Scope<C>)
        ensures
            scope.type_id == type_id,
            scope.parent == parent,
            scope.id == id,
    {
        Scope { type_id, parent, id, component: PhantomData }
    }

    /// The untyped form of this scope.
    pub fn to_any(&self) -> (any: AnyScope)
        ensures
            any == self.any(),
    {
        let parent = match &self.parent {
            Some(parent) => Some(share(parent)),
            None => None,
        };
        AnyScope { type_id: self.type_id, parent, id: self.id }
    }
}

impl<C: Component> From<Scope<C>> for AnyScope {
    fn from(scope: Scope<C>) -> (any: AnyScope) {
        AnyScope { type_id: scope.type_id, parent: scope.parent, id: scope.id }
    }
}

impl<C: Component> FromSpecImpl<Scope<C>> for AnyScope {
    open spec fn obeys_from_spec() -> bool {
        true
    }

    open spec fn from_spec(scope: Scope<C>) -> AnyScope {
        scope.any()
    }
}

impl<C: Component> Clone for Scope<C> {
    fn clone(&self) -> (scope: Self)
        ensures
            scope == *self,
    {
        let parent = match &self.parent {
            Some(parent) => Some(share(parent)),
            None => None,
        };
        Scope { type_id: self.type_id, parent, id: self.id, component: PhantomData }
    }
}

impl Clone for AnyScope {
    fn clone(&self) -> (scope: Self)
        ensures
            scope == *self,
    {
        let parent = match &self.parent {
            Some(parent) => Some(share(parent)),
            None => None,
        };
        AnyScope { type_id: self.type_id, parent, id: self.id }
    }
}


impl<C: Component> Scope<C> {
    /// The task that hands `update` to the component at this scope.
    pub open spec fn updating(&self, update: UpdateTask<C>) -> ComponentRunnable<C> {
        ComponentRunnable { scope: self.id, task: ComponentTask::Update(update) }
    }

    /// The scheduler after the component at `scope` was mounted: the task that
    /// creates it and the task that updates it for the first time wait one behind
    /// the other.
    pub open spec fn mounting(
        scheduler: SchedulerView<C>,
        scope: Scope<C>,
        parent: SurfaceHandle,
        next_sibling: Option<SurfaceHandle>,
        props: Rc<C::Properties>,
    ) -> SchedulerView<C> {
        scheduler.pushed(
            ComponentRunnable {
                scope: scope.id,
                task: ComponentTask::Create(CreateTask { parent, next_sibling, props, scope }),
            },
        ).pushed(
            ComponentRunnable { scope: scope.id, task: ComponentTask::Update(UpdateTask::First) },
        )
    }

    /// Mounts a component with the properties `props` below the element `parent`,
    /// in front of `next_sibling`.
    ///
    /// The task that creates the component and the task that updates it for the
    /// first time are submitted while the scheduler is held, so that no task can
    /// start between the two and find the component half made.
    pub fn mount_in_place(
        self,
        scheduler: &mut Scheduler<C>,
        parent: SurfaceHandle,
        next_sibling: Option<SurfaceHandle>,
        props: Rc<C::Properties>,
    ) -> (scope: Scope<C>)
        ensures
            scope == self,
            final(scheduler)@ == Self::mounting(old(scheduler)@, self, parent, next_sibling, props),
            old(scheduler)@.extends_to(final(scheduler)@),
    {
        let lock = scheduler.lock();
        let id = self.id;
        let create = ComponentRunnable {
            scope: id,
            task: ComponentTask::Create(
                CreateTask { parent, next_sibling, props, scope: self.clone() },
            ),
        };
        scheduler.push(create);
        scheduler.push(ComponentRunnable { scope: id, task: ComponentTask::Update(UpdateTask::First) });
        scheduler.unlock(lock);
        assert(scheduler@ =~= Self::mounting(old(scheduler)@, self, parent, next_sibling, props));
        self
    }

    /// Submits an update for the component.
    pub fn update(&self, scheduler: &mut Scheduler<C>, update: UpdateTask<C>)
        ensures
            final(scheduler)@ == old(scheduler)@.pushed(self.updating(update)),
    {
        scheduler.push(ComponentRunnable { scope: self.id, task: ComponentTask::Update(update) });
    }

    /// Submits the task that destroys the component.
    pub fn destroy(&mut self, scheduler: &mut Scheduler<C>)
        ensures
            *final(self) == *old(self),
            final(scheduler)@ == old(scheduler)@.pushed(
                ComponentRunnable { scope: old(self).id, task: ComponentTask::Destroy },
            ),
    {
        scheduler.push(ComponentRunnable { scope: self.id, task: ComponentTask::Destroy });
    }

    /// Sends a message to the component. The message is handled when the
    /// scheduler runs the task, never while it is sent.
    pub fn send_message(&self, scheduler: &mut Scheduler<C>, msg: C::Message)
        ensures
            final(scheduler)@ == old(scheduler)@.pushed(self.updating(UpdateTask::Message(msg))),
    {
        self.update(scheduler, UpdateTask::Message(msg));
    }

    /// Sends a batch of messages to the component. They are handled together, and
    /// the component is rendered once afterwards if any of them asks for it. An
    /// empty batch sends nothing.
    pub fn send_message_batch(&self, scheduler: &mut Scheduler<C>, messages: Vec<C::Message>)
        ensures
            final(scheduler)@ == (if messages@.len() == 0 {
                old(scheduler)@
            } else {
                old(scheduler)@.pushed(self.updating(UpdateTask::MessageBatch(messages)))
            }),
    {
        if messages.len() == 0 {
            return ;
        }
        self.update(scheduler, UpdateTask::MessageBatch(messages));
    }

    /// Returns the linked component, if it lives.
    pub fn get_component<'a>(&self, runtime: &'a Runtime<C>) -> (component: Option<&'a C>)
        ensures
            match runtime.slot(self.id) {
                Slot::Live(state) => component == Some(&state.component),
                _ => component.is_none(),
            },
    {
        runtime.get_component(self.id)
    }

    /// Creates a callback that sends the component what `function` makes of its input.
    pub fn callback<F>(&self, function: F) -> (callback: Callback<C, F>)
        ensures
            callback.target == self.id,
            callback.function == function,
    {
        Callback::new(self.id, function)
    }

    /// Creates a callback of a function that can be called once, which sends the
    /// component what `function` makes of its input.
    pub fn callback_once<F, IN>(&self, function: F) -> (callback: Callback<C, F>) where
        F: FnOnce(IN) -> C::Message,

        ensures
            callback.target == self.id,
            callback.function == function,
    {
        Callback::new(self.id, function)
    }

    /// Creates a callback that sends the component the messages that `function`
    /// makes of its input, as one batch.
    pub fn batch_callback<F, IN>(&self, function: F) -> (callback: Callback<C, F>) where
        F: Fn(IN) -> Vec<C::Message>,

        ensures
            callback.target == self.id,
            callback.function == function,
    {
        Callback::new(self.id, function)
    }
}

} // verus!
