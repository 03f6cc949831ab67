//! Links: what a component sends its messages through.

use crate::callback::Callback;
use crate::component::lifecycle::{Runtime, Slot};
use crate::component::Component;
use crate::html::scope::{share, AnyScope, Scope, ScopeId, TypeIdentity};
use crate::scheduler::{ComponentRunnable, ComponentTask, UpdateTask};
use std::rc::Rc;
use vstd::prelude::*;
use vstd::std_specs::convert::FromSpecImpl;

verus! {

/// An untyped link, used to reach the links above a component.
#[derive(Debug)]
pub struct AnyLink {
    pub type_id: TypeIdentity,
    pub parent: Option<Rc<AnyLink>>,
    pub id: ScopeId,
}

impl AnyLink {
    /// The link that corresponds to the scope `scope`.
    pub open spec fn of(scope: AnyScope) -> AnyLink
        decreases scope,
    {
        AnyLink {
            type_id: scope.type_id,
            parent: match scope.parent {
                Some(parent) => Some(Rc::new(Self::of(*parent))),
                None => None,
            },
            id: scope.id,
        }
    }

    /// The link that corresponds to the scope `scope`.
    pub fn from_scope(scope: &AnyScope) -> (link: AnyLink)
        ensures
            link == Self::of(*scope),
        decreases scope,
    {
        let parent = match &scope.parent {
            Some(parent) => Some(Rc::new(Self::from_scope(&**parent))),
            None => None,
        };
        AnyLink { type_id: scope.type_id, parent, id: scope.id }
    }

    /// Returns the parent link.
    pub fn get_parent(&self) -> (parent: Option<&AnyLink>)
        ensures
            match parent {
                Some(p) => self.parent.is_some() && *p == *self.parent.unwrap(),
                None => self.parent.is_none(),
            },
    {
        match &self.parent {
            Some(parent) => Some(&**parent),
            None => None,
        }
    }

    /// Returns the type of the linked component.
    pub fn get_type_id(&self) -> (type_id: &TypeIdentity)
        ensures
            *type_id == self.type_id,
    {
        &self.type_id
    }

    /// Returns the slot of the linked component.
    pub fn get_id(&self) -> (id: ScopeId)
        ensures
            id == self.id,
    {
        self.id
    }

    /// Turns the link into a typed one. The caller names the type that it expects:
    /// asking for another type than the link holds is a programming error.
    pub fn downcast<C: Component>(self, type_id: TypeIdentity) -> (link: ComponentLink<C>)
        requires
            self.type_id == type_id,
        ensures
            link.type_id == self.type_id,
            link.parent == self.parent,
            link.id == self.id,
            link.sent().len() == 0,
    {
        ComponentLink { type_id: self.type_id, parent: self.parent, id: self.id, sent: Vec::new() }
    }

    /// The nearest link of the type `type_id` on the way from this link up through
    /// its parents, this link included.
    pub open spec fn nearest(&self, type_id: TypeIdentity) -> Option<AnyLink>
        decreases self,
    {
        if self.type_id == type_id {
            Some(*self)
        } else {
            match self.parent {
                Some(parent) => parent.nearest(type_id),
                None => None,
            }
        }
    }

    /// Finds the nearest link of the type `type_id` on the way from this link up
    /// through its parents, this link included.
    pub fn find(&self, type_id: TypeIdentity) -> (found: Option<&AnyLink>)
        ensures
            match found {
                Some(link) => self.nearest(type_id) == Some(*link),
                None => self.nearest(type_id).is_none(),
            },
        decreases self,
    {
        if self.type_id == type_id {
            Some(self)
        } else {
            match &self.parent {
                Some(parent) => (&**parent).find(type_id),
                None => None,
            }
        }
    }
}

impl<C: Component> From<ComponentLink<C>> for AnyLink {
    fn from(link: ComponentLink<C>) -> (any: AnyLink) {
        AnyLink { type_id: link.type_id, parent: link.parent, id: link.id }
    }
}

impl<C: Component> FromSpecImpl<ComponentLink<C>> for AnyLink {
    open spec fn obeys_from_spec() -> bool {
        true
    }

    open spec fn from_spec(link: ComponentLink<C>) -> AnyLink {
        link.any()
    }
}

impl Clone for AnyLink {
    fn clone(&self) -> (link: Self)
        ensures
            link == *self,
    {
        let parent = match &self.parent {
            Some(parent) => Some(share(parent)),
            None => None,
        };
        AnyLink { type_id: self.type_id, parent, id: self.id }
    }
}

/// A link to a component. Messages sent through it are collected and handed to
/// the scheduler when the lifecycle function that holds the link returns, so that
/// sending never runs an update inline.
pub struct ComponentLink<C: Component> {
    pub type_id: TypeIdentity,
    pub parent: Option<Rc<AnyLink>>,
    pub id: ScopeId,
    pub sent: Vec<ComponentRunnable<C>>,
}

impl<C: Component> ComponentLink<C> {
    /// The update tasks sent through this link and not yet handed on.
    pub open spec fn sent(&self) -> Seq<ComponentRunnable<C>> {
        self.sent@
    }

    /// The untyped form of this link.
    pub open spec fn any(&self) -> AnyLink {
        AnyLink { type_id: self.type_id, parent: self.parent, id: self.id }
    }

    /// A link for the component at `scope`, through which nothing has been sent.
    pub fn new(scope: &Scope<C>) -> (link: ComponentLink<C>)
        ensures
            link.any() == AnyLink::of(scope.any()),
            link.sent().len() == 0,
    {
        let parent = match &scope.parent {
            Some(parent) => Some(Rc::new(AnyLink::from_scope(&**parent))),
            None => None,
        };
        ComponentLink { type_id: scope.type_id, parent, id: scope.id, sent: Vec::new() }
    }

    /// Another link to the same component, through which nothing has been sent.
    pub fn fresh(&self) -> (link: ComponentLink<C>)
        ensures
            link.any() == self.any(),
            link.sent().len() == 0,
    {
        let parent = match &self.parent {
            Some(parent) => Some(share(parent)),
            None => None,
        };
        ComponentLink { type_id: self.type_id, parent, id: self.id, sent: Vec::new() }
    }

    /// The untyped form of this link.
    pub fn to_any(&self) -> (any: AnyLink)
        ensures
            any == self.any(),
    {
        let parent = match &self.parent {
            Some(parent) => Some(share(parent)),
            None => None,
        };
        AnyLink { type_id: self.type_id, parent, id: self.id }
    }

    /// Returns the parent link.
    pub fn get_parent(&self) -> (parent: Option<&AnyLink>)
        ensures
            match parent {
                Some(p) => self.parent.is_some() && *p == *self.parent.unwrap(),
                None => self.parent.is_none(),
            },
    {
        match &self.parent {
            Some(parent) => Some(&**parent),
            None => None,
        }
    }

    /// The task that hands `update` to the component at the slot `id`.
    pub open spec fn updating(id: ScopeId, update: UpdateTask<C>) -> ComponentRunnable<C> {
        ComponentRunnable { scope: id, task: ComponentTask::Update(update) }
    }

    /// Sends a message to the component.
    pub fn send_message(&mut self, msg: C::Message)
        ensures
            final(self).any() == old(self).any(),
            final(self).sent() == old(self).sent().push(
                Self::updating(old(self).id, UpdateTask::Message(msg)),
            ),
    {
        let scope: ScopeId = self.id;
        self.sent.push(
            ComponentRunnable { scope, task: ComponentTask::Update(UpdateTask::Message(msg)) },
        );
    }

    /// Sends a batch of messages to the component. They are handled together, and
    /// the component is rendered once afterwards if any of them asks for it. An
    /// empty batch sends nothing.
    pub fn send_message_batch(&mut self, messages: Vec<C::Message>)
        ensures
            final(self).any() == old(self).any(),
            final(self).sent() == (if messages@.len() == 0 {
                old(self).sent()
            } else {
                old(self).sent().push(
                    Self::updating(old(self).id, UpdateTask::MessageBatch(messages)),
                )
            }),
    {
        if messages.len() == 0 {
            return ;
        }
        let scope: ScopeId = self.id;
        self.sent.push(
            ComponentRunnable {
                scope,
                task: ComponentTask::Update(UpdateTask::MessageBatch(messages)),
            },
        );
    }

    /// Sends a message to the component that the link `target` leads to, such
    /// as a component above this one.
    pub fn send_to(&mut self, target: &AnyLink, msg: C::Message)
        ensures
            final(self).any() == old(self).any(),
            final(self).sent() == old(self).sent().push(
                Self::updating(target.id, UpdateTask::Message(msg)),
            ),
    {
        self.sent.push(
            ComponentRunnable {
                scope: target.id,
                task: ComponentTask::Update(UpdateTask::Message(msg)),
            },
        );
    }

    /// Returns the properties of the linked component, if it lives.
    pub fn get_props<'a>(&self, runtime: &'a Runtime<C>) -> (props: Option<&'a C::Properties>)
        ensures
            match runtime.slot(self.id) {
                Slot::Live(state) => props == Some(&*state.props),
                _ => props.is_none(),
            },
    {
        runtime.get_props(self.id)
    }

    /// Returns the linked component, if it lives.
    pub fn get_component<'a>(&self, runtime: &'a Runtime<C>) -> (component: Option<&'a C>)
        ensures
            match runtime.slot(self.id) {
                Slot::Live(state) => component == Some(&state.component),
                _ => component.is_none(),
            },
    {
        runtime.get_component(self.id)
    }

    /// Creates a callback that sends the component what `function` makes of its input.
    pub fn callback<F>(&self, function: F) -> (callback: Callback<C, F>)
        ensures
            callback.target == self.id,
            callback.function == function,
    {
        Callback::new(self.id, function)
    }

    /// Sends a message to the component of this link itself, to be handled
    /// after the update or render that is under way.
    pub fn send_self(&mut self, msg: C::Message)
        ensures
            final(self).any() == old(self).any(),
            final(self).sent() == old(self).sent().push(
                Self::updating(old(self).id, UpdateTask::Message(msg)),
            ),
    {
        self.send_message(msg);
    }

    /// Sends a batch of messages to the component of this link itself, to be
    /// handled together after the update or render that is under way. An empty
    /// batch sends nothing.
    pub fn send_self_batch(&mut self, msgs: Vec<C::Message>)
        ensures
            final(self).any() == old(self).any(),
            final(self).sent() == (if msgs@.len() == 0 {
                old(self).sent()
            } else {
                old(self).sent().push(Self::updating(old(self).id, UpdateTask::MessageBatch(msgs)))
            }),
    {
        self.send_message_batch(msgs);
    }

    /// Creates a callback that sends back to the component what `function`
    /// makes of its input.
    pub fn send_back<F, IN>(&self, function: F) -> (callback: Callback<C, F>) where
        F: Fn(IN) -> C::Message,

        ensures
            callback.target == self.id,
            callback.function == function,
    {
        Callback::new(self.id, function)
    }

    /// Creates a callback that sends back to the component the messages that
    /// `function` makes of its input, as one batch.
    pub fn send_back_batch<F, IN>(&self, function: F) -> (callback: Callback<C, F>) where
        F: Fn(IN) -> Vec<C::Message>,

        ensures
            callback.target == self.id,
            callback.function == function,
    {
        Callback::new(self.id, function)
    }

    /// Creates a callback of a function that can be called once, which sends the
    /// component what `function` makes of its input.
    pub fn callback_once<F, IN>(&self, function: F) -> (callback: Callback<C, F>) where
        F: FnOnce(IN) -> C::Message,

        ensures
            callback.target == self.id,
            callback.function == function,
    {
        Callback::new(self.id, function)
    }

    /// Creates a callback that sends the component the messages that `function`
    /// makes of its input: a batch of them, or one message or none.
    pub fn batch_callback<F, IN, OUT>(&self, function: F) -> (callback: Callback<C, F>) where
        F: Fn(IN) -> OUT,
        OUT: SendAsMessage<C>,

        ensures
            callback.target == self.id,
            callback.function == function,
    {
        Callback::new(self.id, function)
    }

    /// Creates a callback of a function that can be called once, which sends the
    /// component the messages that `function` makes of its input: a batch of
    /// them, or one message or none.
    pub fn batch_callback_once<F, IN, OUT>(&self, function: F) -> (callback: Callback<C, F>) where
        F: FnOnce(IN) -> OUT,
        OUT: SendAsMessage<C>,

        ensures
            callback.target == self.id,
            callback.function == function,
    {
        Callback::new(self.id, function)
    }
}


impl<C: Component> Clone for ComponentLink<C> {
    /// Another link to the same component. What was sent through this link
    /// stays with it: nothing has been sent through the new one.
    fn clone(&self) -> (link: ComponentLink<C>)
        ensures
            link.any() == self.any(),
            link.sent().len() == 0,
    {
        self.fresh()
    }
}

/// What can be sent to a component as its messages: one message or none, or a
/// batch of messages.
pub trait SendAsMessage<C: Component>: Sized {
    /// The tasks that sending this to the component in the slot `id` submits.
    spec fn tasks(self, id: ScopeId) -> Seq<ComponentRunnable<C>>;

    /// Sends the messages through `link`.
    fn send(self, link: &mut ComponentLink<C>)
        ensures
            final(link).any() == old(link).any(),
            final(link).sent() == old(link).sent() + self.tasks(old(link).id),
    ;
}

impl<C: Component> SendAsMessage<C> for Option<C::Message> {
    open spec fn tasks(self, id: ScopeId) -> Seq<ComponentRunnable<C>> {
        match self {
            Some(msg) => seq![ComponentLink::<C>::updating(id, UpdateTask::Message(msg))],
            None => Seq::empty(),
        }
    }

    fn send(self, link: &mut ComponentLink<C>) {
        match self {
            Some(msg) => {
                link.send_message(msg);
                assert(link.sent() =~= old(link).sent() + self.tasks(old(link).id));
            },
            None => {
                assert(link.sent() =~= old(link).sent() + self.tasks(old(link).id));
            },
        }
    }
}

impl<C: Component> SendAsMessage<C> for Vec<C::Message> {
    open spec fn tasks(self, id: ScopeId) -> Seq<ComponentRunnable<C>> {
        if self@.len() == 0 {
            Seq::empty()
        } else {
            seq![ComponentLink::<C>::updating(id, UpdateTask::MessageBatch(self))]
        }
    }

    fn send(self, link: &mut ComponentLink<C>) {
        link.send_message_batch(self);
        assert(link.sent() =~= old(link).sent() + self.tasks(old(link).id));
    }
}

} // verus!
