//! Callbacks: how what happens outside a component reaches it as a message.

use crate::component::link::{ComponentLink, SendAsMessage};
use crate::component::Component;
use crate::html::scope::ScopeId;
use crate::scheduler::{
    updates_of, updates_only, ComponentRunnable, ComponentTask, Scheduler, UpdateTask,
};
use std::marker::PhantomData;
use vstd::prelude::*;

verus! {

/// A callback: a function that makes a message of an input, and the scope of
/// the component that the message is for.
///
/// A callback may outlive its component: what it sends to a component that has
/// been destroyed is a task that does nothing.
pub struct Callback<C: Component, F> {
    /// The slot of the component that the messages are for.
    pub target: ScopeId,
    /// What makes a message of an input.
    pub function: F,
    pub component: PhantomData<C>,
}

impl<C: Component, F> Callback<C, F> {
    /// A callback that sends the component at the slot `target` what `function`
    /// makes of its input.
    pub fn new(target: ScopeId, function: F) -> (callback: Callback<C, F>)
        ensures
            callback.target == target,
            callback.function == function,
    {
        Callback { target, function, component: PhantomData }
    }

    /// Calls the function on `input` and sends the component the message that it returns.
    pub fn emit<IN>(&self, scheduler: &mut Scheduler<C>, input: IN) where F: Fn(IN) -> C::Message
        requires
            call_requires(self.function, (input,)),
        ensures
            exists|message: C::Message|
                call_ensures(self.function, (input,), message) && final(scheduler)@ == old(
                    scheduler,
                )@.pushed(#[trigger] ComponentLink::updating(self.target, UpdateTask::Message(message))),
    {
        let message = (self.function)(input);
        let ghost sent = ComponentLink::<C>::updating(self.target, UpdateTask::Message(message));
        scheduler.push(
            ComponentRunnable {
                scope: self.target,
                task: ComponentTask::Update(UpdateTask::Message(message)),
            },
        );
        assert(scheduler@ == old(scheduler)@.pushed(sent));
    }

    /// Calls the function on `input`, once and for all, and sends the component
    /// the message that it returns.
    pub fn emit_once<IN>(self, scheduler: &mut Scheduler<C>, input: IN) where
        F: FnOnce(IN) -> C::Message,

        requires
            call_requires(self.function, (input,)),
        ensures
            exists|message: C::Message|
                call_ensures(self.function, (input,), message) && final(scheduler)@ == old(
                    scheduler,
                )@.pushed(#[trigger] ComponentLink::updating(self.target, UpdateTask::Message(message))),
    {
        let target = self.target;
        let message = (self.function)(input);
        let ghost sent = ComponentLink::<C>::updating(target, UpdateTask::Message(message));
        scheduler.push(
            ComponentRunnable {
                scope: target,
                task: ComponentTask::Update(UpdateTask::Message(message)),
            },
        );
        assert(scheduler@ == old(scheduler)@.pushed(sent));
    }

    /// Calls the function on `input` and sends the component what it returns: a
    /// batch of messages, which are handled together, or one message or none.
    /// Nothing but updates is submitted.
    pub fn emit_batch<IN, OUT>(&self, scheduler: &mut Scheduler<C>, input: IN) where
        F: Fn(IN) -> OUT,
        OUT: SendAsMessage<C>,

        requires
            call_requires(self.function, (input,)),
        ensures
            exists|out: OUT|
                #![trigger call_ensures(self.function, (input,), out)]
                call_ensures(self.function, (input,), out) && final(scheduler)@ == old(
                    scheduler,
                )@.pushed_all(updates_of(out.tasks(self.target))),
    {
        let out = (self.function)(input);
        let mut link: ComponentLink<C> = ComponentLink {
            type_id: 0,
            parent: None,
            id: self.target,
            sent: Vec::new(),
        };
        out.send(&mut link);
        assert(link.sent() =~= out.tasks(self.target));
        scheduler.push_batch(updates_only(link.sent));
    }

    /// Calls the function on `input`, once and for all, and sends the component
    /// what it returns: a batch of messages, which are handled together, or one
    /// message or none.
    pub fn emit_batch_once<IN, OUT>(self, scheduler: &mut Scheduler<C>, input: IN) where
        F: FnOnce(IN) -> OUT,
        OUT: SendAsMessage<C>,

        requires
            call_requires(self.function, (input,)),
        ensures
            exists|out: OUT|
                #![trigger call_ensures(self.function, (input,), out)]
                call_ensures(self.function, (input,), out) && final(scheduler)@ == old(
                    scheduler,
                )@.pushed_all(updates_of(out.tasks(self.target))),
    {
        let target = self.target;
        let out = (self.function)(input);
        let mut link: ComponentLink<C> = ComponentLink {
            type_id: 0,
            parent: None,
            id: target,
            sent: Vec::new(),
        };
        out.send(&mut link);
        assert(link.sent() =~= out.tasks(target));
        scheduler.push_batch(updates_only(link.sent));
    }
}

} // verus!
