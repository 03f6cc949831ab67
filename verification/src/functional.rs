//! Hooks: state that a function component keeps between renders.
//!
//! A function component is a function from properties to a view. What it needs
//! to remember from one render to the next lives in hooks. A hook is known by
//! its place in the order in which the function asks for its hooks: the function
//! must ask for the same hooks in the same order on every render. The state of
//! the hooks is handed to each hook function by the component that hosts the
//! function.

use crate::component::lifecycle::{Runtime, Slot};
use crate::component::link::{AnyLink, ComponentLink};
use crate::component::{Component, ShouldRender};
use crate::html::scope::{AnyScope, ScopeId, TypeIdentity};
use crate::scheduler::{ComponentRunnable, ComponentTask, UpdateTask};
use std::rc::Rc;
use vstd::prelude::*;
use vstd::std_specs::cmp::PartialEqSpec;

verus! {

/// The messages that wait until the render that is under way has been applied.
pub struct MsgQueue<M> {
    messages: Vec<M>,
}

impl<M> View for MsgQueue<M> {
    type V = Seq<M>;

    closed spec fn view(&self) -> Seq<M> {
        self.messages@
    }
}

impl<M> MsgQueue<M> {
    /// An empty queue.
    pub fn new() -> (queue: MsgQueue<M>)
        ensures
            queue@.len() == 0,
    {
        MsgQueue { messages: Vec::new() }
    }

    /// Puts a message at the end of the queue.
    pub fn push(&mut self, msg: M)
        ensures
            final(self)@ == old(self)@.push(msg),
    {
        self.messages.push(msg);
    }

    /// Hands out the messages, the oldest first, and leaves the queue empty.
    pub fn drain(&mut self) -> (messages: Vec<M>)
        ensures
            messages@ == old(self)@,
            final(self)@.len() == 0,
    {
        let mut messages: Vec<M> = Vec::new();
        std::mem::swap(&mut messages, &mut self.messages);
        messages
    }
}

/// The hooks of one function component.
///
/// `V` is the type of what the hooks hold; `M` is the type of the messages of
/// the component that hosts the function.
pub struct HookState<V, M> {
    /// The number of hooks that the render under way has asked for so far.
    pub counter: usize,
    /// The scope of the component that hosts the function.
    pub scope: AnyScope,
    /// What the hooks hold, in the order in which they were first asked for.
    pub hooks: Vec<V>,
    /// The messages to send once the render under way has been applied.
    pub message_queue: MsgQueue<M>,
}

/// The handle of a hook: its place among the hooks of its component.
#[derive(Clone, Copy, PartialEq, Eq, Structural, Debug)]
pub struct HookUpdater {
    pub hook: usize,
}

impl<V, M> HookState<V, M> {
    /// A render asks for no more hooks than there are, plus the one it is about to add.
    pub open spec fn wf(&self) -> bool {
        self.counter <= self.hooks@.len()
    }

    /// No hooks, for the component at `scope`.
    pub fn new(scope: AnyScope) -> (state: HookState<V, M>)
        ensures
            state.wf(),
            state.counter == 0,
            state.scope == scope,
            state.hooks@.len() == 0,
            state.message_queue@.len() == 0,
    {
        HookState { counter: 0, scope, hooks: Vec::new(), message_queue: MsgQueue::new() }
    }

    /// Starts a render: the function is about to ask for its first hook.
    pub fn reset(&mut self)
        ensures
            final(self).wf(),
            final(self).counter == 0,
            final(self).scope == old(self).scope,
            final(self).hooks == old(self).hooks,
            final(self).message_queue == old(self).message_queue,
    {
        self.counter = 0;
    }

    /// What the hook of `updater` holds.
    pub fn value(&self, updater: &HookUpdater) -> (value: &V)
        requires
            updater.hook < self.hooks@.len(),
        ensures
            *value == self.hooks@[updater.hook as int],
    {
        &self.hooks[updater.hook]
    }

    /// Hands out the messages that waited for the render to be applied, the oldest first.
    pub fn after_render(&mut self) -> (messages: Vec<M>)
        ensures
            messages@ == old(self).message_queue@,
            final(self).message_queue@.len() == 0,
            final(self).counter == old(self).counter,
            final(self).scope == old(self).scope,
            final(self).hooks == old(self).hooks,
    {
        self.message_queue.drain()
    }
}

impl HookUpdater {
    /// Lets `cb` make a new value of what the hook holds. Returns what `cb`
    /// answers to whether the component should render again. Nothing happens, and
    /// `false` is returned, where the component has no such hook.
    pub fn callback<V, M, F>(&self, state: &mut HookState<V, M>, cb: F) -> (should_render:
        ShouldRender) where F: FnOnce(&V) -> (V, ShouldRender)
        requires
            self.hook < old(state).hooks@.len() ==> call_requires(
                cb,
                (&old(state).hooks@[self.hook as int],),
            ),
        ensures
            final(state).counter == old(state).counter,
            final(state).scope == old(state).scope,
            final(state).message_queue == old(state).message_queue,
            self.hook < old(state).hooks@.len() ==> final(state).hooks@ == old(state).hooks@.update(self.hook as int, final(state).hooks@[self.hook as int])
                && call_ensures(
                cb,
                (&old(state).hooks@[self.hook as int],),
                (final(state).hooks@[self.hook as int], should_render),
            ),
            self.hook >= old(state).hooks@.len() ==> final(state).hooks == old(state).hooks
                && !should_render,
    {
        if self.hook >= state.hooks.len() {
            return false;
        }
        let (value, should_render) = cb(&state.hooks[self.hook]);
        state.hooks[self.hook] = value;
        should_render
    }

    /// Keeps `message` until the render under way has been applied.
    pub fn post_render<V, M>(&self, state: &mut HookState<V, M>, message: M)
        ensures
            final(state).counter == old(state).counter,
            final(state).scope == old(state).scope,
            final(state).hooks == old(state).hooks,
            final(state).message_queue@ == old(state).message_queue@.push(message),
    {
        state.message_queue.push(message);
    }
}

/// Asks for the next hook. On the first render the hook is made, and holds what
/// `initializer` returns; on later renders the hook made then is found again.
pub fn use_hook<V, M, I>(state: &mut HookState<V, M>, initializer: I) -> (updater: HookUpdater) where
    I: FnOnce() -> V,

    requires
        old(state).wf(),
        call_requires(initializer, ()),
    ensures
        final(state).wf(),
        updater.hook == old(state).counter,
        final(state).counter == old(state).counter + 1,
        final(state).scope == old(state).scope,
        final(state).message_queue == old(state).message_queue,
        old(state).counter < old(state).hooks@.len() ==> final(state).hooks == old(state).hooks,
        old(state).counter == old(state).hooks@.len() ==> final(state).hooks@.len() == old(state).hooks@.len() + 1 && final(state).hooks@ == old(state).hooks@.push(
            final(state).hooks@[updater.hook as int],
        ) && call_ensures(initializer, (), final(state).hooks@[updater.hook as int]),
{
    let hook = state.counter;
    if hook >= state.hooks.len() {
        let initial = initializer();
        state.hooks.push(initial);
    }
    let count = state.hooks.len();
    assert(hook < count);
    state.counter = hook + 1;
    HookUpdater { hook }
}

/// The handle of a hook that holds a value which changes without a render.
#[derive(Clone, Copy, Debug)]
pub struct UseRefHandle {
    pub updater: HookUpdater,
}

impl UseRefHandle {
    /// Replaces what the hook holds. The component is not rendered for it.
    /// Nothing happens where the component has no such hook.
    pub fn set<V, M>(&self, state: &mut HookState<V, M>, value: V)
        ensures
            final(state).counter == old(state).counter,
            final(state).scope == old(state).scope,
            final(state).message_queue == old(state).message_queue,
            final(state).hooks@ == (if self.updater.hook < old(state).hooks@.len() {
                old(state).hooks@.update(self.updater.hook as int, value)
            } else {
                old(state).hooks@
            }),
    {
        if self.updater.hook < state.hooks.len() {
            state.hooks[self.updater.hook] = value;
        }
    }
}

/// Asks for a hook that holds a value between renders, for data whose change
/// need not be shown.
pub fn use_ref<V, M, I>(state: &mut HookState<V, M>, initial_value: I) -> (handle: UseRefHandle) where
    I: FnOnce() -> V,

    requires
        old(state).wf(),
        call_requires(initial_value, ()),
    ensures
        final(state).wf(),
        handle.updater.hook == old(state).counter,
        final(state).counter == old(state).counter + 1,
        final(state).scope == old(state).scope,
        final(state).message_queue == old(state).message_queue,
        old(state).counter < old(state).hooks@.len() ==> final(state).hooks == old(state).hooks,
        old(state).counter == old(state).hooks@.len() ==> final(state).hooks@ == old(state).hooks@.push(final(state).hooks@[handle.updater.hook as int]) && call_ensures(
            initial_value,
            (),
            final(state).hooks@[handle.updater.hook as int],
        ),
{
    UseRefHandle { updater: use_hook(state, initial_value) }
}

/// The handle of a hook that holds a piece of state: setting it makes the
/// component render again.
#[derive(Clone, Copy, Debug)]
pub struct UseStateHandle {
    pub updater: HookUpdater,
}

impl UseStateHandle {
    /// Replaces what the hook holds, and asks for a render. Nothing happens,
    /// and no render is asked for, where the component has no such hook.
    pub fn set<V, M>(&self, state: &mut HookState<V, M>, value: V) -> (should_render: ShouldRender)
        ensures
            should_render == (self.updater.hook < old(state).hooks@.len()),
            final(state).counter == old(state).counter,
            final(state).scope == old(state).scope,
            final(state).message_queue == old(state).message_queue,
            final(state).hooks@ == (if self.updater.hook < old(state).hooks@.len() {
                old(state).hooks@.update(self.updater.hook as int, value)
            } else {
                old(state).hooks@
            }),
    {
        if self.updater.hook < state.hooks.len() {
            state.hooks[self.updater.hook] = value;
            true
        } else {
            false
        }
    }
}

/// Asks for a hook that holds a piece of state between renders.
pub fn use_state<V, M, I>(state: &mut HookState<V, M>, initial_state_fn: I) -> (handle:
    UseStateHandle) where I: FnOnce() -> V
    requires
        old(state).wf(),
        call_requires(initial_state_fn, ()),
    ensures
        final(state).wf(),
        handle.updater.hook == old(state).counter,
        final(state).counter == old(state).counter + 1,
        final(state).scope == old(state).scope,
        final(state).message_queue == old(state).message_queue,
        old(state).counter < old(state).hooks@.len() ==> final(state).hooks == old(state).hooks,
        old(state).counter == old(state).hooks@.len() ==> final(state).hooks@ == old(state).hooks@.push(final(state).hooks@[handle.updater.hook as int]) && call_ensures(
            initial_state_fn,
            (),
            final(state).hooks@[handle.updater.hook as int],
        ),
{
    UseStateHandle { updater: use_hook(state, initial_state_fn) }
}

/// The handle of a hook that holds a piece of state which changes by actions:
/// the reducer makes the next state of the current one and an action.
pub struct UseReducerHandle<R> {
    pub updater: HookUpdater,
    pub reducer: R,
}

impl<R> UseReducerHandle<R> {
    /// Lets the reducer make the next state of the current one and `action`, and
    /// asks for a render. Nothing happens, and no render is asked for, where the
    /// component has no such hook.
    pub fn dispatch<V, M, A>(&self, state: &mut HookState<V, M>, action: A) -> (should_render:
        ShouldRender) where R: Fn(&V, A) -> V
        requires
            self.updater.hook < old(state).hooks@.len() ==> call_requires(
                self.reducer,
                (&old(state).hooks@[self.updater.hook as int], action),
            ),
        ensures
            should_render == (self.updater.hook < old(state).hooks@.len()),
            final(state).counter == old(state).counter,
            final(state).scope == old(state).scope,
            final(state).message_queue == old(state).message_queue,
            should_render ==> final(state).hooks@ == old(state).hooks@.update(
                self.updater.hook as int,
                final(state).hooks@[self.updater.hook as int],
            ) && call_ensures(
                self.reducer,
                (&old(state).hooks@[self.updater.hook as int], action),
                final(state).hooks@[self.updater.hook as int],
            ),
            !should_render ==> final(state).hooks == old(state).hooks,
    {
        if self.updater.hook >= state.hooks.len() {
            return false;
        }
        let next = (self.reducer)(&state.hooks[self.updater.hook], action);
        state.hooks[self.updater.hook] = next;
        true
    }
}

/// Asks for a hook that holds a piece of state which changes by actions, and
/// which is `initial_state` at first.
pub fn use_reducer<V, M, R>(state: &mut HookState<V, M>, reducer: R, initial_state: V) -> (handle:
    UseReducerHandle<R>)
    requires
        old(state).wf(),
    ensures
        final(state).wf(),
        handle.reducer == reducer,
        handle.updater.hook == old(state).counter,
        final(state).counter == old(state).counter + 1,
        final(state).scope == old(state).scope,
        final(state).message_queue == old(state).message_queue,
        final(state).hooks@ == (if old(state).counter < old(state).hooks@.len() {
            old(state).hooks@
        } else {
            old(state).hooks@.push(initial_state)
        }),
{
    let hook = state.counter;
    if hook >= state.hooks.len() {
        state.hooks.push(initial_state);
    }
    let count = state.hooks.len();
    assert(hook < count);
    state.counter = hook + 1;
    UseReducerHandle { updater: HookUpdater { hook }, reducer }
}

/// Asks for a hook that holds a piece of state which changes by actions, and
/// which is at first what `init` makes of `initial_state`. `init` is called on
/// the first render only.
pub fn use_reducer_with_init<V, M, R, S, I>(
    state: &mut HookState<V, M>,
    reducer: R,
    initial_state: S,
    init: I,
) -> (handle: UseReducerHandle<R>) where I: FnOnce(S) -> V
    requires
        old(state).wf(),
        call_requires(init, (initial_state,)),
    ensures
        final(state).wf(),
        handle.reducer == reducer,
        handle.updater.hook == old(state).counter,
        final(state).counter == old(state).counter + 1,
        final(state).scope == old(state).scope,
        final(state).message_queue == old(state).message_queue,
        old(state).counter < old(state).hooks@.len() ==> final(state).hooks == old(state).hooks,
        old(state).counter == old(state).hooks@.len() ==> final(state).hooks@ == old(state).hooks@.push(final(state).hooks@[handle.updater.hook as int]) && call_ensures(
            init,
            (initial_state,),
            final(state).hooks@[handle.updater.hook as int],
        ),
{
    let hook = state.counter;
    if hook >= state.hooks.len() {
        let first = init(initial_state);
        state.hooks.push(first);
    }
    let count = state.hooks.len();
    assert(hook < count);
    state.counter = hook + 1;
    UseReducerHandle { updater: HookUpdater { hook }, reducer }
}

/// The scope of the component whose function is being rendered, if one is.
pub fn get_current_scope<V, M>(current: &Option<HookState<V, M>>) -> (scope: Option<AnyScope>)
    ensures
        scope == (match *current {
            Some(state) => Some(state.scope),
            None => None,
        }),
{
    match current {
        Some(state) => Some(state.scope.clone()),
        None => None,
    }
}


/// What an effect keeps between renders: the destructor that the effect
/// returned when it last ran.
pub struct UseEffect<D> {
    pub destructor: Option<D>,
}

impl<D> UseEffect<D> {
    /// An effect that has not run yet.
    pub fn new() -> (hook: UseEffect<D>)
        ensures
            hook.destructor.is_none(),
    {
        UseEffect { destructor: None }
    }

    /// Ends the effect: runs the destructor that is kept, if there is one.
    pub fn tear_down(&mut self) where D: FnOnce()
        requires
            old(self).destructor matches Some(destructor) ==> call_requires(destructor, ()),
        ensures
            final(self).destructor.is_none(),
    {
        if let Some(destructor) = self.destructor.take() {
            destructor();
        }
    }
}

/// Runs an effect after a render: the destructor kept from the last run is run
/// first, then the effect, whose destructor is kept for the next time.
pub fn use_effect<F, D>(hook: &mut UseEffect<D>, callback: F) where F: FnOnce() -> D, D: FnOnce()
    requires
        old(hook).destructor matches Some(destructor) ==> call_requires(destructor, ()),
        call_requires(callback, ()),
    ensures
        final(hook).destructor matches Some(destructor) && call_ensures(callback, (), destructor),
{
    if let Some(destructor) = hook.destructor.take() {
        destructor();
    }
    let destructor = callback();
    hook.destructor = Some(destructor);
}

/// What an effect with dependencies keeps between renders: the dependencies
/// that it last ran for, and the destructor that it returned then.
pub struct UseEffectDeps<D, T> {
    pub destructor: Option<D>,
    pub deps: T,
}

/// Runs an effect after a render if its dependencies have changed, or if it has
/// not run yet.
///
/// Where `deps` differ from the dependencies kept, the destructor kept is run,
/// then the effect for `deps`, and `deps` are kept. Where they do not differ, the
/// effect runs only if no destructor is kept, for the dependencies kept.
pub fn use_effect_with_deps<F, D, T>(hook: &mut UseEffectDeps<D, T>, effect: F, deps: T) where
    F: FnOnce(&T) -> D,
    D: FnOnce(),
    T: PartialEq,

    requires
        old(hook).destructor matches Some(destructor) ==> call_requires(destructor, ()),
        call_requires(effect, (&deps,)),
        call_requires(effect, (&old(hook).deps,)),
    ensures
        final(hook).destructor.is_some(),
        final(hook).deps == deps || final(hook).deps == old(hook).deps,
        T::obeys_eq_spec() ==> (if !old(hook).deps.eq_spec(&deps) {
            final(hook).deps == deps && call_ensures(
                effect,
                (&deps,),
                final(hook).destructor.unwrap(),
            )
        } else {
            final(hook).deps == old(hook).deps && (match old(hook).destructor {
                Some(destructor) => final(hook).destructor == Some(destructor),
                None => call_ensures(effect, (&old(hook).deps,), final(hook).destructor.unwrap()),
            })
        }),
{
    if hook.deps != deps {
        if let Some(destructor) = hook.destructor.take() {
            destructor();
        }
        let destructor = effect(&deps);
        hook.deps = deps;
        hook.destructor = Some(destructor);
    } else if hook.destructor.is_none() {
        let destructor = effect(&hook.deps);
        hook.destructor = Some(destructor);
    }
}

/// Consumes the context of the nearest provider.
///
/// The provider is the nearest component of the type `provider` on the way from
/// the component of `link` up through its parents, that component itself
/// included. Where there is one, it is sent the message that `subscribe` makes of
/// the slot of the consumer, so that it tells the consumer when the context
/// changes; the consumer subscribes again with each render. Returns the
/// properties of the provider, if there is one and it lives.
pub fn use_context<'a, C: Component, F>(
    runtime: &'a Runtime<C>,
    link: &mut ComponentLink<C>,
    provider: TypeIdentity,
    subscribe: F,
) -> (context: Option<&'a C::Properties>) where F: FnOnce(ScopeId) -> C::Message
    requires
        old(link).any().nearest(provider).is_some() ==> call_requires(subscribe, (old(link).id,)),
    ensures
        final(link).any() == old(link).any(),
        match old(link).any().nearest(provider) {
            Some(found) => {
                &&& context == (match runtime.slot(found.id) {
                    Slot::Live(state) => Some(&*state.props),
                    _ => None,
                })
                &&& exists|msg: C::Message|
                    #![trigger call_ensures(subscribe, (old(link).id,), msg)]
                    call_ensures(subscribe, (old(link).id,), msg) && final(link).sent() == old(
                        link,
                    ).sent().push(ComponentLink::updating(found.id, UpdateTask::Message(msg)))
            },
            None => context.is_none() && final(link).sent() == old(link).sent(),
        },
{
    let consumer = link.to_any();
    match consumer.find(provider) {
        Some(found) => {
            let msg = subscribe(link.id);
            link.send_to(found, msg);
            runtime.get_props(found.id)
        },
        None => None,
    }
}

/// The properties of a component that provides a context to those below it.
pub struct ContextProviderProps<T> {
    /// The context that is provided.
    pub context: Rc<T>,
}

/// What a component that provides a context keeps: the components that consume
/// the context and want to hear when it changes.
pub struct ContextProvider {
    consumers: Vec<ScopeId>,
}

impl View for ContextProvider {
    type V = Seq<ScopeId>;

    closed spec fn view(&self) -> Seq<ScopeId> {
        self.consumers@
    }
}

impl ContextProvider {
    /// The first place among the first `count` of `consumers` at which a
    /// component stands that does not live any more, or `count` if there is none.
    pub open spec fn first_dead<C: Component>(
        consumers: Seq<ScopeId>,
        runtime: &Runtime<C>,
        count: int,
    ) -> int
        decreases count,
    {
        if 0 < count <= consumers.len() {
            let before = Self::first_dead(consumers, runtime, count - 1);
            if before < count - 1 {
                before
            } else if runtime.slot(consumers[count - 1]) is Live {
                count
            } else {
                count - 1
            }
        } else {
            0
        }
    }

    /// Those of the first `count` of `consumers` that live, in order.
    pub open spec fn living<C: Component>(
        consumers: Seq<ScopeId>,
        runtime: &Runtime<C>,
        count: int,
    ) -> Seq<ScopeId>
        decreases count,
    {
        if 0 < count <= consumers.len() {
            let before = Self::living(consumers, runtime, count - 1);
            if runtime.slot(consumers[count - 1]) is Live {
                before.push(consumers[count - 1])
            } else {
                before
            }
        } else {
            Seq::empty()
        }
    }

    /// A provider with no consumers.
    pub fn new() -> (provider: ContextProvider)
        ensures
            provider@.len() == 0,
    {
        ContextProvider { consumers: Vec::new() }
    }

    /// Adds a consumer. It takes the first place of a consumer that does not live
    /// any more, if there is one, so that the list stays short; else it is added
    /// at the end.
    pub fn subscribe_consumer<C: Component>(&mut self, runtime: &Runtime<C>, consumer: ScopeId)
        ensures
            ({
                let at = Self::first_dead(old(self)@, runtime, old(self)@.len() as int);
                final(self)@ == (if at < old(self)@.len() {
                    old(self)@.update(at, consumer)
                } else {
                    old(self)@.push(consumer)
                })
            }),
    {
        let mut i: usize = 0;
        while i < self.consumers.len()
            invariant
                i <= self.consumers@.len(),
                self.consumers@ == old(self)@,
                Self::first_dead(old(self)@, runtime, i as int) == i,
            decreases self.consumers@.len() - i,
        {
            if runtime.get_component(self.consumers[i]).is_none() {
                proof {
                    Self::lemma_first_dead(old(self)@, runtime, i as int, old(self)@.len() as int);
                }
                self.consumers[i] = consumer;
                return ;
            }
            i += 1;
        }
        self.consumers.push(consumer);
    }

    /// Once a consumer that does not live any more has been found, it is the first.
    proof fn lemma_first_dead<C: Component>(
        consumers: Seq<ScopeId>,
        runtime: &Runtime<C>,
        at: int,
        count: int,
    )
        requires
            0 <= at < count <= consumers.len(),
            Self::first_dead(consumers, runtime, at) == at,
            !(runtime.slot(consumers[at]) is Live),
        ensures
            Self::first_dead(consumers, runtime, count) == at,
        decreases count - at,
    {
        if count > at + 1 {
            Self::lemma_first_dead(consumers, runtime, at, count - 1);
        }
    }

    /// What telling the consumers achieves: the consumers that live are kept, in
    /// order, and the others forgotten; and behind what was sent through the link
    /// before stands one message for each consumer kept, made by `message`.
    pub open spec fn notified<C: Component, F: Fn() -> C::Message>(
        consumers: Seq<ScopeId>,
        kept: Seq<ScopeId>,
        runtime: &Runtime<C>,
        before: ComponentLink<C>,
        after: ComponentLink<C>,
        message: F,
    ) -> bool {
        &&& kept == Self::living(consumers, runtime, consumers.len() as int)
        &&& after.any() == before.any()
        &&& after.sent().len() == before.sent().len() + kept.len()
        &&& forall|k: int| 0 <= k < before.sent().len() ==> after.sent()[k] == before.sent()[k]
        &&& forall|k: int|
            0 <= k < kept.len() ==> {
                let sent = #[trigger] after.sent()[before.sent().len() + k];
                &&& sent.scope == kept[k]
                &&& sent.task matches ComponentTask::Update(UpdateTask::Message(msg))
                &&& call_ensures(message, (), msg)
            }
    }

    /// Takes notice of new properties: where they hold another context than
    /// the current ones, every consumer that lives is told. The provider is
    /// rendered again in either case.
    pub fn changed<C: Component, T: PartialEq, F>(
        &mut self,
        runtime: &Runtime<C>,
        link: &mut ComponentLink<C>,
        props: &ContextProviderProps<T>,
        new_props: &ContextProviderProps<T>,
        message: F,
    ) -> (should_render: ShouldRender) where F: Fn() -> C::Message
        requires
            call_requires(message, ()),
        ensures
            should_render,
            (final(self)@ == old(self)@ && *final(link) == *old(link)) || Self::notified(
                old(self)@,
                final(self)@,
                runtime,
                *old(link),
                *final(link),
                message,
            ),
            T::obeys_eq_spec() ==> (if (*props.context).eq_spec(&*new_props.context) {
                final(self)@ == old(self)@ && *final(link) == *old(link)
            } else {
                Self::notified(
                    old(self)@,
                    final(self)@,
                    runtime,
                    *old(link),
                    *final(link),
                    message,
                )
            }),
    {
        if *props.context != *new_props.context {
            self.notify_consumers(runtime, link, message);
        }
        true
    }

    /// Tells every consumer that lives, in order, with a message that
    /// `message` makes for it, and forgets the consumers that do not live any more.
    pub fn notify_consumers<C: Component, F>(
        &mut self,
        runtime: &Runtime<C>,
        link: &mut ComponentLink<C>,
        message: F,
    ) where F: Fn() -> C::Message
        requires
            call_requires(message, ()),
        ensures
            Self::notified(old(self)@, final(self)@, runtime, *old(link), *final(link), message),
    {
        let mut kept: Vec<ScopeId> = Vec::new();
        let mut i: usize = 0;
        while i < self.consumers.len()
            invariant
                i <= self.consumers@.len(),
                self.consumers@ == old(self)@,
                call_requires(message, ()),
                kept@ == Self::living(old(self)@, runtime, i as int),
                link.any() == old(link).any(),
                link.sent().len() == old(link).sent().len() + kept@.len(),
                forall|k: int|
                    0 <= k < old(link).sent().len() ==> link.sent()[k] == old(link).sent()[k],
                forall|k: int|
                    0 <= k < kept@.len() ==> {
                        let sent = #[trigger] link.sent()[old(link).sent().len() + k];
                        &&& sent.scope == kept@[k]
                        &&& sent.task matches ComponentTask::Update(UpdateTask::Message(msg))
                        &&& call_ensures(message, (), msg)
                    },
            decreases self.consumers@.len() - i,
        {
            let consumer = self.consumers[i];
            if runtime.get_component(consumer).is_some() {
                let msg = message();
                let ghost before = link.sent();
                link.sent.push(
                    ComponentRunnable {
                        scope: consumer,
                        task: ComponentTask::Update(UpdateTask::Message(msg)),
                    },
                );
                kept.push(consumer);
                proof {
                    assert forall|k: int| 0 <= k < kept@.len() implies {
                        let sent = #[trigger] link.sent()[old(link).sent().len() + k];
                        &&& sent.scope == kept@[k]
                        &&& sent.task matches ComponentTask::Update(UpdateTask::Message(m))
                        &&& call_ensures(message, (), m)
                    } by {
                        if k < kept@.len() - 1 {
                            assert(link.sent()[old(link).sent().len() + k] == before[old(link).sent().len() + k]);
                        }
                    }
                }
            }
            i += 1;
        }
        self.consumers = kept;
    }
}

} // verus!
