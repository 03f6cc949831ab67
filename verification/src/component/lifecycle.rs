//! The life of a component: the record that the runtime keeps of it, and what
//! each task does to that record.
//!
//! A component is created once and always updated right afterwards. An update
//! calls `update` for each of its messages and, if any of them asks for it,
//! computes a new view once. The view is applied to the surface by a task of its
//! own, and the component is told so by another. While a view waits to be applied
//! or reported, further updates are put aside and replayed in the order in which
//! they arrived. A task for a component that has been destroyed does nothing.
//!
//! Each function of a component is called with a context of its own, which shows
//! the current properties and through which nothing has been sent. Of what the
//! component sends through it, the updates are submitted when the call returns,
//! and nothing else is.

use crate::component::link::ComponentLink;
use crate::component::{Component, Context, ShouldRender};
use crate::html::scope::{same_allocation, AnyScope, Scope, ScopeId};
use crate::scheduler::{
    updates_only, updates_of, ComponentRunnable, ComponentTask, CreateTask, Scheduler,
    SchedulerView, UpdateTask,
};
use crate::surface::{Surface, SurfaceHandle, SurfaceView};
use crate::virtual_dom::vnode::{
    already_shown, ancestor_nodes, arranged, kept, reconcilable, reconciled, removed_from, VNode,
};
use std::rc::Rc;
use vstd::prelude::*;
use vstd::std_specs::cmp::PartialEqSpec;

verus! {

/// What the runtime keeps of a mounted component.
pub struct ComponentState<C: Component> {
    /// The element that the component renders into.
    pub parent: SurfaceHandle,
    /// The node in front of which the component renders, or none to render last.
    pub next_sibling: Option<SurfaceHandle>,
    /// The scope of the component.
    pub scope: Scope<C>,
    /// The link of the component, of which each of its lifecycle functions gets a copy.
    pub link: ComponentLink<C>,
    /// The component itself. Only tasks change it.
    pub component: C,
    /// The current properties. They are replaced as a whole, never changed in place.
    pub props: Rc<C::Properties>,
    /// The view that the surface shows.
    pub last_root: Option<VNode<C>>,
    /// The view that waits to be applied.
    pub new_root: Option<VNode<C>>,
    /// Whether the component has been told of a render.
    pub has_rendered: bool,
    /// Whether a view has been applied of which the component has not been told yet.
    pub awaiting_rendered: bool,
    /// The updates that arrived while a render was in flight, oldest first.
    pub pending_updates: Vec<UpdateTask<C>>,
}

/// The slot of a component in the runtime.
pub enum Slot<C: Component> {
    /// No component has been created in the slot yet.
    Vacant,
    /// The component lives.
    Live(ComponentState<C>),
    /// The component has been destroyed. The slot stays so for good.
    Destroyed,
}

/// What running a task came to.
pub enum Outcome {
    /// There was nothing for the task to do.
    Skipped,
    /// The component was created.
    Created,
    /// The update was put aside, because a render is in flight.
    Deferred,
    /// The update was handled. `results` holds what the component answered to each
    /// message, in order; `should_render` says whether a new view was computed.
    Updated { results: Vec<ShouldRender>, should_render: ShouldRender },
    /// The view was applied to the surface.
    Rendered,
    /// The component was told of the render, and the updates put aside were submitted.
    Notified,
    /// The component was destroyed.
    Destroyed,
}

/// Whether one of `results` is `true`.
pub open spec fn any_true(results: Seq<ShouldRender>) -> bool {
    exists|i: int| 0 <= i < results.len() && results[i]
}

/// Whether a batch of messages asks for a render: it does if any of them does.
pub fn should_render_after(results: &Vec<ShouldRender>) -> (should_render: ShouldRender)
    ensures
        should_render == any_true(results@),
{
    let mut should_render = false;
    let mut i: usize = 0;
    while i < results.len()
        invariant
            i <= results.len(),
            should_render == any_true(results@.subrange(0, i as int)),
        decreases results.len() - i,
    {
        proof {
            let shorter = results@.subrange(0, i as int);
            let longer = results@.subrange(0, i as int + 1);
            if any_true(shorter) {
                let k = choose|k: int| 0 <= k < shorter.len() && shorter[k];
                assert(longer[k]);
            }
            if results@[i as int] {
                assert(longer[i as int]);
            }
            if any_true(longer) {
                let k = choose|k: int| 0 <= k < longer.len() && longer[k];
                if k < i {
                    assert(shorter[k]);
                }
            }
        }
        should_render = results[i] || should_render;
        i += 1;
    }
    assert(results@.subrange(0, i as int) =~= results@);
    should_render
}

/// Whether `ctx` is a context as the runtime hands it to a function of a
/// component: it shows the properties `props`, and holds a link to the component
/// of `link` through which nothing has been sent.
pub open spec fn handed<C: Component>(
    ctx: Context<'_, C>,
    link: ComponentLink<C>,
    props: Rc<C::Properties>,
) -> bool {
    &&& *ctx.props == *props
    &&& ctx.link.any() == link.any()
    &&& ctx.link.sent().len() == 0
}

/// What was sent in several goes, one go after the other.
pub open spec fn joined<C: Component>(sent: Seq<Seq<ComponentRunnable<C>>>) -> Seq<
    ComponentRunnable<C>,
>
    decreases sent.len(),
{
    if sent.len() == 0 {
        Seq::empty()
    } else {
        joined(sent.drop_last()) + sent.last()
    }
}

/// Whether `i` is one of `count` places, counted from nought.
pub open spec fn place(i: int, count: int) -> bool {
    0 <= i < count
}

/// The messages that an update asks the component about, in order.
pub open spec fn messages_of<C: Component>(update: UpdateTask<C>) -> Seq<C::Message> {
    match update {
        UpdateTask::Message(msg) => seq![msg],
        UpdateTask::MessageBatch(messages) => messages@,
        _ => Seq::empty(),
    }
}

/// The tasks that replay the updates `pending` of the component at `scope`.
pub open spec fn replayed<C: Component>(scope: ScopeId, pending: Seq<UpdateTask<C>>) -> Seq<
    ComponentRunnable<C>,
> {
    Seq::new(
        pending.len(),
        |i: int| ComponentRunnable { scope, task: ComponentTask::Update(pending[i]) },
    )
}

impl<C: Component> ComponentState<C> {
    /// Whether a view waits to be applied, or was applied and not reported yet.
    pub open spec fn render_in_flight(&self) -> bool {
        self.new_root.is_some() || self.awaiting_rendered
    }

    /// Whether `other` is this record but for the component itself, the
    /// properties, the views, and the updates put aside.
    pub open spec fn same_place(&self, other: &ComponentState<C>) -> bool {
        &&& other.parent == self.parent
        &&& other.next_sibling == self.next_sibling
        &&& other.scope == self.scope
        &&& other.link == self.link
    }

    /// What handling `update` makes of this record and of the scheduler.
    pub open spec fn updated(
        &self,
        after: ComponentState<C>,
        update: UpdateTask<C>,
        waiting: SchedulerView<C>,
        submitted: SchedulerView<C>,
        outcome: Outcome,
    ) -> bool {
        &&& after.parent == self.parent
        &&& after.scope == self.scope
        &&& after.link == self.link
        &&& after.last_root == self.last_root
        &&& after.has_rendered == self.has_rendered
        &&& after.awaiting_rendered == self.awaiting_rendered
        &&& self.render_in_flight() ==> {
            &&& outcome is Deferred
            &&& after.next_sibling == self.next_sibling
            &&& after.pending_updates@ == self.pending_updates@.push(update)
            &&& after.component == self.component
            &&& after.props == self.props
            &&& after.new_root == self.new_root
            &&& submitted == waiting
        }
        &&& !self.render_in_flight() ==> {
            &&& outcome matches Outcome::Updated { results, should_render }
            &&& should_render == (update is First || any_true(results@))
            &&& update is First ==> results@.len() == 0
            &&& update is Message ==> results@.len() == 1
            &&& update matches UpdateTask::MessageBatch(messages) ==> results@.len()
                == messages@.len()
            &&& update is Properties ==> results@.len() <= 1
            &&& after.new_root.is_some() == should_render
            &&& after.pending_updates == self.pending_updates
            &&& after.props == (match update {
                UpdateTask::Properties(props, _) => props,
                _ => self.props,
            })
            &&& after.next_sibling == (match update {
                UpdateTask::Properties(_, next_sibling) => next_sibling,
                _ => self.next_sibling,
            })
            &&& exists|sent: Seq<ComponentRunnable<C>>|
                submitted == (if should_render {
                    (#[trigger] waiting.pushed_all(sent)).pushed(
                        ComponentRunnable {
                            scope: self.scope.id,
                            task: ComponentTask::Render(update is First),
                        },
                    )
                } else {
                    waiting.pushed_all(sent)
                })
        }
    }

    /// How handling `update`, with no render in flight, went step by step.
    ///
    /// `trace` holds the component before each call of `update` or `changed` and
    /// after the last, `sent` the updates that each call sent, and `view_sent`
    /// those that computing the view sent. There is a call for each message, in order; none for the
    /// first update; and for new properties one call where they differ from the
    /// current ones, and none where they are equal to them. What the calls sent is
    /// submitted in their order, then what the view sent, then the task that
    /// applies the view, if one was computed.
    pub open spec fn handled(
        &self,
        after: ComponentState<C>,
        update: UpdateTask<C>,
        outcome: Outcome,
        waiting: SchedulerView<C>,
        submitted: SchedulerView<C>,
        trace: Seq<C>,
        sent: Seq<Seq<ComponentRunnable<C>>>,
        view_sent: Seq<ComponentRunnable<C>>,
    ) -> bool {
        &&& outcome matches Outcome::Updated { results, should_render }
        &&& trace.len() == results@.len() + 1
        &&& sent.len() == results@.len()
        &&& trace[0] == self.component
        &&& trace[results@.len() as int] == after.component
        &&& !(update is Properties) ==> results@.len() == messages_of(update).len()
        &&& update matches UpdateTask::Properties(props, _) ==> {
            &&& results@.len() <= 1
            &&& C::Properties::obeys_eq_spec() ==> {
                &&& (*self.props).eq_spec(&*props) ==> results@.len() == 0
                &&& !(*self.props).eq_spec(&*props) && *self.props != *props ==> results@.len()
                    == 1
            }
        }
        &&& !should_render ==> view_sent.len() == 0 && after.new_root.is_none()
        &&& should_render ==> after.new_root.is_some()
        &&& submitted == (if should_render {
            waiting.pushed_all(joined(sent)).pushed_all(view_sent).pushed(
                ComponentRunnable {
                    scope: self.scope.id,
                    task: ComponentTask::Render(update is First),
                },
            )
        } else {
            waiting.pushed_all(joined(sent)).pushed_all(view_sent)
        })
    }

    /// What applying the view that waits makes of this record, of the surface
    /// and of the scheduler: unless it is skipped, the view was applied with the
    /// view that the surface showed as its ancestor, below the element of the
    /// component and in front of its anchor, and the task that tells the component
    /// was submitted behind what applying the view submitted.
    pub open spec fn applied(
        &self,
        after: ComponentState<C>,
        first_render: bool,
        surface: SurfaceView,
        shown: SurfaceView,
        waiting: SchedulerView<C>,
        submitted: SchedulerView<C>,
        outcome: Outcome,
    ) -> bool {
        &&& surface.evolves_to(shown)
        &&& self.same_place(&after)
        &&& after.component == self.component
        &&& after.props == self.props
        &&& after.has_rendered == self.has_rendered
        &&& after.pending_updates == self.pending_updates
        &&& (!first_render && self.last_root.is_none()) || self.new_root.is_none() ==> {
            &&& outcome is Skipped
            &&& after.last_root == self.last_root
            &&& after.new_root == self.new_root
            &&& after.awaiting_rendered == self.awaiting_rendered
            &&& shown == surface
            &&& submitted == waiting
        }
        &&& !((!first_render && self.last_root.is_none()) || self.new_root.is_none()) ==> {
            &&& outcome is Rendered
            &&& after.new_root.is_none()
            &&& after.awaiting_rendered
            &&& after.last_root matches Some(root)
            &&& root.description() == self.new_root.unwrap().description()
            &&& exists|applied: SchedulerView<C>|
                waiting.extends_to(applied) && submitted == #[trigger] applied.pushed(
                    ComponentRunnable {
                        scope: self.scope.id,
                        task: ComponentTask::Rendered(first_render),
                    },
                )
            &&& exists|applied: SchedulerView<C>, first: Option<SurfaceHandle>|
                {
                    &&& #[trigger] self.new_root.unwrap().applied(
                        root,
                        self.last_root,
                        surface,
                        shown,
                        waiting,
                        applied,
                        self.parent,
                        self.next_sibling,
                        first,
                    )
                    &&& submitted == applied.pushed(
                        ComponentRunnable {
                            scope: self.scope.id,
                            task: ComponentTask::Rendered(first_render),
                        },
                    )
                }
            &&& submitted.scopes < usize::MAX ==> root.mounted()
            &&& self.new_root.unwrap().ref_free() && reconcilable(self.last_root, surface)
                ==> reconciled(
                root.rendered(shown, self.parent),
                root.distinct(),
                root.nodes(),
                ancestor_nodes(self.last_root),
                surface,
                shown,
                self.parent,
            )
            &&& already_shown(
                self.new_root.unwrap().description(),
                self.new_root.unwrap().ref_free(),
                self.last_root,
                surface,
                self.parent,
            ) ==> shown == surface
            &&& self.new_root.unwrap().ref_free() && reconcilable(self.last_root, surface)
                && !ancestor_nodes(self.last_root).contains(self.parent) ==> arranged(
                surface,
                shown,
                self.parent,
                self.next_sibling,
                self.last_root,
                root.flat(),
                root.laid_out(shown),
            )
        }
    }

    /// What ending the component makes of the surface and of the scheduler.
    ///
    /// The surface keeps all that the view of the component did not refer to, but
    /// for the children of the element that the component rendered into; where it
    /// showed the view, the nodes of the view are no children of that element any
    /// longer. What the component sent when it was told is submitted, and then the
    /// tasks that destroy the components mounted below it.
    pub open spec fn ended(
        &self,
        surface: SurfaceView,
        cleared: SurfaceView,
        waiting: SchedulerView<C>,
        submitted: SchedulerView<C>,
    ) -> bool {
        &&& kept(surface, cleared, ancestor_nodes(self.last_root), self.parent)
        &&& cleared.nodes.len() == surface.nodes.len()
        &&& exists|sent: Seq<ComponentRunnable<C>>|
            submitted == (#[trigger] waiting.pushed_all(sent)).pushed_all(
                SchedulerView::<C>::destroys(
                    match self.last_root {
                        Some(root) => root.scopes(),
                        None => Seq::empty(),
                    },
                ),
            )
        &&& self.last_root matches Some(root) ==> {
            &&& root.rendered(surface, self.parent) && root.distinct() ==> forall|
                h: SurfaceHandle,
            |
                root.top_nodes().contains(h) ==> (#[trigger] cleared.parent(h)).is_none()
            &&& surface.contains(self.parent) && !root.nodes().contains(self.parent)
                ==> removed_from(surface, cleared, self.parent, root.flat())
        }
    }

    /// What telling the component of a render makes of this record and of the scheduler.
    pub open spec fn notified(
        &self,
        after: ComponentState<C>,
        first_render: bool,
        waiting: SchedulerView<C>,
        submitted: SchedulerView<C>,
        outcome: Outcome,
    ) -> bool {
        &&& self.same_place(&after)
        &&& after.props == self.props
        &&& after.last_root == self.last_root
        &&& after.new_root == self.new_root
        &&& !after.awaiting_rendered
        &&& !first_render && !self.has_rendered ==> {
            &&& outcome is Skipped
            &&& after.component == self.component
            &&& !after.has_rendered
            &&& after.pending_updates == self.pending_updates
            &&& submitted == waiting
        }
        &&& first_render || self.has_rendered ==> {
            &&& outcome is Notified
            &&& after.has_rendered
            &&& after.pending_updates@.len() == 0
            &&& exists|sent: Seq<ComponentRunnable<C>>|
                submitted == #[trigger] waiting.pushed_all(
                    replayed(self.scope.id, self.pending_updates@),
                ).pushed_all(sent)
        }
    }

    /// Whether this record is the one that `task` asks for, just created.
    pub open spec fn created_by(&self, task: CreateTask<C>) -> bool {
        &&& self.parent == task.parent
        &&& self.next_sibling == task.next_sibling
        &&& self.scope == task.scope
        &&& self.link.any() == crate::component::link::AnyLink::of(task.scope.any())
        &&& self.props == task.props
        &&& self.last_root.is_none()
        &&& self.new_root.is_none()
        &&& !self.has_rendered
        &&& !self.awaiting_rendered
        &&& self.pending_updates@.len() == 0
    }

    /// Whether a render is in flight.
    pub fn is_render_in_flight(&self) -> (in_flight: bool)
        ensures
            in_flight == self.render_in_flight(),
    {
        self.new_root.is_some() || self.awaiting_rendered
    }

    /// Creates the record of a component, and the component with it.
    ///
    /// What the component sends while it is created is submitted to the scheduler.
    pub fn new(task: CreateTask<C>, scheduler: &mut Scheduler<C>) -> (state: ComponentState<C>)
        ensures
            state.created_by(task),
            exists|sent: Seq<ComponentRunnable<C>>|
                final(scheduler)@ == #[trigger] old(scheduler)@.pushed_all(sent),
            exists|ctx: &mut Context<'_, C>|
                {
                    &&& #[trigger] call_ensures(C::create, (ctx,), state.component)
                    &&& handed(*ctx, state.link, state.props)
                    &&& final(scheduler)@ == old(scheduler)@.pushed_all(updates_of(final(ctx).link.sent()))
                },
    {
        let link = ComponentLink::new(&task.scope);
        let mut ctx = Context { link: link.fresh(), props: &*task.props };
        let component = C::create(&mut ctx);
        let sent = updates_only(ctx.link.sent);
        scheduler.push_batch(sent);
        assert(exists|inner: &mut Context<'_, C>|
            {
                &&& #[trigger] call_ensures(C::create, (inner,), component)
                &&& handed(*inner, link, task.props)
                &&& scheduler@ == old(scheduler)@.pushed_all(updates_of(final(inner).link.sent()))
            });
        let ghost made = component;
        let ghost made_link = link;
        let state = ComponentState {
            parent: task.parent,
            next_sibling: task.next_sibling,
            scope: task.scope,
            link,
            component,
            props: task.props,
            last_root: None,
            new_root: None,
            has_rendered: false,
            awaiting_rendered: false,
            pending_updates: Vec::new(),
        };
        assert(state.component == made && state.link == made_link && state.props == task.props);
        assert(exists|inner: &mut Context<'_, C>|
            {
                &&& #[trigger] call_ensures(C::create, (inner,), made)
                &&& handed(*inner, made_link, task.props)
                &&& scheduler@ == old(scheduler)@.pushed_all(updates_of(final(inner).link.sent()))
            });
        state
    }

    /// Handles an update.
    ///
    /// While a render is in flight the update is put aside. Else the component is
    /// asked: once for a message, once for each message of a batch, and once for
    /// new properties that are neither the current ones nor equal to them. The
    /// first update is not asked about: it always renders. If any answer asks for
    /// it, a new view is computed, once, and the task that applies it is submitted.
    /// What the component sends meanwhile is submitted as tasks of their own:
    /// nothing is added to the batch that is being handled.
    ///
    /// Each call gets the component as the call before left it, and a context
    /// that shows the current properties and has sent nothing; each answer is what
    /// the call returned; and the view that waits is what `view` returned for the
    /// component as the last call left it, with the properties that are now current.
    #[verifier::loop_isolation(false)]
    pub fn update(&mut self, update: UpdateTask<C>, scheduler: &mut Scheduler<C>) -> (outcome: Outcome)
        ensures
            old(self).updated(*final(self), update, old(scheduler)@, final(scheduler)@, outcome),
            !old(self).render_in_flight() ==> exists|
                trace: Seq<C>,
                sent: Seq<Seq<ComponentRunnable<C>>>,
                view_sent: Seq<ComponentRunnable<C>>,
            |
                {
                    &&& #[trigger] old(self).handled(
                        *final(self),
                        update,
                        outcome,
                        old(scheduler)@,
                        final(scheduler)@,
                        trace,
                        sent,
                        view_sent,
                    )
                    &&& forall|i: int| #[trigger]
                        place(i, messages_of(update).len() as int) ==> exists|
                            component: &mut C,
                            ctx: &mut Context<'_, C>,
                        |
                            {
                                &&& #[trigger] call_ensures(
                                    C::update,
                                    (component, ctx, messages_of(update)[i]),
                                    outcome->results@[i],
                                )
                                &&& *component == trace[i]
                                &&& *final(component) == trace[i + 1]
                                &&& handed(*ctx, old(self).link, old(self).props)
                                &&& updates_of(final(ctx).link.sent()) == sent[i]
                            }
                    &&& update matches UpdateTask::Properties(props, _) ==> (outcome->results@.len()
                        == 1 ==> exists|
                        component: &mut C,
                        ctx: &mut Context<'_, C>,
                        shown: &C::Properties,
                    |
                        {
                            &&& #[trigger] call_ensures(
                                C::changed,
                                (component, ctx, shown),
                                outcome->results@[0],
                            )
                            &&& *shown == *props
                            &&& *component == trace[0]
                            &&& *final(component) == trace[1]
                            &&& handed(*ctx, old(self).link, old(self).props)
                            &&& updates_of(final(ctx).link.sent()) == sent[0]
                        })
                    &&& outcome->should_render ==> exists|shown: &C, ctx: &mut Context<'_, C>|
                        {
                            &&& #[trigger] call_ensures(
                                C::view,
                                (shown, ctx),
                                final(self).new_root.unwrap(),
                            )
                            &&& *shown == final(self).component
                            &&& handed(*ctx, old(self).link, final(self).props)
                            &&& updates_of(final(ctx).link.sent()) == view_sent
                        }
                },
    {
        if self.is_render_in_flight() {
            self.pending_updates.push(update);
            return Outcome::Deferred;
        }
        let ghost asked = messages_of(update);
        let first = match &update {
            UpdateTask::First => true,
            _ => false,
        };
        let mut results: Vec<ShouldRender> = Vec::new();
        let mut replaced: Option<Rc<C::Properties>> = None;
        let mut moved: Option<Option<SurfaceHandle>> = None;
        let ghost mut trace: Seq<C> = seq![self.component];
        let ghost mut sent: Seq<Seq<ComponentRunnable<C>>> = Seq::empty();
        let mut messages: Vec<C::Message> = Vec::new();
        match update {
            UpdateTask::First => {},
            UpdateTask::Message(message) => {
                messages.push(message);
            },
            UpdateTask::MessageBatch(batch) => {
                messages = batch;
            },
            UpdateTask::Properties(props, next_sibling) => {
                moved = Some(next_sibling);
                if !same_allocation(&self.props, &props) && *self.props != *props {
                    let mut ctx = Context { link: self.link.fresh(), props: &*self.props };
                    let answer = self.component.changed(&mut ctx, &*props);
                    results.push(answer);
                    proof {
                        trace = trace.push(self.component);
                        sent = sent.push(updates_of(ctx.link.sent()));
                        assert(exists|
                            component: &mut C,
                            inner: &mut Context<'_, C>,
                            shown: &C::Properties,
                        |
                            {
                                &&& #[trigger] call_ensures(
                                    C::changed,
                                    (component, inner, shown),
                                    answer,
                                )
                                &&& *shown == *props
                                &&& *component == trace[0]
                                &&& *final(component) == trace[1]
                                &&& handed(*inner, old(self).link, old(self).props)
                                &&& updates_of(final(inner).link.sent()) == sent[0]
                            });
                        assert(joined(sent.drop_last()) =~= Seq::empty());
                        assert(joined(sent) =~= updates_of(ctx.link.sent()));
                    }
                    assert(results@[0] == answer);
                    scheduler.push_batch(updates_only(ctx.link.sent));
                } else {
                    proof {
                        assert(old(scheduler)@.pushed_all(joined(sent)) == old(scheduler)@);
                    }
                }
                replaced = Some(props);
            },
        }
        assert(messages@ =~= asked);
        proof {
            if sent.len() == 0 {
                assert(old(scheduler)@.pushed_all(joined(sent)) == old(scheduler)@);
            }
        }
        // The messages are turned round so that the first can be taken out first.
        let mut rest: Vec<C::Message> = Vec::new();
        while messages.len() > 0
            invariant
                messages@.len() + rest@.len() == asked.len(),
                forall|i: int| 0 <= i < messages@.len() ==> messages@[i] == asked[i],
                forall|i: int| 0 <= i < rest@.len() ==> rest@[i] == asked[asked.len() - 1 - i],
            decreases messages@.len(),
        {
            let last = messages.pop().unwrap();
            rest.push(last);
        }
        let ghost calls = results@.len();
        let ghost after_properties = (trace, sent, results@);
        while rest.len() > 0
            invariant
                update is Properties ==> trace == after_properties.0 && sent == after_properties.1
                    && results@ == after_properties.2,
                update is Properties ==> rest@.len() == 0 && asked.len() == 0 && results@.len()
                    == calls,
                !(update is Properties) ==> calls == 0 && results@.len() + rest@.len() == asked.len(),
                results@.len() >= calls,
                forall|i: int| 0 <= i < rest@.len() ==> rest@[i] == asked[asked.len() - 1 - i],
                trace.len() == results@.len() + 1,
                sent.len() == results@.len(),
                trace[0] == old(self).component,
                trace[results@.len() as int] == self.component,
                scheduler@ == old(scheduler)@.pushed_all(joined(sent)),
                forall|i: int| #[trigger]
                    place(i, results@.len() - calls) ==> exists|
                        component: &mut C,
                        ctx: &mut Context<'_, C>,
                    |
                        {
                            &&& #[trigger] call_ensures(
                                C::update,
                                (component, ctx, asked[i]),
                                results@[i],
                            )
                            &&& *component == trace[i]
                            &&& *final(component) == trace[i + 1]
                            &&& handed(*ctx, old(self).link, old(self).props)
                            &&& updates_of(final(ctx).link.sent()) == sent[i]
                        },
                self.parent == old(self).parent,
                self.next_sibling == old(self).next_sibling,
                self.scope == old(self).scope,
                self.link == old(self).link,
                self.props == old(self).props,
                self.last_root == old(self).last_root,
                self.new_root == old(self).new_root,
                self.has_rendered == old(self).has_rendered,
                self.awaiting_rendered == old(self).awaiting_rendered,
                self.pending_updates == old(self).pending_updates,
            decreases rest@.len(),
        {
            let ghost at = results@.len() as int;
            let ghost earlier = (trace, sent, results@);
            let message = rest.pop().unwrap();
            assert(message == asked[at]);
            let mut ctx = Context { link: self.link.fresh(), props: &*self.props };
            let answer = self.component.update(&mut ctx, message);
            results.push(answer);
            let ghost now_sent = updates_of(ctx.link.sent());
            scheduler.push_batch(updates_only(ctx.link.sent));
            proof {
                trace = trace.push(self.component);
                sent = sent.push(now_sent);
                assert(sent.drop_last() =~= earlier.1);
                old(scheduler)@.lemma_pushed_all_twice(joined(earlier.1), now_sent);
                assert forall|i: int| #[trigger]
                    place(i, results@.len() - calls) implies exists|
                    component: &mut C,
                    ctx: &mut Context<'_, C>,
                |
                    {
                        &&& #[trigger] call_ensures(C::update, (component, ctx, asked[i]), results@[i])
                        &&& *component == trace[i]
                        &&& *final(component) == trace[i + 1]
                        &&& handed(*ctx, old(self).link, old(self).props)
                        &&& updates_of(final(ctx).link.sent()) == sent[i]
                    } by {
                    if i < at {
                        assert(place(i, earlier.2.len() - calls));
                        assert(earlier.0[i] == trace[i]);
                        assert(earlier.0[i + 1] == trace[i + 1]);
                        assert(earlier.1[i] == sent[i]);
                        assert(earlier.2[i] == results@[i]);
                        assert(exists|component: &mut C, ctx: &mut Context<'_, C>|
                            {
                                &&& #[trigger] call_ensures(
                                    C::update,
                                    (component, ctx, asked[i]),
                                    earlier.2[i],
                                )
                                &&& *component == earlier.0[i]
                                &&& *final(component) == earlier.0[i + 1]
                                &&& handed(*ctx, old(self).link, old(self).props)
                                &&& updates_of(final(ctx).link.sent()) == earlier.1[i]
                            });
                    } else {
                        assert(i == at);
                        assert(trace[at] == earlier.0[at]);
                        assert(results@[at] == answer);
                        assert(sent[at] == now_sent);
                        assert(trace[at + 1] == self.component);
                        assert(exists|component: &mut C, inner: &mut Context<'_, C>|
                            {
                                &&& #[trigger] call_ensures(
                                    C::update,
                                    (component, inner, asked[at]),
                                    answer,
                                )
                                &&& *component == earlier.0[at]
                                &&& *final(component) == self.component
                                &&& handed(*inner, old(self).link, old(self).props)
                                &&& updates_of(final(inner).link.sent()) == now_sent
                            });
                    }
                }
            }
        }
        if let Some(props) = replaced {
            self.props = props;
        }
        if let Some(next_sibling) = moved {
            self.next_sibling = next_sibling;
        }
        let should_render = first || should_render_after(&results);
        let ghost mut view_sent: Seq<ComponentRunnable<C>> = Seq::empty();
        if should_render {
            let mut ctx = Context { link: self.link.fresh(), props: &*self.props };
            let root = self.component.view(&mut ctx);
            proof {
                view_sent = updates_of(ctx.link.sent());
                assert(exists|shown: &C, inner: &mut Context<'_, C>|
                    {
                        &&& #[trigger] call_ensures(C::view, (shown, inner), root)
                        &&& *shown == self.component
                        &&& handed(*inner, old(self).link, self.props)
                        &&& updates_of(final(inner).link.sent()) == view_sent
                    });
                old(scheduler)@.lemma_pushed_all_twice(joined(sent), view_sent);
            }
            let ghost before_root = *self;
            let ghost ghost_root = root;
            scheduler.push_batch(updates_only(ctx.link.sent));
            self.new_root = Some(root);
            assert(self.component == before_root.component);
            assert(self.props == before_root.props);
            assert(self.new_root.unwrap() == ghost_root);
            assert(exists|shown: &C, inner: &mut Context<'_, C>|
                {
                    &&& #[trigger] call_ensures(C::view, (shown, inner), ghost_root)
                    &&& *shown == before_root.component
                    &&& handed(*inner, old(self).link, before_root.props)
                    &&& updates_of(final(inner).link.sent()) == view_sent
                });
            assert(exists|shown: &C, inner: &mut Context<'_, C>|
                {
                    &&& #[trigger] call_ensures(C::view, (shown, inner), self.new_root.unwrap())
                    &&& *shown == self.component
                    &&& handed(*inner, old(self).link, self.props)
                    &&& updates_of(final(inner).link.sent()) == view_sent
                });
            scheduler.push(
                ComponentRunnable { scope: self.scope.id, task: ComponentTask::Render(first) },
            );
        } else {
            proof {
                old(scheduler)@.lemma_pushed_all_twice(joined(sent), view_sent);
                assert(joined(sent) + view_sent =~= joined(sent));
            }
        }
        let outcome = Outcome::Updated { results, should_render };
        proof {
            assert forall|i: int| #[trigger] place(i, messages_of(update).len() as int) implies place(
                i,
                results@.len() - calls,
            ) by {}
            assert(trace.len() == results@.len() + 1);
            assert(sent.len() == results@.len());
            assert(trace[0] == old(self).component);
            assert(trace[results@.len() as int] == self.component);
            assert(!(update is Properties) ==> results@.len() == messages_of(update).len());
            assert(should_render == self.new_root.is_some());
            assert(!should_render ==> view_sent.len() == 0);
            assert(scheduler@ == (if should_render {
                old(scheduler)@.pushed_all(joined(sent)).pushed_all(view_sent).pushed(
                    ComponentRunnable {
                        scope: old(self).scope.id,
                        task: ComponentTask::Render(update is First),
                    },
                )
            } else {
                old(scheduler)@.pushed_all(joined(sent)).pushed_all(view_sent)
            }));
            assert(update matches UpdateTask::Properties(props, _) ==> results@.len() <= 1);
            assert(update matches UpdateTask::Properties(props, _) ==> (
            C::Properties::obeys_eq_spec() ==> ((*old(self).props).eq_spec(&*props)
                ==> results@.len() == 0)));
            assert(update matches UpdateTask::Properties(props, _) ==> (
            C::Properties::obeys_eq_spec() ==> (!(*old(self).props).eq_spec(&*props) && *old(
                self,
            ).props != *props ==> results@.len() == 1)));
            assert(old(self).handled(
                *self,
                update,
                outcome,
                old(scheduler)@,
                scheduler@,
                trace,
                sent,
                view_sent,
            ));
            assert(forall|i: int| #[trigger]
                place(i, messages_of(update).len() as int) ==> exists|
                    component: &mut C,
                    ctx: &mut Context<'_, C>,
                |
                    {
                        &&& #[trigger] call_ensures(
                            C::update,
                            (component, ctx, messages_of(update)[i]),
                            outcome->results@[i],
                        )
                        &&& *component == trace[i]
                        &&& *final(component) == trace[i + 1]
                        &&& handed(*ctx, old(self).link, old(self).props)
                        &&& updates_of(final(ctx).link.sent()) == sent[i]
                    });
            if update is Properties && results@.len() == 1 {
                let props = update->Properties_0;
                assert(trace == after_properties.0);
                assert(sent == after_properties.1);
                assert(exists|
                    component: &mut C,
                    inner: &mut Context<'_, C>,
                    shown: &C::Properties,
                |
                    {
                        &&& #[trigger] call_ensures(
                            C::changed,
                            (component, inner, shown),
                            results@[0],
                        )
                        &&& *shown == *props
                        &&& *component == after_properties.0[0]
                        &&& *final(component) == after_properties.0[1]
                        &&& handed(*inner, old(self).link, old(self).props)
                        &&& updates_of(final(inner).link.sent()) == after_properties.1[0]
                    });
            }
            assert(update matches UpdateTask::Properties(props, _) ==> (outcome->results@.len() == 1
                ==> exists|component: &mut C, ctx: &mut Context<'_, C>, shown: &C::Properties|
                {
                    &&& #[trigger] call_ensures(
                        C::changed,
                        (component, ctx, shown),
                        outcome->results@[0],
                    )
                    &&& *shown == *props
                    &&& *component == trace[0]
                    &&& *final(component) == trace[1]
                    &&& handed(*ctx, old(self).link, old(self).props)
                    &&& updates_of(final(ctx).link.sent()) == sent[0]
                }));
            assert(outcome->should_render ==> exists|shown: &C, ctx: &mut Context<'_, C>|
                {
                    &&& #[trigger] call_ensures(C::view, (shown, ctx), self.new_root.unwrap())
                    &&& *shown == self.component
                    &&& handed(*ctx, old(self).link, self.props)
                    &&& updates_of(final(ctx).link.sent()) == view_sent
                });
        }
        outcome
    }

    /// Applies the view that waits to the surface.
    ///
    /// Nothing happens where no view waits, or where the render is not the first
    /// one and nothing has been rendered yet. Else the view is reconciled with the
    /// one that the surface shows and takes its place, and the task that tells the
    /// component is submitted.
    pub fn render(&mut self, first_render: bool, surface: &mut Surface, scheduler: &mut Scheduler<C>) -> (outcome: Outcome)
        requires
            old(surface).wf(),
            old(surface)@.is_element(old(self).parent),
        ensures
            final(surface).wf(),
            old(self).applied(
                *final(self),
                first_render,
                old(surface)@,
                final(surface)@,
                old(scheduler)@,
                final(scheduler)@,
                outcome,
            ),
    {
        if !first_render && self.last_root.is_none() {
            return Outcome::Skipped;
        }
        match self.new_root.take() {
            Some(root) => {
                let mut root = root;
                let last_root = self.last_root.take();
                let parent_scope = Rc::new(self.scope.to_any());
                let ghost waiting_root = root;
                let first = root.apply(
                    surface,
                    scheduler,
                    &parent_scope,
                    self.parent,
                    self.next_sibling,
                    last_root,
                );
                assert(waiting_root.applied(
                    root,
                    last_root,
                    old(surface)@,
                    surface@,
                    old(scheduler)@,
                    scheduler@,
                    old(self).parent,
                    old(self).next_sibling,
                    first,
                ));
                self.last_root = Some(root);
                self.awaiting_rendered = true;
                let ghost applied = scheduler@;
                scheduler.push(
                    ComponentRunnable {
                        scope: self.scope.id,
                        task: ComponentTask::Rendered(first_render),
                    },
                );
                Outcome::Rendered
            },
            None => Outcome::Skipped,
        }
    }

    /// Tells the component that a view was applied.
    ///
    /// The component is not told of a render that is not the first one before it
    /// has been told of the first. Either way the render is no longer in flight.
    /// After the component was told, the updates put aside are submitted as one
    /// batch, in the order in which they arrived, in front of what the component
    /// sent while it was told.
    pub fn rendered(&mut self, first_render: bool, scheduler: &mut Scheduler<C>) -> (outcome: Outcome)
        ensures
            old(self).notified(
                *final(self),
                first_render,
                old(scheduler)@,
                final(scheduler)@,
                outcome,
            ),
            first_render || old(self).has_rendered ==> exists|
                component: &mut C,
                ctx: &mut Context<'_, C>,
            |
                {
                    &&& #[trigger] call_ensures(C::rendered, (component, ctx, first_render), ())
                    &&& *component == old(self).component
                    &&& *final(component) == final(self).component
                    &&& handed(*ctx, old(self).link, old(self).props)
                    &&& final(scheduler)@ == old(scheduler)@.pushed_all(
                        replayed(old(self).scope.id, old(self).pending_updates@),
                    ).pushed_all(updates_of(final(ctx).link.sent()))
                },
    {
        self.awaiting_rendered = false;
        if !first_render && !self.has_rendered {
            return Outcome::Skipped;
        }
        self.has_rendered = true;
        let mut ctx = Context { link: self.link.fresh(), props: &*self.props };
        self.component.rendered(&mut ctx, first_render);
        let ghost told_sent = updates_of(ctx.link.sent());
        assert(exists|component: &mut C, inner: &mut Context<'_, C>|
            {
                &&& #[trigger] call_ensures(C::rendered, (component, inner, first_render), ())
                &&& *component == old(self).component
                &&& *final(component) == self.component
                &&& handed(*inner, old(self).link, old(self).props)
                &&& updates_of(final(inner).link.sent()) == told_sent
            });
        let ghost told_component = self.component;
        let sent = updates_only(ctx.link.sent);
        let mut pending: Vec<UpdateTask<C>> = Vec::new();
        std::mem::swap(&mut pending, &mut self.pending_updates);
        let ghost all = pending@;
        // The updates are turned round so that the oldest can be taken out first.
        let mut rest: Vec<UpdateTask<C>> = Vec::new();
        while pending.len() > 0
            invariant
                rest@.len() + pending@.len() == all.len(),
                forall|i: int| 0 <= i < pending@.len() ==> pending@[i] == all[i],
                forall|i: int| 0 <= i < rest@.len() ==> rest@[i] == all[all.len() - 1 - i],
            decreases pending@.len(),
        {
            let last = pending.pop().unwrap();
            rest.push(last);
        }
        let mut batch: Vec<ComponentRunnable<C>> = Vec::new();
        let scope = self.scope.id;
        while rest.len() > 0
            invariant
                rest@.len() + batch@.len() == all.len(),
                forall|i: int| 0 <= i < rest@.len() ==> rest@[i] == all[all.len() - 1 - i],
                forall|i: int|
                    0 <= i < batch@.len() ==> batch@[i] == (ComponentRunnable {
                        scope,
                        task: ComponentTask::Update(all[i]),
                    }),
            decreases rest@.len(),
        {
            let update = rest.pop().unwrap();
            batch.push(ComponentRunnable { scope, task: ComponentTask::Update(update) });
        }
        assert(batch@ =~= replayed(scope, all));
        scheduler.push_batch(batch);
        scheduler.push_batch(sent);
        assert(self.component == told_component);
        assert(exists|component: &mut C, inner: &mut Context<'_, C>|
            {
                &&& #[trigger] call_ensures(C::rendered, (component, inner, first_render), ())
                &&& *component == old(self).component
                &&& *final(component) == told_component
                &&& handed(*inner, old(self).link, old(self).props)
                &&& updates_of(final(inner).link.sent()) == told_sent
            });
        Outcome::Notified
    }

    /// Ends the component: tells it so, then takes the view that the surface shows
    /// out of the surface.
    pub fn destroy(self, surface: &mut Surface, scheduler: &mut Scheduler<C>)
        requires
            old(surface).wf(),
        ensures
            final(surface).wf(),
            self.ended(old(surface)@, final(surface)@, old(scheduler)@, final(scheduler)@),
            exists|component: &mut C, ctx: &mut Context<'_, C>|
                {
                    &&& #[trigger] call_ensures(C::destroy, (component, ctx), ())
                    &&& *component == self.component
                    &&& handed(*ctx, self.link, self.props)
                    &&& final(scheduler)@ == old(scheduler)@.pushed_all(updates_of(final(ctx).link.sent())).pushed_all(
                        SchedulerView::<C>::destroys(
                            match self.last_root {
                                Some(root) => root.scopes(),
                                None => Seq::empty(),
                            },
                        ),
                    )
                },
    {
        let mut state = self;
        let mut ctx = Context { link: state.link.fresh(), props: &*state.props };
        state.component.destroy(&mut ctx);
        let ghost told_sent = updates_of(ctx.link.sent());
        assert(exists|component: &mut C, inner: &mut Context<'_, C>|
            {
                &&& #[trigger] call_ensures(C::destroy, (component, inner), ())
                &&& *component == self.component
                &&& handed(*inner, self.link, self.props)
                &&& updates_of(final(inner).link.sent()) == told_sent
            });
        let sent = updates_only(ctx.link.sent);
        scheduler.push_batch(sent);
        proof {
            scheduler@.lemma_destroys_one(0);
        }
        VNode::detach_ancestor(state.last_root, surface, scheduler, state.parent);
    }
}


/// The runtime: the surface, the scheduler, and the components by slot.
pub struct Runtime<C: Component> {
    /// The surface that the components render to.
    pub surface: Surface,
    /// The tasks that wait.
    pub scheduler: Scheduler<C>,
    /// The components. The slot of a component is the place at which it stands here.
    pub components: Vec<Slot<C>>,
    /// The number of tasks that one call of [`Runtime::start`] runs at most.
    pub limit: usize,
}

impl<C: Component> Runtime<C> {
    /// The slot `id`. A slot that the runtime does not hold yet is vacant.
    pub open spec fn slot(&self, id: ScopeId) -> Slot<C> {
        if id < self.components@.len() {
            self.components@[id as int]
        } else {
            Slot::Vacant
        }
    }

    /// Whether the runtime is well formed: the surface is, and every component
    /// that lives renders into an element of it.
    pub open spec fn wf(&self) -> bool {
        &&& self.surface.wf()
        &&& forall|id: ScopeId|
            (#[trigger] self.slot(id)) matches Slot::Live(state) ==> self.surface@.is_element(
                state.parent,
            )
    }

    /// Whether `later` holds every slot of this runtime as it is here, but for the slot `id`.
    pub open spec fn same_slots_but(&self, later: &Runtime<C>, id: ScopeId) -> bool {
        &&& self.components@.len() <= later.components@.len()
        &&& forall|other: ScopeId| other != id ==> #[trigger] later.slot(other) == self.slot(other)
    }

    /// A runtime with an empty surface and nothing to do.
    pub fn new(limit: usize) -> (runtime: Runtime<C>)
        ensures
            runtime.wf(),
            runtime.limit == limit,
            runtime.components@.len() == 0,
            runtime.surface@.nodes.len() == 0,
            runtime.surface@.patches.len() == 0,
            runtime.scheduler@.pending() == 0,
            runtime.scheduler@.scopes == 0,
            !runtime.scheduler@.locked,
    {
        Runtime {
            surface: Surface::new(),
            scheduler: Scheduler::new(),
            components: Vec::new(),
            limit,
        }
    }

    /// The component in the slot `id`, if it lives.
    pub fn get_component(&self, id: ScopeId) -> (component: Option<&C>)
        ensures
            match self.slot(id) {
                Slot::Live(state) => component == Some(&state.component),
                _ => component.is_none(),
            },
    {
        if id >= self.components.len() {
            return None;
        }
        match &self.components[id] {
            Slot::Live(state) => Some(&state.component),
            _ => None,
        }
    }

    /// The current properties of the component in the slot `id`, if it lives.
    pub fn get_props(&self, id: ScopeId) -> (props: Option<&C::Properties>)
        ensures
            match self.slot(id) {
                Slot::Live(state) => props == Some(&*state.props),
                _ => props.is_none(),
            },
    {
        if id >= self.components.len() {
            return None;
        }
        match &self.components[id] {
            Slot::Live(state) => Some(&*state.props),
            _ => None,
        }
    }

    /// Takes the slot `id` out of the runtime, leaving it vacant. A slot that the
    /// runtime does not hold yet is added first if `grow` says so.
    fn take_slot(&mut self, id: ScopeId, grow: bool) -> (slot: Slot<C>)
        ensures
            slot == old(self).slot(id),
            final(self).surface == old(self).surface,
            final(self).scheduler == old(self).scheduler,
            final(self).limit == old(self).limit,
            old(self).same_slots_but(final(self), id),
            final(self).slot(id) is Vacant,
            grow || id < old(self).components@.len() ==> id < final(self).components@.len(),
            !grow ==> final(self).components@.len() == old(self).components@.len(),
    {
        if id >= self.components.len() {
            if !grow {
                return Slot::Vacant;
            }
            while self.components.len() <= id
                invariant
                    self.surface == old(self).surface,
                    self.scheduler == old(self).scheduler,
                    self.limit == old(self).limit,
                    old(self).components@.len() <= self.components@.len(),
                    forall|other: ScopeId| #[trigger] self.slot(other) == old(self).slot(other),
                decreases id + 1 - self.components.len(),
            {
                let ghost before = *self;
                self.components.push(Slot::Vacant);
                assert forall|other: ScopeId| #[trigger] self.slot(other) == old(self).slot(
                    other,
                ) by {
                    assert(before.slot(other) == old(self).slot(other));
                }
            }
        }
        let ghost before = *self;
        let mut slot = Slot::Vacant;
        std::mem::swap(&mut slot, &mut self.components[id]);
        assert forall|other: ScopeId| other != id implies #[trigger] self.slot(other) == old(self).slot(other) by {
            assert(before.slot(other) == old(self).slot(other));
        }
        assert(before.slot(id) == old(self).slot(id));
        slot
    }

    /// Puts `slot` into the slot `id`.
    fn put_slot(&mut self, id: ScopeId, slot: Slot<C>)
        requires
            id < old(self).components@.len(),
        ensures
            final(self).slot(id) == slot,
            final(self).surface == old(self).surface,
            final(self).scheduler == old(self).scheduler,
            final(self).limit == old(self).limit,
            final(self).components@ == old(self).components@.update(id as int, slot),
            old(self).same_slots_but(final(self), id),
    {
        let mut slot = slot;
        std::mem::swap(&mut slot, &mut self.components[id]);
    }

    /// What one step makes of a runtime: where the scheduler is locked or nothing
    /// waits, nothing; else the task that is next leaves the scheduler and runs.
    pub open spec fn stepped(&self, after: &Runtime<C>, outcome: Option<Outcome>) -> bool {
        if self.scheduler@.locked || self.scheduler@.next().is_none() {
            outcome.is_none() && self.same_state(after)
        } else {
            &&& outcome is Some
            &&& exists|taken: Runtime<C>|
                {
                    &&& taken.surface == self.surface
                    &&& taken.components == self.components
                    &&& taken.limit == self.limit
                    &&& taken.scheduler@ == self.scheduler@.popped()
                    &&& #[trigger] self.scheduler@.next().unwrap().ran(
                        &taken,
                        after,
                        outcome.unwrap(),
                    )
                }
        }
    }

    /// Whether two runtimes hold the same surface, tasks and components.
    pub open spec fn same_state(&self, other: &Runtime<C>) -> bool {
        &&& other.surface@ == self.surface@
        &&& other.scheduler@ == self.scheduler@
        &&& other.components@ == self.components@
        &&& other.limit == self.limit
    }

    /// Whether each runtime of `trace` but the last ran a task, which made
    /// the next one of it.
    pub open spec fn ran_through(trace: Seq<Runtime<C>>) -> bool {
        forall|i: int|
            0 <= i < trace.len() - 1 ==> exists|outcome: Outcome|
                (#[trigger] trace[i]).stepped(&trace[i + 1], Some(outcome))
    }

    /// Runs the task that is next, unless the scheduler is locked or nothing waits.
    pub fn step(&mut self) -> (outcome: Option<Outcome>)
        requires
            old(self).wf(),
        ensures
            final(self).wf(),
            old(self).surface@.evolves_to(final(self).surface@),
            old(self).stepped(final(self), outcome),
    {
        if self.scheduler.is_locked() {
            return None;
        }
        let next = self.scheduler.next_runnable();
        proof {
            Self::lemma_wf_same(*old(self), *self);
        }
        let ghost taken = *self;
        match next {
            Some(runnable) => {
                let outcome = runnable.run(self);
                assert(old(self).scheduler@.next().unwrap().ran(
                    &taken,
                    self,
                    Some(outcome).unwrap(),
                ));
                Some(outcome)
            },
            None => None,
        }
    }

    /// Whether a runtime is well formed depends on its surface and its slots alone.
    proof fn lemma_wf_same(before: Runtime<C>, after: Runtime<C>)
        requires
            before.wf(),
            after.surface == before.surface,
            after.components == before.components,
        ensures
            after.wf(),
    {
        assert forall|id: ScopeId|
            (#[trigger] after.slot(id)) matches Slot::Live(state) ==> after.surface@.is_element(
                state.parent,
            ) by {
            assert(after.slot(id) == before.slot(id));
        }
    }

    /// Runs the tasks that wait, one after the other, until none waits, the
    /// scheduler is locked, or as many ran as the runtime allows in one go.
    /// Returns the number of tasks that ran.
    pub fn start(&mut self) -> (ran: usize)
        requires
            old(self).wf(),
        ensures
            final(self).wf(),
            final(self).limit == old(self).limit,
            old(self).surface@.evolves_to(final(self).surface@),
            ran <= old(self).limit,
            ran < old(self).limit ==> final(self).scheduler@.locked
                || final(self).scheduler@.next().is_none(),
            exists|trace: Seq<Runtime<C>>|
                {
                    &&& #[trigger] Self::ran_through(trace)
                    &&& trace.len() == ran + 1
                    &&& trace[0] == *old(self)
                    &&& trace[ran as int].same_state(final(self))
                },
    {
        let mut ran: usize = 0;
        let ghost mut trace: Seq<Runtime<C>> = seq![*self];
        while ran < self.limit
            invariant
                self.wf(),
                self.limit == old(self).limit,
                old(self).surface@.evolves_to(self.surface@),
                ran <= self.limit,
                Self::ran_through(trace),
                trace.len() == ran + 1,
                trace[0] == *old(self),
                trace[ran as int] == *self,
            decreases self.limit - ran,
        {
            let ghost before = *self;
            match self.step() {
                Some(outcome) => {
                    proof {
                        old(self).surface@.lemma_evolves_twice(before.surface@, self.surface@);
                        let last = trace[ran as int];
                        assert(last.stepped(self, Some(outcome))) by {
                            let taken = choose|taken: Runtime<C>|
                                {
                                    &&& taken.surface == before.surface
                                    &&& taken.components == before.components
                                    &&& taken.limit == before.limit
                                    &&& taken.scheduler@ == before.scheduler@.popped()
                                    &&& #[trigger] before.scheduler@.next().unwrap().ran(
                                        &taken,
                                        self,
                                        outcome,
                                    )
                                };
                            assert(last.scheduler@.next().unwrap().ran(
                                &taken,
                                self,
                                Some(outcome).unwrap(),
                            ));
                        }
                        let longer = trace.push(*self);
                        assert forall|i: int| 0 <= i < longer.len() - 1 implies exists|o: Outcome|
                            (#[trigger] longer[i]).stepped(&longer[i + 1], Some(o)) by {
                            if i < trace.len() - 1 {
                                assert(longer[i] == trace[i]);
                                assert(longer[i + 1] == trace[i + 1]);
                            } else {
                                assert(longer[i] == last);
                                assert(longer[i + 1] == *self);
                            }
                        }
                        trace = longer;
                    }
                    ran = ran + 1;
                },
                None => {
                    return ran;
                },
            }
        }
        ran
    }
}

impl<C: Component> ComponentRunnable<C> {
    /// What running the task makes of a runtime.
    ///
    /// No slot but that of the component changes. A task for a component that
    /// was destroyed does nothing, and so does a task for a component that was
    /// never created, unless it creates it or marks it as destroyed. A task for a
    /// component that lives does what the task of its category does to the record
    /// of the component.
    pub open spec fn ran(&self, before: &Runtime<C>, after: &Runtime<C>, outcome: Outcome) -> bool {
        &&& after.wf()
        &&& after.limit == before.limit
        &&& before.surface@.evolves_to(after.surface@)
        &&& before.same_slots_but(after, self.scope)
        &&& match before.slot(self.scope) {
            Slot::Destroyed => {
                &&& outcome is Skipped
                &&& after.slot(self.scope) is Destroyed
                &&& after.surface@ == before.surface@
                &&& after.scheduler@ == before.scheduler@
            },
            Slot::Vacant => match self.task {
                ComponentTask::Create(task) => if self.scope < before.scheduler@.scopes
                    && before.surface@.is_element(task.parent) {
                    &&& outcome is Created
                    &&& after.slot(self.scope) matches Slot::Live(state)
                    &&& state.created_by(task)
                    &&& after.surface@ == before.surface@
                    &&& exists|sent: Seq<ComponentRunnable<C>>|
                        after.scheduler@ == #[trigger] before.scheduler@.pushed_all(sent)
                } else {
                    &&& outcome is Skipped
                    &&& after.slot(self.scope) is Vacant
                    &&& after.surface@ == before.surface@
                    &&& after.scheduler@ == before.scheduler@
                },
                ComponentTask::Destroy => {
                    &&& outcome is Skipped
                    &&& after.slot(self.scope) == (if self.scope < before.scheduler@.scopes {
                        Slot::<C>::Destroyed
                    } else {
                        Slot::<C>::Vacant
                    })
                    &&& after.surface@ == before.surface@
                    &&& after.scheduler@ == before.scheduler@
                },
                _ => {
                    &&& outcome is Skipped
                    &&& after.slot(self.scope) is Vacant
                    &&& after.surface@ == before.surface@
                    &&& after.scheduler@ == before.scheduler@
                },
            },
            Slot::Live(state) => match self.task {
                ComponentTask::Create(_) => {
                    &&& outcome is Skipped
                    &&& after.slot(self.scope) == before.slot(self.scope)
                    &&& after.surface@ == before.surface@
                    &&& after.scheduler@ == before.scheduler@
                },
                ComponentTask::Update(update) => {
                    &&& after.slot(self.scope) matches Slot::Live(now)
                    &&& state.updated(
                        now,
                        update,
                        before.scheduler@,
                        after.scheduler@,
                        outcome,
                    )
                    &&& after.surface@ == before.surface@
                },
                ComponentTask::Render(first_render) => {
                    &&& after.slot(self.scope) matches Slot::Live(now)
                    &&& state.applied(
                        now,
                        first_render,
                        before.surface@,
                        after.surface@,
                        before.scheduler@,
                        after.scheduler@,
                        outcome,
                    )
                },
                ComponentTask::Rendered(first_render) => {
                    &&& after.slot(self.scope) matches Slot::Live(now)
                    &&& state.notified(
                        now,
                        first_render,
                        before.scheduler@,
                        after.scheduler@,
                        outcome,
                    )
                    &&& after.surface@ == before.surface@
                },
                ComponentTask::Destroy => {
                    &&& outcome is Destroyed
                    &&& after.slot(self.scope) is Destroyed
                    &&& state.ended(
                        before.surface@,
                        after.surface@,
                        before.scheduler@,
                        after.scheduler@,
                    )
                },
            },
        }
    }

    /// Runs the task on the component that it is for.
    ///
    /// A task for a component that was destroyed does nothing, and so does a task
    /// for a component that was never created, unless it creates or destroys it.
    /// No slot but that of the component changes.
    pub fn run(self, runtime: &mut Runtime<C>) -> (outcome: Outcome)
        requires
            old(runtime).wf(),
        ensures
            self.ran(old(runtime), final(runtime), outcome),
            old(runtime).slot(self.scope) is Vacant ==> (self.task matches ComponentTask::Create(
                task,
            ) ==> (outcome is Created ==> exists|ctx: &mut Context<'_, C>|
                {
                    &&& #[trigger] call_ensures(
                        C::create,
                        (ctx,),
                        final(runtime).slot(self.scope)->Live_0.component,
                    )
                    &&& handed(
                        *ctx,
                        final(runtime).slot(self.scope)->Live_0.link,
                        task.props,
                    )
                    &&& final(runtime).scheduler@ == old(runtime).scheduler@.pushed_all(updates_of(final(ctx).link.sent()))
                })),
            old(runtime).slot(self.scope) matches Slot::Live(state) ==> (
            self.task matches ComponentTask::Update(update) ==> (!state.render_in_flight()
                ==> exists|
                trace: Seq<C>,
                sent: Seq<Seq<ComponentRunnable<C>>>,
                view_sent: Seq<ComponentRunnable<C>>,
            |
                {
                    &&& #[trigger] state.handled(
                        final(runtime).slot(self.scope)->Live_0,
                        update,
                        outcome,
                        old(runtime).scheduler@,
                        final(runtime).scheduler@,
                        trace,
                        sent,
                        view_sent,
                    )
                    &&& forall|i: int| #[trigger]
                        place(i, messages_of(update).len() as int) ==> exists|
                            component: &mut C,
                            ctx: &mut Context<'_, C>,
                        |
                            {
                                &&& #[trigger] call_ensures(
                                    C::update,
                                    (component, ctx, messages_of(update)[i]),
                                    outcome->results@[i],
                                )
                                &&& *component == trace[i]
                                &&& *final(component) == trace[i + 1]
                                &&& handed(*ctx, state.link, state.props)
                                &&& updates_of(final(ctx).link.sent()) == sent[i]
                            }
                    &&& update matches UpdateTask::Properties(props, _) ==> (outcome->results@.len()
                        == 1 ==> exists|
                        component: &mut C,
                        ctx: &mut Context<'_, C>,
                        shown: &C::Properties,
                    |
                        {
                            &&& #[trigger] call_ensures(
                                C::changed,
                                (component, ctx, shown),
                                outcome->results@[0],
                            )
                            &&& *shown == *props
                            &&& *component == trace[0]
                            &&& *final(component) == trace[1]
                            &&& handed(*ctx, state.link, state.props)
                            &&& updates_of(final(ctx).link.sent()) == sent[0]
                        })
                    &&& outcome->should_render ==> exists|shown: &C, ctx: &mut Context<'_, C>|
                        {
                            &&& #[trigger] call_ensures(
                                C::view,
                                (shown, ctx),
                                final(runtime).slot(self.scope)->Live_0.new_root.unwrap(),
                            )
                            &&& *shown == final(runtime).slot(self.scope)->Live_0.component
                            &&& handed(
                                *ctx,
                                state.link,
                                final(runtime).slot(self.scope)->Live_0.props,
                            )
                            &&& updates_of(final(ctx).link.sent()) == view_sent
                        }
                })),
            old(runtime).slot(self.scope) matches Slot::Live(state) ==> (
            self.task matches ComponentTask::Rendered(first_render) ==> (first_render
                || state.has_rendered ==> exists|component: &mut C, ctx: &mut Context<'_, C>|
                {
                    &&& #[trigger] call_ensures(C::rendered, (component, ctx, first_render), ())
                    &&& *component == state.component
                    &&& *final(component) == final(runtime).slot(self.scope)->Live_0.component
                    &&& handed(*ctx, state.link, state.props)
                    &&& final(runtime).scheduler@ == old(runtime).scheduler@.pushed_all(
                        replayed(state.scope.id, state.pending_updates@),
                    ).pushed_all(updates_of(final(ctx).link.sent()))
                })),
            old(runtime).slot(self.scope) matches Slot::Live(state) ==> (self.task is Destroy
                ==> exists|component: &mut C, ctx: &mut Context<'_, C>|
                {
                    &&& #[trigger] call_ensures(C::destroy, (component, ctx), ())
                    &&& *component == state.component
                    &&& handed(*ctx, state.link, state.props)
                    &&& final(runtime).scheduler@ == old(runtime).scheduler@.pushed_all(updates_of(final(ctx).link.sent())).pushed_all(
                        SchedulerView::<C>::destroys(
                            match state.last_root {
                                Some(root) => root.scopes(),
                                None => Seq::empty(),
                            },
                        ),
                    )
                }),
    {
        let id = self.scope;
        let allocated = id < runtime.scheduler.scopes();
        let grow = allocated && match &self.task {
            ComponentTask::Create(_) => true,
            ComponentTask::Destroy => true,
            _ => false,
        };
        let ghost start = *runtime;
        let slot = runtime.take_slot(id, grow);
        let ghost taken = *runtime;
        proof {
            assert forall|other: ScopeId|
                (#[trigger] taken.slot(other)) matches Slot::Live(state)
                    ==> taken.surface@.is_element(state.parent) by {
                if other != id {
                    assert(taken.slot(other) == start.slot(other));
                }
            }
        }
        if id >= runtime.components.len() {
            return Outcome::Skipped;
        }
        match slot {
            Slot::Destroyed => {
                runtime.put_slot(id, Slot::Destroyed);
                proof {
                    Self::lemma_put(start, taken, *runtime, id);
                }
                Outcome::Skipped
            },
            Slot::Vacant => {
                match self.task {
                    ComponentTask::Create(task) => {
                        if allocated && runtime.surface.is_element(task.parent) {
                            let state = ComponentState::new(task, &mut runtime.scheduler);
                            let ghost made = *runtime;
                            runtime.put_slot(id, Slot::Live(state));
                            proof {
                                Self::lemma_put(start, taken, *runtime, id);
                            }
                            Outcome::Created
                        } else {
                            Outcome::Skipped
                        }
                    },
                    ComponentTask::Destroy => {
                        if allocated {
                            runtime.put_slot(id, Slot::Destroyed);
                            proof {
                                Self::lemma_put(start, taken, *runtime, id);
                            }
                        }
                        Outcome::Skipped
                    },
                    _ => Outcome::Skipped,
                }
            },
            Slot::Live(state) => {
                let mut state = state;
                match self.task {
                    ComponentTask::Create(_) => {
                        runtime.put_slot(id, Slot::Live(state));
                        proof {
                            Self::lemma_put(start, taken, *runtime, id);
                        }
                        Outcome::Skipped
                    },
                    ComponentTask::Update(update) => {
                        let outcome = state.update(update, &mut runtime.scheduler);
                        let ghost changed = *runtime;
                        runtime.put_slot(id, Slot::Live(state));
                        proof {
                            Self::lemma_put(start, taken, *runtime, id);
                        }
                        outcome
                    },
                    ComponentTask::Render(first_render) => {
                        assert(start.slot(id) matches Slot::Live(s) && start.surface@.is_element(
                            s.parent,
                        ));
                        let outcome = state.render(
                            first_render,
                            &mut runtime.surface,
                            &mut runtime.scheduler,
                        );
                        let ghost changed = *runtime;
                        runtime.put_slot(id, Slot::Live(state));
                        proof {
                            Self::lemma_put(start, taken, *runtime, id);
                        }
                        outcome
                    },
                    ComponentTask::Rendered(first_render) => {
                        let outcome = state.rendered(first_render, &mut runtime.scheduler);
                        let ghost changed = *runtime;
                        runtime.put_slot(id, Slot::Live(state));
                        proof {
                            Self::lemma_put(start, taken, *runtime, id);
                        }
                        outcome
                    },
                    ComponentTask::Destroy => {
                        state.destroy(&mut runtime.surface, &mut runtime.scheduler);
                        let ghost changed = *runtime;
                        runtime.put_slot(id, Slot::Destroyed);
                        proof {
                            Self::lemma_put(start, taken, *runtime, id);
                        }
                        Outcome::Destroyed
                    },
                }
            },
        }
    }

    /// A runtime whose surface evolved, with one slot filled again after the
    /// task ran, is well formed, and holds the other slots as before.
    proof fn lemma_put(start: Runtime<C>, taken: Runtime<C>, done: Runtime<C>, id: ScopeId)
        requires
            start.wf(),
            done.surface.wf(),
            start.surface@.evolves_to(done.surface@),
            id < taken.components@.len(),
            done.components@ == taken.components@.update(id as int, done.slot(id)),
            start.same_slots_but(&taken, id),
            done.slot(id) matches Slot::Live(state) ==> done.surface@.is_element(state.parent),
        ensures
            done.wf(),
            start.same_slots_but(&done, id),
    {
        assert forall|other: ScopeId| other != id implies #[trigger] done.slot(other) == start.slot(
            other,
        ) by {
            assert(taken.slot(other) == start.slot(other));
        }
        assert forall|other: ScopeId|
            (#[trigger] done.slot(other)) matches Slot::Live(state) ==> done.surface@.is_element(
                state.parent,
            ) by {
            if other != id {
                assert(done.slot(other) == start.slot(other));
            }
        }
    }
}


/// Updates that arrive while a render is in flight wait for it, and are
/// replayed in the order in which they arrived.
///
/// While a render of a component is in flight, two updates are handled, one
/// after the other; then the component is told of the render. Both updates were
/// put aside, and nothing was submitted for them. Telling the component submits
/// the updates that were put aside, the two behind those that waited already and
/// in the order in which they arrived, in front of anything that the component
/// sent while it was told; and no update is left aside.
pub proof fn lemma_deferred_updates_are_replayed_in_order<C: Component>(
    state: ComponentState<C>,
    first: UpdateTask<C>,
    after_first: ComponentState<C>,
    second: UpdateTask<C>,
    after_second: ComponentState<C>,
    told: ComponentState<C>,
    first_render: bool,
    waiting: SchedulerView<C>,
    still_waiting: SchedulerView<C>,
    unchanged: SchedulerView<C>,
    submitted: SchedulerView<C>,
    first_outcome: Outcome,
    second_outcome: Outcome,
    told_outcome: Outcome,
)
    requires
        state.render_in_flight(),
        state.updated(after_first, first, waiting, still_waiting, first_outcome),
        after_first.updated(after_second, second, still_waiting, unchanged, second_outcome),
        first_render || after_second.has_rendered,
        after_second.notified(told, first_render, unchanged, submitted, told_outcome),
    ensures
        first_outcome is Deferred,
        second_outcome is Deferred,
        unchanged == waiting,
        told_outcome is Notified,
        told.pending_updates@.len() == 0,
        exists|sent: Seq<ComponentRunnable<C>>|
            submitted == #[trigger] waiting.pushed_all(
                replayed(state.scope.id, state.pending_updates@.push(first).push(second)),
            ).pushed_all(sent),
{
    assert(after_first.render_in_flight());
}

/// A task for a component that has been destroyed does nothing.
///
/// The task that destroys a component that lives is run, and then any task for
/// the same component. The second task is skipped: the slot stays destroyed, and
/// neither the surface nor the scheduler changes.
pub proof fn lemma_tasks_after_destroy_do_nothing<C: Component>(
    destroy: ComponentRunnable<C>,
    stale: ComponentRunnable<C>,
    before: Runtime<C>,
    destroyed: Runtime<C>,
    after: Runtime<C>,
    destroy_outcome: Outcome,
    stale_outcome: Outcome,
)
    requires
        destroy.task is Destroy,
        before.slot(destroy.scope) is Live,
        stale.scope == destroy.scope,
        destroy.ran(&before, &destroyed, destroy_outcome),
        stale.ran(&destroyed, &after, stale_outcome),
    ensures
        destroy_outcome is Destroyed,
        stale_outcome is Skipped,
        after.slot(stale.scope) is Destroyed,
        after.surface@ == destroyed.surface@,
        after.scheduler@ == destroyed.scheduler@,
{
}

/// A batch of messages renders at most once.
///
/// A batch of messages is handled by a component of which no render is in
/// flight. The component answered once for each message. If any answer asks for a
/// render, one view was computed, which now waits, and the one task that applies
/// it was submitted behind what the component sent; if none does, no view waits.
pub proof fn lemma_batch_renders_once<C: Component>(
    state: ComponentState<C>,
    messages: Vec<C::Message>,
    after: ComponentState<C>,
    waiting: SchedulerView<C>,
    submitted: SchedulerView<C>,
    outcome: Outcome,
)
    requires
        !state.render_in_flight(),
        state.updated(after, UpdateTask::MessageBatch(messages), waiting, submitted, outcome),
    ensures
        outcome matches Outcome::Updated { results, should_render } && results@.len()
            == messages@.len() && should_render == any_true(results@) && after.new_root.is_some()
            == should_render && exists|sent: Seq<ComponentRunnable<C>>|
            submitted == (if should_render {
                (#[trigger] waiting.pushed_all(sent)).pushed(
                    ComponentRunnable { scope: state.scope.id, task: ComponentTask::Render(false) },
                )
            } else {
                waiting.pushed_all(sent)
            }),
{
}

} // verus!
