//! The scheduler: the queues of lifecycle tasks, and the order in which they run.

use crate::component::Component;
use crate::html::scope::{Scope, ScopeId};
use crate::surface::SurfaceHandle;
use std::collections::VecDeque;
use std::rc::Rc;
use vstd::prelude::*;
use vstd::std_specs::convert::FromSpecImpl;

verus! {

/// The first task of a component: what it needs to come to life.
pub struct CreateTask<C: Component> {
    /// The element that the component renders into.
    pub parent: SurfaceHandle,
    /// The node in front of which the component renders, or none to render last.
    pub next_sibling: Option<SurfaceHandle>,
    /// The first properties of the component.
    pub props: Rc<C::Properties>,
    /// The scope of the component.
    pub scope: Scope<C>,
}

/// An update for a component.
pub enum UpdateTask<C: Component> {
    /// The first update, which always renders.
    First,
    /// One message.
    Message(C::Message),
    /// A batch of messages, handled together.
    MessageBatch(Vec<C::Message>),
    /// New properties from the parent, and the node in front of which the
    /// component renders from now on, or none to render last.
    Properties(Rc<C::Properties>, Option<SurfaceHandle>),
}

/// One unit of lifecycle work.
pub enum ComponentTask<C: Component> {
    Create(CreateTask<C>),
    Update(UpdateTask<C>),
    /// Applies the view computed last; the flag says whether it is the first one.
    Render(bool),
    /// Tells the component that a render was applied; the flag says whether it was the first one.
    Rendered(bool),
    Destroy,
}

/// The categories of task, from the one that runs first to the one that runs last.
#[derive(Clone, Copy, PartialEq, Eq, Structural, Debug)]
pub enum ComponentRunnableType {
    Destroy,
    Create,
    Update,
    Render,
    Rendered,
}

impl<C: Component> From<CreateTask<C>> for ComponentTask<C> {
    fn from(task: CreateTask<C>) -> (made: ComponentTask<C>) {
        ComponentTask::Create(task)
    }
}

impl<C: Component> FromSpecImpl<CreateTask<C>> for ComponentTask<C> {
    open spec fn obeys_from_spec() -> bool {
        true
    }

    open spec fn from_spec(task: CreateTask<C>) -> ComponentTask<C> {
        ComponentTask::Create(task)
    }
}

impl<C: Component> From<UpdateTask<C>> for ComponentTask<C> {
    fn from(task: UpdateTask<C>) -> (made: ComponentTask<C>) {
        ComponentTask::Update(task)
    }
}

impl<C: Component> FromSpecImpl<UpdateTask<C>> for ComponentTask<C> {
    open spec fn obeys_from_spec() -> bool {
        true
    }

    open spec fn from_spec(task: UpdateTask<C>) -> ComponentTask<C> {
        ComponentTask::Update(task)
    }
}

impl<C: Component> ComponentTask<C> {
    /// The category that the task belongs to.
    pub open spec fn kind(&self) -> ComponentRunnableType {
        match self {
            ComponentTask::Create(_) => ComponentRunnableType::Create,
            ComponentTask::Update(_) => ComponentRunnableType::Update,
            ComponentTask::Render(_) => ComponentRunnableType::Render,
            ComponentTask::Rendered(_) => ComponentRunnableType::Rendered,
            ComponentTask::Destroy => ComponentRunnableType::Destroy,
        }
    }

    /// The category that the task belongs to.
    pub fn run_type(&self) -> (kind: ComponentRunnableType)
        ensures
            kind == self.kind(),
    {
        match self {
            ComponentTask::Create(_) => ComponentRunnableType::Create,
            ComponentTask::Update(_) => ComponentRunnableType::Update,
            ComponentTask::Render(_) => ComponentRunnableType::Render,
            ComponentTask::Rendered(_) => ComponentRunnableType::Rendered,
            ComponentTask::Destroy => ComponentRunnableType::Destroy,
        }
    }
}

/// A task together with the component that it is for.
pub struct ComponentRunnable<C: Component> {
    pub scope: ScopeId,
    pub task: ComponentTask<C>,
}

/// The updates among `tasks`, in their order.
pub open spec fn updates_of<C: Component>(tasks: Seq<ComponentRunnable<C>>) -> Seq<
    ComponentRunnable<C>,
>
    decreases tasks.len(),
{
    if tasks.len() == 0 {
        Seq::empty()
    } else if tasks.last().task is Update {
        updates_of(tasks.drop_last()).push(tasks.last())
    } else {
        updates_of(tasks.drop_last())
    }
}

/// Every task among the updates of some tasks is an update, and one of those tasks.
pub proof fn lemma_updates_of<C: Component>(tasks: Seq<ComponentRunnable<C>>)
    ensures
        forall|i: int|
            0 <= i < updates_of(tasks).len() ==> (#[trigger] updates_of(tasks)[i]).task is Update
                && tasks.contains(updates_of(tasks)[i]),
        updates_of(tasks).len() <= tasks.len(),
    decreases tasks.len(),
{
    if tasks.len() > 0 {
        lemma_updates_of(tasks.drop_last());
        let front = updates_of(tasks.drop_last());
        assert forall|i: int| 0 <= i < updates_of(tasks).len() implies (#[trigger] updates_of(
            tasks,
        )[i]).task is Update && tasks.contains(updates_of(tasks)[i]) by {
            if i < front.len() {
                assert(updates_of(tasks)[i] == front[i]);
                let k = choose|k: int|
                    0 <= k < tasks.drop_last().len() && tasks.drop_last()[k] == front[i];
                assert(tasks[k] == front[i]);
            } else {
                assert(updates_of(tasks)[i] == tasks.last());
                assert(tasks[tasks.len() - 1] == tasks.last());
            }
        }
    }
}

/// Keeps the updates among `tasks`, in their order, and drops every other task:
/// a component sends updates, and nothing else.
pub fn updates_only<C: Component>(tasks: Vec<ComponentRunnable<C>>) -> (updates: Vec<
    ComponentRunnable<C>,
>)
    ensures
        updates@ == updates_of(tasks@),
        forall|i: int| 0 <= i < updates@.len() ==> (#[trigger] updates@[i]).task is Update,
{
    proof {
        lemma_updates_of(tasks@);
    }
    let mut tasks = tasks;
    let ghost all = tasks@;
    // The tasks are turned round so that the first can be taken out first.
    let mut rest: Vec<ComponentRunnable<C>> = Vec::new();
    while tasks.len() > 0
        invariant
            rest@.len() + tasks@.len() == all.len(),
            forall|i: int| 0 <= i < tasks@.len() ==> tasks@[i] == all[i],
            forall|i: int| 0 <= i < rest@.len() ==> rest@[i] == all[all.len() - 1 - i],
        decreases tasks@.len(),
    {
        let last = tasks.pop().unwrap();
        rest.push(last);
    }
    let mut updates: Vec<ComponentRunnable<C>> = Vec::new();
    let ghost mut done: int = 0;
    assert(all.subrange(0, 0) =~= Seq::empty());
    while rest.len() > 0
        invariant
            0 <= done <= all.len(),
            rest@.len() + done == all.len(),
            forall|i: int| 0 <= i < rest@.len() ==> rest@[i] == all[all.len() - 1 - i],
            updates@ == updates_of(all.subrange(0, done)),
        decreases rest@.len(),
    {
        let task = rest.pop().unwrap();
        proof {
            assert(task == all[done]);
            assert(all.subrange(0, done + 1).drop_last() =~= all.subrange(0, done));
            assert(all.subrange(0, done + 1).last() == all[done]);
            done = done + 1;
        }
        let is_update = match &task.task {
            ComponentTask::Update(_) => true,
            _ => false,
        };
        if is_update {
            updates.push(task);
        }
    }
    assert(all.subrange(0, done) =~= all);
    updates
}

/// What a scheduler holds, as a mathematical value.
pub struct SchedulerView<C: Component> {
    /// Whether the scheduler is held, so that no task may start.
    pub locked: bool,
    /// The number of scopes given out.
    pub scopes: nat,
    pub destroy: Seq<ComponentRunnable<C>>,
    pub create: Seq<ComponentRunnable<C>>,
    pub update: Seq<ComponentRunnable<C>>,
    pub render: Seq<ComponentRunnable<C>>,
    /// The tasks that report a render, the one that runs first standing last.
    pub rendered: Seq<ComponentRunnable<C>>,
}

impl<C: Component> SchedulerView<C> {
    /// The scheduler after `runnable` was submitted.
    pub open spec fn pushed(self, runnable: ComponentRunnable<C>) -> SchedulerView<C> {
        match runnable.task.kind() {
            ComponentRunnableType::Destroy => SchedulerView {
                destroy: self.destroy.push(runnable),
                ..self
            },
            ComponentRunnableType::Create => SchedulerView {
                create: self.create.push(runnable),
                ..self
            },
            ComponentRunnableType::Update => SchedulerView {
                update: self.update.push(runnable),
                ..self
            },
            ComponentRunnableType::Render => SchedulerView {
                render: self.render.push(runnable),
                ..self
            },
            ComponentRunnableType::Rendered => SchedulerView {
                rendered: self.rendered.push(runnable),
                ..self
            },
        }
    }

    /// The scheduler after all of `runnables` were submitted, in order.
    pub open spec fn pushed_all(self, runnables: Seq<ComponentRunnable<C>>) -> SchedulerView<C>
        decreases runnables.len(),
    {
        if runnables.len() == 0 {
            self
        } else {
            self.pushed_all(runnables.drop_last()).pushed(runnables.last())
        }
    }

    /// Whether `later` is this scheduler with more tasks submitted, none of them
    /// a task to render or to report a render, and with maybe more scopes given out.
    pub open spec fn extends_to(self, later: SchedulerView<C>) -> bool {
        &&& later.locked == self.locked
        &&& self.scopes <= later.scopes
        &&& self.destroy.is_prefix_of(later.destroy)
        &&& self.create.is_prefix_of(later.create)
        &&& self.update.is_prefix_of(later.update)
        &&& later.render == self.render
        &&& later.rendered == self.rendered
    }

    /// Submitting a task that neither renders nor reports a render extends the scheduler.
    pub proof fn lemma_pushed_extends(self, runnable: ComponentRunnable<C>)
        requires
            runnable.task.kind() != ComponentRunnableType::Render,
            runnable.task.kind() != ComponentRunnableType::Rendered,
        ensures
            self.extends_to(self.pushed(runnable)),
    {
    }

    /// A scheduler that was extended twice was extended.
    pub proof fn lemma_extends_twice(self, middle: SchedulerView<C>, later: SchedulerView<C>)
        requires
            self.extends_to(middle),
            middle.extends_to(later),
        ensures
            self.extends_to(later),
    {
    }

    /// Submitting one batch after another is submitting them as one.
    pub proof fn lemma_pushed_all_twice(
        self,
        first: Seq<ComponentRunnable<C>>,
        second: Seq<ComponentRunnable<C>>,
    )
        ensures
            self.pushed_all(first).pushed_all(second) == self.pushed_all(first + second),
        decreases second.len(),
    {
        if second.len() == 0 {
            assert(first + second =~= first);
        } else {
            self.lemma_pushed_all_twice(first, second.drop_last());
            assert((first + second).drop_last() =~= first + second.drop_last());
            assert((first + second).last() == second.last());
        }
    }

    /// The tasks that destroy the components at `scopes`, in order.
    pub open spec fn destroys(scopes: Seq<ScopeId>) -> Seq<ComponentRunnable<C>> {
        Seq::new(
            scopes.len(),
            |i: int| ComponentRunnable { scope: scopes[i], task: ComponentTask::Destroy },
        )
    }

    /// Submitting tasks that destroy components extends the scheduler.
    pub proof fn lemma_destroys_extend(self, scopes: Seq<ScopeId>)
        ensures
            self.extends_to(self.pushed_all(Self::destroys(scopes))),
        decreases scopes.len(),
    {
        if scopes.len() > 0 {
            self.lemma_destroys_extend(scopes.drop_last());
            assert(Self::destroys(scopes).drop_last() =~= Self::destroys(scopes.drop_last()));
            let before = self.pushed_all(Self::destroys(scopes.drop_last()));
            before.lemma_pushed_extends(Self::destroys(scopes).last());
            self.lemma_extends_twice(before, before.pushed(Self::destroys(scopes).last()));
        }
    }

    /// Submitting the tasks that destroy one lot of components and then those
    /// that destroy another is submitting those that destroy them all.
    pub proof fn lemma_destroys_twice(self, first: Seq<ScopeId>, second: Seq<ScopeId>)
        ensures
            self.pushed_all(Self::destroys(first)).pushed_all(Self::destroys(second))
                == self.pushed_all(Self::destroys(first + second)),
    {
        self.lemma_pushed_all_twice(Self::destroys(first), Self::destroys(second));
        assert(Self::destroys(first) + Self::destroys(second) =~= Self::destroys(first + second));
    }

    /// Submitting the task that destroys one component.
    pub proof fn lemma_destroys_one(self, scope: ScopeId)
        ensures
            self.pushed_all(Self::destroys(seq![scope])) == self.pushed(
                ComponentRunnable { scope, task: ComponentTask::Destroy },
            ),
            self.pushed_all(Self::destroys(Seq::empty())) == self,
    {
        let one = Self::destroys(seq![scope]);
        assert(one.drop_last() =~= Seq::empty());
        assert(self.pushed_all(one.drop_last()) == self);
        assert(one.last() == ComponentRunnable::<C> { scope, task: ComponentTask::Destroy });
        assert(Self::destroys(Seq::empty()) =~= Seq::empty());
    }

    /// Whether a task that destroys the component at `scope` was submitted
    /// between this scheduler and `later`.
    pub open spec fn destroys_since(self, later: SchedulerView<C>, scope: ScopeId) -> bool {
        exists|i: int|
            self.destroy.len() <= i < later.destroy.len() && (#[trigger] later.destroy[i]).scope
                == scope && later.destroy[i].task is Destroy
    }

    /// Whether the first update of the component at `scope` was submitted
    /// between this scheduler and `later`.
    pub open spec fn starts_since(self, later: SchedulerView<C>, scope: ScopeId) -> bool {
        exists|i: int|
            self.update.len() <= i < later.update.len() && (#[trigger] later.update[i]).scope
                == scope && later.update[i].task == ComponentTask::<C>::Update(UpdateTask::First)
    }

    /// Whether new properties for the component at `scope` were submitted
    /// between this scheduler and `later`.
    pub open spec fn hands_since(self, later: SchedulerView<C>, scope: ScopeId) -> bool {
        exists|i: int|
            self.update.len() <= i < later.update.len() && (#[trigger] later.update[i]).scope
                == scope && (later.update[i].task matches ComponentTask::Update(
                UpdateTask::Properties(_, _),
            ))
    }

    /// Whether `later` is this scheduler after what the components at `olds`
    /// showed was reconciled with a tree that now holds the components at `news`.
    ///
    /// Nothing was submitted but this: for each scope given out since, in
    /// their order, the task that creates its component, and its first update;
    /// new properties for components of `olds` that are in `news`; and tasks that
    /// destroy components of `olds`. Each component of `news` is a new one, whose
    /// first update was submitted, or one of `olds`, which was handed new
    /// properties. Each component of `olds` that is not in `news` was told to end.
    pub open spec fn reconciles(
        self,
        later: SchedulerView<C>,
        olds: Set<ScopeId>,
        news: Set<ScopeId>,
    ) -> bool {
        &&& self.extends_to(later)
        &&& later.scopes - self.scopes == later.create.len() - self.create.len()
        &&& forall|i: int|
            self.create.len() <= i < later.create.len() ==> {
                &&& (#[trigger] later.create[i]).scope == self.scopes + (i - self.create.len())
                &&& later.create[i].task matches ComponentTask::Create(task)
                &&& task.scope.id == later.create[i].scope
            }
        &&& forall|i: int|
            self.destroy.len() <= i < later.destroy.len() ==> (#[trigger] later.destroy[i]).task is Destroy
                && olds.contains(later.destroy[i].scope)
        &&& forall|i: int|
            self.update.len() <= i < later.update.len() ==> match (#[trigger] later.update[i]).task {
                ComponentTask::Update(UpdateTask::First) => self.scopes <= later.update[i].scope
                    < later.scopes && news.contains(later.update[i].scope),
                ComponentTask::Update(UpdateTask::Properties(_, _)) => olds.contains(
                    later.update[i].scope,
                ) && news.contains(later.update[i].scope),
                _ => false,
            }
        &&& forall|scope: ScopeId| #[trigger]
            olds.contains(scope) ==> news.contains(scope) || self.destroys_since(later, scope)
        &&& forall|scope: ScopeId| #[trigger]
            news.contains(scope) ==> (self.scopes <= scope < later.scopes && self.starts_since(
                later,
                scope,
            )) || (olds.contains(scope) && self.hands_since(later, scope))
    }

    /// Nothing submitted reconciles nothing with nothing.
    pub proof fn lemma_reconciles_nothing(self)
        ensures
            self.reconciles(self, Set::empty(), Set::empty()),
    {
    }

    /// What was reconciled in two goes was reconciled.
    pub proof fn lemma_reconciles_twice(
        self,
        middle: SchedulerView<C>,
        later: SchedulerView<C>,
        first_olds: Set<ScopeId>,
        first_news: Set<ScopeId>,
        second_olds: Set<ScopeId>,
        second_news: Set<ScopeId>,
    )
        requires
            self.reconciles(middle, first_olds, first_news),
            middle.reconciles(later, second_olds, second_news),
        ensures
            self.reconciles(later, first_olds.union(second_olds), first_news.union(second_news)),
    {
        let olds = first_olds.union(second_olds);
        let news = first_news.union(second_news);
        self.lemma_extends_twice(middle, later);
        assert forall|i: int| self.create.len() <= i < later.create.len() implies {
            &&& (#[trigger] later.create[i]).scope == self.scopes + (i - self.create.len())
            &&& later.create[i].task matches ComponentTask::Create(task)
            &&& task.scope.id == later.create[i].scope
        } by {
            if i < middle.create.len() {
                assert(later.create[i] == middle.create[i]);
            }
        }
        assert forall|i: int| self.destroy.len() <= i < later.destroy.len() implies (
        #[trigger] later.destroy[i]).task is Destroy && olds.contains(later.destroy[i].scope) by {
            if i < middle.destroy.len() {
                assert(later.destroy[i] == middle.destroy[i]);
            }
        }
        assert forall|i: int| self.update.len() <= i < later.update.len() implies match (
        #[trigger] later.update[i]).task {
            ComponentTask::Update(UpdateTask::First) => self.scopes <= later.update[i].scope
                < later.scopes && news.contains(later.update[i].scope),
            ComponentTask::Update(UpdateTask::Properties(_, _)) => olds.contains(
                later.update[i].scope,
            ) && news.contains(later.update[i].scope),
            _ => false,
        } by {
            if i < middle.update.len() {
                assert(later.update[i] == middle.update[i]);
            }
        }
        assert forall|scope: ScopeId| #[trigger] olds.contains(scope) implies news.contains(scope)
            || self.destroys_since(later, scope) by {
            if !news.contains(scope) {
                if first_olds.contains(scope) {
                    assert(self.destroys_since(middle, scope));
                    let i = choose|i: int|
                        self.destroy.len() <= i < middle.destroy.len() && (
                        #[trigger] middle.destroy[i]).scope == scope && middle.destroy[i].task is Destroy;
                    assert(later.destroy[i] == middle.destroy[i]);
                } else {
                    assert(middle.destroys_since(later, scope));
                    let i = choose|i: int|
                        middle.destroy.len() <= i < later.destroy.len() && (
                        #[trigger] later.destroy[i]).scope == scope && later.destroy[i].task is Destroy;
                    assert(later.destroy[i].scope == scope);
                }
            }
        }
        assert forall|scope: ScopeId| #[trigger] news.contains(scope) implies (self.scopes <= scope
            < later.scopes && self.starts_since(later, scope)) || (olds.contains(scope)
            && self.hands_since(later, scope)) by {
            if first_news.contains(scope) {
                if self.scopes <= scope < middle.scopes && self.starts_since(middle, scope) {
                    let i = choose|i: int|
                        self.update.len() <= i < middle.update.len() && (
                        #[trigger] middle.update[i]).scope == scope && middle.update[i].task
                            == ComponentTask::<C>::Update(UpdateTask::First);
                    assert(later.update[i] == middle.update[i]);
                } else {
                    let i = choose|i: int|
                        self.update.len() <= i < middle.update.len() && (
                        #[trigger] middle.update[i]).scope == scope && (
                        middle.update[i].task matches ComponentTask::Update(
                            UpdateTask::Properties(_, _),
                        ));
                    assert(later.update[i] == middle.update[i]);
                }
            } else {
                if middle.scopes <= scope < later.scopes && middle.starts_since(later, scope) {
                    let i = choose|i: int|
                        middle.update.len() <= i < later.update.len() && (
                        #[trigger] later.update[i]).scope == scope && later.update[i].task
                            == ComponentTask::<C>::Update(UpdateTask::First);
                    assert(later.update[i].scope == scope);
                } else {
                    let i = choose|i: int|
                        middle.update.len() <= i < later.update.len() && (
                        #[trigger] later.update[i]).scope == scope && (
                        later.update[i].task matches ComponentTask::Update(
                            UpdateTask::Properties(_, _),
                        ));
                    assert(later.update[i].scope == scope);
                }
            }
        }
    }

    /// Telling components to end reconciles them with nothing.
    pub proof fn lemma_reconciles_destroys(self, scopes: Seq<ScopeId>)
        ensures
            self.reconciles(
                self.pushed_all(Self::destroys(scopes)),
                scopes.to_set(),
                Set::empty(),
            ),
        decreases scopes.len(),
    {
        if scopes.len() == 0 {
            assert(scopes.to_set() =~= Set::empty());
            assert(self.pushed_all(Self::destroys(scopes)) == self);
        } else {
            let front = scopes.drop_last();
            self.lemma_reconciles_destroys(front);
            assert(Self::destroys(scopes).drop_last() =~= Self::destroys(front));
            let middle = self.pushed_all(Self::destroys(front));
            let later = self.pushed_all(Self::destroys(scopes));
            assert(later == middle.pushed(Self::destroys(scopes).last()));
            assert(later.destroy == middle.destroy.push(Self::destroys(scopes).last()));
            assert(middle.reconciles(later, set![scopes.last()], Set::empty())) by {
                assert(later.destroy[middle.destroy.len() as int].scope == scopes.last());
                assert(middle.destroys_since(later, scopes.last()));
            }
            self.lemma_reconciles_twice(
                middle,
                later,
                front.to_set(),
                Set::empty(),
                set![scopes.last()],
                Set::empty(),
            );
            assert(front.to_set().union(set![scopes.last()]) =~= scopes.to_set()) by {
                assert forall|scope: ScopeId| scopes.to_set().contains(scope) implies front.to_set().union(
                    set![scopes.last()],
                ).contains(scope) by {
                    let i = choose|i: int| 0 <= i < scopes.len() && scopes[i] == scope;
                    if i < front.len() {
                        assert(front[i] == scope);
                    }
                }
                assert forall|scope: ScopeId| front.to_set().contains(scope) implies scopes.to_set().contains(scope) by {
                    let i = choose|i: int| 0 <= i < front.len() && front[i] == scope;
                    assert(scopes[i] == scope);
                }
                assert(scopes[scopes.len() - 1] == scopes.last());
            }
            assert(Set::<ScopeId>::empty().union(Set::empty()) =~= Set::empty());
        }
    }

    /// Handing new properties to a component reconciles it with itself.
    pub proof fn lemma_reconciles_kept(
        self,
        scope: ScopeId,
        props: Rc<C::Properties>,
        next_sibling: Option<SurfaceHandle>,
    )
        ensures
            self.reconciles(
                self.pushed(
                    ComponentRunnable {
                        scope,
                        task: ComponentTask::Update(UpdateTask::Properties(props, next_sibling)),
                    },
                ),
                set![scope],
                set![scope],
            ),
    {
        let later = self.pushed(
            ComponentRunnable {
                scope,
                task: ComponentTask::Update(UpdateTask::Properties(props, next_sibling)),
            },
        );
        assert(later.update[self.update.len() as int].scope == scope);
        assert(self.hands_since(later, scope));
    }

    /// The scheduler after the scope that is next was given out.
    pub open spec fn with_scope(self) -> SchedulerView<C> {
        SchedulerView { scopes: self.scopes + 1, ..self }
    }

    /// Creating a component at the scope that is next, and submitting its
    /// first update, reconciles nothing with the new component.
    pub proof fn lemma_reconciles_mounted(self, create: CreateTask<C>)
        requires
            create.scope.id == self.scopes,
        ensures
            self.reconciles(
                self.with_scope().pushed(
                    ComponentRunnable {
                        scope: create.scope.id,
                        task: ComponentTask::Create(create),
                    },
                ).pushed(
                    ComponentRunnable {
                        scope: create.scope.id,
                        task: ComponentTask::Update(UpdateTask::First),
                    },
                ),
                Set::empty(),
                set![create.scope.id],
            ),
    {
        let later = self.with_scope().pushed(
            ComponentRunnable { scope: create.scope.id, task: ComponentTask::Create(create) },
        ).pushed(
            ComponentRunnable {
                scope: create.scope.id,
                task: ComponentTask::Update(UpdateTask::First),
            },
        );
        assert(later.update[self.update.len() as int].scope == create.scope.id);
        assert(self.starts_since(later, create.scope.id));
    }

    /// The number of tasks that wait.
    pub open spec fn pending(self) -> nat {
        self.destroy.len() + self.create.len() + self.update.len() + self.render.len()
            + self.rendered.len()
    }

    /// The task that runs next: the oldest one to destroy, else to create, else to
    /// update, else to render, else the youngest one that reports a render.
    pub open spec fn next(self) -> Option<ComponentRunnable<C>> {
        if self.destroy.len() > 0 {
            Some(self.destroy[0])
        } else if self.create.len() > 0 {
            Some(self.create[0])
        } else if self.update.len() > 0 {
            Some(self.update[0])
        } else if self.render.len() > 0 {
            Some(self.render[0])
        } else if self.rendered.len() > 0 {
            Some(self.rendered.last())
        } else {
            None
        }
    }

    /// The scheduler after the task that runs next was taken out.
    pub open spec fn popped(self) -> SchedulerView<C> {
        if self.destroy.len() > 0 {
            SchedulerView { destroy: self.destroy.drop_first(), ..self }
        } else if self.create.len() > 0 {
            SchedulerView { create: self.create.drop_first(), ..self }
        } else if self.update.len() > 0 {
            SchedulerView { update: self.update.drop_first(), ..self }
        } else if self.render.len() > 0 {
            SchedulerView { render: self.render.drop_first(), ..self }
        } else if self.rendered.len() > 0 {
            SchedulerView { rendered: self.rendered.drop_last(), ..self }
        } else {
            self
        }
    }
}

/// The queues of tasks, one for each category, and the scopes given out so far.
pub struct Scheduler<C: Component> {
    locked: bool,
    scopes: usize,
    destroy: VecDeque<ComponentRunnable<C>>,
    create: VecDeque<ComponentRunnable<C>>,
    update: VecDeque<ComponentRunnable<C>>,
    render: VecDeque<ComponentRunnable<C>>,
    rendered: Vec<ComponentRunnable<C>>,
}

/// The proof that a caller holds the scheduler, to be handed back with
/// [`Scheduler::unlock`].
pub struct SchedulerLock {
    /// Whether this lock is the one that holds the scheduler: a lock taken while
    /// another one holds it is empty, and handing it back changes nothing.
    pub acquired: bool,
}

impl<C: Component> View for Scheduler<C> {
    type V = SchedulerView<C>;

    closed spec fn view(&self) -> SchedulerView<C> {
        SchedulerView {
            locked: self.locked,
            scopes: self.scopes as nat,
            destroy: self.destroy@,
            create: self.create@,
            update: self.update@,
            render: self.render@,
            rendered: self.rendered@,
        }
    }
}

impl<C: Component> Scheduler<C> {
    /// A scheduler with nothing to do.
    pub fn new() -> (scheduler: Scheduler<C>)
        ensures
            !scheduler@.locked,
            scheduler@.scopes == 0,
            scheduler@.pending() == 0,
    {
        Scheduler {
            locked: false,
            scopes: 0,
            destroy: VecDeque::new(),
            create: VecDeque::new(),
            update: VecDeque::new(),
            render: VecDeque::new(),
            rendered: Vec::new(),
        }
    }

    /// Whether the scheduler is held.
    pub fn is_locked(&self) -> (locked: bool)
        ensures
            locked == self@.locked,
    {
        self.locked
    }

    /// Whether no task waits.
    pub fn is_idle(&self) -> (idle: bool)
        ensures
            idle == (self@.pending() == 0),
    {
        self.destroy.len() == 0 && self.create.len() == 0 && self.update.len() == 0
            && self.render.len() == 0 && self.rendered.len() == 0
    }

    /// The number of scopes given out.
    pub fn scopes(&self) -> (scopes: usize)
        ensures
            scopes == self@.scopes,
    {
        self.scopes
    }

    /// Holds the scheduler, so that no task starts until the lock is handed back.
    pub fn lock(&mut self) -> (lock: SchedulerLock)
        ensures
            lock.acquired == !old(self)@.locked,
            final(self)@ == (SchedulerView { locked: true, ..old(self)@ }),
    {
        let acquired = !self.locked;
        self.locked = true;
        SchedulerLock { acquired }
    }

    /// Hands a lock back. The scheduler is free again if the lock was the one that held it.
    pub fn unlock(&mut self, lock: SchedulerLock)
        ensures
            final(self)@ == (SchedulerView {
                locked: old(self)@.locked && !lock.acquired,
                ..old(self)@
            }),
    {
        if lock.acquired {
            self.locked = false;
        }
    }

    /// Gives out the next scope, or none when all have been given out.
    pub fn new_scope(&mut self) -> (id: Option<ScopeId>)
        ensures
            match id {
                Some(id) => id == old(self)@.scopes && old(self)@.scopes < usize::MAX && final(self)@ == (SchedulerView {
                    scopes: old(self)@.scopes + 1,
                    ..old(self)@
                }),
                None => old(self)@.scopes == usize::MAX && final(self)@ == old(self)@,
            },
    {
        if self.scopes < usize::MAX {
            let id = self.scopes;
            self.scopes = self.scopes + 1;
            Some(id)
        } else {
            None
        }
    }

    /// Submits a task. It waits behind the tasks of its category that were submitted before it.
    pub fn push(&mut self, runnable: ComponentRunnable<C>)
        ensures
            final(self)@ == old(self)@.pushed(runnable),
    {
        match runnable.task.run_type() {
            ComponentRunnableType::Destroy => self.destroy.push_back(runnable),
            ComponentRunnableType::Create => self.create.push_back(runnable),
            ComponentRunnableType::Update => self.update.push_back(runnable),
            ComponentRunnableType::Render => self.render.push_back(runnable),
            ComponentRunnableType::Rendered => self.rendered.push(runnable),
        }
    }

    /// Submits a batch of tasks as one, so that they wait in the order of the
    /// batch and nothing submitted later comes between them.
    pub fn push_batch(&mut self, batch: Vec<ComponentRunnable<C>>)
        ensures
            final(self)@ == old(self)@.pushed_all(batch@),
    {
        let mut batch = batch;
        let ghost all = batch@;
        let mut rest: Vec<ComponentRunnable<C>> = Vec::new();
        // The batch is turned round so that its first task can be taken out first.
        while batch.len() > 0
            invariant
                rest@.len() + batch@.len() == all.len(),
                forall|i: int| 0 <= i < batch@.len() ==> batch@[i] == all[i],
                forall|i: int| 0 <= i < rest@.len() ==> rest@[i] == all[all.len() - 1 - i],
            decreases batch@.len(),
        {
            let last = batch.pop().unwrap();
            rest.push(last);
        }
        let ghost mut done: int = 0;
        while rest.len() > 0
            invariant
                0 <= done <= all.len(),
                rest@.len() + done == all.len(),
                forall|i: int| 0 <= i < rest@.len() ==> rest@[i] == all[all.len() - 1 - i],
                self@ == old(self)@.pushed_all(all.subrange(0, done)),
            decreases rest@.len(),
        {
            let runnable = rest.pop().unwrap();
            assert(runnable == all[done]);
            self.push(runnable);
            proof {
                assert(all.subrange(0, done + 1).drop_last() =~= all.subrange(0, done));
                assert(all.subrange(0, done + 1).last() == all[done]);
                done = done + 1;
            }
        }
        assert(all.subrange(0, done) =~= all);
    }

    /// Takes out the task that runs next, if one waits.
    pub fn next_runnable(&mut self) -> (next: Option<ComponentRunnable<C>>)
        ensures
            next == old(self)@.next(),
            final(self)@ == old(self)@.popped(),
    {
        if self.destroy.len() > 0 {
            self.destroy.pop_front()
        } else if self.create.len() > 0 {
            self.create.pop_front()
        } else if self.update.len() > 0 {
            self.update.pop_front()
        } else if self.render.len() > 0 {
            self.render.pop_front()
        } else {
            self.rendered.pop()
        }
    }
}

} // verus!
