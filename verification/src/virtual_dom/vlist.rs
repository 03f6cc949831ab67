//! The virtual fragment.

use crate::component::Component;
use crate::html::scope::{AnyScope, ScopeId};
use crate::scheduler::{Scheduler, SchedulerView};
use crate::surface::{anchored, spliced, Surface, SurfaceHandle, SurfaceView};
use crate::virtual_dom::vnode::{
    already_shown, ancestor_detached, ancestor_flat, ancestor_nodes, ancestor_scopes, anchor,
    arranged, detached,
    drawn_from, followed, head, kept, listed, placed, reconcilable, reconciled, removed_from,
    Description, VNode,
};
use crate::virtual_dom::vtext::VText;
use std::rc::Rc;
use vstd::prelude::*;

verus! {

/// A fragment: a list of nodes that stand in the surface one after the other,
/// with no node of its own.
pub struct VList<C: Component> {
    /// Whether the fragment is all that its parent holds. A fragment with siblings
    /// must not be empty in the surface, or the nodes after it lose their place: it
    /// shows an empty text node when it has no children.
    pub no_siblings: bool,
    /// The children, each of which may have children of its own.
    pub children: Vec<VNode<C>>,
}

impl<C: Component> VList<C> {
    /// The surface nodes that the nodes of `children` from `from` up to `to` refer to.
    pub open spec fn nodes_between(children: Seq<VNode<C>>, from: int, to: int) -> Set<
        SurfaceHandle,
    > {
        Set::new(
            |h: SurfaceHandle|
                exists|i: int|
                    0 <= from <= i < to && i < children.len() && (#[trigger] children[i]).nodes().contains(
                        h,
                    ),
        )
    }

    /// The surface nodes that the node of `children` at `at` refers to; none
    /// where there is no such node.
    pub open spec fn nodes_at(children: Seq<VNode<C>>, at: int) -> Set<SurfaceHandle> {
        if 0 <= at < children.len() {
            children[at].nodes()
        } else {
            Set::empty()
        }
    }

    /// The surface nodes that the nodes of the fragment refer to.
    pub open spec fn nodes(&self) -> Set<SurfaceHandle>
        decreases self,
    {
        Set::new(
            |h: SurfaceHandle|
                exists|i: int|
                    0 <= i < self.children@.len() && (#[trigger] self.children@[i]).nodes().contains(
                        h,
                    ),
        )
    }

    /// Whether no surface node is referred to twice in `children`.
    pub open spec fn all_distinct(children: Seq<VNode<C>>) -> bool {
        &&& forall|i: int| 0 <= i < children.len() ==> (#[trigger] children[i]).distinct()
        &&& forall|i: int, j: int|
            0 <= i < children.len() && 0 <= j < children.len() && i != j ==> (
            #[trigger] children[i]).nodes().disjoint((#[trigger] children[j]).nodes())
    }

    /// Whether no surface node is referred to twice in the fragment.
    pub open spec fn distinct(&self) -> bool
        decreases self,
    {
        &&& forall|i: int|
            0 <= i < self.children@.len() ==> (#[trigger] self.children@[i]).distinct()
        &&& forall|i: int, j: int|
            0 <= i < self.children@.len() && 0 <= j < self.children@.len() && i != j ==> (
            #[trigger] self.children@[i]).nodes().disjoint((#[trigger] self.children@[j]).nodes())
    }

    /// Whether no node of the fragment is a reference to an outside surface node.
    pub open spec fn ref_free(&self) -> bool
        decreases self,
    {
        forall|i: int| 0 <= i < self.children@.len() ==> (#[trigger] self.children@[i]).ref_free()
    }

    /// The surface nodes that the children stand for among the children of their parent.
    pub open spec fn top_nodes(&self) -> Set<SurfaceHandle>
        decreases self,
    {
        Set::new(
            |h: SurfaceHandle|
                exists|i: int|
                    0 <= i < self.children@.len() && (
                    #[trigger] self.children@[i]).top_nodes().contains(h),
        )
    }

    /// The surface nodes that the nodes of `children` from `from` up to `to`
    /// stand for among the children of their parent, in the order in which they stand.
    pub open spec fn flat_between(children: Seq<VNode<C>>, from: int, to: int) -> Seq<
        SurfaceHandle,
    >
        decreases children, to - from,
    {
        if 0 <= from < to <= children.len() {
            Self::flat_between(children, from, to - 1) + children[to - 1].flat()
        } else {
            Seq::empty()
        }
    }

    /// The surface nodes that the children stand for among the children of
    /// their parent, in the order in which they stand.
    pub open spec fn flat(&self) -> Seq<SurfaceHandle>
        decreases self,
    {
        Self::flat_between(self.children@, 0, self.children@.len() as int)
    }

    /// Whether the surface holds below each element of the fragment exactly the
    /// nodes that the children of the element stand for, in their order.
    pub open spec fn laid_out(&self, surface: SurfaceView) -> bool
        decreases self,
    {
        forall|i: int|
            0 <= i < self.children@.len() ==> (#[trigger] self.children@[i]).laid_out(surface)
    }

    /// What the children from `from` up to `to` stand for is what the child at
    /// `from` stands for, followed by what those behind it stand for.
    pub proof fn lemma_flat_front(children: Seq<VNode<C>>, from: int, to: int)
        requires
            0 <= from < to <= children.len(),
        ensures
            Self::flat_between(children, from, to) == children[from].flat() + Self::flat_between(
                children,
                from + 1,
                to,
            ),
        decreases to - from,
    {
        if from + 1 == to {
            assert(Self::flat_between(children, from, to - 1) =~= Seq::empty());
            assert(Self::flat_between(children, from + 1, to) =~= Seq::empty());
            assert(Seq::<SurfaceHandle>::empty() + children[from].flat() =~= children[from].flat()
                + Seq::<SurfaceHandle>::empty());
        } else {
            Self::lemma_flat_front(children, from, to - 1);
            assert(children[from].flat() + Self::flat_between(children, from + 1, to - 1)
                + children[to - 1].flat() =~= children[from].flat() + (Self::flat_between(
                children,
                from + 1,
                to - 1,
            ) + children[to - 1].flat()));
        }
    }

    /// What children stand for depends on those children alone.
    pub proof fn lemma_flat_same(
        children: Seq<VNode<C>>,
        others: Seq<VNode<C>>,
        from: int,
        to: int,
    )
        requires
            children.len() == others.len(),
            forall|k: int| from <= k < to ==> children[k] == others[k],
        ensures
            Self::flat_between(children, from, to) == Self::flat_between(others, from, to),
        decreases to - from,
    {
        if 0 <= from < to <= children.len() {
            Self::lemma_flat_same(children, others, from, to - 1);
        }
    }

    /// The slots of the components mounted by the nodes of `children` from
    /// `from` up to `to` and the nodes below them, in the order in which the nodes stand.
    pub open spec fn scopes_between(children: Seq<VNode<C>>, from: int, to: int) -> Seq<ScopeId>
        decreases children, to - from,
    {
        if 0 <= from < to <= children.len() {
            Self::scopes_between(children, from, to - 1) + children[to - 1].scopes()
        } else {
            Seq::empty()
        }
    }

    /// The slots of the components mounted in the fragment, in the order in
    /// which the nodes stand.
    pub open spec fn scopes(&self) -> Seq<ScopeId>
        decreases self,
    {
        Self::scopes_between(self.children@, 0, self.children@.len() as int)
    }

    /// The slots of the components mounted by the nodes of `children` from
    /// `from` up to `to` and the nodes below them.
    pub open spec fn scopes_in(children: Seq<VNode<C>>, from: int, to: int) -> Set<ScopeId> {
        Set::new(
            |scope: ScopeId|
                exists|k: int|
                    from <= k < to && 0 <= k < children.len() && (
                    #[trigger] children[k]).scopes().contains(scope),
        )
    }

    /// The slots of a run of nodes are those of each of its nodes.
    pub proof fn lemma_scopes_in(children: Seq<VNode<C>>, from: int, to: int)
        requires
            0 <= from <= to <= children.len(),
        ensures
            Self::scopes_between(children, from, to).to_set() == Self::scopes_in(children, from, to),
        decreases to - from,
    {
        let all = Self::scopes_between(children, from, to);
        if from < to {
            Self::lemma_scopes_in(children, from, to - 1);
            let front = Self::scopes_between(children, from, to - 1);
            let last = children[to - 1].scopes();
            assert(all == front + last);
            assert forall|scope: ScopeId| all.to_set().contains(scope) implies Self::scopes_in(
                children,
                from,
                to,
            ).contains(scope) by {
                let at = choose|at: int| 0 <= at < all.len() && all[at] == scope;
                if at < front.len() {
                    assert(front[at] == scope);
                    assert(front.to_set().contains(scope));
                    assert(Self::scopes_in(children, from, to - 1).contains(scope));
                } else {
                    assert(last[at - front.len()] == scope);
                    assert(children[to - 1].scopes().contains(scope));
                }
            }
            assert forall|scope: ScopeId| Self::scopes_in(children, from, to).contains(
                scope,
            ) implies all.to_set().contains(scope) by {
                let k = choose|k: int|
                    from <= k < to && 0 <= k < children.len() && (
                    #[trigger] children[k]).scopes().contains(scope);
                if k < to - 1 {
                    assert(Self::scopes_in(children, from, to - 1).contains(scope));
                    assert(front.to_set().contains(scope));
                    let at = choose|at: int| 0 <= at < front.len() && front[at] == scope;
                    assert(all[at] == scope);
                } else {
                    let at = choose|at: int| 0 <= at < last.len() && last[at] == scope;
                    assert(all[front.len() + at] == scope);
                }
            }
            assert(all.to_set() =~= Self::scopes_in(children, from, to));
        } else {
            assert(all.to_set() =~= Self::scopes_in(children, from, to));
        }
    }

    /// Components that were told to end, and then those of the node in front
    /// of them, were all told to end.
    proof fn lemma_destroyed_step(
        waiting: SchedulerView<C>,
        queued: SchedulerView<C>,
        submitted: SchedulerView<C>,
        ancestors: Seq<VNode<C>>,
        count: int,
    )
        requires
            0 < count <= ancestors.len(),
            waiting.reconciles(
                queued,
                Self::scopes_in(ancestors, count, ancestors.len() as int),
                Set::empty(),
            ),
            submitted == queued.pushed_all(
                SchedulerView::<C>::destroys(ancestors[count - 1].scopes()),
            ),
        ensures
            waiting.reconciles(
                submitted,
                Self::scopes_in(ancestors, count - 1, ancestors.len() as int),
                Set::empty(),
            ),
    {
        let olds = Self::scopes_in(ancestors, count, ancestors.len() as int);
        let gone = ancestors[count - 1].scopes().to_set();
        queued.lemma_reconciles_destroys(ancestors[count - 1].scopes());
        waiting.lemma_reconciles_twice(queued, submitted, olds, Set::empty(), gone, Set::empty());
        assert(Set::<ScopeId>::empty().union(Set::empty()) =~= Set::empty());
        assert(olds.union(gone) =~= Self::scopes_in(ancestors, count - 1, ancestors.len() as int)) by {
            assert forall|scope: ScopeId|
                Self::scopes_in(ancestors, count - 1, ancestors.len() as int).contains(
                    scope,
                ) implies olds.union(gone).contains(scope) by {
                let k = choose|k: int|
                    count - 1 <= k < ancestors.len() && 0 <= k < ancestors.len() && (
                    #[trigger] ancestors[k]).scopes().contains(scope);
                if k >= count {
                    assert(olds.contains(scope));
                }
            }
            assert forall|scope: ScopeId| olds.union(gone).contains(scope) implies Self::scopes_in(
                ancestors,
                count - 1,
                ancestors.len() as int,
            ).contains(scope) by {
                if olds.contains(scope) {
                    let k = choose|k: int|
                        count <= k < ancestors.len() && 0 <= k < ancestors.len() && (
                        #[trigger] ancestors[k]).scopes().contains(scope);
                    assert(ancestors[k].scopes().contains(scope));
                } else {
                    assert(ancestors[count - 1].scopes().contains(scope));
                }
            }
        }
    }

    /// What was reconciled of a run of nodes, and then of the node in front of
    /// it, was reconciled of the longer run.
    proof fn lemma_reconciles_step(
        waiting: SchedulerView<C>,
        queued: SchedulerView<C>,
        submitted: SchedulerView<C>,
        ancestors: Seq<VNode<C>>,
        remaining: int,
        left: int,
        right: Option<VNode<C>>,
        children: Seq<VNode<C>>,
        previous: Seq<VNode<C>>,
        i: int,
    )
        requires
            0 <= i < children.len(),
            previous.len() == children.len(),
            forall|k: int| i < k < children.len() ==> children[k] == previous[k],
            0 <= left <= remaining <= ancestors.len(),
            (right.is_none() && left == remaining) || (right == Some(ancestors[left]) && remaining
                == left + 1),
            waiting.reconciles(
                queued,
                Self::scopes_in(ancestors, remaining, ancestors.len() as int),
                Self::scopes_in(previous, i + 1, children.len() as int),
            ),
            queued.reconciles(
                submitted,
                ancestor_scopes(right).to_set(),
                children[i].scopes().to_set(),
            ),
        ensures
            waiting.reconciles(
                submitted,
                Self::scopes_in(ancestors, left, ancestors.len() as int),
                Self::scopes_in(children, i, children.len() as int),
            ),
    {
        let n = children.len() as int;
        let olds = Self::scopes_in(ancestors, remaining, ancestors.len() as int);
        let news = Self::scopes_in(previous, i + 1, n);
        waiting.lemma_reconciles_twice(
            queued,
            submitted,
            olds,
            news,
            ancestor_scopes(right).to_set(),
            children[i].scopes().to_set(),
        );
        assert(olds.union(ancestor_scopes(right).to_set()) =~= Self::scopes_in(
            ancestors,
            left,
            ancestors.len() as int,
        )) by {
            assert forall|scope: ScopeId|
                Self::scopes_in(ancestors, left, ancestors.len() as int).contains(
                    scope,
                ) implies olds.union(ancestor_scopes(right).to_set()).contains(scope) by {
                let k = choose|k: int|
                    left <= k < ancestors.len() && 0 <= k < ancestors.len() && (
                    #[trigger] ancestors[k]).scopes().contains(scope);
                if k >= remaining {
                    assert(olds.contains(scope));
                }
            }
            assert forall|scope: ScopeId|
                olds.union(ancestor_scopes(right).to_set()).contains(
                    scope,
                ) implies Self::scopes_in(ancestors, left, ancestors.len() as int).contains(scope) by {
                if olds.contains(scope) {
                    let k = choose|k: int|
                        remaining <= k < ancestors.len() && 0 <= k < ancestors.len() && (
                        #[trigger] ancestors[k]).scopes().contains(scope);
                    assert(ancestors[k].scopes().contains(scope));
                } else {
                    assert(ancestors[left].scopes().contains(scope));
                }
            }
        }
        assert(news.union(children[i].scopes().to_set()) =~= Self::scopes_in(children, i, n)) by {
            assert forall|scope: ScopeId|
                Self::scopes_in(children, i, n).contains(scope) implies news.union(
                children[i].scopes().to_set(),
            ).contains(scope) by {
                let k = choose|k: int|
                    i <= k < n && 0 <= k < children.len() && (#[trigger] children[k]).scopes().contains(
                        scope,
                    );
                if k > i {
                    assert(previous[k].scopes().contains(scope));
                    assert(news.contains(scope));
                }
            }
            assert forall|scope: ScopeId|
                news.union(children[i].scopes().to_set()).contains(
                    scope,
                ) implies Self::scopes_in(children, i, n).contains(scope) by {
                if news.contains(scope) {
                    let k = choose|k: int|
                        i + 1 <= k < n && 0 <= k < previous.len() && (
                        #[trigger] previous[k]).scopes().contains(scope);
                    assert(children[k].scopes().contains(scope));
                } else {
                    assert(children[i].scopes().contains(scope));
                }
            }
        }
    }

    /// Whether the nodes of the fragment hold nothing that applying them leaves.
    pub open spec fn unapplied(&self) -> bool
        decreases self,
    {
        forall|i: int| 0 <= i < self.children@.len() ==> (#[trigger] self.children@[i]).unapplied()
    }

    /// Whether the fragment ends with a surface node of its own: its last
    /// child does.
    pub open spec fn ends(&self) -> bool
        decreases self,
    {
        self.children@.len() > 0 && self.children@[self.children@.len() - 1].ends()
    }

    /// Whether every component asked for in the fragment is mounted.
    pub open spec fn mounted(&self) -> bool
        decreases self,
    {
        forall|i: int| 0 <= i < self.children@.len() ==> (#[trigger] self.children@[i]).mounted()
    }

    /// Whether the surface shows every node of the fragment as a child of
    /// `parent`, and the fragment is not empty unless it may be.
    pub open spec fn rendered(&self, surface: SurfaceView, parent: SurfaceHandle) -> bool
        decreases self,
    {
        &&& forall|i: int|
            0 <= i < self.children@.len() ==> (#[trigger] self.children@[i]).rendered(
                surface,
                parent,
            )
        &&& self.children@.len() > 0 || self.no_siblings
    }

    /// The first surface node of the nodes of `children` from `from` on, if they have one.
    pub open spec fn first_node_from(children: Seq<VNode<C>>, from: int) -> Option<SurfaceHandle>
        decreases children, children.len() - from,
    {
        if 0 <= from < children.len() {
            match children[from].first_node() {
                Some(h) => Some(h),
                None => Self::first_node_from(children, from + 1),
            }
        } else {
            None
        }
    }

    /// The first surface node of the fragment, if it has one.
    pub open spec fn first_node(&self) -> Option<SurfaceHandle>
        decreases self,
    {
        Self::first_node_from(self.children@, 0)
    }

    /// What the children ask for. A fragment that has siblings and no children asks
    /// for an empty text node.
    pub open spec fn descriptions(&self) -> Seq<Description<C>>
        decreases self, 0nat,
    {
        if self.children@.len() == 0 && !self.no_siblings {
            seq![Description::Text { text: Seq::empty() }]
        } else {
            Seq::new(
                self.children@.len(),
                |i: int|
                    if 0 <= i < self.children@.len() {
                        self.children@[i].description()
                    } else {
                        Description::Ref { node: 0 }
                    },
            )
        }
    }

    /// What the fragment asks for.
    pub open spec fn description(&self) -> Description<C>
        decreases self, 1nat,
    {
        Description::List { children: self.descriptions() }
    }

    /// Whether `children` are the one empty text node that keeps the place of a
    /// fragment without children: the surface shows it as a child of `parent`, and
    /// `first` is its surface node.
    pub open spec fn holds_place(
        children: Seq<VNode<C>>,
        surface: SurfaceView,
        parent: SurfaceHandle,
        first: Option<SurfaceHandle>,
    ) -> bool {
        &&& children.len() == 1
        &&& children[0] matches VNode::VText(placeholder)
        &&& placeholder.text@ == Seq::<char>::empty()
        &&& placeholder.reference == first
        &&& first matches Some(h)
        &&& surface.is_text(h)
        &&& surface.node(h).text == Seq::<char>::empty()
        &&& surface.parent(h) == Some(parent)
    }

    /// Creates an empty fragment.
    pub fn new(no_siblings: bool) -> (vlist: VList<C>)
        ensures
            vlist.no_siblings == no_siblings,
            vlist.children@.len() == 0,
    {
        VList { no_siblings, children: Vec::new() }
    }

    /// Adds a child.
    pub fn add_child(&mut self, child: VNode<C>)
        ensures
            final(self).children@ == old(self).children@.push(child),
            final(self).no_siblings == old(self).no_siblings,
    {
        self.children.push(child);
    }

    /// Hands out the children.
    pub fn children(self) -> (children: Vec<VNode<C>>)
        ensures
            children == self.children,
    {
        self.children
    }

    /// A fragment that the surface shows is still shown after a change that left
    /// its surface nodes as they were.
    pub proof fn lemma_rendered_kept(&self, before: SurfaceView, after: SurfaceView, parent: SurfaceHandle)
        requires
            self.rendered(before, parent),
            forall|h: SurfaceHandle| #[trigger] self.nodes().contains(h) ==> before.shown_alike(after, h),
        ensures
            self.rendered(after, parent),
        decreases self,
    {
        assert forall|i: int| 0 <= i < self.children@.len() implies (
        #[trigger] self.children@[i]).rendered(after, parent) by {
            assert forall|h: SurfaceHandle|
                self.children@[i].nodes().contains(h) implies before.shown_alike(after, h) by {
                assert(self.nodes().contains(h));
            }
            self.children@[i].lemma_rendered_kept(before, after, parent);
        }
    }

    /// The first surface node of the children from `from` on is the first of
    /// those that they stand for, where the surface shows them.
    pub proof fn lemma_first_node(&self, surface: SurfaceView, parent: SurfaceHandle, from: int)
        requires
            self.rendered(surface, parent),
            0 <= from <= self.children@.len(),
        ensures
            Self::first_node_from(self.children@, from) == head(
                Self::flat_between(self.children@, from, self.children@.len() as int),
            ),
        decreases self, self.children@.len() - from,
    {
        if from < self.children@.len() {
            Self::lemma_flat_front(self.children@, from, self.children@.len() as int);
            self.children@[from].lemma_first_node(surface, parent);
            self.lemma_first_node(surface, parent, from + 1);
        }
    }

    /// A fragment whose elements hold their children in order still does after
    /// a change that left the children of its surface nodes as they were.
    pub proof fn lemma_laid_out_kept(&self, before: SurfaceView, after: SurfaceView)
        requires
            self.laid_out(before),
            forall|h: SurfaceHandle|
                #[trigger] self.nodes().contains(h) ==> after.children(h) == before.children(h),
        ensures
            self.laid_out(after),
        decreases self,
    {
        assert forall|i: int| 0 <= i < self.children@.len() implies (
        #[trigger] self.children@[i]).laid_out(after) by {
            assert forall|h: SurfaceHandle| #[trigger]
                self.children@[i].nodes().contains(h) implies after.children(h) == before.children(
                h,
            ) by {
                assert(self.nodes().contains(h));
            }
            self.children@[i].lemma_laid_out_kept(before, after);
        }
    }

    /// A fragment that the surface shows refers to nodes of the surface only.
    pub proof fn lemma_rendered_contained(&self, surface: SurfaceView, parent: SurfaceHandle)
        requires
            self.rendered(surface, parent),
        ensures
            forall|h: SurfaceHandle| #[trigger] self.nodes().contains(h) ==> surface.contains(h),
        decreases self,
    {
        assert forall|h: SurfaceHandle| self.nodes().contains(h) implies surface.contains(h) by {
            let i = choose|i: int|
                0 <= i < self.children@.len() && (#[trigger] self.children@[i]).nodes().contains(h);
            self.children@[i].lemma_rendered_contained(surface, parent);
        }
    }

    /// The nodes that the children stand for among the children of their parent
    /// are among the nodes that the fragment refers to.
    pub proof fn lemma_top_nodes(&self)
        ensures
            self.top_nodes().subset_of(self.nodes()),
        decreases self,
    {
        assert forall|h: SurfaceHandle| self.top_nodes().contains(h) implies self.nodes().contains(
            h,
        ) by {
            let i = choose|i: int|
                0 <= i < self.children@.len() && (#[trigger] self.children@[i]).top_nodes().contains(
                    h,
                );
            self.children@[i].lemma_top_nodes();
            assert(self.children@[i].nodes().contains(h));
        }
    }

    /// Takes every node of the fragment out of `parent`, and ends the components
    /// mounted below it. Returns the node that followed the last child.
    pub fn detach(
        &mut self,
        surface: &mut Surface,
        scheduler: &mut Scheduler<C>,
        parent: SurfaceHandle,
    ) -> (next: Option<SurfaceHandle>)
        requires
            old(surface).wf(),
        ensures
            detached(
                old(surface)@,
                final(surface)@,
                old(scheduler)@,
                final(scheduler)@,
                old(self).nodes(),
                old(self).top_nodes(),
                old(self).scopes(),
                old(self).rendered(old(surface)@, parent) && old(self).distinct(),
                parent,
            ),
            final(self).unapplied(),
            final(self).description() == old(self).description(),
            final(self).children@.len() == old(self).children@.len(),
            final(self).no_siblings == old(self).no_siblings,
            old(surface)@.contains(parent) && !old(self).nodes().contains(parent) ==> removed_from(
                old(surface)@,
                final(surface)@,
                parent,
                old(self).flat(),
            ),
            old(surface)@.contains(parent) && !old(self).nodes().contains(parent) && old(
                self,
            ).distinct() && old(self).ends() ==> followed(
                old(surface)@,
                parent,
                old(self).flat(),
                next,
            ),
        decreases *old(self),
    {
        let mut next: Option<SurfaceHandle> = None;
        let mut i: usize = 0;
        let n = self.children.len();
        let ghost shown = old(self).rendered(old(surface)@, parent) && old(self).distinct();
        let ghost start = surface@;
        proof {
            assert(Self::nodes_between(old(self).children@, 0, 0) =~= Set::empty());
            old(scheduler)@.lemma_destroys_one(0);
            if shown {
                old(self).lemma_rendered_contained(start, parent);
            }
        }
        while i < n
            invariant
                i == n && start.contains(parent) && !old(self).nodes().contains(parent) && old(
                    self,
                ).distinct() && old(self).ends() ==> followed(start, parent, old(self).flat(), next),
                i <= n,
                n == self.children@.len(),
                n == old(self).children@.len(),
                self.no_siblings == old(self).no_siblings,
                start == old(surface)@,
                start.wf(),
                shown == (old(self).rendered(start, parent) && old(self).distinct()),
                forall|k: int| i <= k < n ==> self.children@[k] == old(self).children@[k],
                forall|k: int|
                    0 <= k < n ==> (#[trigger] self.children@[k]).description() == old(self).children@[k].description(),
                forall|k: int| 0 <= k < i ==> (#[trigger] self.children@[k]).unapplied(),
                kept(start, surface@, Self::nodes_between(old(self).children@, 0, i as int), parent),
                surface@.nodes.len() == start.nodes.len(),
                scheduler@ == old(scheduler)@.pushed_all(
                    SchedulerView::<C>::destroys(
                        Self::scopes_between(old(self).children@, 0, i as int),
                    ),
                ),
                shown ==> forall|k: int, h: SurfaceHandle|
                    0 <= k < i && (#[trigger] old(self).children@[k].top_nodes().contains(h))
                        ==> surface@.parent(h).is_none(),
                shown ==> forall|h: SurfaceHandle|
                    #[trigger] old(self).nodes().contains(h) ==> start.contains(h),
                start.contains(parent) && !old(self).nodes().contains(parent) ==> forall|
                    front: Seq<SurfaceHandle>,
                    back: Seq<SurfaceHandle>,
                |
                    #[trigger] spliced(start.children(parent), front, old(self).flat(), back)
                        ==> surface@.children(parent) == front + Self::flat_between(
                        old(self).children@,
                        i as int,
                        n as int,
                    ) + back,
            decreases n - i,
        {
            let ghost before = surface@;
            let ghost waiting = scheduler@;
            proof {
                if shown {
                    let child = old(self).children@[i as int];
                    assert(child.rendered(start, parent));
                    assert forall|h: SurfaceHandle|
                        #[trigger] child.nodes().contains(h) implies start.shown_alike(before, h) by {
                        assert(old(self).nodes().contains(h));
                        assert(start.contains(h));
                        if Self::nodes_between(old(self).children@, 0, i as int).contains(h) {
                            let k = choose|k: int|
                                0 <= k < i && k < old(self).children@.len() && (
                                #[trigger] old(self).children@[k]).nodes().contains(h);
                            assert(old(self).children@[k].nodes().disjoint(child.nodes()));
                        }
                        // The frame of the change speaks of this node.
                        let _ = before.node(h);
                    }
                    child.lemma_rendered_kept(start, before, parent);
                }
            }
            let child = &mut self.children[i];
            next = child.detach(surface, scheduler, parent);
            proof {
                let touched = Self::nodes_between(old(self).children@, 0, i as int);
                let wider = Self::nodes_between(old(self).children@, 0, i as int + 1);
                let own = old(self).children@[i as int].nodes();
                assert(touched.subset_of(wider));
                assert forall|h: SurfaceHandle| own.contains(h) implies wider.contains(h) by {
                    assert(old(self).children@[i as int].nodes().contains(h));
                }
                start.lemma_evolves_twice(before, surface@);
                start.lemma_preserved_twice(before, surface@, touched, parent, own, parent, wider);
                old(scheduler)@.lemma_destroys_twice(
                    Self::scopes_between(old(self).children@, 0, i as int),
                    old(self).children@[i as int].scopes(),
                );
                if start.contains(parent) && !old(self).nodes().contains(parent) {
                    let child = old(self).children@[i as int];
                    assert(!child.nodes().contains(parent)) by {
                        if child.nodes().contains(parent) {
                            assert(old(self).nodes().contains(parent));
                        }
                    }
                    if i + 1 == n && old(self).distinct() && old(self).ends() {
                        assert(child.distinct());
                        assert(child.ends());
                        assert(before.contains(parent));
                        assert(followed(before, parent, child.flat(), next));
                        assert forall|front: Seq<SurfaceHandle>, back: Seq<SurfaceHandle>| #[trigger]
                            spliced(
                                start.children(parent),
                                front,
                                old(self).flat(),
                                back,
                            ) implies anchored(next, back) by {
                            let rest = Self::flat_between(
                                old(self).children@,
                                i as int + 1,
                                n as int,
                            );
                            Self::lemma_flat_front(old(self).children@, i as int, n as int);
                            assert(child.flat() + rest =~= child.flat());
                            assert(spliced(before.children(parent), front, child.flat(), back));
                        }
                    }
                    assert forall|front: Seq<SurfaceHandle>, back: Seq<SurfaceHandle>| #[trigger]
                        spliced(
                            start.children(parent),
                            front,
                            old(self).flat(),
                            back,
                        ) implies surface@.children(parent) == front + Self::flat_between(
                        old(self).children@,
                        i as int + 1,
                        n as int,
                    ) + back by {
                        let rest = Self::flat_between(old(self).children@, i as int + 1, n as int);
                        Self::lemma_flat_front(old(self).children@, i as int, n as int);
                        assert(front + (child.flat() + rest) + back =~= front + child.flat() + (rest
                            + back));
                        assert(spliced(before.children(parent), front, child.flat(), rest + back));
                        assert(front + (rest + back) =~= front + rest + back);
                    }
                }
                if shown {
                    assert forall|k: int, h: SurfaceHandle|
                        0 <= k < i + 1 && (#[trigger] old(self).children@[k].top_nodes().contains(
                            h,
                        )) implies surface@.parent(h).is_none() by {
                        if k < i {
                            assert(before.parent(h).is_none());
                            old(self).children@[k].lemma_top_nodes();
                            assert(old(self).children@[k].nodes().contains(h));
                            assert(old(self).nodes().contains(h));
                            assert(before.contains(h));
                            assert(old(self).children@[k].nodes().disjoint(own));
                            assert(!own.contains(h));
                            // The frame of the change speaks of this node.
                            let _ = surface@.node(h);
                        }
                    }
                }
            }
            i += 1;
        }
        proof {
            assert(Self::nodes_between(old(self).children@, 0, n as int) =~= old(self).nodes());
            old(scheduler)@.lemma_destroys_extend(old(self).scopes());
            assert(self.descriptions() =~= old(self).descriptions());
            assert forall|front: Seq<SurfaceHandle>, back: Seq<SurfaceHandle>|
                front + Self::flat_between(old(self).children@, n as int, n as int) + back == front
                    + back by {
                assert(front + Seq::<SurfaceHandle>::empty() + back =~= front + back);
            }
            if shown {
                assert forall|h: SurfaceHandle| old(self).top_nodes().contains(h) implies (
                #[trigger] surface@.parent(h)).is_none() by {
                    let k = choose|k: int|
                        0 <= k < old(self).children@.len() && (
                        #[trigger] old(self).children@[k]).top_nodes().contains(h);
                    assert(old(self).children@[k].top_nodes().contains(h));
                }
            }
        }
        next
    }

    /// The nodes that an ancestor holds for the places of a fragment: the children
    /// of a fragment, or the one node that is no fragment.
    pub open spec fn ancestors_of(ancestor: Option<VNode<C>>) -> Seq<VNode<C>> {
        match ancestor {
            Some(VNode::VList(list)) => list.children@,
            Some(other) => seq![other],
            None => Seq::empty(),
        }
    }

    /// The ancestor at the place `at`, if there is one.
    pub open spec fn ancestor_at(ancestors: Seq<VNode<C>>, at: int) -> Option<VNode<C>> {
        if 0 <= at < ancestors.len() {
            Some(ancestors[at])
        } else {
            None
        }
    }

    /// What detaching the ancestors from the place `keep` on achieves: the
    /// surface keeps all that they do not refer to, but for the children of
    /// `parent`; their components are told to end; and where they stood among the
    /// children of `parent`, the ancestors in front of them are left.
    pub open spec fn surplus_detached(
        ancestors: Seq<VNode<C>>,
        keep: int,
        before: SurfaceView,
        after: SurfaceView,
        waiting: SchedulerView<C>,
        submitted: SchedulerView<C>,
        parent: SurfaceHandle,
    ) -> bool {
        let left = if ancestors.len() > keep {
            keep
        } else {
            ancestors.len() as int
        };
        &&& kept(before, after, Self::nodes_between(ancestors, keep, ancestors.len() as int), parent)
        &&& after.nodes.len() == before.nodes.len()
        &&& waiting.reconciles(
            submitted,
            Self::scopes_in(ancestors, left, ancestors.len() as int),
            Set::empty(),
        )
        &&& ancestors.len() <= keep ==> after == before && submitted == waiting
        &&& before.contains(parent) && !Self::nodes_between(
            ancestors,
            0,
            ancestors.len() as int,
        ).contains(parent) ==> forall|front: Seq<SurfaceHandle>, back: Seq<SurfaceHandle>|
            #[trigger] spliced(
                before.children(parent),
                front,
                Self::flat_between(ancestors, 0, ancestors.len() as int),
                back,
            ) ==> after.children(parent) == front + Self::flat_between(ancestors, 0, left) + back
    }

    /// Whether a fragment without children that has siblings got its empty
    /// text node: the ancestors from the second place on were detached, and then
    /// the text node of an ancestor in the first place that is a text was kept and
    /// emptied, or that ancestor was detached and an empty text node was created
    /// and inserted in front of `next_sibling`.
    pub open spec fn placeholder_applied(
        after: VList<C>,
        ancestors: Seq<VNode<C>>,
        surface: SurfaceView,
        shown: SurfaceView,
        waiting: SchedulerView<C>,
        submitted: SchedulerView<C>,
        parent: SurfaceHandle,
        next_sibling: Option<SurfaceHandle>,
        first: Option<SurfaceHandle>,
    ) -> bool {
        &&& after.children@.len() == 1
        &&& after.children@[0] matches VNode::VText(placeholder)
        &&& placeholder.text@ == Seq::<char>::empty()
        &&& placeholder.reference == first
        &&& exists|cleared: SurfaceView, emptied: SchedulerView<C>|
            {
                &&& #[trigger] Self::surplus_detached(
                    ancestors,
                    1,
                    surface,
                    cleared,
                    waiting,
                    emptied,
                    parent,
                )
                &&& match VText::reusable(Self::ancestor_at(ancestors, 0), cleared, parent) {
                    Some(h) => first == Some(h) && shown == cleared.with_text(h, Seq::empty())
                        && submitted == emptied,
                    None => first == Some(cleared.nodes.len() as SurfaceHandle) && exists|
                        gone: SurfaceView,
                    |
                        #[trigger] ancestor_detached(
                            Self::ancestor_at(ancestors, 0),
                            cleared,
                            gone,
                            emptied,
                            submitted,
                            parent,
                        ) && shown == gone.added_text(parent, Seq::empty(), next_sibling),
                }
            }
    }

    /// Whether the children of the fragment were applied place by place: the
    /// ancestors at places that the fragment does not have were detached, and
    /// then each child was applied, the last one first, with the ancestor at its
    /// place, to what the child behind it had left, and in front of the anchor that
    /// the child behind it had returned. A fragment without children has every
    /// ancestor detached where it has no siblings, and gets its empty text node
    /// where it has.
    #[verifier::opaque]
    pub open spec fn placewise(
        &self,
        after: VList<C>,
        ancestor: Option<VNode<C>>,
        surface: SurfaceView,
        shown: SurfaceView,
        waiting: SchedulerView<C>,
        submitted: SchedulerView<C>,
        parent: SurfaceHandle,
        next_sibling: Option<SurfaceHandle>,
        first: Option<SurfaceHandle>,
    ) -> bool
        decreases self, 0nat,
    {
        let ancestors = Self::ancestors_of(ancestor);
        let n = self.children@.len() as int;
        &&& n == 0 && self.no_siblings ==> after.children@.len() == 0 && first == next_sibling
            && Self::surplus_detached(ancestors, 0, surface, shown, waiting, submitted, parent)
        &&& n == 0 && !self.no_siblings ==> Self::placeholder_applied(
            after,
            ancestors,
            surface,
            shown,
            waiting,
            submitted,
            parent,
            next_sibling,
            first,
        )
        &&& n > 0 ==> after.children@.len() == n && exists|
            surfaces: Seq<SurfaceView>,
            schedulers: Seq<SchedulerView<C>>,
            anchors: Seq<Option<SurfaceHandle>>,
        |
            #![trigger surfaces.len(), schedulers.len(), anchors.len()]
            {
                &&& surfaces.len() == n + 1
                &&& schedulers.len() == n + 1
                &&& anchors.len() == n + 1
                &&& Self::surplus_detached(
                    ancestors,
                    n,
                    surface,
                    surfaces[n],
                    waiting,
                    schedulers[n],
                    parent,
                )
                &&& anchors[n] == next_sibling
                &&& surfaces[0] == shown
                &&& schedulers[0] == submitted
                &&& anchors[0] == first
                &&& forall|i: int|
                    0 <= i < n ==> (#[trigger] self.children@[i]).applied(
                        after.children@[i],
                        Self::ancestor_at(ancestors, i),
                        surfaces[i + 1],
                        surfaces[i],
                        schedulers[i + 1],
                        schedulers[i],
                        parent,
                        anchors[i + 1],
                        anchors[i],
                    )
            }
    }

    /// The children behind a place were applied place by place; once the child
    /// at the place is applied too, so were the children from that place on.
    proof fn lemma_placewise_step(
        olds: Seq<VNode<C>>,
        children: Seq<VNode<C>>,
        previous: Seq<VNode<C>>,
        ancestors: Seq<VNode<C>>,
        parent: SurfaceHandle,
        i: int,
        surfaces: Seq<SurfaceView>,
        schedulers: Seq<SchedulerView<C>>,
        anchors: Seq<Option<SurfaceHandle>>,
        shown: SurfaceView,
        submitted: SchedulerView<C>,
        first: Option<SurfaceHandle>,
    )
        requires
            0 <= i < olds.len(),
            children.len() == olds.len(),
            previous.len() == olds.len(),
            surfaces.len() == olds.len() + 1,
            schedulers.len() == olds.len() + 1,
            anchors.len() == olds.len() + 1,
            forall|j: int| i < j < olds.len() ==> children[j] == previous[j],
            forall|j: int|
                i < j < olds.len() ==> (#[trigger] olds[j]).applied(
                    previous[j],
                    Self::ancestor_at(ancestors, j),
                    surfaces[j + 1],
                    surfaces[j],
                    schedulers[j + 1],
                    schedulers[j],
                    parent,
                    anchors[j + 1],
                    anchors[j],
                ),
            olds[i].applied(
                children[i],
                Self::ancestor_at(ancestors, i),
                surfaces[i + 1],
                shown,
                schedulers[i + 1],
                submitted,
                parent,
                anchors[i + 1],
                first,
            ),
        ensures
            forall|j: int|
                i <= j < olds.len() ==> (#[trigger] olds[j]).applied(
                    children[j],
                    Self::ancestor_at(ancestors, j),
                    surfaces.update(i, shown)[j + 1],
                    surfaces.update(i, shown)[j],
                    schedulers.update(i, submitted)[j + 1],
                    schedulers.update(i, submitted)[j],
                    parent,
                    anchors.update(i, first)[j + 1],
                    anchors.update(i, first)[j],
                ),
    {
        assert forall|j: int| i <= j < olds.len() implies (#[trigger] olds[j]).applied(
            children[j],
            Self::ancestor_at(ancestors, j),
            surfaces.update(i, shown)[j + 1],
            surfaces.update(i, shown)[j],
            schedulers.update(i, submitted)[j + 1],
            schedulers.update(i, submitted)[j],
            parent,
            anchors.update(i, first)[j + 1],
            anchors.update(i, first)[j],
        ) by {
            if j > i {
                assert(children[j] == previous[j]);
                assert(olds[j].applied(
                    previous[j],
                    Self::ancestor_at(ancestors, j),
                    surfaces[j + 1],
                    surfaces[j],
                    schedulers[j + 1],
                    schedulers[j],
                    parent,
                    anchors[j + 1],
                    anchors[j],
                ));
            }
        }
    }

    /// Detaches the nodes of `rights` from the place `keep` on, the last one first.
    fn detach_surplus(
        rights: &mut Vec<VNode<C>>,
        keep: usize,
        surface: &mut Surface,
        scheduler: &mut Scheduler<C>,
        parent: SurfaceHandle,
    )
        requires
            old(surface).wf(),
        ensures
            final(rights)@ == (if old(rights)@.len() > keep {
                old(rights)@.subrange(0, keep as int)
            } else {
                old(rights)@
            }),
            kept(
                old(surface)@,
                final(surface)@,
                Self::nodes_between(old(rights)@, keep as int, old(rights)@.len() as int),
                parent,
            ),
            final(surface)@.nodes.len() == old(surface)@.nodes.len(),
            old(scheduler)@.extends_to(final(scheduler)@),
            old(scheduler)@.reconciles(
                final(scheduler)@,
                Self::scopes_in(old(rights)@, final(rights)@.len() as int, old(rights)@.len() as int),
                Set::empty(),
            ),
            old(rights)@.len() <= keep ==> final(surface)@ == old(surface)@ && final(scheduler)@
                == old(scheduler)@,
            old(surface)@.contains(parent) && !Self::nodes_between(
                old(rights)@,
                0,
                old(rights)@.len() as int,
            ).contains(parent) ==> forall|front: Seq<SurfaceHandle>, back: Seq<SurfaceHandle>|
                #[trigger] spliced(
                    old(surface)@.children(parent),
                    front,
                    Self::flat_between(old(rights)@, 0, old(rights)@.len() as int),
                    back,
                ) ==> final(surface)@.children(parent) == front + Self::flat_between(
                    old(rights)@,
                    0,
                    final(rights)@.len() as int,
                ) + back,
    {
        let ghost all = rights@;
        let ghost start = surface@;
        proof {
            assert(Self::nodes_between(all, all.len() as int, all.len() as int) =~= Set::empty());
            assert(Self::scopes_in(all, all.len() as int, all.len() as int) =~= Set::empty());
            scheduler@.lemma_reconciles_nothing();
        }
        while rights.len() > keep
            invariant
                old(scheduler)@.reconciles(
                    scheduler@,
                    Self::scopes_in(all, rights@.len() as int, all.len() as int),
                    Set::empty(),
                ),
                rights@.len() <= all.len(),
                rights@.len() >= keep || rights@.len() == all.len(),
                rights@ == all.subrange(0, rights@.len() as int),
                all.len() <= keep ==> rights@.len() == all.len() && surface@ == old(surface)@
                    && scheduler@ == old(scheduler)@,
                kept(
                    old(surface)@,
                    surface@,
                    Self::nodes_between(all, rights@.len() as int, all.len() as int),
                    parent,
                ),
                surface@.nodes.len() == old(surface)@.nodes.len(),
                old(scheduler)@.extends_to(scheduler@),
                start == old(surface)@,
                start.contains(parent) && !Self::nodes_between(
                    all,
                    0,
                    all.len() as int,
                ).contains(parent) ==> forall|front: Seq<SurfaceHandle>, back: Seq<SurfaceHandle>|
                    #[trigger] spliced(
                        start.children(parent),
                        front,
                        Self::flat_between(all, 0, all.len() as int),
                        back,
                    ) ==> surface@.children(parent) == front + Self::flat_between(
                        all,
                        0,
                        rights@.len() as int,
                    ) + back,
            decreases rights@.len(),
        {
            let ghost before = surface@;
            let ghost waiting = scheduler@;
            let ghost count = rights@.len() as int;
            let mut last = rights.pop().unwrap();
            assert(last == all[count - 1]);
            last.detach(surface, scheduler, parent);
            proof {
                if start.contains(parent) && !Self::nodes_between(
                    all,
                    0,
                    all.len() as int,
                ).contains(parent) {
                    assert(!all[count - 1].nodes().contains(parent)) by {
                        if all[count - 1].nodes().contains(parent) {
                            assert(Self::nodes_between(all, 0, all.len() as int).contains(parent));
                        }
                    }
                    assert forall|front: Seq<SurfaceHandle>, back: Seq<SurfaceHandle>| #[trigger]
                        spliced(
                            start.children(parent),
                            front,
                            Self::flat_between(all, 0, all.len() as int),
                            back,
                        ) implies surface@.children(parent) == front + Self::flat_between(
                        all,
                        0,
                        count - 1,
                    ) + back by {
                        let shorter = Self::flat_between(all, 0, count - 1);
                        assert(front + (shorter + all[count - 1].flat()) + back =~= front + shorter
                            + all[count - 1].flat() + back);
                        assert(spliced(
                            before.children(parent),
                            front + shorter,
                            all[count - 1].flat(),
                            back,
                        ));
                    }
                }
            }
            proof {
                let touched = Self::nodes_between(all, count, all.len() as int);
                let wider = Self::nodes_between(all, count - 1, all.len() as int);
                let own = all[count - 1].nodes();
                assert(touched.subset_of(wider));
                assert forall|h: SurfaceHandle| own.contains(h) implies wider.contains(h) by {
                    assert(all[count - 1].nodes().contains(h));
                }
                old(surface)@.lemma_evolves_twice(before, surface@);
                old(surface)@.lemma_preserved_twice(
                    before,
                    surface@,
                    touched,
                    parent,
                    own,
                    parent,
                    wider,
                );
                old(scheduler)@.lemma_extends_twice(waiting, scheduler@);
                assert(rights@ =~= all.subrange(0, count - 1));
                Self::lemma_destroyed_step(old(scheduler)@, waiting, scheduler@, all, count);
            }
        }
        proof {
            if all.len() > keep {
                assert(rights@ =~= all.subrange(0, keep as int));
            } else {
                assert(rights@ =~= all);
                assert(Self::nodes_between(all, rights@.len() as int, all.len() as int)
                    =~= Self::nodes_between(all, keep as int, all.len() as int));
            }
        }
    }
}

impl<C: Component> VList<C> {
    /// Whether the surface `after` shows the nodes of `children` from `from` on as
    /// children of `parent`, each drawn from the ancestor at its place and from
    /// the nodes created since `before`, and no two of them sharing a surface node.
    pub open spec fn settled(
        children: Seq<VNode<C>>,
        ancestors: Seq<VNode<C>>,
        from: int,
        before: SurfaceView,
        after: SurfaceView,
        parent: SurfaceHandle,
    ) -> bool {
        &&& forall|k: int|
            from <= k < children.len() ==> {
                &&& (#[trigger] children[k]).rendered(after, parent)
                &&& children[k].distinct()
                &&& drawn_from(children[k].nodes(), Self::nodes_at(ancestors, k), before, after)
            }
        &&& forall|j: int, k: int|
            from <= j < children.len() && from <= k < children.len() && j != k ==> (
            #[trigger] children[j]).nodes().disjoint((#[trigger] children[k]).nodes())
    }

    /// Whether every node that `ancestors` refer to is a node of `surface`.
    pub open spec fn all_contained(ancestors: Seq<VNode<C>>, surface: SurfaceView) -> bool {
        forall|j: int, h: SurfaceHandle|
            0 <= j < ancestors.len() && (#[trigger] ancestors[j].nodes().contains(h))
                ==> surface.contains(h)
    }

    /// Reconciling the child at `at` with the ancestor at its place leaves the
    /// children behind it as the surface shows them.
    proof fn lemma_settled_step(
        children: Seq<VNode<C>>,
        previous: Seq<VNode<C>>,
        ancestors: Seq<VNode<C>>,
        at: int,
        start: SurfaceView,
        before: SurfaceView,
        after: SurfaceView,
        parent: SurfaceHandle,
    )
        requires
            0 <= at < children.len(),
            children.len() == previous.len(),
            forall|k: int| 0 <= k < children.len() && k != at ==> children[k] == previous[k],
            Self::settled(previous, ancestors, at + 1, start, before, parent),
            start.nodes.len() <= before.nodes.len(),
            before.nodes.len() <= after.nodes.len(),
            Self::all_distinct(ancestors),
            Self::all_contained(ancestors, start),
            reconciled(
                children[at].rendered(after, parent),
                children[at].distinct(),
                children[at].nodes(),
                Self::nodes_at(ancestors, at),
                before,
                after,
                parent,
            ),
        ensures
            Self::settled(children, ancestors, at, start, after, parent),
    {
        let own = Self::nodes_at(ancestors, at);
        assert forall|k: int| at <= k < children.len() implies {
            &&& (#[trigger] children[k]).rendered(after, parent)
            &&& children[k].distinct()
            &&& drawn_from(children[k].nodes(), Self::nodes_at(ancestors, k), start, after)
        } by {
            if k != at {
                assert(children[k] == previous[k]);
                previous[k].lemma_rendered_contained(before, parent);
                assert forall|h: SurfaceHandle|
                    children[k].nodes().contains(h) implies before.shown_alike(after, h) by {
                    assert(before.contains(h));
                    if own.contains(h) {
                        assert(ancestors[at].nodes().contains(h));
                        assert(start.contains(h));
                        assert(Self::nodes_at(ancestors, k).contains(h));
                        assert(ancestors[k].nodes().contains(h));
                        assert(ancestors[at].nodes().disjoint(ancestors[k].nodes()));
                    }
                    // The frame of the change speaks of this node.
                    let _ = after.node(h);
                }
                children[k].lemma_rendered_kept(before, after, parent);
            }
        }
        assert forall|j: int, k: int|
            at <= j < children.len() && at <= k < children.len() && j != k implies (
        #[trigger] children[j]).nodes().disjoint((#[trigger] children[k]).nodes()) by {
            if j != at && k != at {
                assert(previous[j].nodes().disjoint(previous[k].nodes()));
            } else {
                let other = if j == at { k } else { j };
                assert(children[other] == previous[other]);
                previous[other].lemma_rendered_contained(before, parent);
                assert forall|h: SurfaceHandle|
                    children[at].nodes().contains(h) implies !children[other].nodes().contains(
                    h,
                ) by {
                    if children[other].nodes().contains(h) {
                        assert(before.contains(h));
                        assert(own.contains(h));
                        assert(ancestors[at].nodes().contains(h));
                        assert(start.contains(h));
                        assert(Self::nodes_at(ancestors, other).contains(h));
                        assert(ancestors[other].nodes().contains(h));
                        assert(ancestors[at].nodes().disjoint(ancestors[other].nodes()));
                    }
                }
            }
        }
    }

    /// The anchor that the children from `from` on pass to the front is the one
    /// that the child at `from` passes on, given the anchor of those behind it.
    proof fn lemma_anchor_step(
        children: Seq<VNode<C>>,
        from: int,
        next_sibling: Option<SurfaceHandle>,
    )
        requires
            0 <= from < children.len(),
        ensures
            anchor(Self::first_node_from(children, from), next_sibling) == anchor(
                children[from].first_node(),
                anchor(Self::first_node_from(children, from + 1), next_sibling),
            ),
    {
    }

    /// The first surface node of the children from `from` on, which the surface
    /// shows, is the first of those that they stand for.
    proof fn lemma_head_behind(
        children: Seq<VNode<C>>,
        from: int,
        surface: SurfaceView,
        parent: SurfaceHandle,
    )
        requires
            0 <= from <= children.len(),
            forall|k: int| from <= k < children.len() ==> (#[trigger] children[k]).rendered(
                surface,
                parent,
            ),
        ensures
            Self::first_node_from(children, from) == head(
                Self::flat_between(children, from, children.len() as int),
            ),
        decreases children.len() - from,
    {
        if from < children.len() {
            Self::lemma_flat_front(children, from, children.len() as int);
            children[from].lemma_first_node(surface, parent);
            Self::lemma_head_behind(children, from + 1, surface, parent);
        }
    }

    /// The anchor that children pass to the front does not depend on the children
    /// in front of them.
    proof fn lemma_anchor_same(children: Seq<VNode<C>>, others: Seq<VNode<C>>, from: int)
        requires
            children.len() == others.len(),
            forall|k: int| from <= k < children.len() ==> children[k] == others[k],
            0 <= from,
        ensures
            Self::first_node_from(children, from) == Self::first_node_from(others, from),
        decreases children.len() - from,
    {
        if from < children.len() {
            Self::lemma_anchor_same(children, others, from + 1);
        }
    }

    /// Makes the surface show the children of the fragment as children of
    /// `parent`, in front of `next_sibling`.
    ///
    /// The children are reconciled place by place with those of the ancestor, or
    /// with the ancestor itself in the first place where it is no fragment: the
    /// child at a place reuses what the ancestor at that place left, if it can.
    /// Ancestors at places that the fragment does not have are detached; children
    /// at places that the ancestor did not have are made anew. A fragment that has
    /// siblings and no children gets an empty text node as its only child, so that
    /// it keeps a place in the surface.
    #[verifier::rlimit(100)]
    pub fn apply(
        &mut self,
        surface: &mut Surface,
        scheduler: &mut Scheduler<C>,
        parent_scope: &Rc<AnyScope>,
        parent: SurfaceHandle,
        next_sibling: Option<SurfaceHandle>,
        ancestor: Option<VNode<C>>,
    ) -> (first: Option<SurfaceHandle>)
        requires
            old(surface).wf(),
            old(surface)@.is_element(parent),
        ensures
            final(surface).wf(),
            old(surface)@.evolves_to(final(surface)@),
            old(scheduler)@.extends_to(final(scheduler)@),
            old(scheduler)@.reconciles(
                final(scheduler)@,
                ancestor_scopes(ancestor).to_set(),
                final(self).scopes().to_set(),
            ),
            old(self).placewise(
                *final(self),
                ancestor,
                old(surface)@,
                final(surface)@,
                old(scheduler)@,
                final(scheduler)@,
                parent,
                next_sibling,
                first,
            ),
            final(self).description() == old(self).description(),
            final(scheduler)@.scopes < usize::MAX ==> final(self).mounted(),
            final(self).no_siblings == old(self).no_siblings,
            final(self).children@.len() == (if old(self).children@.len() == 0 && !old(self).no_siblings {
                1
            } else {
                old(self).children@.len()
            }),
            old(self).children@.len() == 0 && !old(self).no_siblings ==> Self::holds_place(
                final(self).children@,
                final(surface)@,
                parent,
                first,
            ),
            old(self).children@.len() == 0 && old(self).no_siblings ==> first == next_sibling,
            old(self).ref_free() && reconcilable(ancestor, old(surface)@) ==> reconciled(
                final(self).rendered(final(surface)@, parent),
                final(self).distinct(),
                final(self).nodes(),
                ancestor_nodes(ancestor),
                old(surface)@,
                final(surface)@,
                parent,
            ) && first == anchor(final(self).first_node(), next_sibling),
            already_shown(
                old(self).description(),
                old(self).ref_free(),
                ancestor,
                old(surface)@,
                parent,
            ) ==> final(surface)@ == old(surface)@,
            old(self).ref_free() && reconcilable(ancestor, old(surface)@) && !ancestor_nodes(
                ancestor,
            ).contains(parent) ==> arranged(
                old(surface)@,
                final(surface)@,
                parent,
                next_sibling,
                ancestor,
                final(self).flat(),
                final(self).laid_out(final(surface)@),
            ),
        decreases *old(self),
    {
        let ghost premise = old(self).ref_free() && reconcilable(ancestor, old(surface)@);
        let ghost apart = premise && !ancestor_nodes(ancestor).contains(parent);
        let ghost orderly = apart && (ancestor.is_some() ==> ancestor->0.laid_out(old(surface)@));
        let ghost shown = already_shown(
            old(self).description(),
            old(self).ref_free(),
            ancestor,
            old(surface)@,
            parent,
        );
        let ghost start = surface@;
        let ghost waiting = scheduler@;
        let mut rights: Vec<VNode<C>> = match ancestor {
            Some(VNode::VList(l)) => l.children,
            Some(other) => {
                let mut single = Vec::new();
                single.push(other);
                single
            },
            None => Vec::new(),
        };
        let ghost ancestors = rights@;
        assert(ancestors == Self::ancestors_of(ancestor));
        proof {
            assert(Self::scopes_in(ancestors, 0, ancestors.len() as int) == ancestor_scopes(
                ancestor,
            ).to_set()) by {
                Self::lemma_scopes_in(ancestors, 0, ancestors.len() as int);
                match ancestor {
                    Some(VNode::VList(l)) => {},
                    Some(other) => {
                        assert(Self::scopes_between(ancestors, 0, 0) =~= Seq::empty());
                        assert(Seq::<ScopeId>::empty() + other.scopes() =~= other.scopes());
                    },
                    None => {},
                }
            }
            assert(Self::nodes_between(ancestors, 0, ancestors.len() as int) =~= ancestor_nodes(
                ancestor,
            )) by {
                assert forall|h: SurfaceHandle|
                    ancestor_nodes(ancestor).contains(h) implies Self::nodes_between(
                    ancestors,
                    0,
                    ancestors.len() as int,
                ).contains(h) by {
                    match ancestor {
                        Some(VNode::VList(l)) => {
                            let i = choose|i: int|
                                0 <= i < l.children@.len() && (
                                #[trigger] l.children@[i]).nodes().contains(h);
                            assert(ancestors[i].nodes().contains(h));
                        },
                        Some(other) => {
                            assert(ancestors[0].nodes().contains(h));
                        },
                        None => {},
                    }
                }
            }
            assert(Self::flat_between(ancestors, 0, ancestors.len() as int) =~= ancestor_flat(
                ancestor,
            )) by {
                match ancestor {
                    Some(VNode::VList(l)) => {},
                    Some(other) => {
                        assert(Self::flat_between(ancestors, 0, 0) =~= Seq::empty());
                        assert(Seq::<SurfaceHandle>::empty() + other.flat() =~= other.flat());
                    },
                    None => {},
                }
            }
            if orderly {
                assert forall|k: int| 0 <= k < ancestors.len() implies (
                #[trigger] ancestors[k]).laid_out(start) by {
                    match ancestor {
                        Some(VNode::VList(l)) => {
                            assert(l.children@[k].laid_out(start));
                        },
                        _ => {},
                    }
                }
            }
            if shown {
                assert(ancestor->0 is VList);
                let l = ancestor->0->VList_0;
                assert(l.children@ == ancestors);
                assert(l.descriptions() == old(self).descriptions());
                assert(l.rendered(start, parent));
                assert(ancestors.len() > 0 || l.no_siblings);
                assert(l.descriptions().len() == ancestors.len());
                assert forall|k: int|
                    #![trigger ancestors[k]]
                    0 <= k < ancestors.len() implies ancestors[k].rendered(start, parent)
                    && ancestors[k].distinct() && ancestors[k].mounted()
                    && ancestors[k].description() == old(self).descriptions()[k] by {
                    assert(l.children@[k].rendered(start, parent));
                    assert(l.children@[k].distinct());
                    assert(l.children@[k].mounted());
                    assert(l.descriptions()[k] == l.children@[k].description());
                }
            }
            if premise {
                assert(Self::all_distinct(ancestors));
                assert(Self::all_contained(ancestors, start)) by {
                    assert forall|j: int, h: SurfaceHandle|
                        0 <= j < ancestors.len() && (#[trigger] ancestors[j].nodes().contains(
                            h,
                        )) implies start.contains(h) by {
                        assert(Self::nodes_between(
                            ancestors,
                            0,
                            ancestors.len() as int,
                        ).contains(h));
                    }
                }
            }
        }
        let n = self.children.len();
        if n == 0 {
            if self.no_siblings {
                Self::detach_surplus(&mut rights, 0, surface, scheduler, parent);
                proof {
                    assert(self.scopes().to_set() =~= Set::empty());
                    assert(self.nodes() =~= Set::empty());
                    if apart {
                        assert forall|front: Seq<SurfaceHandle>, back: Seq<SurfaceHandle>| #[trigger]
                            spliced(start.children(parent), front, ancestor_flat(ancestor), back)
                                && anchored(next_sibling, back) implies surface@.children(parent)
                            == front + self.flat() + back by {
                            assert(front + Self::flat_between(ancestors, 0, 0) + back =~= front
                                + self.flat() + back);
                        }
                    }
                }
                proof {
                    reveal(VList::placewise);
                    assert(Self::surplus_detached(
                        ancestors,
                        0,
                        start,
                        surface@,
                        waiting,
                        scheduler@,
                        parent,
                    ));
                }
                return next_sibling;
            }
            Self::detach_surplus(&mut rights, 1, surface, scheduler, parent);
            let ghost detached = surface@;
            let ghost emptied = scheduler@;
            let ghost kept_rights = rights@.len();
            let first_right = rights.pop();
            let mut placeholder = VText::new(String::new());
            proof {
                if shown {
                    assert(ancestors.len() == 1);
                    assert(detached == start);
                    assert(first_right == Some(ancestors[0]));
                    assert(ancestors[0].rendered(start, parent));
                    assert(old(self).descriptions()[0] == Description::<C>::Text {
                        text: Seq::empty(),
                    });
                    assert(ancestors[0].description() == Description::<C>::Text {
                        text: Seq::empty(),
                    });
                    assert(ancestors[0] is VText);
                    assert(VText::reusable(first_right, detached, parent).is_some());
                }
            }
            let first = placeholder.apply(surface, scheduler, parent, next_sibling, first_right);
            self.children.push(VNode::VText(placeholder));
            proof {
                start.lemma_evolves_twice(detached, surface@);
                waiting.lemma_extends_twice(emptied, scheduler@);
                assert(Self::scopes_in(self.children@, 1, 1) =~= Set::empty());
                assert(self.children@[0].scopes().to_set() =~= Set::empty());
                Self::lemma_reconciles_step(
                    waiting,
                    emptied,
                    scheduler@,
                    ancestors,
                    kept_rights as int,
                    rights@.len() as int,
                    first_right,
                    self.children@,
                    self.children@,
                    0,
                );
                Self::lemma_scopes_in(self.children@, 0, 1);
                assert(self.descriptions() =~= old(self).descriptions());
                assert(self.nodes() =~= placeholder.nodes()) by {
                    assert forall|h: SurfaceHandle| placeholder.nodes().contains(h) implies self.nodes().contains(h) by {
                        assert(self.children@[0].nodes().contains(h));
                    }
                }
                if premise {
                    assert(ancestor_nodes(first_right).subset_of(ancestor_nodes(ancestor))) by {
                        assert forall|h: SurfaceHandle| ancestor_nodes(first_right).contains(h) implies ancestor_nodes(ancestor).contains(h) by {
                            assert(ancestors[0].nodes().contains(h));
                            assert(Self::nodes_between(ancestors, 0, ancestors.len() as int).contains(h));
                        }
                    }
                    assert(Self::nodes_between(ancestors, 1, ancestors.len() as int).subset_of(
                        ancestor_nodes(ancestor),
                    )) by {
                        assert forall|h: SurfaceHandle| Self::nodes_between(ancestors, 1, ancestors.len() as int).contains(h) implies ancestor_nodes(ancestor).contains(h) by {
                            assert(Self::nodes_between(ancestors, 0, ancestors.len() as int).contains(h));
                        }
                    }
                    start.lemma_preserved_twice(
                        detached,
                        surface@,
                        Self::nodes_between(ancestors, 1, ancestors.len() as int),
                        parent,
                        ancestor_nodes(first_right),
                        parent,
                        ancestor_nodes(ancestor),
                    );
                    assert(Self::first_node_from(self.children@, 1).is_none());
                }
                if apart {
                    assert(!ancestor_nodes(first_right).contains(parent)) by {
                        if ancestor_nodes(first_right).contains(parent) {
                            assert(ancestors[0].nodes().contains(parent));
                            assert(Self::nodes_between(ancestors, 0, ancestors.len() as int).contains(
                                parent,
                            ));
                        }
                    }
                    assert(self.flat() =~= listed(placeholder.reference)) by {
                        assert(Self::flat_between(self.children@, 0, 0) =~= Seq::empty());
                        assert(Seq::<SurfaceHandle>::empty() + self.children@[0].flat()
                            =~= self.children@[0].flat());
                    }
                    assert forall|front: Seq<SurfaceHandle>, back: Seq<SurfaceHandle>| #[trigger]
                        spliced(start.children(parent), front, ancestor_flat(ancestor), back)
                            && anchored(next_sibling, back) implies surface@.children(parent)
                        == front + self.flat() + back by {
                        let left = Self::flat_between(ancestors, 0, kept_rights as int);
                        assert(detached.children(parent) == front + left + back);
                        assert(left =~= ancestor_flat(first_right)) by {
                            if kept_rights == 1 {
                                assert(Self::flat_between(ancestors, 0, 0) =~= Seq::empty());
                                assert(Seq::<SurfaceHandle>::empty() + ancestors[0].flat()
                                    =~= ancestors[0].flat());
                            }
                        }
                        assert(spliced(
                            detached.children(parent),
                            front,
                            ancestor_flat(first_right),
                            back,
                        ));
                    }
                }
            }
            proof {
                reveal(VList::placewise);
                reveal_strlit("");
                assert(self.children@[0]->VText_0.text@ =~= Seq::<char>::empty());
                assert(first_right == Self::ancestor_at(ancestors, 0));
                assert(Self::surplus_detached(
                    ancestors,
                    1,
                    start,
                    detached,
                    waiting,
                    emptied,
                    parent,
                ));
                assert(Self::placeholder_applied(
                    *self,
                    ancestors,
                    start,
                    surface@,
                    waiting,
                    scheduler@,
                    parent,
                    next_sibling,
                    first,
                ));
            }
            return first;
        }
        Self::detach_surplus(&mut rights, n, surface, scheduler, parent);
        let mut next = next_sibling;
        let mut i = n;
        let ghost mut surfaces: Seq<SurfaceView> = Seq::new((n + 1) as nat, |j: int| surface@);
        let ghost mut schedulers: Seq<SchedulerView<C>> = Seq::new(
            (n + 1) as nat,
            |j: int| scheduler@,
        );
        let ghost mut anchors: Seq<Option<SurfaceHandle>> = Seq::new(
            (n + 1) as nat,
            |j: int| next_sibling,
        );
        assert(Self::surplus_detached(
            ancestors,
            n as int,
            start,
            surface@,
            waiting,
            scheduler@,
            parent,
        ));
        proof {
            assert(Self::scopes_in(self.children@, n as int, n as int) =~= Set::empty());
            if apart {
                assert forall|front: Seq<SurfaceHandle>, back: Seq<SurfaceHandle>| #[trigger]
                    spliced(
                        start.children(parent),
                        front,
                        Self::flat_between(ancestors, 0, ancestors.len() as int),
                        back,
                    ) && anchored(next_sibling, back) implies surface@.children(parent) == front
                    + Self::flat_between(ancestors, 0, rights@.len() as int) + Self::flat_between(
                    self.children@,
                    n as int,
                    n as int,
                ) + back by {
                    let left = Self::flat_between(ancestors, 0, rights@.len() as int);
                    assert(left + Seq::<SurfaceHandle>::empty() =~= left);
                    assert(front + left + Seq::<SurfaceHandle>::empty() + back =~= front + left
                        + back);
                }
            }
            if shown {
                assert(old(self).descriptions().len() == n);
                assert(ancestors.len() == n);
                assert forall|k: int| 0 <= k < n implies ancestors[k].description() == old(self).children@[k].description() by {
                    assert(old(self).descriptions()[k] == old(self).children@[k].description());
                }
            }
            if premise {
                assert(Self::nodes_between(ancestors, rights@.len() as int, ancestors.len() as int).subset_of(
                    ancestor_nodes(ancestor),
                )) by {
                    assert forall|h: SurfaceHandle| Self::nodes_between(ancestors, rights@.len() as int, ancestors.len() as int).contains(h) implies ancestor_nodes(ancestor).contains(h) by {
                        assert(Self::nodes_between(ancestors, 0, ancestors.len() as int).contains(h));
                    }
                }
            }
        }
        while i > 0
            invariant
                0 <= i <= n,
                n > 0,
                surfaces.len() == n + 1,
                schedulers.len() == n + 1,
                anchors.len() == n + 1,
                surfaces[i as int] == surface@,
                schedulers[i as int] == scheduler@,
                anchors[i as int] == next,
                anchors[n as int] == next_sibling,
                Self::surplus_detached(
                    ancestors,
                    n as int,
                    start,
                    surfaces[n as int],
                    waiting,
                    schedulers[n as int],
                    parent,
                ),
                forall|j: int|
                    i <= j < n ==> (#[trigger] old(self).children@[j]).applied(
                        self.children@[j],
                        Self::ancestor_at(ancestors, j),
                        surfaces[j + 1],
                        surfaces[j],
                        schedulers[j + 1],
                        schedulers[j],
                        parent,
                        anchors[j + 1],
                        anchors[j],
                    ),
                self.children@.len() == n,
                old(self).children@.len() == n,
                self.no_siblings == old(self).no_siblings,
                forall|k: int| 0 <= k < i ==> self.children@[k] == old(self).children@[k],
                forall|k: int|
                    0 <= k < n ==> (#[trigger] self.children@[k]).description() == old(self).children@[k].description(),
                rights@.len() <= i,
                rights@.len() <= ancestors.len(),
                rights@.len() == i || rights@.len() == ancestors.len(),
                rights@ == ancestors.subrange(0, rights@.len() as int),
                surface.wf(),
                surface@.is_element(parent),
                start.evolves_to(surface@),
                waiting.extends_to(scheduler@),
                waiting.reconciles(
                    scheduler@,
                    Self::scopes_in(ancestors, rights@.len() as int, ancestors.len() as int),
                    Self::scopes_in(self.children@, i as int, n as int),
                ),
                premise == (old(self).ref_free() && reconcilable(ancestor, start)),
                premise ==> Self::all_distinct(ancestors) && Self::all_contained(ancestors, start),
                premise ==> Self::settled(self.children@, ancestors, i as int, start, surface@, parent),
                premise ==> start.preserved_outside(
                    surface@,
                    Self::nodes_between(ancestors, rights@.len() as int, ancestors.len() as int),
                    parent,
                ),
                premise ==> next == anchor(
                    Self::first_node_from(self.children@, i as int),
                    next_sibling,
                ),
                shown ==> surface@ == start,
                shown ==> ancestors.len() == n,
                shown ==> forall|k: int|
                    #![trigger ancestors[k]]
                    0 <= k < n ==> ancestors[k].rendered(start, parent) && ancestors[k].distinct()
                        && ancestors[k].mounted() && ancestors[k].description() == old(self).children@[k].description(),
                old(self).ref_free() ==> forall|k: int|
                    0 <= k < n ==> (#[trigger] old(self).children@[k]).ref_free(),
                shown ==> old(self).ref_free(),
                scheduler@.scopes < usize::MAX ==> forall|k: int|
                    i <= k < n ==> (#[trigger] self.children@[k]).mounted(),
                apart ==> premise,
                apart ==> !Self::nodes_between(ancestors, 0, ancestors.len() as int).contains(
                    parent,
                ),
                apart ==> forall|front: Seq<SurfaceHandle>, back: Seq<SurfaceHandle>|
                    #[trigger] spliced(
                        start.children(parent),
                        front,
                        Self::flat_between(ancestors, 0, ancestors.len() as int),
                        back,
                    ) && anchored(next_sibling, back) ==> surface@.children(parent) == front
                        + Self::flat_between(ancestors, 0, rights@.len() as int)
                        + Self::flat_between(self.children@, i as int, n as int) + back,
                orderly ==> apart,
                start.is_element(parent),
                orderly ==> forall|k: int|
                    0 <= k < ancestors.len() ==> (#[trigger] ancestors[k]).laid_out(start),
                orderly ==> forall|k: int|
                    i <= k < n ==> (#[trigger] self.children@[k]).laid_out(surface@),
            decreases i,
        {
            i = i - 1;
            let ghost before = surface@;
            let ghost queued = scheduler@;
            let ghost previous = self.children@;
            let ghost previous_next = next;
            let ghost remaining = rights@.len() as int;
            let right = if i < rights.len() {
                rights.pop()
            } else {
                None
            };
            proof {
                if i < remaining {
                    assert(remaining == i + 1);
                    assert(right == Some(ancestors[i as int]));
                    assert(rights@ =~= ancestors.subrange(0, i as int));
                }
                assert(ancestor_nodes(right) =~= Self::nodes_at(ancestors, i as int)) by {
                    if i < remaining {
                    } else {
                        // Where there was an ancestor at this place, it was detached with
                        // the surplus.
                        assert(right.is_none());
                    }
                }
            }
            proof {
                if apart {
                    assert(!ancestor_nodes(right).contains(parent)) by {
                        if ancestor_nodes(right).contains(parent) {
                            assert(ancestors[i as int].nodes().contains(parent));
                            assert(Self::nodes_between(ancestors, 0, ancestors.len() as int).contains(
                                parent,
                            ));
                        }
                    }
                }
                if orderly && right.is_some() {
                    let a = ancestors[i as int];
                    assert(a.laid_out(start));
                    assert forall|h: SurfaceHandle| #[trigger] a.nodes().contains(h) implies before.children(
                        h,
                    ) == start.children(h) by {
                        assert(start.contains(h));
                        assert(h != parent);
                        if Self::nodes_between(ancestors, remaining, ancestors.len() as int).contains(h) {
                            let k = choose|k: int|
                                0 <= remaining <= k < ancestors.len() && k < ancestors.len() && (
                                #[trigger] ancestors[k]).nodes().contains(h);
                            assert(ancestors[k].nodes().disjoint(a.nodes()));
                        }
                        // The frame of the change speaks of this node.
                        let _ = before.node(h);
                    }
                    a.lemma_laid_out_kept(start, before);
                }
                if shown {
                    assert(right == Some(ancestors[i as int]));
                    assert(ancestors[i as int].rendered(before, parent));
                    assert(self.children@[i as int] == old(self).children@[i as int]);
                    assert(old(self).children@[i as int].ref_free());
                    assert(already_shown(
                        self.children@[i as int].description(),
                        self.children@[i as int].ref_free(),
                        right,
                        before,
                        parent,
                    ));
                }
            }
            let child = &mut self.children[i];
            next = child.apply(surface, scheduler, parent_scope, parent, next, right);
            proof {
                assert(right == Self::ancestor_at(ancestors, i as int));
                assert(previous[i as int] == old(self).children@[i as int]);
                Self::lemma_placewise_step(
                    old(self).children@,
                    self.children@,
                    previous,
                    ancestors,
                    parent,
                    i as int,
                    surfaces,
                    schedulers,
                    anchors,
                    surface@,
                    scheduler@,
                    next,
                );
                surfaces = surfaces.update(i as int, surface@);
                schedulers = schedulers.update(i as int, scheduler@);
                anchors = anchors.update(i as int, next);
            }
            proof {
                if shown {
                    assert(before == start);
                    assert(surface@ == before);
                }
                start.lemma_evolves_twice(before, surface@);
                waiting.lemma_extends_twice(queued, scheduler@);
                assert(forall|k: int| 0 <= k < n && k != i ==> self.children@[k] == previous[k]);
                Self::lemma_reconciles_step(
                    waiting,
                    queued,
                    scheduler@,
                    ancestors,
                    remaining,
                    rights@.len() as int,
                    right,
                    self.children@,
                    previous,
                    i as int,
                );
                if premise {
                    assert(previous[i as int].ref_free());
                    assert(reconcilable(right, before)) by {
                        if right.is_some() {
                            assert(ancestors[i as int].distinct());
                            assert forall|h: SurfaceHandle| ancestors[i as int].nodes().contains(h) implies before.contains(h) by {
                                assert(start.contains(h));
                            }
                        }
                    }
                    Self::lemma_settled_step(
                        self.children@,
                        previous,
                        ancestors,
                        i as int,
                        start,
                        before,
                        surface@,
                        parent,
                    );
                    let touched = Self::nodes_between(ancestors, remaining, ancestors.len() as int);
                    let wider = Self::nodes_between(ancestors, rights@.len() as int, ancestors.len() as int);
                    assert(touched.subset_of(wider));
                    assert forall|h: SurfaceHandle| ancestor_nodes(right).contains(h) implies wider.contains(h) by {
                        assert(ancestors[i as int].nodes().contains(h));
                    }
                    start.lemma_preserved_twice(
                        before,
                        surface@,
                        touched,
                        parent,
                        ancestor_nodes(right),
                        parent,
                        wider,
                    );
                    Self::lemma_anchor_step(self.children@, i as int, next_sibling);
                    Self::lemma_anchor_same(self.children@, previous, i as int + 1);
                }
                if apart {
                    let behind = Self::flat_between(previous, i as int + 1, n as int);
                    Self::lemma_flat_same(self.children@, previous, i as int + 1, n as int);
                    Self::lemma_flat_front(self.children@, i as int, n as int);
                    // The anchor handed to the child is the first node behind it.
                    assert(previous_next == head(behind) || (behind.len() == 0 && previous_next
                        == next_sibling)) by {
                        Self::lemma_head_behind(previous, i as int + 1, before, parent);
                    }
                    assert forall|front: Seq<SurfaceHandle>, back: Seq<SurfaceHandle>| #[trigger]
                        spliced(
                            start.children(parent),
                            front,
                            Self::flat_between(ancestors, 0, ancestors.len() as int),
                            back,
                        ) && anchored(next_sibling, back) implies surface@.children(parent)
                        == front + Self::flat_between(ancestors, 0, rights@.len() as int)
                        + Self::flat_between(self.children@, i as int, n as int) + back by {
                        let left = Self::flat_between(ancestors, 0, rights@.len() as int);
                        let gone = ancestor_flat(right);
                        let new_flat = self.children@[i as int].flat();
                        assert(Self::flat_between(ancestors, 0, remaining) =~= left + gone) by {
                            if right.is_none() {
                                assert(left + Seq::<SurfaceHandle>::empty() =~= left);
                            }
                        }
                        assert(before.children(parent) == front + (left + gone) + behind + back);
                        assert(front + (left + gone) + behind + back =~= (front + left) + gone + (
                        behind + back));
                        assert(spliced(before.children(parent), front + left, gone, behind + back));
                        assert(anchored(previous_next, behind + back)) by {
                            if behind.len() > 0 {
                                assert((behind + back)[0] == behind[0]);
                            } else {
                                assert(behind + back =~= back);
                            }
                        }
                        assert(surface@.children(parent) == (front + left) + new_flat + (behind
                            + back));
                        assert((front + left) + new_flat + (behind + back) =~= front + left + (
                        new_flat + behind) + back);
                    }
                }
                if orderly {
                    assert forall|k: int| i <= k < n implies (#[trigger] self.children@[k]).laid_out(
                        surface@,
                    ) by {
                        if k != i {
                            assert(self.children@[k] == previous[k]);
                            previous[k].lemma_rendered_contained(before, parent);
                            assert forall|h: SurfaceHandle| #[trigger]
                                previous[k].nodes().contains(h) implies surface@.children(h)
                                == before.children(h) by {
                                assert(before.contains(h));
                                assert(drawn_from(
                                    previous[k].nodes(),
                                    Self::nodes_at(ancestors, k),
                                    start,
                                    before,
                                ));
                                if Self::nodes_at(ancestors, k).contains(h) {
                                    assert(ancestors[k].nodes().contains(h));
                                    assert(Self::nodes_between(
                                        ancestors,
                                        0,
                                        ancestors.len() as int,
                                    ).contains(h));
                                }
                                assert(h != parent);
                                if ancestor_nodes(right).contains(h) {
                                    assert(ancestors[i as int].nodes().contains(h));
                                    assert(start.contains(h));
                                    assert(Self::nodes_at(ancestors, k).contains(h));
                                    assert(ancestors[i as int].nodes().disjoint(
                                        ancestors[k].nodes(),
                                    ));
                                }
                                // The frame of the change speaks of this node.
                                let _ = surface@.node(h);
                            }
                            previous[k].lemma_laid_out_kept(before, surface@);
                        }
                    }
                }
            }
        }
        assert(old(self).placewise(
            *self,
            ancestor,
            start,
            surface@,
            waiting,
            scheduler@,
            parent,
            next_sibling,
            next,
        )) by {
            reveal(VList::placewise);
            assert(surfaces.len() == n + 1 && schedulers.len() == n + 1 && anchors.len() == n + 1);
        }
        proof {
            assert(self.descriptions() =~= old(self).descriptions());
            Self::lemma_scopes_in(self.children@, 0, n as int);
            if apart {
                assert forall|front: Seq<SurfaceHandle>, back: Seq<SurfaceHandle>| #[trigger]
                    spliced(start.children(parent), front, ancestor_flat(ancestor), back)
                        && anchored(next_sibling, back) implies surface@.children(parent) == front
                    + self.flat() + back by {
                    assert(Self::flat_between(ancestors, 0, 0) =~= Seq::empty());
                    assert(front + Seq::<SurfaceHandle>::empty() + self.flat() + back =~= front
                        + self.flat() + back);
                }
            }
            if premise {
                assert(rights@.len() == 0);
                assert(Self::nodes_between(ancestors, 0, ancestors.len() as int) =~= ancestor_nodes(ancestor));
                assert(drawn_from(self.nodes(), ancestor_nodes(ancestor), start, surface@)) by {
                    assert forall|h: SurfaceHandle| self.nodes().contains(h) implies ancestor_nodes(ancestor).contains(h) || start.nodes.len() <= h < surface@.nodes.len() by {
                        let k = choose|k: int| 0 <= k < self.children@.len() && (#[trigger] self.children@[k]).nodes().contains(h);
                        assert(drawn_from(self.children@[k].nodes(), Self::nodes_at(ancestors, k), start, surface@));
                        if Self::nodes_at(ancestors, k).contains(h) {
                            assert(ancestors[k].nodes().contains(h));
                            assert(Self::nodes_between(ancestors, 0, ancestors.len() as int).contains(h));
                        }
                    }
                }
            }
        }
        next
    }
}

impl<C: Component> Default for VList<C> {
    /// An empty fragment that may have siblings.
    fn default() -> (vlist: VList<C>)
        ensures
            !vlist.no_siblings,
            vlist.children@.len() == 0,
    {
        VList { no_siblings: false, children: Vec::new() }
    }
}

} // verus!
