//! The UI surface: an in-memory model of the live tree that the diff engine mutates.
//!
//! The surface is an arena of nodes. A node is addressed by a [`SurfaceHandle`] that
//! stays valid for the life of the surface: nodes are created detached, attached
//! below an element with [`Surface::insert_before`] and detached again with
//! [`Surface::remove`]. Every mutation is also recorded as a [`Patch`], so that a
//! binding to a concrete rendering target can replay exactly what the engine did.

use vstd::prelude::*;

verus! {

/// A stable reference to a node of the surface.
pub type SurfaceHandle = usize;

/// The two kinds of node that a surface holds.
#[derive(Clone, Copy, PartialEq, Eq, Structural, Debug)]
pub enum SurfaceKind {
    /// A named element, which may hold attributes, listeners and children.
    Element,
    /// A run of text.
    Text,
}

/// One mutation of the surface, in terms of handles alone. The strings that belong
/// to a patch (a tag, a text, the attributes) are read from the surface itself.
#[derive(Clone, Copy, PartialEq, Eq, Structural, Debug)]
pub enum Patch {
    /// The element `node` was created, detached.
    CreateElement { node: SurfaceHandle },
    /// The text node `node` was created, detached.
    CreateText { node: SurfaceHandle },
    /// `node` became a child of `parent`, in front of `next_sibling`, or last.
    InsertBefore { parent: SurfaceHandle, node: SurfaceHandle, next_sibling: Option<SurfaceHandle> },
    /// `node` stopped being a child of `parent`.
    Remove { parent: SurfaceHandle, node: SurfaceHandle },
    /// The content of the text node `node` changed.
    SetText { node: SurfaceHandle },
    /// The attributes of the element `node` changed.
    SetAttributes { node: SurfaceHandle },
    /// The listeners of the element `node` changed.
    SetListeners { node: SurfaceHandle },
}

impl Patch {
    /// Whether the patch changes the shape of the tree, and not just what a node holds.
    pub open spec fn structural(self) -> bool {
        match self {
            Patch::CreateElement { .. } => true,
            Patch::CreateText { .. } => true,
            Patch::InsertBefore { .. } => true,
            Patch::Remove { .. } => true,
            Patch::SetText { .. } => false,
            Patch::SetAttributes { .. } => false,
            Patch::SetListeners { .. } => false,
        }
    }

    /// Whether the patch changes the shape of the tree.
    pub fn is_structural(&self) -> (r: bool)
        ensures
            r == self.structural(),
    {
        match self {
            Patch::CreateElement { .. } => true,
            Patch::CreateText { .. } => true,
            Patch::InsertBefore { .. } => true,
            Patch::Remove { .. } => true,
            Patch::SetText { .. } => false,
            Patch::SetAttributes { .. } => false,
            Patch::SetListeners { .. } => false,
        }
    }
}

/// A name and a value set on an element.
#[derive(Debug)]
pub struct Attribute {
    pub name: String,
    pub value: String,
}

impl View for Attribute {
    type V = (Seq<char>, Seq<char>);

    open spec fn view(&self) -> (Seq<char>, Seq<char>) {
        (self.name@, self.value@)
    }
}

impl Clone for Attribute {
    fn clone(&self) -> (r: Self)
        ensures
            r@ == self@,
    {
        Attribute { name: self.name.clone(), value: self.value.clone() }
    }
}

/// A listener bound to an element: the kind of event it waits for, and the
/// identifier under which the binding finds the handler to call.
#[derive(Debug)]
pub struct Listener {
    pub kind: String,
    pub handler: u64,
}

impl View for Listener {
    type V = (Seq<char>, u64);

    open spec fn view(&self) -> (Seq<char>, u64) {
        (self.kind@, self.handler)
    }
}

impl Clone for Listener {
    fn clone(&self) -> (r: Self)
        ensures
            r@ == self@,
    {
        Listener { kind: self.kind.clone(), handler: self.handler }
    }
}

/// The views of a list of attributes, in order.
pub open spec fn attributes_view(attributes: Seq<Attribute>) -> Seq<(Seq<char>, Seq<char>)> {
    Seq::new(attributes.len(), |i: int| attributes[i]@)
}

/// The views of a list of listeners, in order.
pub open spec fn listeners_view(listeners: Seq<Listener>) -> Seq<(Seq<char>, u64)> {
    Seq::new(listeners.len(), |i: int| listeners[i]@)
}

/// Copies a list of attributes.
pub fn clone_attributes(attributes: &Vec<Attribute>) -> (r: Vec<Attribute>)
    ensures
        attributes_view(r@) == attributes_view(attributes@),
{
    let mut r: Vec<Attribute> = Vec::new();
    let mut i: usize = 0;
    while i < attributes.len()
        invariant
            i <= attributes.len(),
            r.len() == i,
            forall|j: int| 0 <= j < i ==> (#[trigger] r[j])@ == attributes[j]@,
        decreases attributes.len() - i,
    {
        r.push(attributes[i].clone());
        i += 1;
    }
    assert(attributes_view(r@) =~= attributes_view(attributes@));
    r
}

/// Copies a list of listeners.
pub fn clone_listeners(listeners: &Vec<Listener>) -> (r: Vec<Listener>)
    ensures
        listeners_view(r@) == listeners_view(listeners@),
{
    let mut r: Vec<Listener> = Vec::new();
    let mut i: usize = 0;
    while i < listeners.len()
        invariant
            i <= listeners.len(),
            r.len() == i,
            forall|j: int| 0 <= j < i ==> (#[trigger] r[j])@ == listeners[j]@,
        decreases listeners.len() - i,
    {
        r.push(listeners[i].clone());
        i += 1;
    }
    assert(listeners_view(r@) =~= listeners_view(listeners@));
    r
}

/// Whether two lists of attributes hold the same names and values in the same order.
pub fn same_attributes(a: &Vec<Attribute>, b: &Vec<Attribute>) -> (r: bool)
    ensures
        r == (attributes_view(a@) == attributes_view(b@)),
{
    if a.len() != b.len() {
        assert(attributes_view(a@).len() != attributes_view(b@).len());
        return false;
    }
    let mut i: usize = 0;
    while i < a.len()
        invariant
            i <= a.len(),
            a.len() == b.len(),
            forall|j: int| 0 <= j < i ==> (#[trigger] a[j])@ == b[j]@,
        decreases a.len() - i,
    {
        if !(a[i].name == b[i].name && a[i].value == b[i].value) {
            assert(attributes_view(a@)[i as int] != attributes_view(b@)[i as int]);
            return false;
        }
        i += 1;
    }
    assert(attributes_view(a@) =~= attributes_view(b@));
    true
}

/// Whether two lists of listeners hold the same kinds and handlers in the same order.
pub fn same_listeners(a: &Vec<Listener>, b: &Vec<Listener>) -> (r: bool)
    ensures
        r == (listeners_view(a@) == listeners_view(b@)),
{
    if a.len() != b.len() {
        assert(listeners_view(a@).len() != listeners_view(b@).len());
        return false;
    }
    let mut i: usize = 0;
    while i < a.len()
        invariant
            i <= a.len(),
            a.len() == b.len(),
            forall|j: int| 0 <= j < i ==> (#[trigger] a[j])@ == b[j]@,
        decreases a.len() - i,
    {
        if !(a[i].kind == b[i].kind && a[i].handler == b[i].handler) {
            assert(listeners_view(a@)[i as int] != listeners_view(b@)[i as int]);
            return false;
        }
        i += 1;
    }
    assert(listeners_view(a@) =~= listeners_view(b@));
    true
}

/// What a node of the surface is, as a mathematical value.
pub struct NodeView {
    pub kind: SurfaceKind,
    /// The tag of an element; empty for a text node.
    pub tag: Seq<char>,
    /// The content of a text node; empty for an element.
    pub text: Seq<char>,
    pub attributes: Seq<(Seq<char>, Seq<char>)>,
    pub listeners: Seq<(Seq<char>, u64)>,
    pub parent: Option<SurfaceHandle>,
    pub children: Seq<SurfaceHandle>,
}

/// What a surface is, as a mathematical value: its nodes by handle, and the
/// patches recorded since they were last taken.
pub struct SurfaceView {
    pub nodes: Seq<NodeView>,
    pub patches: Seq<Patch>,
}

impl SurfaceView {
    /// Whether `handle` names a node of this surface.
    pub open spec fn contains(self, handle: SurfaceHandle) -> bool {
        handle < self.nodes.len()
    }

    pub open spec fn node(self, handle: SurfaceHandle) -> NodeView {
        self.nodes[handle as int]
    }

    pub open spec fn is_element(self, handle: SurfaceHandle) -> bool {
        self.contains(handle) && self.node(handle).kind == SurfaceKind::Element
    }

    pub open spec fn is_text(self, handle: SurfaceHandle) -> bool {
        self.contains(handle) && self.node(handle).kind == SurfaceKind::Text
    }

    pub open spec fn children(self, handle: SurfaceHandle) -> Seq<SurfaceHandle> {
        self.node(handle).children
    }

    pub open spec fn parent(self, handle: SurfaceHandle) -> Option<SurfaceHandle> {
        self.node(handle).parent
    }

    /// Whether `node` is a child of `parent`.
    pub open spec fn is_child(self, parent: SurfaceHandle, node: SurfaceHandle) -> bool {
        self.contains(node) && self.parent(node) == Some(parent)
    }

    /// The node that follows `node` among the children of its parent.
    pub open spec fn next_sibling(self, node: SurfaceHandle) -> Option<SurfaceHandle> {
        if self.contains(node) && self.parent(node).is_some() {
            let siblings = self.children(self.parent(node).unwrap());
            let i = siblings.index_of(node);
            if i + 1 < siblings.len() {
                Some(siblings[i + 1])
            } else {
                None
            }
        } else {
            None
        }
    }

    /// The parent and child links agree with each other: a node is listed once
    /// under its parent and nowhere else, only elements have children, and no node
    /// is its own parent.
    pub open spec fn wf(self) -> bool {
        &&& forall|h: SurfaceHandle, i: int|
            self.contains(h) && 0 <= i < self.children(h).len() ==> self.is_child(
                h,
                #[trigger] self.children(h)[i],
            )
        &&& forall|c: SurfaceHandle|
            self.contains(c) && (#[trigger] self.parent(c)).is_some() ==> self.contains(
                self.parent(c).unwrap(),
            ) && self.children(self.parent(c).unwrap()).contains(c)
        &&& forall|h: SurfaceHandle|
            self.contains(h) ==> (#[trigger] self.children(h)).no_duplicates()
        &&& forall|h: SurfaceHandle|
            self.contains(h) && !self.is_element(h) ==> (#[trigger] self.children(h)).len() == 0
        &&& forall|h: SurfaceHandle| self.contains(h) ==> #[trigger] self.parent(h) != Some(h)
    }

    /// Whether `target` is met within `fuel` steps on the way from `from` up through
    /// its parents, `from` itself included.
    pub open spec fn reaches(self, from: SurfaceHandle, target: SurfaceHandle, fuel: nat) -> bool
        decreases fuel,
    {
        if !self.contains(from) {
            false
        } else if from == target {
            true
        } else if fuel == 0 {
            false
        } else {
            match self.parent(from) {
                Some(p) => self.reaches(p, target, (fuel - 1) as nat),
                None => false,
            }
        }
    }

    /// Whether `node` lies on the way from `parent` up to its root, so that making
    /// it a child of `parent` would close a cycle.
    pub open spec fn encloses(self, node: SurfaceHandle, parent: SurfaceHandle) -> bool {
        self.reaches(parent, node, self.nodes.len())
    }

    /// The surface with a fresh detached node appended.
    pub open spec fn with_created(self, node: NodeView, patch: Patch) -> SurfaceView {
        SurfaceView { nodes: self.nodes.push(node), patches: self.patches.push(patch) }
    }

    /// The nodes after `node` has left the children of its parent, if it had one.
    pub open spec fn nodes_without_link(self, node: SurfaceHandle) -> Seq<NodeView> {
        match self.parent(node) {
            Some(p) => {
                let i = self.children(p).index_of(node);
                self.nodes.update(
                    p as int,
                    NodeView { children: self.children(p).remove(i), ..self.node(p) },
                ).update(node as int, NodeView { parent: None, ..self.node(node) })
            },
            None => self.nodes,
        }
    }

    /// The surface after a text node with the content `text` was created and
    /// made a child of `parent`, in front of `next_sibling`.
    pub open spec fn added_text(
        self,
        parent: SurfaceHandle,
        text: Seq<char>,
        next_sibling: Option<SurfaceHandle>,
    ) -> SurfaceView {
        self.with_created(
            Self::new_text(text),
            Patch::CreateText { node: self.nodes.len() as SurfaceHandle },
        ).inserted(parent, self.nodes.len() as SurfaceHandle, next_sibling)
    }

    /// The surface after an element of the tag `tag` was created and made a
    /// child of `parent`, in front of `next_sibling`.
    pub open spec fn added_element(
        self,
        parent: SurfaceHandle,
        tag: Seq<char>,
        next_sibling: Option<SurfaceHandle>,
    ) -> SurfaceView {
        self.with_created(
            Self::new_element(tag),
            Patch::CreateElement { node: self.nodes.len() as SurfaceHandle },
        ).inserted(parent, self.nodes.len() as SurfaceHandle, next_sibling)
    }

    /// Whether [`Surface::insert_before`] can attach `node` below `parent`.
    pub open spec fn can_insert(self, parent: SurfaceHandle, node: SurfaceHandle) -> bool {
        &&& self.is_element(parent)
        &&& self.contains(node)
        &&& !self.encloses(node, parent)
    }

    /// The place among `siblings` in front of which a node is inserted for the
    /// anchor `next_sibling`: the anchor's place where it is one of them, else the end.
    pub open spec fn insertion_index(
        siblings: Seq<SurfaceHandle>,
        next_sibling: Option<SurfaceHandle>,
    ) -> int {
        match next_sibling {
            Some(s) => if siblings.contains(s) {
                siblings.index_of(s)
            } else {
                siblings.len() as int
            },
            None => siblings.len() as int,
        }
    }

    /// The anchor that is recorded for an insertion: the one asked for where it is
    /// one of `siblings` and is not the node itself, else none.
    pub open spec fn resolved_anchor(
        siblings: Seq<SurfaceHandle>,
        next_sibling: Option<SurfaceHandle>,
    ) -> Option<SurfaceHandle> {
        match next_sibling {
            Some(s) => if siblings.contains(s) {
                Some(s)
            } else {
                None
            },
            None => None,
        }
    }

    /// The surface after `node` was detached from where it was and attached below
    /// `parent` in front of `next_sibling`.
    pub open spec fn inserted(
        self,
        parent: SurfaceHandle,
        node: SurfaceHandle,
        next_sibling: Option<SurfaceHandle>,
    ) -> SurfaceView {
        let loose = self.nodes_without_link(node);
        let siblings = loose[parent as int].children;
        let at = Self::insertion_index(siblings, next_sibling);
        SurfaceView {
            nodes: loose.update(
                parent as int,
                NodeView { children: siblings.insert(at, node), ..loose[parent as int] },
            ).update(node as int, NodeView { parent: Some(parent), ..loose[node as int] }),
            patches: self.patches.push(
                Patch::InsertBefore {
                    parent,
                    node,
                    next_sibling: Self::resolved_anchor(siblings, next_sibling),
                },
            ),
        }
    }

    /// The node that follows `node` among the children of `parent`, if `node` is one of them.
    pub open spec fn next_sibling_in(
        self,
        parent: SurfaceHandle,
        node: Option<SurfaceHandle>,
    ) -> Option<SurfaceHandle> {
        match node {
            Some(h) => if self.is_child(parent, h) {
                self.next_sibling(h)
            } else {
                None
            },
            None => None,
        }
    }

    /// The surface after `node`, if it is a child of `parent`, left its children.
    pub open spec fn without(self, parent: SurfaceHandle, node: Option<SurfaceHandle>) -> SurfaceView {
        match node {
            Some(h) => if self.is_child(parent, h) {
                self.removed(parent, h)
            } else {
                self
            },
            None => self,
        }
    }

    /// The surface after the text node `node` was given the content `text`: as
    /// before where `node` is no text node or holds `text` already.
    pub open spec fn with_text(self, node: SurfaceHandle, text: Seq<char>) -> SurfaceView {
        if self.is_text(node) && self.node(node).text != text {
            SurfaceView {
                nodes: self.nodes.update(node as int, NodeView { text, ..self.node(node) }),
                patches: self.patches.push(Patch::SetText { node }),
            }
        } else {
            self
        }
    }

    /// The surface after the element `node` was given the attributes `attributes`:
    /// as before where `node` is no element or holds them already.
    pub open spec fn with_attributes(
        self,
        node: SurfaceHandle,
        attributes: Seq<(Seq<char>, Seq<char>)>,
    ) -> SurfaceView {
        if self.is_element(node) && self.node(node).attributes != attributes {
            SurfaceView {
                nodes: self.nodes.update(node as int, NodeView { attributes, ..self.node(node) }),
                patches: self.patches.push(Patch::SetAttributes { node }),
            }
        } else {
            self
        }
    }

    /// The surface after the element `node` was given the listeners `listeners`:
    /// as before where `node` is no element or holds them already.
    pub open spec fn with_listeners(
        self,
        node: SurfaceHandle,
        listeners: Seq<(Seq<char>, u64)>,
    ) -> SurfaceView {
        if self.is_element(node) && self.node(node).listeners != listeners {
            SurfaceView {
                nodes: self.nodes.update(node as int, NodeView { listeners, ..self.node(node) }),
                patches: self.patches.push(Patch::SetListeners { node }),
            }
        } else {
            self
        }
    }

    /// Whether `later` holds every node of this surface, with the kind and the tag
    /// that it has here: nodes are added to a surface and never taken from it.
    pub open spec fn evolves_to(self, later: SurfaceView) -> bool {
        &&& self.nodes.len() <= later.nodes.len()
        &&& forall|h: SurfaceHandle|
            #![trigger later.node(h)]
            self.contains(h) ==> later.node(h).kind == self.node(h).kind && later.node(h).tag
                == self.node(h).tag
    }

    /// Whether `later` holds every node of this surface that is not in `touched`
    /// as it is here, but for the children of `parent`.
    pub open spec fn preserved_outside(
        self,
        later: SurfaceView,
        touched: Set<SurfaceHandle>,
        parent: SurfaceHandle,
    ) -> bool {
        forall|h: SurfaceHandle|
            #![trigger later.node(h)]
            self.contains(h) && !touched.contains(h) ==> later.contains(h) && later.node(h) == (
            if h == parent {
                NodeView { children: later.node(h).children, ..self.node(h) }
            } else {
                self.node(h)
            })
    }

    /// Whether the two surfaces have the same shape: the same nodes of the same
    /// kinds, with the same parents and children.
    pub open spec fn same_shape(self, other: SurfaceView) -> bool {
        &&& self.nodes.len() == other.nodes.len()
        &&& forall|h: SurfaceHandle| #![trigger self.node(h)] #![trigger other.node(h)]
            self.contains(h) ==> {
                &&& self.node(h).kind == other.node(h).kind
                &&& self.node(h).tag == other.node(h).tag
                &&& self.node(h).parent == other.node(h).parent
                &&& self.node(h).children == other.node(h).children
            }
    }

    /// The surface after `node` left the children of `parent`.
    pub open spec fn removed(self, parent: SurfaceHandle, node: SurfaceHandle) -> SurfaceView {
        SurfaceView {
            nodes: self.nodes_without_link(node),
            patches: self.patches.push(Patch::Remove { parent, node }),
        }
    }
}


/// A node of the surface.
struct SurfaceNode {
    kind: SurfaceKind,
    tag: String,
    text: String,
    attributes: Vec<Attribute>,
    listeners: Vec<Listener>,
    parent: Option<SurfaceHandle>,
    children: Vec<SurfaceHandle>,
}

impl View for SurfaceNode {
    type V = NodeView;

    closed spec fn view(&self) -> NodeView {
        NodeView {
            kind: self.kind,
            tag: self.tag@,
            text: self.text@,
            attributes: attributes_view(self.attributes@),
            listeners: listeners_view(self.listeners@),
            parent: self.parent,
            children: self.children@,
        }
    }
}

/// The live tree, with the patches that brought it to where it is.
pub struct Surface {
    nodes: Vec<SurfaceNode>,
    patches: Vec<Patch>,
}

impl View for Surface {
    type V = SurfaceView;

    closed spec fn view(&self) -> SurfaceView {
        SurfaceView {
            nodes: Seq::new(self.nodes@.len(), |i: int| self.nodes@[i]@),
            patches: self.patches@,
        }
    }
}

/// The first place at which `needle` stands in `haystack`.
fn position(haystack: &Vec<SurfaceHandle>, needle: SurfaceHandle) -> (r: Option<usize>)
    ensures
        match r {
            Some(i) => i < haystack.len() && haystack[i as int] == needle && (
            haystack@.no_duplicates() ==> haystack@.index_of(needle) == i),
            None => !haystack@.contains(needle),
        },
{
    let mut i: usize = 0;
    while i < haystack.len()
        invariant
            i <= haystack.len(),
            forall|j: int| 0 <= j < i ==> haystack[j] != needle,
        decreases haystack.len() - i,
    {
        if haystack[i] == needle {
            proof {
                if haystack@.no_duplicates() {
                    let k = haystack@.index_of(needle);
                    assert(haystack@[i as int] == needle);
                    assert(0 <= k < haystack@.len() && haystack@[k] == needle);
                }
            }
            return Some(i);
        }
        i += 1;
    }
    None
}

impl Surface {
    /// Whether the surface is well formed.
    pub open spec fn wf(&self) -> bool {
        self@.wf()
    }

    /// An empty surface.
    pub fn new() -> (surface: Surface)
        ensures
            surface.wf(),
            surface@.nodes.len() == 0,
            surface@.patches.len() == 0,
    {
        Surface { nodes: Vec::new(), patches: Vec::new() }
    }

    /// The number of nodes ever created on this surface.
    pub fn len(&self) -> (n: usize)
        ensures
            n == self@.nodes.len(),
    {
        self.nodes.len()
    }

    /// Whether `handle` names a node of this surface.
    pub fn contains(&self, handle: SurfaceHandle) -> (r: bool)
        ensures
            r == self@.contains(handle),
    {
        handle < self.nodes.len()
    }

    /// Whether `handle` names an element.
    pub fn is_element(&self, handle: SurfaceHandle) -> (r: bool)
        ensures
            r == self@.is_element(handle),
    {
        handle < self.nodes.len() && match self.nodes[handle].kind {
            SurfaceKind::Element => true,
            SurfaceKind::Text => false,
        }
    }

    /// Whether `handle` names a text node.
    pub fn is_text(&self, handle: SurfaceHandle) -> (r: bool)
        ensures
            r == self@.is_text(handle),
    {
        handle < self.nodes.len() && match self.nodes[handle].kind {
            SurfaceKind::Element => false,
            SurfaceKind::Text => true,
        }
    }

    /// The tag of the element `handle`; empty for a text node.
    pub fn tag(&self, handle: SurfaceHandle) -> (tag: &String)
        requires
            self@.contains(handle),
        ensures
            tag@ == self@.node(handle).tag,
    {
        &self.nodes[handle].tag
    }

    /// The content of the text node `handle`; empty for an element.
    pub fn text(&self, handle: SurfaceHandle) -> (text: &String)
        requires
            self@.contains(handle),
        ensures
            text@ == self@.node(handle).text,
    {
        &self.nodes[handle].text
    }

    /// The attributes of `handle`.
    pub fn attributes(&self, handle: SurfaceHandle) -> (attributes: &Vec<Attribute>)
        requires
            self@.contains(handle),
        ensures
            attributes_view(attributes@) == self@.node(handle).attributes,
    {
        &self.nodes[handle].attributes
    }

    /// The listeners of `handle`.
    pub fn listeners(&self, handle: SurfaceHandle) -> (listeners: &Vec<Listener>)
        requires
            self@.contains(handle),
        ensures
            listeners_view(listeners@) == self@.node(handle).listeners,
    {
        &self.nodes[handle].listeners
    }

    /// The parent of `handle`, if it is attached.
    pub fn parent(&self, handle: SurfaceHandle) -> (parent: Option<SurfaceHandle>)
        requires
            self@.contains(handle),
        ensures
            parent == self@.parent(handle),
    {
        self.nodes[handle].parent
    }

    /// The children of `handle`, in order.
    pub fn children(&self, handle: SurfaceHandle) -> (children: &Vec<SurfaceHandle>)
        requires
            self@.contains(handle),
        ensures
            children@ == self@.children(handle),
    {
        &self.nodes[handle].children
    }

    /// The node that follows `handle` among the children of its parent.
    pub fn next_sibling(&self, handle: SurfaceHandle) -> (next: Option<SurfaceHandle>)
        requires
            self.wf(),
        ensures
            next == self@.next_sibling(handle),
    {
        if handle >= self.nodes.len() {
            return None;
        }
        match self.nodes[handle].parent {
            Some(p) => {
                assert(self@.parent(handle).is_some());
                let siblings = &self.nodes[p].children;
                assert(siblings@ == self@.children(p));
                match position(siblings, handle) {
                    Some(i) => {
                        if i + 1 < siblings.len() {
                            Some(siblings[i + 1])
                        } else {
                            None
                        }
                    },
                    None => None,
                }
            },
            None => None,
        }
    }

    /// The patches recorded since they were last taken.
    pub fn patches(&self) -> (patches: &Vec<Patch>)
        ensures
            patches@ == self@.patches,
    {
        &self.patches
    }

    /// Hands out the recorded patches and starts a new record.
    pub fn take_patches(&mut self) -> (patches: Vec<Patch>)
        ensures
            patches@ == old(self)@.patches,
            final(self)@.nodes == old(self)@.nodes,
            final(self)@.patches.len() == 0,
    {
        let mut taken: Vec<Patch> = Vec::new();
        std::mem::swap(&mut taken, &mut self.patches);
        taken
    }

    /// Creates a detached element with the tag `tag`.
    pub fn create_element(&mut self, tag: &str) -> (node: SurfaceHandle)
        requires
            old(self).wf(),
        ensures
            final(self).wf(),
            node == old(self)@.nodes.len(),
            final(self)@ == old(self)@.with_created(
                NodeView {
                    kind: SurfaceKind::Element,
                    tag: tag@,
                    text: Seq::empty(),
                    attributes: Seq::empty(),
                    listeners: Seq::empty(),
                    parent: None,
                    children: Seq::empty(),
                },
                Patch::CreateElement { node },
            ),
    {
        let node = self.nodes.len();
        self.nodes.push(
            SurfaceNode {
                kind: SurfaceKind::Element,
                tag: tag.to_owned(),
                text: String::new(),
                attributes: Vec::new(),
                listeners: Vec::new(),
                parent: None,
                children: Vec::new(),
            },
        );
        self.patches.push(Patch::CreateElement { node });
        proof {
            let created = NodeView {
                kind: SurfaceKind::Element,
                tag: tag@,
                text: Seq::empty(),
                attributes: Seq::empty(),
                listeners: Seq::empty(),
                parent: None,
                children: Seq::empty(),
            };
            assert(self.nodes@[node as int]@.attributes =~= Seq::empty());
            assert(self.nodes@[node as int]@.listeners =~= Seq::empty());
            assert(self@.nodes =~= old(self)@.nodes.push(created));
            Self::lemma_created_wf(old(self)@, created, Patch::CreateElement { node });
        }
        node
    }

    /// Creates a detached text node that holds `text`.
    pub fn create_text(&mut self, text: &str) -> (node: SurfaceHandle)
        requires
            old(self).wf(),
        ensures
            final(self).wf(),
            node == old(self)@.nodes.len(),
            final(self)@ == old(self)@.with_created(
                NodeView {
                    kind: SurfaceKind::Text,
                    tag: Seq::empty(),
                    text: text@,
                    attributes: Seq::empty(),
                    listeners: Seq::empty(),
                    parent: None,
                    children: Seq::empty(),
                },
                Patch::CreateText { node },
            ),
    {
        let node = self.nodes.len();
        self.nodes.push(
            SurfaceNode {
                kind: SurfaceKind::Text,
                tag: String::new(),
                text: text.to_owned(),
                attributes: Vec::new(),
                listeners: Vec::new(),
                parent: None,
                children: Vec::new(),
            },
        );
        self.patches.push(Patch::CreateText { node });
        proof {
            let created = NodeView {
                kind: SurfaceKind::Text,
                tag: Seq::empty(),
                text: text@,
                attributes: Seq::empty(),
                listeners: Seq::empty(),
                parent: None,
                children: Seq::empty(),
            };
            assert(self.nodes@[node as int]@.attributes =~= Seq::empty());
            assert(self.nodes@[node as int]@.listeners =~= Seq::empty());
            assert(self@.nodes =~= old(self)@.nodes.push(created));
            Self::lemma_created_wf(old(self)@, created, Patch::CreateText { node });
        }
        node
    }

    proof fn lemma_created_wf(before: SurfaceView, created: NodeView, patch: Patch)
        requires
            before.wf(),
            created.parent.is_none(),
            created.children.len() == 0,
        ensures
            before.with_created(created, patch).wf(),
    {
        let after = before.with_created(created, patch);
        assert forall|h: SurfaceHandle, i: int|
            after.contains(h) && 0 <= i < after.children(h).len() implies after.is_child(
            h,
            #[trigger] after.children(h)[i],
        ) by {
            assert(before.contains(h));
            assert(before.is_child(h, before.children(h)[i]));
        }
        assert forall|c: SurfaceHandle|
            after.contains(c) && (#[trigger] after.parent(c)).is_some() implies after.contains(
            after.parent(c).unwrap(),
        ) && after.children(after.parent(c).unwrap()).contains(c) by {
            assert(before.contains(c));
            assert(before.parent(c).is_some());
        }
        assert forall|h: SurfaceHandle| after.contains(h) implies (#[trigger] after.children(
            h,
        )).no_duplicates() by {
            if before.contains(h) {
                assert(before.children(h).no_duplicates());
            }
        }
        assert forall|h: SurfaceHandle|
            after.contains(h) && !after.is_element(h) implies (#[trigger] after.children(
            h,
        )).len() == 0 by {
            if before.contains(h) {
                assert(!before.is_element(h));
                assert(before.children(h).len() == 0);
            }
        }
        assert forall|h: SurfaceHandle| after.contains(h) implies #[trigger] after.parent(h)
            != Some(h) by {
            if before.contains(h) {
                assert(before.parent(h) != Some(h));
            }
        }
    }
}


/// Taking one item out of a list without repetitions leaves the others, once each.
pub proof fn lemma_remove_unique(s: Seq<SurfaceHandle>, i: int)
    requires
        s.no_duplicates(),
        0 <= i < s.len(),
    ensures
        s.remove(i).no_duplicates(),
        !s.remove(i).contains(s[i]),
        forall|x: SurfaceHandle| x != s[i] && s.contains(x) ==> s.remove(i).contains(x),
        forall|j: int| 0 <= j < s.remove(i).len() ==> s.contains(#[trigger] s.remove(i)[j]),
{
    let r = s.remove(i);
    assert forall|j: int| 0 <= j < r.len() implies s.contains(#[trigger] r[j]) && r[j] != s[i] by {
        if j < i {
            assert(r[j] == s[j]);
        } else {
            assert(r[j] == s[j + 1]);
        }
    }
    assert forall|a: int, b: int| 0 <= a < r.len() && 0 <= b < r.len() && a != b implies r[a]
        != r[b] by {
        let a0 = if a < i { a } else { a + 1 };
        let b0 = if b < i { b } else { b + 1 };
        assert(r[a] == s[a0]);
        assert(r[b] == s[b0]);
    }
    assert forall|x: SurfaceHandle| x != s[i] && s.contains(x) implies r.contains(x) by {
        let k = choose|k: int| 0 <= k < s.len() && s[k] == x;
        if k < i {
            assert(r[k] == x);
        } else {
            assert(r[k - 1] == x);
        }
    }
}

/// Putting a new item into a list without repetitions keeps it so.
pub proof fn lemma_insert_unique(s: Seq<SurfaceHandle>, at: int, x: SurfaceHandle)
    requires
        s.no_duplicates(),
        !s.contains(x),
        0 <= at <= s.len(),
    ensures
        s.insert(at, x).no_duplicates(),
        s.insert(at, x).contains(x),
        forall|y: SurfaceHandle| s.contains(y) ==> s.insert(at, x).contains(y),
        forall|j: int|
            0 <= j < s.insert(at, x).len() ==> (#[trigger] s.insert(at, x)[j]) == x || s.contains(
                s.insert(at, x)[j],
            ),
{
    let r = s.insert(at, x);
    assert(r[at] == x);
    assert forall|j: int| 0 <= j < r.len() implies (#[trigger] r[j]) == x || s.contains(r[j]) by {
        if j < at {
            assert(r[j] == s[j]);
        } else if j > at {
            assert(r[j] == s[j - 1]);
        }
    }
    assert forall|a: int, b: int| 0 <= a < r.len() && 0 <= b < r.len() && a != b implies r[a]
        != r[b] by {
        let a0 = if a < at { a } else { a - 1 };
        let b0 = if b < at { b } else { b - 1 };
        if a != at {
            assert(r[a] == s[a0]);
        }
        if b != at {
            assert(r[b] == s[b0]);
        }
    }
    assert forall|y: SurfaceHandle| s.contains(y) implies r.contains(y) by {
        let k = choose|k: int| 0 <= k < s.len() && s[k] == y;
        if k < at {
            assert(r[k] == y);
        } else {
            assert(r[k + 1] == y);
        }
    }
}

impl SurfaceView {
    /// Detaching a node keeps the surface well formed.
    pub proof fn lemma_unlinked_wf(self, node: SurfaceHandle)
        requires
            self.wf(),
            self.contains(node),
        ensures
            (SurfaceView { nodes: self.nodes_without_link(node), patches: self.patches }).wf(),
            self.nodes_without_link(node).len() == self.nodes.len(),
            self.nodes_without_link(node)[node as int].parent.is_none(),
            forall|h: SurfaceHandle|
                self.contains(h) ==> (#[trigger] self.nodes_without_link(node)[h as int]).kind
                    == self.node(h).kind,
            forall|h: SurfaceHandle|
                self.contains(h) ==> !(#[trigger] self.nodes_without_link(
                    node,
                )[h as int]).children.contains(node),
    {
        let after = SurfaceView { nodes: self.nodes_without_link(node), patches: self.patches };
        match self.parent(node) {
            Some(p) => {
                assert(self.contains(p) && self.children(p).contains(node));
                assert(p != node);
                let i = self.children(p).index_of(node);
                assert(self.children(p).no_duplicates());
                lemma_remove_unique(self.children(p), i);
                assert(after.children(p) == self.children(p).remove(i));
                assert forall|h: SurfaceHandle, j: int|
                    after.contains(h) && 0 <= j < after.children(h).len() implies after.is_child(
                    h,
                    #[trigger] after.children(h)[j],
                ) by {
                    let c = after.children(h)[j];
                    if h == p {
                        assert(self.children(p).contains(c));
                        let k = choose|k: int| 0 <= k < self.children(p).len() && self.children(
                            p,
                        )[k] == c;
                        assert(self.is_child(p, self.children(p)[k]));
                    } else {
                        assert(after.children(h) == self.children(h));
                        assert(self.is_child(h, self.children(h)[j]));
                    }
                }
                assert forall|c: SurfaceHandle|
                    after.contains(c) && (#[trigger] after.parent(c)).is_some() implies after.contains(
                    after.parent(c).unwrap(),
                ) && after.children(after.parent(c).unwrap()).contains(c) by {
                    assert(c != node);
                    assert(self.parent(c).is_some());
                    let q = self.parent(c).unwrap();
                    assert(self.children(q).contains(c));
                }
                assert forall|h: SurfaceHandle| after.contains(h) implies (#[trigger] after.children(
                    h,
                )).no_duplicates() by {
                    assert(self.children(h).no_duplicates());
                }
                assert forall|h: SurfaceHandle|
                    after.contains(h) && !after.is_element(h) implies (#[trigger] after.children(
                    h,
                )).len() == 0 by {
                    assert(!self.is_element(h));
                    assert(self.children(h).len() == 0);
                }
                assert forall|h: SurfaceHandle| after.contains(h) implies #[trigger] after.parent(h)
                    != Some(h) by {
                    assert(self.parent(h) != Some(h));
                }
                assert forall|h: SurfaceHandle| self.contains(h) implies !(
                #[trigger] self.nodes_without_link(node)[h as int]).children.contains(node) by {
                    if h != p {
                        if self.children(h).contains(node) {
                            let k = choose|k: int| 0 <= k < self.children(h).len() && self.children(
                                h,
                            )[k] == node;
                            assert(self.is_child(h, self.children(h)[k]));
                        }
                    }
                }
            },
            None => {
                assert forall|h: SurfaceHandle| self.contains(h) implies !(
                #[trigger] self.nodes_without_link(node)[h as int]).children.contains(node) by {
                    if self.children(h).contains(node) {
                        let k = choose|k: int| 0 <= k < self.children(h).len() && self.children(
                            h,
                        )[k] == node;
                        assert(self.is_child(h, self.children(h)[k]));
                    }
                }
            },
        }
    }

    /// Attaching a node where [`SurfaceView::can_insert`] allows it keeps the
    /// surface well formed.
    pub proof fn lemma_inserted_wf(
        self,
        parent: SurfaceHandle,
        node: SurfaceHandle,
        next_sibling: Option<SurfaceHandle>,
    )
        requires
            self.wf(),
            self.can_insert(parent, node),
        ensures
            self.inserted(parent, node, next_sibling).wf(),
            self.inserted(parent, node, next_sibling).nodes.len() == self.nodes.len(),
    {
        self.lemma_unlinked_wf(node);
        let loose = SurfaceView { nodes: self.nodes_without_link(node), patches: self.patches };
        let after = self.inserted(parent, node, next_sibling);
        let siblings = loose.children(parent);
        let at = Self::insertion_index(siblings, next_sibling);
        if node == parent {
            assert(self.reaches(parent, node, self.nodes.len()));
        }
        assert(!siblings.contains(node));
        assert(siblings.no_duplicates());
        lemma_insert_unique(siblings, at, node);
        assert(after.children(parent) == siblings.insert(at, node));
        assert(after.parent(node) == Some(parent));
        assert forall|h: SurfaceHandle, j: int|
            after.contains(h) && 0 <= j < after.children(h).len() implies after.is_child(
            h,
            #[trigger] after.children(h)[j],
        ) by {
            let c = after.children(h)[j];
            if h == parent {
                if c != node {
                    assert(siblings.contains(c));
                    let k = choose|k: int| 0 <= k < siblings.len() && siblings[k] == c;
                    assert(loose.is_child(parent, loose.children(parent)[k]));
                }
            } else {
                assert(after.children(h) == loose.children(h));
                assert(loose.is_child(h, loose.children(h)[j]));
                assert(!loose.children(h).contains(node));
            }
        }
        assert forall|c: SurfaceHandle|
            after.contains(c) && (#[trigger] after.parent(c)).is_some() implies after.contains(
            after.parent(c).unwrap(),
        ) && after.children(after.parent(c).unwrap()).contains(c) by {
            if c != node {
                assert(loose.parent(c).is_some());
                let q = loose.parent(c).unwrap();
                assert(loose.children(q).contains(c));
            }
        }
        assert forall|h: SurfaceHandle| after.contains(h) implies (#[trigger] after.children(
            h,
        )).no_duplicates() by {
            assert(loose.children(h).no_duplicates());
        }
        assert forall|h: SurfaceHandle|
            after.contains(h) && !after.is_element(h) implies (#[trigger] after.children(h)).len()
            == 0 by {
            assert(loose.node(h).kind == self.node(h).kind);
            assert(!loose.is_element(h));
            assert(loose.children(h).len() == 0);
        }
        assert forall|h: SurfaceHandle| after.contains(h) implies #[trigger] after.parent(h)
            != Some(h) by {
            assert(loose.parent(h) != Some(h));
        }
    }
}


impl SurfaceView {
    /// Changing what a node holds, and not where it stands, keeps the surface well formed.
    pub proof fn lemma_same_shape_wf(self, other: SurfaceView)
        requires
            self.wf(),
            self.same_shape(other),
        ensures
            other.wf(),
    {
        assert forall|h: SurfaceHandle, i: int|
            other.contains(h) && 0 <= i < other.children(h).len() implies other.is_child(
            h,
            #[trigger] other.children(h)[i],
        ) by {
            assert(self.node(h).children == other.node(h).children);
            let c = self.children(h)[i];
            assert(self.is_child(h, c));
            assert(self.node(c).parent == other.node(c).parent);
        }
        assert forall|c: SurfaceHandle|
            other.contains(c) && (#[trigger] other.parent(c)).is_some() implies other.contains(
            other.parent(c).unwrap(),
        ) && other.children(other.parent(c).unwrap()).contains(c) by {
            assert(self.node(c).parent == other.node(c).parent);
            assert(self.parent(c).is_some());
            let q = self.parent(c).unwrap();
            assert(self.node(q).children == other.node(q).children);
        }
        assert forall|h: SurfaceHandle| other.contains(h) implies (#[trigger] other.children(
            h,
        )).no_duplicates() by {
            assert(self.node(h).children == other.node(h).children);
            assert(self.children(h).no_duplicates());
        }
        assert forall|h: SurfaceHandle|
            other.contains(h) && !other.is_element(h) implies (#[trigger] other.children(h)).len()
            == 0 by {
            assert(self.node(h).kind == other.node(h).kind);
            assert(!self.is_element(h));
            assert(self.children(h).len() == 0);
        }
        assert forall|h: SurfaceHandle| other.contains(h) implies #[trigger] other.parent(h)
            != Some(h) by {
            assert(self.node(h).parent == other.node(h).parent);
            assert(self.parent(h) != Some(h));
        }
    }
}

impl Surface {
    /// Whether `node` lies on the way from `parent` up to its root.
    fn encloses(&self, node: SurfaceHandle, parent: SurfaceHandle) -> (r: bool)
        ensures
            r == self@.encloses(node, parent),
    {
        let mut current = parent;
        let mut fuel = self.nodes.len();
        loop
            invariant
                self@.encloses(node, parent) == self@.reaches(current, node, fuel as nat),
            decreases fuel,
        {
            if current >= self.nodes.len() {
                return false;
            }
            if current == node {
                return true;
            }
            if fuel == 0 {
                return false;
            }
            match self.nodes[current].parent {
                Some(p) => {
                    current = p;
                    fuel = fuel - 1;
                },
                None => {
                    return false;
                },
            }
        }
    }

    /// Takes `node` out of the children of its parent, if it has one.
    fn unlink(&mut self, node: SurfaceHandle)
        requires
            old(self).wf(),
            old(self)@.contains(node),
        ensures
            final(self)@.nodes == old(self)@.nodes_without_link(node),
            final(self)@.patches == old(self)@.patches,
    {
        match self.nodes[node].parent {
            Some(p) => {
                assert(old(self)@.parent(node) == Some(p));
                assert(old(self)@.contains(p) && old(self)@.children(p).contains(node));
                assert(old(self)@.children(p).no_duplicates());
                let found = position(&self.nodes[p].children, node);
                let i = found.unwrap();
                self.nodes[p].children.remove(i);
                self.nodes[node].parent = None;
                assert(self@.nodes =~= old(self)@.nodes_without_link(node));
            },
            None => {
                assert(old(self)@.parent(node).is_none());
            },
        }
    }

    /// Makes `node` a child of `parent`, in front of `next_sibling`. A node that is
    /// attached is first taken from where it stands. Where `next_sibling` is none, or
    /// is no child of `parent`, the node becomes the last child. Nothing happens, and
    /// `false` is returned, where `parent` is no element, `node` is not of this
    /// surface, or `node` is `parent` or stands above it.
    pub fn insert_before(
        &mut self,
        parent: SurfaceHandle,
        node: SurfaceHandle,
        next_sibling: Option<SurfaceHandle>,
    ) -> (done: bool)
        requires
            old(self).wf(),
        ensures
            final(self).wf(),
            done == old(self)@.can_insert(parent, node),
            done ==> final(self)@ == old(self)@.inserted(parent, node, next_sibling),
            !done ==> final(self)@ == old(self)@,
    {
        if !self.is_element(parent) || !self.contains(node) || self.encloses(node, parent) {
            assert(self@ =~= old(self)@);
            return false;
        }
        proof {
            old(self)@.lemma_unlinked_wf(node);
            old(self)@.lemma_inserted_wf(parent, node, next_sibling);
        }
        self.unlink(node);
        let ghost loose = self@;
        let siblings = &self.nodes[parent].children;
        let mut at = siblings.len();
        let mut anchor: Option<SurfaceHandle> = None;
        if let Some(s) = next_sibling {
            assert(siblings@.no_duplicates()) by {
                assert(loose.children(parent).no_duplicates());
            }
            if let Some(i) = position(siblings, s) {
                at = i;
                anchor = Some(s);
            }
        }
        assert(at == SurfaceView::insertion_index(loose.children(parent), next_sibling));
        assert(anchor == SurfaceView::resolved_anchor(loose.children(parent), next_sibling));
        self.nodes[parent].children.insert(at, node);
        self.nodes[node].parent = Some(parent);
        self.patches.push(Patch::InsertBefore { parent, node, next_sibling: anchor });
        assert(self@.nodes =~= old(self)@.inserted(parent, node, next_sibling).nodes);
        true
    }

    /// Takes `node` out of the children of `parent` and returns the node that
    /// followed it there. Nothing happens, and nothing is returned, where `node` is
    /// no child of `parent`.
    pub fn remove(&mut self, parent: SurfaceHandle, node: SurfaceHandle) -> (next: Option<
        SurfaceHandle,
    >)
        requires
            old(self).wf(),
        ensures
            final(self).wf(),
            old(self)@.is_child(parent, node) ==> final(self)@ == old(self)@.removed(parent, node)
                && next == old(self)@.next_sibling(node),
            !old(self)@.is_child(parent, node) ==> final(self)@ == old(self)@ && next.is_none(),
    {
        if !self.contains(node) {
            assert(self@ =~= old(self)@);
            return None;
        }
        match self.nodes[node].parent {
            Some(p) => {
                if p != parent {
                    assert(self@ =~= old(self)@);
                    return None;
                }
            },
            None => {
                assert(self@ =~= old(self)@);
                return None;
            },
        }
        let next = self.next_sibling(node);
        proof {
            old(self)@.lemma_unlinked_wf(node);
        }
        self.unlink(node);
        self.patches.push(Patch::Remove { parent, node });
        assert(self@ =~= old(self)@.removed(parent, node));
        proof {
            let loose = SurfaceView {
                nodes: old(self)@.nodes_without_link(node),
                patches: old(self)@.patches,
            };
            loose.lemma_same_shape_wf(self@);
        }
        next
    }

    /// Gives the text node `node` the content `text`. Nothing happens where `node`
    /// is no text node or holds `text` already.
    pub fn set_text(&mut self, node: SurfaceHandle, text: &str)
        requires
            old(self).wf(),
        ensures
            final(self).wf(),
            final(self)@ == old(self)@.with_text(node, text@),
    {
        if !self.is_text(node) {
            assert(self@ =~= old(self)@);
            return ;
        }
        let new_text = text.to_owned();
        if self.nodes[node].text == new_text {
            assert(self@ =~= old(self)@);
            return ;
        }
        self.nodes[node].text = new_text;
        self.patches.push(Patch::SetText { node });
        assert(self@.nodes =~= old(self)@.with_text(node, text@).nodes);
        proof {
            old(self)@.lemma_same_shape_wf(self@);
        }
    }

    /// Gives the element `node` the attributes `attributes`. Nothing happens where
    /// `node` is no element or holds them already.
    pub fn set_attributes(&mut self, node: SurfaceHandle, attributes: &Vec<Attribute>)
        requires
            old(self).wf(),
        ensures
            final(self).wf(),
            final(self)@ == old(self)@.with_attributes(node, attributes_view(attributes@)),
    {
        if !self.is_element(node) {
            assert(self@ =~= old(self)@);
            return ;
        }
        if same_attributes(&self.nodes[node].attributes, attributes) {
            assert(self@ =~= old(self)@);
            return ;
        }
        self.nodes[node].attributes = clone_attributes(attributes);
        self.patches.push(Patch::SetAttributes { node });
        assert(self@.nodes =~= old(self)@.with_attributes(
            node,
            attributes_view(attributes@),
        ).nodes);
        proof {
            old(self)@.lemma_same_shape_wf(self@);
        }
    }

    /// Gives the element `node` the listeners `listeners`. Nothing happens where
    /// `node` is no element or holds them already.
    pub fn set_listeners(&mut self, node: SurfaceHandle, listeners: &Vec<Listener>)
        requires
            old(self).wf(),
        ensures
            final(self).wf(),
            final(self)@ == old(self)@.with_listeners(node, listeners_view(listeners@)),
    {
        if !self.is_element(node) {
            assert(self@ =~= old(self)@);
            return ;
        }
        if same_listeners(&self.nodes[node].listeners, listeners) {
            assert(self@ =~= old(self)@);
            return ;
        }
        self.nodes[node].listeners = clone_listeners(listeners);
        self.patches.push(Patch::SetListeners { node });
        assert(self@.nodes =~= old(self)@.with_listeners(
            node,
            listeners_view(listeners@),
        ).nodes);
        proof {
            old(self)@.lemma_same_shape_wf(self@);
        }
    }
}


impl SurfaceView {
    /// What follows from a surface that evolved twice.
    pub proof fn lemma_evolves_twice(self, middle: SurfaceView, later: SurfaceView)
        requires
            self.evolves_to(middle),
            middle.evolves_to(later),
        ensures
            self.evolves_to(later),
    {
        assert forall|h: SurfaceHandle| #![trigger later.node(h)] self.contains(h) implies later.node(
            h,
        ).kind == self.node(h).kind && later.node(h).tag == self.node(h).tag by {
            assert(middle.node(h).kind == self.node(h).kind);
        }
    }

    /// Two changes, each of which kept what it did not touch, together keep what
    /// neither touched. The parent of the first change, if it is a node of the
    /// surface, counts as touched unless it is the parent of the second.
    pub proof fn lemma_preserved_twice(
        self,
        middle: SurfaceView,
        later: SurfaceView,
        first: Set<SurfaceHandle>,
        first_parent: SurfaceHandle,
        second: Set<SurfaceHandle>,
        parent: SurfaceHandle,
        touched: Set<SurfaceHandle>,
    )
        requires
            self.nodes.len() <= middle.nodes.len(),
            self.preserved_outside(middle, first, first_parent),
            middle.preserved_outside(later, second, parent),
            first.subset_of(touched),
            forall|h: SurfaceHandle| self.contains(h) && second.contains(h) ==> touched.contains(h),
            first_parent == parent || touched.contains(first_parent) || !self.contains(
                first_parent,
            ),
        ensures
            self.preserved_outside(later, touched, parent),
    {
        assert forall|h: SurfaceHandle|
            #![trigger later.node(h)]
            self.contains(h) && !touched.contains(h) implies later.contains(h) && later.node(h) == (
        if h == parent {
            NodeView { children: later.node(h).children, ..self.node(h) }
        } else {
            self.node(h)
        }) by {
            assert(!first.contains(h));
            assert(middle.contains(h));
            // The frame of the change speaks of this node.
            let _ = middle.node(h);
            assert(!second.contains(h));
        }
    }

    /// A node that was just created stands above no other node.
    pub proof fn lemma_fresh_encloses_nothing(self, node: SurfaceHandle, parent: SurfaceHandle)
        requires
            self.wf(),
            self.contains(node),
            self.children(node).len() == 0,
            node != parent,
        ensures
            !self.encloses(node, parent),
    {
        self.lemma_childless_unreached(node, parent, self.nodes.len());
    }

    proof fn lemma_childless_unreached(self, node: SurfaceHandle, from: SurfaceHandle, fuel: nat)
        requires
            self.wf(),
            self.contains(node),
            self.children(node).len() == 0,
            node != from,
        ensures
            !self.reaches(from, node, fuel),
        decreases fuel,
    {
        if self.contains(from) && fuel > 0 {
            match self.parent(from) {
                Some(p) => {
                    assert(self.children(p).contains(from));
                    self.lemma_childless_unreached(node, p, (fuel - 1) as nat);
                },
                None => {},
            }
        }
    }

    /// What attaching a detached node changes: the node itself and the children of `parent`.
    pub proof fn lemma_inserted_frame(
        self,
        parent: SurfaceHandle,
        node: SurfaceHandle,
        next_sibling: Option<SurfaceHandle>,
    )
        requires
            self.wf(),
            self.can_insert(parent, node),
            self.parent(node).is_none(),
        ensures
            self.evolves_to(self.inserted(parent, node, next_sibling)),
            self.preserved_outside(self.inserted(parent, node, next_sibling), set![node], parent),
            self.inserted(parent, node, next_sibling).node(node) == (NodeView {
                parent: Some(parent),
                ..self.node(node)
            }),
            self.inserted(parent, node, next_sibling).nodes.len() == self.nodes.len(),
            self.inserted(parent, node, next_sibling).children(parent) == self.children(
                parent,
            ).insert(Self::insertion_index(self.children(parent), next_sibling), node),
    {
        if node == parent {
            assert(self.reaches(parent, node, self.nodes.len()));
        }
    }

    /// What [`SurfaceView::without`] changes: the node itself and the children of `parent`.
    pub proof fn lemma_without_frame(self, parent: SurfaceHandle, node: Option<SurfaceHandle>)
        requires
            self.wf(),
        ensures
            self.evolves_to(self.without(parent, node)),
            self.without(parent, node).nodes.len() == self.nodes.len(),
            self.preserved_outside(
                self.without(parent, node),
                match node {
                    Some(h) => set![h],
                    None => Set::empty(),
                },
                parent,
            ),
            node matches Some(h) ==> (self.contains(h) ==> self.without(parent, node).parent(h)
                != Some(parent) && self.without(parent, node).node(h) == (NodeView {
                parent: self.without(parent, node).parent(h),
                ..self.node(h)
            })),
    {
        match node {
            Some(h) => {
                if self.is_child(parent, h) {
                    self.lemma_removed_frame(parent, h);
                }
            },
            None => {},
        }
    }

    /// What detaching a child of `parent` changes: the node itself and the children of `parent`.
    pub proof fn lemma_removed_frame(self, parent: SurfaceHandle, node: SurfaceHandle)
        requires
            self.wf(),
            self.is_child(parent, node),
        ensures
            self.evolves_to(self.removed(parent, node)),
            self.preserved_outside(self.removed(parent, node), set![node], parent),
            self.removed(parent, node).node(node) == (NodeView { parent: None, ..self.node(node) }),
            self.removed(parent, node).nodes.len() == self.nodes.len(),
    {
        assert(self.contains(parent));
        assert(parent != node);
    }
}


impl SurfaceView {
    /// Whether `later` holds the node `handle` with all that this surface holds of
    /// it but its children.
    pub open spec fn shown_alike(self, later: SurfaceView, handle: SurfaceHandle) -> bool {
        &&& later.contains(handle)
        &&& later.node(handle) == (NodeView {
            children: later.node(handle).children,
            ..self.node(handle)
        })
    }

    /// A text node as it is when it was just created.
    pub open spec fn new_text(text: Seq<char>) -> NodeView {
        NodeView {
            kind: SurfaceKind::Text,
            tag: Seq::empty(),
            text,
            attributes: Seq::empty(),
            listeners: Seq::empty(),
            parent: None,
            children: Seq::empty(),
        }
    }

    /// An element as it is when it was just created.
    pub open spec fn new_element(tag: Seq<char>) -> NodeView {
        NodeView {
            kind: SurfaceKind::Element,
            tag,
            text: Seq::empty(),
            attributes: Seq::empty(),
            listeners: Seq::empty(),
            parent: None,
            children: Seq::empty(),
        }
    }

    /// What creating a node and attaching it below `parent` changes: the children of `parent`.
    pub proof fn lemma_added(
        self,
        node: SurfaceHandle,
        created: NodeView,
        patch: Patch,
        parent: SurfaceHandle,
        next_sibling: Option<SurfaceHandle>,
    )
        requires
            self.wf(),
            self.is_element(parent),
            node == self.nodes.len(),
            created.parent.is_none(),
            created.children.len() == 0,
        ensures
            ({
                let made = self.with_created(created, patch);
                let after = made.inserted(parent, node, next_sibling);
                &&& made.wf()
                &&& made.can_insert(parent, node)
                &&& after.wf()
                &&& after.nodes.len() == self.nodes.len() + 1
                &&& self.evolves_to(after)
                &&& self.preserved_outside(after, Set::empty(), parent)
                &&& after.node(node) == (NodeView { parent: Some(parent), ..created })
                &&& after.children(parent) == self.children(parent).insert(
                    Self::insertion_index(self.children(parent), next_sibling),
                    node,
                )
            }),
    {
        let made = self.with_created(created, patch);
        Surface::lemma_created_wf(self, created, patch);
        made.lemma_fresh_encloses_nothing(node, parent);
        made.lemma_inserted_wf(parent, node, next_sibling);
        made.lemma_inserted_frame(parent, node, next_sibling);
        let after = made.inserted(parent, node, next_sibling);
        assert forall|h: SurfaceHandle| #![trigger after.node(h)] self.contains(h) implies after.node(
            h,
        ).kind == self.node(h).kind && after.node(h).tag == self.node(h).tag by {
            assert(made.node(h) == self.node(h));
        }
        assert forall|h: SurfaceHandle|
            #![trigger after.node(h)]
            self.contains(h) && !Set::<SurfaceHandle>::empty().contains(h) implies after.contains(h)
            && after.node(h) == (if h == parent {
            NodeView { children: after.node(h).children, ..self.node(h) }
        } else {
            self.node(h)
        }) by {
            assert(made.node(h) == self.node(h));
            assert(!set![node].contains(h));
        }
        assert(made.children(parent) == self.children(parent));
    }
}

impl Surface {
    /// Creates a text node that holds `text` and makes it a child of `parent`, in
    /// front of `next_sibling`, or last where `next_sibling` is none or no child of `parent`.
    pub fn add_text(
        &mut self,
        parent: SurfaceHandle,
        text: &str,
        next_sibling: Option<SurfaceHandle>,
    ) -> (node: SurfaceHandle)
        requires
            old(self).wf(),
            old(self)@.is_element(parent),
        ensures
            final(self).wf(),
            node == old(self)@.nodes.len(),
            final(self)@ == old(self)@.with_created(
                SurfaceView::new_text(text@),
                Patch::CreateText { node },
            ).inserted(parent, node, next_sibling),
            final(self)@.nodes.len() == old(self)@.nodes.len() + 1,
            old(self)@.evolves_to(final(self)@),
            old(self)@.preserved_outside(final(self)@, Set::empty(), parent),
            final(self)@.node(node) == (NodeView {
                parent: Some(parent),
                ..SurfaceView::new_text(text@)
            }),
            final(self)@.children(parent) == old(self)@.children(parent).insert(
                SurfaceView::insertion_index(old(self)@.children(parent), next_sibling),
                node,
            ),
    {
        proof {
            self@.lemma_added(
                self.nodes.len(),
                SurfaceView::new_text(text@),
                Patch::CreateText { node: self.nodes.len() },
                parent,
                next_sibling,
            );
        }
        let node = self.create_text(text);
        let done = self.insert_before(parent, node, next_sibling);
        assert(done);
        node
    }

    /// Creates an element with the tag `tag` and makes it a child of `parent`, in
    /// front of `next_sibling`, or last where `next_sibling` is none or no child of `parent`.
    pub fn add_element(
        &mut self,
        parent: SurfaceHandle,
        tag: &str,
        next_sibling: Option<SurfaceHandle>,
    ) -> (node: SurfaceHandle)
        requires
            old(self).wf(),
            old(self)@.is_element(parent),
        ensures
            final(self).wf(),
            node == old(self)@.nodes.len(),
            final(self)@ == old(self)@.with_created(
                SurfaceView::new_element(tag@),
                Patch::CreateElement { node },
            ).inserted(parent, node, next_sibling),
            final(self)@.nodes.len() == old(self)@.nodes.len() + 1,
            old(self)@.evolves_to(final(self)@),
            old(self)@.preserved_outside(final(self)@, Set::empty(), parent),
            final(self)@.node(node) == (NodeView {
                parent: Some(parent),
                ..SurfaceView::new_element(tag@)
            }),
            final(self)@.children(parent) == old(self)@.children(parent).insert(
                SurfaceView::insertion_index(old(self)@.children(parent), next_sibling),
                node,
            ),
    {
        proof {
            self@.lemma_added(
                self.nodes.len(),
                SurfaceView::new_element(tag@),
                Patch::CreateElement { node: self.nodes.len() },
                parent,
                next_sibling,
            );
        }
        let node = self.create_element(tag);
        let done = self.insert_before(parent, node, next_sibling);
        assert(done);
        node
    }
}


impl SurfaceView {
    /// What changing the content of a node changes: that node, and nothing of its place.
    pub proof fn lemma_content_frame(self, later: SurfaceView, node: SurfaceHandle, parent: SurfaceHandle)
        requires
            later == self.with_text(node, later.node(node).text) || later == self.with_attributes(
                node,
                later.node(node).attributes,
            ) || later == self.with_listeners(node, later.node(node).listeners),
        ensures
            later.nodes.len() == self.nodes.len(),
            self.evolves_to(later),
            self.preserved_outside(later, set![node], parent),
            self.same_shape(later),
            self.contains(node) ==> later.node(node).parent == self.node(node).parent
                && later.node(node).children == self.node(node).children,
    {
    }
}


/// Whether `list` is `front`, then `middle`, then `back`.
pub open spec fn spliced(
    list: Seq<SurfaceHandle>,
    front: Seq<SurfaceHandle>,
    middle: Seq<SurfaceHandle>,
    back: Seq<SurfaceHandle>,
) -> bool {
    list == front + middle + back
}

/// Whether `next_sibling` is the anchor for what stands in front of `back`: the
/// first node of `back`, or none where `back` is empty.
pub open spec fn anchored(next_sibling: Option<SurfaceHandle>, back: Seq<SurfaceHandle>) -> bool {
    if back.len() > 0 {
        next_sibling == Some(back[0])
    } else {
        next_sibling.is_none()
    }
}

/// Taking the one node between `front` and `back` out of a list without
/// repetitions leaves `front`, then `back`.
pub proof fn lemma_remove_middle(
    list: Seq<SurfaceHandle>,
    front: Seq<SurfaceHandle>,
    node: SurfaceHandle,
    back: Seq<SurfaceHandle>,
)
    requires
        list == front + seq![node] + back,
        list.no_duplicates(),
    ensures
        list.contains(node),
        list.index_of(node) == front.len(),
        list.remove(front.len() as int) == front + back,
{
    assert(list[front.len() as int] == node);
    let i = list.index_of(node);
    assert(0 <= i < list.len() && list[i] == node);
    assert(list.remove(front.len() as int) =~= front + back);
}

/// Putting a node in front of the anchor of `back` into the list `front`, then
/// `back`, gives `front`, then the node, then `back`.
pub proof fn lemma_insert_middle(
    front: Seq<SurfaceHandle>,
    back: Seq<SurfaceHandle>,
    node: SurfaceHandle,
    next_sibling: Option<SurfaceHandle>,
)
    requires
        (front + back).no_duplicates(),
        anchored(next_sibling, back),
    ensures
        SurfaceView::insertion_index(front + back, next_sibling) == front.len(),
        (front + back).insert(front.len() as int, node) == front + seq![node] + back,
{
    let list = front + back;
    if back.len() > 0 {
        assert(list[front.len() as int] == back[0]);
        let i = list.index_of(back[0]);
        assert(0 <= i < list.len() && list[i] == back[0]);
    }
    assert(list.insert(front.len() as int, node) =~= front + seq![node] + back);
}

impl SurfaceView {
    /// Where a child of `parent` stands between `front` and `back`, taking it
    /// out leaves `front`, then `back`.
    /// The node that follows a node standing between `front` and `back` among
    /// the children of `parent` is the first of `back`.
    pub proof fn lemma_next_in_middle(
        self,
        parent: SurfaceHandle,
        node: SurfaceHandle,
        front: Seq<SurfaceHandle>,
        back: Seq<SurfaceHandle>,
    )
        requires
            self.wf(),
            self.contains(parent),
            spliced(self.children(parent), front, seq![node], back),
        ensures
            anchored(self.next_sibling_in(parent, Some(node)), back),
    {
        let list = self.children(parent);
        assert(list.no_duplicates());
        lemma_remove_middle(list, front, node, back);
        assert(list[front.len() as int] == node);
        assert(self.is_child(parent, list[front.len() as int]));
        if back.len() > 0 {
            assert(list[front.len() as int + 1] == back[0]);
        }
    }

    pub proof fn lemma_without_middle(
        self,
        parent: SurfaceHandle,
        node: SurfaceHandle,
        front: Seq<SurfaceHandle>,
        back: Seq<SurfaceHandle>,
    )
        requires
            self.wf(),
            self.contains(parent),
            spliced(self.children(parent), front, seq![node], back),
        ensures
            self.is_child(parent, node),
            self.without(parent, Some(node)).children(parent) == front + back,
    {
        let list = self.children(parent);
        assert(list.no_duplicates());
        lemma_remove_middle(list, front, node, back);
        assert(list[front.len() as int] == node);
        assert(self.is_child(parent, list[front.len() as int]));
        assert(parent != node);
    }
}

} // verus!
