//! An element and all of its known ancestors.
//!
//! The graph only grows: a node keeps its ordering index and its lineage for
//! as long as the graph lives, while its place in a drawing follows from the
//! number of parents that its owner has at the time of asking.

use crate::graph::model::{
    generation_size, grows_to, lemma_grows_to_self, lemma_merge_all, lemma_merge_one,
    lemma_position, lemma_position_is_index, lemma_resolve_prefix, lemma_rooted,
    lemma_well_formed_nodes, merge_all, merge_one, position, resolve, rooted, twice_centered,
    well_formed, with_edge, AncestorView,
};
use crate::handle::{Handle, Operation, Task};
use crate::plot::{Element, ElementContent};
use vstd::prelude::*;
use vstd::slice::slice_to_vec;

verus! {

/// The place of a node in the order in which the graph learned its nodes.
#[derive(Clone, Copy, PartialEq, Debug, Eq, Hash, Structural)]
pub struct OrderingIndex(pub usize);

/// The path from the root to a node: `0` for the root, then at each step a
/// place in a list of parents.
#[derive(Clone, Debug)]
pub struct Lineage(pub Vec<usize>);

impl View for Lineage {
    type V = Seq<int>;

    open spec fn view(&self) -> Seq<int> {
        self.0@.map_values(|k: usize| k as int)
    }
}

/// The ordering indices as numbers.
pub open spec fn index_values(s: Seq<OrderingIndex>) -> Seq<int> {
    s.map_values(|x: OrderingIndex| x.0 as int)
}

/// The edges with their ordering indices as numbers.
pub open spec fn edge_values(s: Seq<(OrderingIndex, Operation)>) -> Seq<(int, Operation)> {
    s.map_values(|e: (OrderingIndex, Operation)| (e.0.0 as int, e.1))
}

/// Why a merge was not made.
#[derive(Clone, Copy, Debug, PartialEq, Eq, Structural)]
pub enum GraphError {
    /// The graph has no node for the handle whose parents were given.
    NotFound,
}

/// The direction in which an arrow leaves its origin.
#[derive(Clone, Copy, Debug, PartialEq, Eq, Structural)]
pub enum Arrow {
    Down,
    Right,
}

/// An arrow to draw: from a node to one that it is a parent of.
#[derive(Clone, Copy, Debug, PartialEq, Eq, Structural)]
pub struct ArrowEdge {
    pub origin: OrderingIndex,
    pub target: OrderingIndex,
    pub operation: Operation,
    /// Right for a node that is its own parent, down for every other.
    pub direction: Arrow,
}

/// What a click on an element asks for.
#[derive(Clone, Debug)]
pub struct NearbyClick {
    /// The element's text, to be copied.
    pub copied_text: String,
    /// The handle whose parents are to be requested.
    pub handle: Handle,
}

/// `i` is the first place in `keys` that holds their least value.
pub open spec fn is_first_minimum(keys: Seq<u32>, i: int) -> bool {
    &&& 0 <= i < keys.len()
    &&& forall|j: int| 0 <= j < keys.len() ==> keys[i] <= keys[j]
    &&& forall|j: int| 0 <= j < i ==> keys[j] > keys[i]
}

/// The first place in `keys` that holds their least value; `None` without
/// keys.
pub fn first_minimum(keys: &[u32]) -> (r: Option<usize>)
    ensures
        match r {
            Some(i) => is_first_minimum(keys@, i as int),
            None => keys@.len() == 0,
        },
{
    if keys.len() == 0 {
        return None;
    }
    let mut best: usize = 0;
    let mut i: usize = 1;
    while i < keys.len()
        invariant
            1 <= i <= keys.len(),
            is_first_minimum(keys@.take(i as int), best as int),
        decreases keys.len() - i,
    {
        if keys[i] < keys[best] {
            best = i;
        }
        assert(is_first_minimum(keys@.take(i + 1), best as int));
        i += 1;
    }
    assert(keys@.take(keys@.len() as int) =~= keys@);
    Some(best)
}

/// One generation on the way from the root to a node: which of how many
/// equal slots the way goes through.
#[derive(Clone, Copy, Debug, PartialEq, Eq, Structural)]
pub struct Slot {
    pub index: usize,
    pub count: usize,
}

/// `slots` are the slots on the way along `path` in `g`: one for each step
/// of the path, with the place that the path names there and the size that
/// the generation has there.
pub open spec fn follows(slots: Seq<Slot>, g: Seq<AncestorView>, path: Seq<int>) -> bool {
    &&& slots.len() == path.len()
    &&& forall|d: int|
        0 <= d < slots.len() ==> {
            &&& (#[trigger] slots[d]).index == path[d]
            &&& slots[d].count == generation_size(g, path, d)
            &&& slots[d].index < slots[d].count
        }
}

impl Slot {
    /// Twice the distance of the slot from the middle of the width that the
    /// slots of its generation share, in slots: negative to the left.
    pub fn twice_centered(&self) -> (r: i128)
        ensures
            r == twice_centered(self.index as int, self.count as int),
    {
        2 * (self.index as i128) - (self.count as i128) + 1
    }
}

/// An element with the parents that it owns and the children that it points
/// to.
#[derive(Clone, Debug)]
pub struct Ancestor {
    content: Element,
    parents: Vec<OrderingIndex>,
    children: Vec<(OrderingIndex, Operation)>,
    lineage: Lineage,
}

impl View for Ancestor {
    type V = AncestorView;

    closed spec fn view(&self) -> AncestorView {
        AncestorView {
            content: self.content@,
            parents: index_values(self.parents@),
            children: edge_values(self.children@),
            lineage: self.lineage@,
        }
    }
}

impl Ancestor {
    /// A node without parents.
    pub fn new(content: Element, children: Vec<(OrderingIndex, Operation)>, lineage: Lineage) -> (a:
        Ancestor)
        ensures
            a@ == (AncestorView {
                content: content@,
                parents: Seq::<int>::empty(),
                children: edge_values(children@),
                lineage: lineage@,
            }),
    {
        let a = Ancestor { content, parents: Vec::new(), children, lineage };
        assert(a@.parents =~= Seq::<int>::empty());
        a
    }

    /// Records that this node is a parent of `incoming_child` by `operation`,
    /// unless it is recorded already.
    pub fn add_child(&mut self, incoming_child: &OrderingIndex, operation: Operation)
        ensures
            final(self)@ == (AncestorView {
                content: old(self)@.content,
                parents: old(self)@.parents,
                children: with_edge(old(self)@.children, (incoming_child.0 as int, operation)),
                lineage: old(self)@.lineage,
            }),
    {
        let ghost edge = (incoming_child.0 as int, operation);
        let ghost edges = edge_values(self.children@);
        let mut k: usize = 0;
        while k < self.children.len()
            invariant
                k <= self.children.len(),
                *self == *old(self),
                edges == edge_values(self.children@),
                edge == (incoming_child.0 as int, operation),
                forall|j: int| 0 <= j < k ==> edges[j] != edge,
            decreases self.children.len() - k,
        {
            if self.children[k].0.0 == incoming_child.0 && self.children[k].1 == operation {
                assert(edges[k as int] == edge);
                return ;
            }
            k += 1;
        }
        assert(!edges.contains(edge));
        self.children.push((*incoming_child, operation));
        assert(edge_values(self.children@) =~= edges.push(edge));
    }

    /// The element of the node.
    pub fn content(&self) -> (e: &Element)
        ensures
            e@ == self@.content,
    {
        &self.content
    }

    /// The parents that the node owns.
    pub fn parents(&self) -> (p: &Vec<OrderingIndex>)
        ensures
            index_values(p@) == self@.parents,
    {
        &self.parents
    }

    /// The children that the node points to.
    pub fn children(&self) -> (c: &Vec<(OrderingIndex, Operation)>)
        ensures
            edge_values(c@) == self@.children,
    {
        &self.children
    }

    /// The path from the root to the node.
    pub fn lineage(&self) -> (l: &Lineage)
        ensures
            l@ == self@.lineage,
    {
        &self.lineage
    }
}

/// A root element and what is known of its ancestry.
#[derive(Clone, Debug)]
pub struct AncestorGraph {
    /// The nodes, each at its ordering index.
    nodes: Vec<Ancestor>,
}

impl View for AncestorGraph {
    type V = Seq<AncestorView>;

    closed spec fn view(&self) -> Seq<AncestorView> {
        self.nodes@.map_values(|n: Ancestor| n@)
    }
}

impl AncestorGraph {
    /// What holds of every graph: see [`well_formed`].
    pub open spec fn well_formed(&self) -> bool {
        well_formed(self@)
    }

    /// The graph of a root without known ancestors.
    pub fn new(element: Element) -> (g: AncestorGraph)
        ensures
            g@ == rooted(element@),
            g.well_formed(),
    {
        let mut path: Vec<usize> = Vec::new();
        path.push(0);
        let root = Ancestor::new(element, Vec::new(), Lineage(path));
        let mut nodes: Vec<Ancestor> = Vec::new();
        nodes.push(root);
        let g = AncestorGraph { nodes };
        proof {
            assert(root@.children =~= Seq::<(int, Operation)>::empty());
            assert(root@.lineage =~= seq![0int]);
            assert(g@ =~= rooted(element@));
            lemma_rooted(element@);
        }
        g
    }

    /// The number of nodes.
    pub fn len(&self) -> (n: usize)
        ensures
            n == self@.len(),
    {
        self.nodes.len()
    }

    /// The node at an ordering index, if the graph has that many nodes.
    pub fn get(&self, index: usize) -> (r: Option<&Ancestor>)
        ensures
            match r {
                Some(node) => index < self@.len() && node@ == self@[index as int],
                None => index >= self@.len(),
            },
    {
        if index < self.nodes.len() {
            Some(&self.nodes[index])
        } else {
            None
        }
    }

    /// The node that a path from the root leads to, if it leads to one.
    pub fn get_from_lineage(&self, lineage: &Lineage) -> (r: Option<&Ancestor>)
        requires
            self.well_formed(),
        ensures
            match r {
                Some(node) => resolve(self@, lineage@) matches Some(i) && 0 <= i < self@.len()
                    && node@ == self@[i],
                None => resolve(self@, lineage@) is None,
            },
    {
        let path = &lineage.0;
        if path.len() == 0 || path[0] != 0 || self.nodes.len() == 0 {
            proof {
                if resolve(self@, lineage@) is Some {
                    lemma_resolve_prefix(self@, lineage@, 1);
                }
            }
            return None;
        }
        assert(resolve(self@, lineage@.take(1)) == Some(0int));
        let mut current: usize = 0;
        let mut d: usize = 1;
        while d < path.len()
            invariant
                1 <= d <= path.len(),
                self.well_formed(),
                lineage@ == path@.map_values(|k: usize| k as int),
                resolve(self@, lineage@.take(d as int)) == Some(current as int),
                current < self@.len(),
            decreases path.len() - d,
        {
            let generation = &self.nodes[current].parents;
            let place = path[d];
            proof {
                lemma_well_formed_nodes(self@, current as int);
                assert(index_values(generation@) == self@[current as int].parents);
                assert(lineage@.take(d + 1).drop_last() =~= lineage@.take(d as int));
            }
            if place >= generation.len() {
                proof {
                    if resolve(self@, lineage@) is Some {
                        lemma_resolve_prefix(self@, lineage@, d as int + 1);
                    }
                }
                return None;
            }
            current = generation[place].0;
            d += 1;
        }
        assert(lineage@.take(d as int) =~= lineage@);
        Some(&self.nodes[current])
    }

    /// The elements in the order in which the graph learned them.
    pub fn iter(&self) -> (r: Vec<&Element>)
        ensures
            r@.len() == self@.len(),
            forall|i: int| 0 <= i < r@.len() ==> (#[trigger] r@[i])@ == self@[i].content,
    {
        let mut r: Vec<&Element> = Vec::new();
        let mut i: usize = 0;
        while i < self.nodes.len()
            invariant
                i <= self.nodes.len(),
                r@.len() == i,
                forall|j: int| 0 <= j < i ==> (#[trigger] r@[j])@ == self@[j].content,
            decreases self.nodes.len() - i,
        {
            r.push(&self.nodes[i].content);
            i += 1;
        }
        r
    }

    /// The ordering index of the node that stands for `handle`.
    pub fn find(&self, handle: &Handle) -> (r: Option<OrderingIndex>)
        requires
            self.well_formed(),
        ensures
            match r {
                Some(index) => position(self@, *handle) == Some(index.0 as int) && index.0
                    < self@.len() && self@[index.0 as int].handle() == *handle,
                None => position(self@, *handle) is None,
            },
    {
        let mut i: usize = 0;
        while i < self.nodes.len()
            invariant
                i <= self.nodes.len(),
                self.well_formed(),
                forall|j: int| 0 <= j < i ==> (#[trigger] self@[j]).handle() != *handle,
            decreases self.nodes.len() - i,
        {
            if *self.nodes[i].content.get_handle() == *handle {
                proof {
                    lemma_position(self@, i as int);
                }
                return Some(OrderingIndex(i));
            }
            i += 1;
        }
        None
    }

    /// Takes `incoming_parents` to be parents of the node that stands for
    /// `handle`. Each of them that the graph knows gets an edge to that
    /// node; each other one becomes a new node that the node owns. Without a
    /// node for `handle` nothing changes.
    pub fn merge_new_parents(&mut self, handle: Handle, incoming_parents: &[Task]) -> (r: Result<
        (),
        GraphError,
    >)
        requires
            old(self).well_formed(),
        ensures
            final(self).well_formed(),
            grows_to(old(self)@, final(self)@),
            match r {
                Ok(()) => position(old(self)@, handle) matches Some(target) && final(self)@
                    == merge_all(old(self)@, target, incoming_parents@),
                Err(e) => e == GraphError::NotFound && position(old(self)@, handle) is None
                    && final(self)@ == old(self)@,
            },
    {
        let target = match self.find(&handle) {
            Some(index) => index,
            None => {
                proof {
                    lemma_grows_to_self(self@);
                }
                return Err(GraphError::NotFound);
            },
        };
        proof {
            lemma_position_is_index(self@, handle);
        }
        let mut i: usize = 0;
        while i < incoming_parents.len()
            invariant
                i <= incoming_parents.len(),
                self.well_formed(),
                target.0 < self@.len(),
                self@ == merge_all(old(self)@, target.0 as int, incoming_parents@.take(i as int)),
            decreases incoming_parents.len() - i,
        {
            let parent = &incoming_parents[i];
            let ghost before = self@;
            proof {
                assert(incoming_parents@.take(i + 1).drop_last() =~= incoming_parents@.take(
                    i as int,
                ));
                lemma_merge_one(before, target.0 as int, *parent);
                lemma_position_is_index(before, parent.handle);
            }
            match self.find(&parent.handle) {
                Some(at) => {
                    self.nodes[at.0].add_child(&target, parent.operation);
                },
                None => {
                    let slot = self.nodes[target.0].parents.len();
                    let index = OrderingIndex(self.nodes.len());
                    let mut path = slice_to_vec(self.nodes[target.0].lineage.0.as_slice());
                    path.push(slot);
                    let mut children: Vec<(OrderingIndex, Operation)> = Vec::new();
                    children.push((target, parent.operation));
                    let node = Ancestor::new(
                        Element::new(ElementContent::Handle(parent.handle)),
                        children,
                        Lineage(path),
                    );
                    proof {
                        assert(node@.children =~= seq![(target.0 as int, parent.operation)]);
                        assert(node@.lineage =~= before[target.0 as int].lineage.push(slot as int));
                        assert(index_values(self.nodes[target.0 as int].parents@.push(index))
                            =~= before[target.0 as int].parents.push(index.0 as int));
                    }
                    self.nodes[target.0].parents.push(index);
                    self.nodes.push(node);
                },
            }
            assert(self@ =~= merge_one(before, target.0 as int, *parent));
            i += 1;
        }
        proof {
            assert(incoming_parents@.take(incoming_parents@.len() as int) =~= incoming_parents@);
            lemma_merge_all(old(self)@, target.0 as int, incoming_parents@);
        }
        Ok(())
    }

    /// The way from the root to a node, generation by generation: the slot
    /// that the way goes through, and the number of slots that the
    /// generation has now. The root stands alone in the first generation.
    pub fn get_draw_parameters(&self, index: usize) -> (slots: Vec<Slot>)
        requires
            self.well_formed(),
            index < self@.len(),
        ensures
            follows(slots@, self@, self@[index as int].lineage),
    {
        let lineage = &self.nodes[index].lineage.0;
        let ghost path = self@[index as int].lineage;
        proof {
            lemma_well_formed_nodes(self@, index as int);
            lemma_resolve_prefix(self@, path, 1);
        }
        let mut slots: Vec<Slot> = Vec::new();
        slots.push(Slot { index: 0, count: 1 });
        let mut current: usize = 0;
        let mut d: usize = 1;
        while d < lineage.len()
            invariant
                1 <= d <= lineage.len(),
                self.well_formed(),
                index < self@.len(),
                path == self@[index as int].lineage,
                path == lineage@.map_values(|k: usize| k as int),
                resolve(self@, path) is Some,
                resolve(self@, path.take(d as int)) == Some(current as int),
                current < self@.len(),
                slots@.len() == d,
                forall|e: int|
                    0 <= e < d ==> (#[trigger] slots@[e]).index == path[e] && slots@[e].count
                        == generation_size(self@, path, e) && slots@[e].index < slots@[e].count,
            decreases lineage.len() - d,
        {
            proof {
                lemma_resolve_prefix(self@, path, d as int);
                lemma_well_formed_nodes(self@, current as int);
            }
            let generation = &self.nodes[current].parents;
            let place = lineage[d];
            assert(index_values(generation@) == self@[current as int].parents);
            slots.push(Slot { index: place, count: generation.len() });
            current = generation[place].0;
            d += 1;
        }
        slots
    }

    /// The node that is closest, given for each node in order a key that
    /// grows with its distance: the first of those with the least key. Keys
    /// beyond the last node are not looked at, nor are nodes beyond the last
    /// key.
    pub fn find_closest(&self, keys: &[u32]) -> (r: Option<usize>)
        ensures
            ({
                let n = if keys@.len() < self@.len() {
                    keys@.len() as int
                } else {
                    self@.len() as int
                };
                match r {
                    Some(i) => is_first_minimum(keys@.take(n), i as int),
                    None => n == 0,
                }
            }),
    {
        let count = self.nodes.len();
        let n = if keys.len() < count {
            keys.len()
        } else {
            count
        };
        first_minimum(vstd::slice::slice_subrange(keys, 0, n))
    }

    /// What a click asks for that fell near the node at `index`, given
    /// whether it fell inside that node's element: to copy the element's
    /// text and to request the parents of its handle. A click outside the
    /// element, or near a node that the graph does not have, asks for
    /// nothing.
    pub fn handle_nearby_click(&self, index: usize, inside: bool) -> (r: Option<NearbyClick>)
        ensures
            match r {
                Some(click) => inside && index < self@.len() && click.copied_text@
                    == self@[index as int].content.text() && click.handle
                    == self@[index as int].content.handle(),
                None => !inside || index >= self@.len(),
            },
    {
        if inside && index < self.nodes.len() {
            let element = &self.nodes[index].content;
            Some(NearbyClick { copied_text: element.get_text(), handle: *element.get_handle() })
        } else {
            None
        }
    }

    /// The arrows of the graph: for each node in order, one to each of the
    /// children that it points to, in the order in which it learned them.
    pub fn arrows(&self) -> (r: Vec<ArrowEdge>)
        requires
            self.well_formed(),
        ensures
            r@ == arrows_of(self@, self@.len() as int),
    {
        let mut r: Vec<ArrowEdge> = Vec::new();
        let mut i: usize = 0;
        while i < self.nodes.len()
            invariant
                i <= self.nodes.len(),
                r@ == arrows_of(self@, i as int),
            decreases self.nodes.len() - i,
        {
            let children = &self.nodes[i].children;
            let ghost start = r@;
            let mut k: usize = 0;
            while k < children.len()
                invariant
                    k <= children.len(),
                    i < self.nodes.len(),
                    edge_values(children@) == self@[i as int].children,
                    r@ == start + node_arrows(i as int, self@[i as int].children.take(k as int)),
                decreases children.len() - k,
            {
                let child = children[k];
                let direction = if child.0.0 == i {
                    Arrow::Right
                } else {
                    Arrow::Down
                };
                proof {
                    let edges = self@[i as int].children;
                    assert(edges.take(k + 1).drop_last() =~= edges.take(k as int));
                    assert(edges.take(k + 1).last() == (child.0.0 as int, child.1));
                }
                r.push(
                    ArrowEdge {
                        origin: OrderingIndex(i),
                        target: child.0,
                        operation: child.1,
                        direction,
                    },
                );
                k += 1;
            }
            assert(self@[i as int].children.take(children@.len() as int)
                =~= self@[i as int].children);
            i += 1;
        }
        r
    }
}

/// The arrow that an edge of node `origin` is drawn as.
pub open spec fn arrow_of(origin: int, edge: (int, Operation)) -> ArrowEdge {
    ArrowEdge {
        origin: OrderingIndex(origin as usize),
        target: OrderingIndex(edge.0 as usize),
        operation: edge.1,
        direction: if edge.0 == origin {
            Arrow::Right
        } else {
            Arrow::Down
        },
    }
}

/// The arrows of the given edges of node `origin`, in order.
pub open spec fn node_arrows(origin: int, edges: Seq<(int, Operation)>) -> Seq<ArrowEdge>
    decreases edges.len(),
{
    if edges.len() == 0 {
        Seq::<ArrowEdge>::empty()
    } else {
        node_arrows(origin, edges.drop_last()).push(arrow_of(origin, edges.last()))
    }
}

/// The arrows of the first `n` nodes of `g`, node by node.
pub open spec fn arrows_of(g: Seq<AncestorView>, n: int) -> Seq<ArrowEdge>
    decreases n,
{
    if n <= 0 {
        Seq::<ArrowEdge>::empty()
    } else {
        arrows_of(g, n - 1) + node_arrows(n - 1, g[n - 1].children)
    }
}

} // verus!
