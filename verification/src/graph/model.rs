//! The ancestry graph as a mathematical value.
//!
//! A graph is the sequence of its nodes in the order in which they were
//! learned; a node's place in that sequence is its ordering index. Node 0 is
//! the root. Every other node is owned by the node whose parent it was first
//! found to be, and stands in that node's list of parents. A node's lineage
//! is the path to it from the root: `0` for the root itself, then at each
//! step the place in the owner's list of parents.

use crate::handle::{Handle, Operation, Task};
use crate::plot::ElementContent;
use vstd::prelude::*;

verus! {

/// A node of the graph.
pub struct AncestorView {
    /// What the node shows.
    pub content: ElementContent,
    /// Ordering indices of the parents that the node owns, in the order in
    /// which they were found.
    pub parents: Seq<int>,
    /// The nodes that this node is a parent of, each with the operation that
    /// took it there.
    pub children: Seq<(int, Operation)>,
    /// The path from the root to the node.
    pub lineage: Seq<int>,
}

impl AncestorView {
    /// The handle that the node stands for.
    pub open spec fn handle(self) -> Handle {
        self.content.handle()
    }
}

/// The graph that holds `content` at its root and nothing else.
pub open spec fn rooted(content: ElementContent) -> Seq<AncestorView> {
    seq![
        AncestorView {
            content,
            parents: Seq::<int>::empty(),
            children: Seq::<(int, Operation)>::empty(),
            lineage: seq![0int],
        },
    ]
}

/// Whether some node of `g` stands for `h`.
pub open spec fn knows(g: Seq<AncestorView>, h: Handle) -> bool {
    exists|i: int| 0 <= i < g.len() && (#[trigger] g[i]).handle() == h
}

/// The ordering index of a node that stands for `h`, if there is one. In a
/// well-formed graph there is at most one.
pub open spec fn position(g: Seq<AncestorView>, h: Handle) -> Option<int> {
    if knows(g, h) {
        Some(choose|i: int| 0 <= i < g.len() && (#[trigger] g[i]).handle() == h)
    } else {
        None
    }
}

/// The node that a path from the root leads to, if it leads to one.
pub open spec fn resolve(g: Seq<AncestorView>, path: Seq<int>) -> Option<int>
    decreases path.len(),
{
    if path.len() == 0 {
        None
    } else if path.len() == 1 {
        if path[0] == 0 && g.len() > 0 {
            Some(0int)
        } else {
            None
        }
    } else {
        match resolve(g, path.drop_last()) {
            Some(owner) => if 0 <= owner < g.len() && 0 <= path.last() < g[owner].parents.len() {
                Some(g[owner].parents[path.last()])
            } else {
                None
            },
            None => None,
        }
    }
}

/// No two nodes stand for the same handle.
pub open spec fn handles_distinct(g: Seq<AncestorView>) -> bool {
    forall|i: int, j: int|
        0 <= i < j < g.len() ==> (#[trigger] g[i]).handle() != (#[trigger] g[j]).handle()
}

/// Every node's lineage leads to that node.
pub open spec fn lineages_resolve(g: Seq<AncestorView>) -> bool {
    forall|i: int| 0 <= i < g.len() ==> resolve(g, (#[trigger] g[i]).lineage) == Some(i)
}

/// Every owned parent was learned after its owner, and its lineage is the
/// owner's followed by its place among the owner's parents.
pub open spec fn parents_owned(g: Seq<AncestorView>) -> bool {
    forall|p: int, k: int|
        0 <= p < g.len() && 0 <= k < g[p].parents.len() ==> {
            let c = #[trigger] g[p].parents[k];
            &&& p < c < g.len()
            &&& g[c].lineage == g[p].lineage.push(k)
        }
}

/// Every edge to a child names a node of the graph.
pub open spec fn children_known(g: Seq<AncestorView>) -> bool {
    forall|i: int, k: int|
        0 <= i < g.len() && 0 <= k < g[i].children.len() ==> 0 <= (#[trigger] g[i].children[k]).0
            < g.len()
}

/// No node holds the same edge to a child twice.
pub open spec fn children_distinct(g: Seq<AncestorView>) -> bool {
    forall|i: int| 0 <= i < g.len() ==> (#[trigger] g[i]).children.no_duplicates()
}

/// What holds of every graph that was made from a root by merging.
#[verifier::opaque]
pub open spec fn well_formed(g: Seq<AncestorView>) -> bool {
    &&& g.len() >= 1
    &&& handles_distinct(g)
    &&& lineages_resolve(g)
    &&& parents_owned(g)
    &&& children_known(g)
    &&& children_distinct(g)
}

/// The edges of a node after it was found to be a parent of `edge.0` by
/// `edge.1`: the edge is added unless the node holds it already.
pub open spec fn with_edge(edges: Seq<(int, Operation)>, edge: (int, Operation)) -> Seq<
    (int, Operation),
> {
    if edges.contains(edge) {
        edges
    } else {
        edges.push(edge)
    }
}

/// The graph after `task.handle` was found to be a parent of node `target`.
/// A handle that the graph knows gets an edge to the target, unless it has
/// that edge. One that it does not know becomes a new node with that one
/// edge, owned by the target and last in its list of parents.
pub open spec fn merge_one(g: Seq<AncestorView>, target: int, task: Task) -> Seq<AncestorView> {
    let edge = (target, task.operation);
    match position(g, task.handle) {
        Some(at) => g.update(
            at,
            AncestorView {
                content: g[at].content,
                parents: g[at].parents,
                children: with_edge(g[at].children, edge),
                lineage: g[at].lineage,
            },
        ),
        None => g.update(
            target,
            AncestorView {
                content: g[target].content,
                parents: g[target].parents.push(g.len() as int),
                children: g[target].children,
                lineage: g[target].lineage,
            },
        ).push(
            AncestorView {
                content: ElementContent::Handle(task.handle),
                parents: Seq::<int>::empty(),
                children: seq![edge],
                lineage: g[target].lineage.push(g[target].parents.len() as int),
            },
        ),
    }
}

/// The graph after each of `tasks`, in order, was merged as a parent of node
/// `target`.
pub open spec fn merge_all(g: Seq<AncestorView>, target: int, tasks: Seq<Task>) -> Seq<
    AncestorView,
>
    decreases tasks.len(),
{
    if tasks.len() == 0 {
        g
    } else {
        merge_one(merge_all(g, target, tasks.drop_last()), target, tasks.last())
    }
}

/// In a well-formed graph, the node that stands for a handle is the node at
/// its position.
pub proof fn lemma_position(g: Seq<AncestorView>, i: int)
    requires
        well_formed(g),
        0 <= i < g.len(),
    ensures
        position(g, g[i].handle()) == Some(i),
{
    reveal(well_formed);
    let h = g[i].handle();
    let c = choose|c: int| 0 <= c < g.len() && (#[trigger] g[c]).handle() == h;
    if c < i {
        assert(g[c].handle() != g[i].handle());
    } else if i < c {
        assert(g[i].handle() != g[c].handle());
    }
}

/// A position is the index of a node that stands for the handle.
pub proof fn lemma_position_is_index(g: Seq<AncestorView>, h: Handle)
    ensures
        position(g, h) matches Some(i) ==> 0 <= i < g.len() && g[i].handle() == h,
        position(g, h) is None ==> forall|i: int|
            0 <= i < g.len() ==> (#[trigger] g[i]).handle() != h,
{
}

/// Where every list of parents only grew, a path leads where it led before.
pub proof fn lemma_resolve_grows(g: Seq<AncestorView>, after: Seq<AncestorView>, path: Seq<int>)
    requires
        g.len() <= after.len(),
        forall|i: int|
            0 <= i < g.len() ==> g[i].parents.len() <= (#[trigger] after[i]).parents.len()
                && after[i].parents.take(g[i].parents.len() as int) == g[i].parents,
        resolve(g, path) is Some,
    ensures
        resolve(after, path) == resolve(g, path),
    decreases path.len(),
{
    if path.len() > 1 {
        lemma_resolve_grows(g, after, path.drop_last());
        let owner = resolve(g, path.drop_last()).unwrap();
        assert(after[owner].parents.take(g[owner].parents.len() as int)[path.last()]
            == after[owner].parents[path.last()]);
    }
}

/// A path that leads to a node leads there through a node at each of its
/// proper prefixes, and ends at a place in the last one's list of parents.
pub proof fn lemma_resolve_prefix(g: Seq<AncestorView>, path: Seq<int>, d: int)
    requires
        resolve(g, path) is Some,
        1 <= d <= path.len(),
    ensures
        resolve(g, path.take(d)) matches Some(node) && (d < path.len() ==> 0 <= node < g.len()
            && 0 <= path[d] < g[node].parents.len() && resolve(g, path.take(d + 1)) == Some(
            g[node].parents[path[d]],
        )),
        path[0] == 0,
        resolve(g, path.take(1)) == Some(0int),
    decreases path.len() - d,
{
    if d == path.len() {
        assert(path.take(d) =~= path);
    } else {
        lemma_resolve_prefix(g, path, d + 1);
        assert(path.take(d + 1).drop_last() =~= path.take(d));
    }
    if d > 1 {
        lemma_resolve_prefix_head(g, path.take(d));
        assert(path.take(d)[0] == path[0]);
        assert(path.take(d).take(1) =~= path.take(1));
    }
}

/// A path that leads to a node starts at the root.
proof fn lemma_resolve_prefix_head(g: Seq<AncestorView>, path: Seq<int>)
    requires
        resolve(g, path) is Some,
    ensures
        path.len() >= 1,
        path[0] == 0,
        resolve(g, path.take(1)) == Some(0int),
    decreases path.len(),
{
    if path.len() == 1 {
        assert(path.take(1) =~= path);
    } else {
        lemma_resolve_prefix_head(g, path.drop_last());
        assert(path.drop_last()[0] == path[0]);
        assert(path.drop_last().take(1) =~= path.take(1));
    }
}

/// Merging one parent keeps a graph well formed. It removes no node and
/// changes no node's content or lineage; lists of parents and of children
/// only grow at their ends.
pub proof fn lemma_merge_one(g: Seq<AncestorView>, target: int, task: Task)
    requires
        well_formed(g),
        0 <= target < g.len(),
    ensures
        well_formed(merge_one(g, target, task)),
        grows_to(g, merge_one(g, target, task)),
        merge_one(g, target, task).len() == g.len() + if knows(g, task.handle) {
            0int
        } else {
            1int
        },
        knows(merge_one(g, target, task), task.handle),
{
    reveal(well_formed);
    let after = merge_one(g, target, task);
    let edge = (target, task.operation);
    lemma_position_is_index(g, task.handle);
    assert forall|i: int| 0 <= i < g.len() implies g[i].parents.len() <= (
    #[trigger] after[i]).parents.len() && after[i].parents.take(g[i].parents.len() as int)
        == g[i].parents && after[i].content == g[i].content && after[i].lineage == g[i].lineage
        && g[i].children.len() <= after[i].children.len() && after[i].children.take(
        g[i].children.len() as int,
    ) == g[i].children by {
        assert(after[i].parents.take(g[i].parents.len() as int) =~= g[i].parents);
        assert(after[i].children.take(g[i].children.len() as int) =~= g[i].children);
    }
    assert forall|i: int| 0 <= i < after.len() implies resolve(after, (#[trigger] after[i]).lineage)
        == Some(i) by {
        if i < g.len() {
            lemma_resolve_grows(g, after, g[i].lineage);
        } else {
            let path = after[i].lineage;
            assert(path.drop_last() =~= g[target].lineage);
            lemma_resolve_grows(g, after, g[target].lineage);
        }
    }
    assert forall|p: int, k: int| 0 <= p < after.len() && 0 <= k < after[p].parents.len() implies {
        let c = #[trigger] after[p].parents[k];
        &&& p < c < after.len()
        &&& after[c].lineage == after[p].lineage.push(k)
    } by {
        if p < g.len() && k < g[p].parents.len() {
            assert(after[p].parents[k] == g[p].parents[k]);
        }
    }
    assert forall|i: int, k: int|
        0 <= i < after.len() && 0 <= k < after[i].children.len() implies 0 <= (
    #[trigger] after[i].children[k]).0 < after.len() by {
        if i < g.len() && k < g[i].children.len() {
            assert(after[i].children[k] == g[i].children[k]);
        }
    }
    assert forall|i: int| 0 <= i < after.len() implies (#[trigger] after[i]).children.no_duplicates(
    ) by {
        if i < g.len() {
            assert(g[i].children.no_duplicates());
            if after[i].children != g[i].children {
                assert(!g[i].children.contains(edge));
                assert(after[i].children == g[i].children.push(edge));
                assert forall|a: int, b: int|
                    0 <= a < after[i].children.len() && 0 <= b < after[i].children.len() && a
                        != b implies after[i].children[a] != after[i].children[b] by {
                    if a < g[i].children.len() && b < g[i].children.len() {
                    } else if a < g[i].children.len() {
                        assert(g[i].children.contains(g[i].children[a]));
                    } else if b < g[i].children.len() {
                        assert(g[i].children.contains(g[i].children[b]));
                    }
                }
            }
        }
    }
    assert forall|i: int, j: int| 0 <= i < j < after.len() implies (#[trigger] after[i]).handle()
        != (#[trigger] after[j]).handle() by {
        if j < g.len() {
            assert(g[i].handle() != g[j].handle());
        } else {
            assert(g[i].handle() != task.handle);
        }
    }
    if knows(g, task.handle) {
        let at = position(g, task.handle).unwrap();
        assert(after[at].handle() == task.handle);
    } else {
        assert(after[g.len() as int].handle() == task.handle);
    }
}

/// `after` holds every node of `g` with the same content and lineage, and
/// with lists of parents and of children that start as they did in `g`.
pub open spec fn grows_to(g: Seq<AncestorView>, after: Seq<AncestorView>) -> bool {
    &&& g.len() <= after.len()
    &&& forall|i: int|
        0 <= i < g.len() ==> {
            &&& (#[trigger] after[i]).content == g[i].content
            &&& after[i].lineage == g[i].lineage
            &&& g[i].parents.len() <= after[i].parents.len()
            &&& after[i].parents.take(g[i].parents.len() as int) == g[i].parents
            &&& g[i].children.len() <= after[i].children.len()
            &&& after[i].children.take(g[i].children.len() as int) == g[i].children
        }
}

/// Growth goes on through growth.
pub proof fn lemma_grows_to_chain(a: Seq<AncestorView>, b: Seq<AncestorView>, c: Seq<AncestorView>)
    requires
        grows_to(a, b),
        grows_to(b, c),
    ensures
        grows_to(a, c),
{
    assert forall|i: int| 0 <= i < a.len() implies {
        &&& (#[trigger] c[i]).content == a[i].content
        &&& c[i].lineage == a[i].lineage
        &&& a[i].parents.len() <= c[i].parents.len()
        &&& c[i].parents.take(a[i].parents.len() as int) == a[i].parents
        &&& a[i].children.len() <= c[i].children.len()
        &&& c[i].children.take(a[i].children.len() as int) == a[i].children
    } by {
        assert(b[i].content == a[i].content);
        assert(c[i].parents.take(a[i].parents.len() as int) =~= c[i].parents.take(
            b[i].parents.len() as int,
        ).take(a[i].parents.len() as int));
        assert(c[i].children.take(a[i].children.len() as int) =~= c[i].children.take(
            b[i].children.len() as int,
        ).take(a[i].children.len() as int));
    }
}

/// Merging parents keeps a graph well formed and only makes it grow.
pub proof fn lemma_merge_all(g: Seq<AncestorView>, target: int, tasks: Seq<Task>)
    requires
        well_formed(g),
        0 <= target < g.len(),
    ensures
        well_formed(merge_all(g, target, tasks)),
        grows_to(g, merge_all(g, target, tasks)),
    decreases tasks.len(),
{
    if tasks.len() == 0 {
        lemma_grows_to_self(g);
    } else {
        let before = merge_all(g, target, tasks.drop_last());
        lemma_merge_all(g, target, tasks.drop_last());
        lemma_merge_one(before, target, tasks.last());
        lemma_grows_to_chain(g, before, merge_one(before, target, tasks.last()));
    }
}

/// The number of slots in generation `d` on the way along `path`: one for
/// the root, and for every later generation the number of parents that the
/// node before it on the way owns.
pub open spec fn generation_size(g: Seq<AncestorView>, path: Seq<int>, d: int) -> int {
    if d <= 0 {
        1
    } else {
        match resolve(g, path.take(d)) {
            Some(owner) => g[owner].parents.len() as int,
            None => 0,
        }
    }
}

/// A graph of a root alone is well formed.
pub proof fn lemma_rooted(content: ElementContent)
    ensures
        well_formed(rooted(content)),
{
    reveal(well_formed);
    let g = rooted(content);
    assert(resolve(g, g[0].lineage) == Some(0int));
}

/// In a well-formed graph every node's lineage leads to the node, every
/// parent that a node owns is a later node of the graph, and every child
/// that a node points to is a node of the graph.
pub proof fn lemma_well_formed_nodes(g: Seq<AncestorView>, i: int)
    requires
        well_formed(g),
        0 <= i < g.len(),
    ensures
        g.len() >= 1,
        resolve(g, g[i].lineage) == Some(i),
        forall|k: int|
            0 <= k < g[i].parents.len() ==> i < (#[trigger] g[i].parents[k]) < g.len()
                && g[g[i].parents[k]].lineage == g[i].lineage.push(k),
        forall|k: int|
            0 <= k < g[i].children.len() ==> 0 <= (#[trigger] g[i].children[k]).0 < g.len(),
        g[i].children.no_duplicates(),
{
    reveal(well_formed);
}

/// Every graph has grown to itself.
pub proof fn lemma_grows_to_self(g: Seq<AncestorView>)
    ensures
        grows_to(g, g),
{
    assert forall|i: int| 0 <= i < g.len() implies (#[trigger] g[i]).parents.take(
        g[i].parents.len() as int,
    ) == g[i].parents && g[i].children.take(g[i].children.len() as int) == g[i].children by {
        assert(g[i].parents.take(g[i].parents.len() as int) =~= g[i].parents);
        assert(g[i].children.take(g[i].children.len() as int) =~= g[i].children);
    }
}

/// Twice the distance of slot `index` of `count` from the middle of the
/// width that the slots share, in slots: negative to the left.
pub open spec fn twice_centered(index: int, count: int) -> int {
    2 * index - count + 1
}

} // verus!
