//! What holds of every graph however it was grown: how merging changes the
//! number of nodes and their edges, that nodes keep their identity, and how
//! the parents of one node share its width in a drawing.

use crate::graph::ancestors::{follows, Slot};
use crate::graph::model::{
    generation_size, grows_to, knows, lemma_grows_to_chain, lemma_grows_to_self, lemma_merge_all,
    lemma_merge_one, lemma_position, lemma_position_is_index, lemma_resolve_grows,
    lemma_resolve_prefix, lemma_rooted, lemma_well_formed_nodes, merge_all, merge_one, position,
    resolve, rooted, twice_centered, well_formed, with_edge, AncestorView,
};
use crate::handle::{Handle, Task};
use crate::plot::ElementContent;
use vstd::prelude::*;

verus! {

/// No two of the tasks are about the same handle.
pub open spec fn tasks_distinct(tasks: Seq<Task>) -> bool {
    forall|i: int, j: int|
        0 <= i < j < tasks.len() ==> (#[trigger] tasks[i]).handle != (#[trigger] tasks[j]).handle
}

/// Whether one of the tasks is about `h`.
pub open spec fn names(tasks: Seq<Task>, h: Handle) -> bool {
    exists|j: int| 0 <= j < tasks.len() && (#[trigger] tasks[j]).handle == h
}

/// The number of tasks that are about a handle that `g` knows.
pub open spec fn known_count(g: Seq<AncestorView>, tasks: Seq<Task>) -> nat
    decreases tasks.len(),
{
    if tasks.len() == 0 {
        0
    } else {
        known_count(g, tasks.drop_last()) + if knows(g, tasks.last().handle) {
            1nat
        } else {
            0nat
        }
    }
}

/// The ordering indices from `from` up to but not including `to`.
pub open spec fn index_range(from: int, to: int) -> Seq<int> {
    Seq::new((to - from) as nat, |i: int| from + i)
}

/// A new graph has one node, the root: it has ordering index 0 and the
/// lineage `0`, owns no parents and points to no children.
pub proof fn lemma_new_graph(content: ElementContent)
    ensures
        rooted(content).len() == 1,
        well_formed(rooted(content)),
        position(rooted(content), content.handle()) == Some(0int),
        rooted(content)[0].content == content,
        rooted(content)[0].lineage == seq![0int],
        rooted(content)[0].parents.len() == 0,
        rooted(content)[0].children.len() == 0,
{
    lemma_rooted(content);
    lemma_position(rooted(content), 0);
}

/// After a merge the graph knows what it knew and what the tasks name, and
/// nothing else.
pub proof fn lemma_merge_knows(g: Seq<AncestorView>, target: int, tasks: Seq<Task>, h: Handle)
    requires
        well_formed(g),
        0 <= target < g.len(),
    ensures
        knows(merge_all(g, target, tasks), h) <==> knows(g, h) || names(tasks, h),
    decreases tasks.len(),
{
    if tasks.len() > 0 {
        let init = tasks.drop_last();
        let before = merge_all(g, target, init);
        let after = merge_all(g, target, tasks);
        lemma_merge_knows(g, target, init, h);
        lemma_merge_all(g, target, init);
        lemma_merge_one(before, target, tasks.last());
        lemma_position_is_index(before, tasks.last().handle);
        if knows(before, h) {
            let i = choose|i: int| 0 <= i < before.len() && (#[trigger] before[i]).handle() == h;
            assert(after[i].handle() == h);
        }
        if names(init, h) {
            let j = choose|j: int| 0 <= j < init.len() && (#[trigger] init[j]).handle == h;
            assert(tasks[j].handle == h);
        }
        if tasks.last().handle == h {
            assert(tasks[tasks.len() - 1].handle == h);
        }
        if knows(after, h) && !knows(before, h) {
            let i = choose|i: int| 0 <= i < after.len() && (#[trigger] after[i]).handle() == h;
            if i < before.len() {
                assert(before[i].handle() == h);
            }
        }
        if names(tasks, h) && !names(init, h) {
            let j = choose|j: int| 0 <= j < tasks.len() && (#[trigger] tasks[j]).handle == h;
            if j < init.len() {
                assert(init[j].handle == h);
            }
        }
    }
}

/// Merging tasks about distinct handles adds one node for each handle that
/// the graph did not know: with `k` tasks of which `m` are about known
/// handles, the number of nodes grows by `k - m`. The new nodes become the
/// last parents of the target, in the order of their tasks, and own no
/// parents themselves; no other node gets a parent.
pub proof fn lemma_merge_growth(g: Seq<AncestorView>, target: int, tasks: Seq<Task>)
    requires
        well_formed(g),
        0 <= target < g.len(),
        tasks_distinct(tasks),
    ensures
        known_count(g, tasks) <= tasks.len(),
        merge_all(g, target, tasks).len() == g.len() + tasks.len() - known_count(g, tasks),
        merge_all(g, target, tasks)[target].parents == g[target].parents + index_range(
            g.len() as int,
            merge_all(g, target, tasks).len() as int,
        ),
        forall|i: int|
            0 <= i < g.len() && i != target ==> (#[trigger] merge_all(g, target, tasks)[i]).parents
                == g[i].parents,
        forall|i: int|
            g.len() <= i < merge_all(g, target, tasks).len() ==> (#[trigger] merge_all(
                g,
                target,
                tasks,
            )[i]).parents.len() == 0,
    decreases tasks.len(),
{
    let after = merge_all(g, target, tasks);
    if tasks.len() == 0 {
        assert(g[target].parents + index_range(g.len() as int, g.len() as int)
            =~= g[target].parents);
    } else {
        let init = tasks.drop_last();
        let last = tasks.last();
        let before = merge_all(g, target, init);
        assert(tasks_distinct(init)) by {
            assert forall|i: int, j: int| 0 <= i < j < init.len() implies (
            #[trigger] init[i]).handle != (#[trigger] init[j]).handle by {
                assert(tasks[i].handle != tasks[j].handle);
            }
        }
        lemma_merge_growth(g, target, init);
        lemma_merge_all(g, target, init);
        lemma_merge_one(before, target, last);
        lemma_merge_knows(g, target, init, last.handle);
        lemma_position_is_index(before, last.handle);
        assert(!names(init, last.handle)) by {
            if names(init, last.handle) {
                let j = choose|j: int|
                    0 <= j < init.len() && (#[trigger] init[j]).handle == last.handle;
                assert(tasks[j].handle != tasks[tasks.len() - 1].handle);
            }
        }
        assert(after[target].parents =~= g[target].parents + index_range(
            g.len() as int,
            after.len() as int,
        ));
        assert forall|i: int| 0 <= i < g.len() && i != target implies (#[trigger] after[i]).parents
            == g[i].parents by {
            assert(before[i].parents == g[i].parents);
        }
        assert forall|i: int| g.len() <= i < after.len() implies (#[trigger] after[i]).parents.len()
            == 0 by {
            if i < before.len() {
                assert(before[i].parents.len() == 0);
            }
        }
    }
}

/// Merging tasks about distinct handles gives each known handle that a task
/// names the edge of that task, unless the node holds that edge already: so
/// no node gains more than one edge, and none gains an edge twice. Each new
/// node holds the edge of its task alone. A node that no task names keeps
/// its edges.
pub proof fn lemma_merge_edges(g: Seq<AncestorView>, target: int, tasks: Seq<Task>)
    requires
        well_formed(g),
        0 <= target < g.len(),
        tasks_distinct(tasks),
    ensures
        forall|j: int|
            0 <= j < tasks.len() ==> {
                let after = merge_all(g, target, tasks);
                let edge = (target, (#[trigger] tasks[j]).operation);
                match position(after, tasks[j].handle) {
                    Some(at) => 0 <= at < after.len() && after[at].children == if at < g.len() {
                        with_edge(g[at].children, edge)
                    } else {
                        seq![edge]
                    },
                    None => false,
                }
            },
        forall|i: int|
            0 <= i < g.len() && !names(tasks, g[i].handle()) ==> (#[trigger] merge_all(
                g,
                target,
                tasks,
            )[i]).children == g[i].children,
    decreases tasks.len(),
{
    let after = merge_all(g, target, tasks);
    if tasks.len() > 0 {
        let init = tasks.drop_last();
        let last = tasks.last();
        let before = merge_all(g, target, init);
        assert(tasks_distinct(init)) by {
            assert forall|i: int, j: int| 0 <= i < j < init.len() implies (
            #[trigger] init[i]).handle != (#[trigger] init[j]).handle by {
                assert(tasks[i].handle != tasks[j].handle);
            }
        }
        lemma_merge_edges(g, target, init);
        lemma_merge_all(g, target, init);
        lemma_merge_all(g, target, tasks);
        lemma_merge_one(before, target, last);
        lemma_merge_knows(g, target, init, last.handle);
        lemma_position_is_index(before, last.handle);
        assert(!names(init, last.handle)) by {
            if names(init, last.handle) {
                let j = choose|j: int|
                    0 <= j < init.len() && (#[trigger] init[j]).handle == last.handle;
                assert(tasks[j].handle != tasks[tasks.len() - 1].handle);
            }
        }
        assert forall|j: int| 0 <= j < tasks.len() implies {
            let edge = (target, (#[trigger] tasks[j]).operation);
            match position(after, tasks[j].handle) {
                Some(at) => 0 <= at < after.len() && after[at].children == if at < g.len() {
                    with_edge(g[at].children, edge)
                } else {
                    seq![edge]
                },
                None => false,
            }
        } by {
            let edge = (target, tasks[j].operation);
            if j < init.len() {
                assert(init[j] == tasks[j]);
                let at = position(before, init[j].handle).unwrap();
                lemma_position_is_index(before, init[j].handle);
                assert(after[at].handle() == before[at].handle());
                lemma_position(after, at);
                assert(tasks[j].handle != tasks[tasks.len() - 1].handle);
                assert(after[at].children == before[at].children);
            } else {
                match position(before, last.handle) {
                    Some(at) => {
                        assert(after[at].handle() == last.handle);
                        lemma_position(after, at);
                        assert(knows(g, last.handle));
                        lemma_position_is_index(g, last.handle);
                        let i = position(g, last.handle).unwrap();
                        assert(before[i].handle() == g[i].handle());
                        lemma_position(before, i);
                        assert(before[i].children == g[i].children);
                    },
                    None => {
                        let at = before.len() as int;
                        assert(after[at].handle() == last.handle);
                        lemma_position(after, at);
                        assert(!knows(g, last.handle));
                    },
                }
            }
        }
        assert forall|i: int| 0 <= i < g.len() && !names(tasks, g[i].handle()) implies (
        #[trigger] after[i]).children == g[i].children by {
            assert(!names(init, g[i].handle())) by {
                if names(init, g[i].handle()) {
                    let j = choose|j: int|
                        0 <= j < init.len() && (#[trigger] init[j]).handle == g[i].handle();
                    assert(tasks[j].handle == g[i].handle());
                }
            }
            assert(before[i].children == g[i].children);
            assert(tasks[tasks.len() - 1].handle != g[i].handle());
            assert(before[i].handle() == g[i].handle());
            lemma_position(before, i);
        }
    }
}

/// Merging the same tasks again changes nothing: no node is made a second
/// time and no edge is held twice.
pub proof fn lemma_merge_idempotent(g: Seq<AncestorView>, target: int, tasks: Seq<Task>)
    requires
        well_formed(g),
        0 <= target < g.len(),
    ensures
        merge_all(merge_all(g, target, tasks), target, tasks) == merge_all(g, target, tasks),
{
    let after = merge_all(g, target, tasks);
    lemma_merge_all(g, target, tasks);
    assert(tasks.take(tasks.len() as int) =~= tasks);
    lemma_grows_to_self(after);
    lemma_merge_settled(g, after, target, tasks, tasks.len() as int);
}

/// A graph that has grown from the merge of the first `n` tasks is not
/// changed by merging those tasks.
proof fn lemma_merge_settled(
    g: Seq<AncestorView>,
    later: Seq<AncestorView>,
    target: int,
    tasks: Seq<Task>,
    n: int,
)
    requires
        well_formed(g),
        0 <= target < g.len(),
        0 <= n <= tasks.len(),
        well_formed(later),
        grows_to(merge_all(g, target, tasks.take(n)), later),
        holds_edges(merge_all(g, target, tasks.take(n)), later),
    ensures
        merge_all(later, target, tasks.take(n)) == later,
    decreases n,
{
    if n > 0 {
        let first = tasks.take(n);
        let init = tasks.take(n - 1);
        assert(first.drop_last() =~= init);
        let before = merge_all(g, target, init);
        let after = merge_all(g, target, first);
        lemma_merge_all(g, target, init);
        lemma_merge_one(before, target, first.last());
        lemma_grows_to_chain(before, after, later);
        assert(holds_edges(before, later)) by {
            assert forall|i: int, k: int|
                0 <= i < before.len() && 0 <= k < before[i].children.len() implies (
            #[trigger] later[i]).children.contains(#[trigger] before[i].children[k]) by {
                assert(after[i].children.take(before[i].children.len() as int)[k]
                    == after[i].children[k]);
                assert(later[i].children.contains(after[i].children[k]));
            }
        }
        lemma_merge_settled(g, later, target, tasks, n - 1);
        // The last task names a node of `after`, and so of `later`, that
        // holds the task's edge.
        let last = first.last();
        let edge = (target, last.operation);
        lemma_position_is_index(before, last.handle);
        let at = match position(before, last.handle) {
            Some(at) => at,
            None => before.len() as int,
        };
        assert(after[at].handle() == last.handle);
        assert(after[at].children.contains(edge)) by {
            match position(before, last.handle) {
                Some(a) => {
                    if !before[at].children.contains(edge) {
                        assert(after[at].children[before[at].children.len() as int] == edge);
                    } else {
                        assert(after[at].children == before[at].children);
                    }
                },
                None => {
                    assert(after[at].children[0] == edge);
                },
            }
        }
        let k = choose|k: int| 0 <= k < after[at].children.len() && after[at].children[k] == edge;
        assert(later[at].children.contains(after[at].children[k]));
        assert(later[at].handle() == last.handle);
        lemma_position(later, at);
        assert(merge_one(later, target, last) =~= later);
    }
}

/// Every edge that a node holds in `g` it holds in `later`.
pub open spec fn holds_edges(g: Seq<AncestorView>, later: Seq<AncestorView>) -> bool {
    forall|i: int, k: int|
        0 <= i < g.len() && 0 <= k < g[i].children.len() ==> (
        #[trigger] later[i]).children.contains(#[trigger] g[i].children[k])
}

/// A node keeps its identity through every merge: its ordering index, its
/// content and its lineage stay as they are, its handle is found at its
/// index, and its lineage leads to it.
pub proof fn lemma_identity_stable(g: Seq<AncestorView>, target: int, tasks: Seq<Task>, i: int)
    requires
        well_formed(g),
        0 <= target < g.len(),
        0 <= i < g.len(),
    ensures
        i < merge_all(g, target, tasks).len(),
        merge_all(g, target, tasks)[i].content == g[i].content,
        merge_all(g, target, tasks)[i].lineage == g[i].lineage,
        position(merge_all(g, target, tasks), g[i].handle()) == Some(i),
        resolve(merge_all(g, target, tasks), g[i].lineage) == Some(i),
{
    let after = merge_all(g, target, tasks);
    lemma_merge_all(g, target, tasks);
    assert(after[i].handle() == g[i].handle());
    lemma_position(after, i);
    lemma_well_formed_nodes(g, i);
    lemma_resolve_grows(g, after, g[i].lineage);
}

/// The slots of one generation are laid out evenly and symmetrically: each
/// slot is one slot's width from the next, the slot `k` from the left is as
/// far from the middle as the slot `k` from the right, and every slot's
/// middle lies within the shared width.
pub proof fn lemma_slots_centered(count: int, k: int)
    requires
        0 <= k < count,
    ensures
        twice_centered(k, count) + twice_centered(count - 1 - k, count) == 0,
        k + 1 < count ==> twice_centered(k + 1, count) - twice_centered(k, count) == 2,
        -count < twice_centered(k, count) < count,
{
}

/// The parents that a node owns stand side by side above it: the way to
/// parent `k` is the way to the node followed by slot `k` of as many slots
/// as the node has parents, so all of them share the node's place and scale
/// and differ in that last slot alone.
pub proof fn lemma_parent_slots(g: Seq<AncestorView>, owner: int, k: int)
    requires
        well_formed(g),
        0 <= owner < g.len(),
        0 <= k < g[owner].parents.len(),
    ensures
        ({
            let parent = g[owner].parents[k];
            let way = g[owner].lineage;
            &&& 0 <= parent < g.len()
            &&& g[parent].lineage == way.push(k)
            &&& generation_size(g, g[parent].lineage, way.len() as int) == g[owner].parents.len()
            &&& forall|d: int|
                0 <= d < way.len() ==> generation_size(g, g[parent].lineage, d) == generation_size(
                    g,
                    way,
                    d,
                )
        }),
{
    lemma_well_formed_nodes(g, owner);
    let parent = g[owner].parents[k];
    let way = g[owner].lineage;
    let path = g[parent].lineage;
    assert(path == way.push(k));
    assert(resolve(g, way) == Some(owner));
    assert(path.take(way.len() as int) =~= way);
    assert forall|d: int| 0 <= d < way.len() implies generation_size(g, path, d) == generation_size(
        g,
        way,
        d,
    ) by {
        assert(path.take(d) =~= way.take(d));
    }
}

/// The number of times that the scale at the end of the way fits into the
/// scale of the root: the product of the sizes of the generations. With this
/// `d`, [`x_scaled`] `x` and [`y_scaled`] `y`, an element is drawn at the
/// place `(x / 2d, y / 2d)` with the scale `1 / d`.
pub open spec fn scale_inverse(slots: Seq<Slot>) -> int
    decreases slots.len(),
{
    if slots.len() == 0 {
        1
    } else {
        scale_inverse(slots.drop_last()) * slots.last().count
    }
}

/// Where the way ends from left to right, in halves of the scale at its end:
/// each generation moves from the middle of the slot before it to the middle
/// of its own slot.
pub open spec fn x_scaled(slots: Seq<Slot>) -> int
    decreases slots.len(),
{
    if slots.len() == 0 {
        0
    } else {
        x_scaled(slots.drop_last()) * slots.last().count + twice_centered(
            slots.last().index as int,
            slots.last().count as int,
        )
    }
}

/// How far up the way ends, in halves of the scale at its end: each
/// generation rises by half its scale, from half the root's scale below the
/// root.
pub open spec fn y_scaled(slots: Seq<Slot>) -> int
    decreases slots.len(),
{
    if slots.len() == 0 {
        -1
    } else {
        y_scaled(slots.drop_last()) * slots.last().count + 1
    }
}

/// Every slot is one of those that its generation has.
pub open spec fn slots_valid(slots: Seq<Slot>) -> bool {
    forall|d: int| 0 <= d < slots.len() ==> (#[trigger] slots[d]).index < slots[d].count
}

/// The slots of one generation lie at one height with one scale, one scale
/// apart from left to right, and as far to the left of the middle of the
/// slot below them as to the right of it.
pub proof fn lemma_sibling_places(way: Seq<Slot>, count: usize, k: usize)
    requires
        k < count,
    ensures
        ({
            let at = |i: int| way.push(Slot { index: i as usize, count });
            &&& scale_inverse(at(k as int)) == scale_inverse(way) * count
            &&& y_scaled(at(k as int)) == y_scaled(way) * count + 1
            &&& x_scaled(at(k as int)) + x_scaled(at(count - 1 - k)) == 2 * (x_scaled(way) * count)
            &&& k + 1 < count ==> x_scaled(at(k + 1)) - x_scaled(at(k as int)) == 2
        }),
{
    let at = |i: int| way.push(Slot { index: i as usize, count });
    assert forall|i: int| 0 <= i < count implies (#[trigger] at(i)).drop_last() == way && at(
        i,
    ).last() == (Slot { index: i as usize, count }) by {
        assert(at(i).drop_last() =~= way);
    }
    assert(at(k as int).drop_last() == way);
    assert(at(count - 1 - k).drop_last() == way);
    if k + 1 < count {
        assert(at(k + 1).drop_last() == way);
    }
}

/// The root is drawn at the origin with the scale one, and no element is
/// drawn outside the width of the root, nor below it where the way starts at
/// a root that stands alone: its middle is less than half the root's width
/// from the root's middle.
pub proof fn lemma_places_within(slots: Seq<Slot>)
    requires
        slots_valid(slots),
    ensures
        scale_inverse(slots) >= 1,
        -scale_inverse(slots) < x_scaled(slots) < scale_inverse(slots),
        slots.len() >= 1 && slots[0].count == 1 ==> y_scaled(slots) >= 0,
        slots == seq![Slot { index: 0, count: 1 }] ==> scale_inverse(slots) == 1 && x_scaled(slots)
            == 0 && y_scaled(slots) == 0,
    decreases slots.len(),
{
    if slots.len() > 0 {
        let init = slots.drop_last();
        let n = slots.last().count as int;
        let c = twice_centered(slots.last().index as int, n);
        assert(slots_valid(init)) by {
            assert forall|d: int| 0 <= d < init.len() implies (#[trigger] init[d]).index
                < init[d].count by {
                assert(init[d] == slots[d]);
            }
        }
        assert(slots[slots.len() - 1].index < slots[slots.len() - 1].count);
        lemma_places_within(init);
        let d = scale_inverse(init);
        let x = x_scaled(init);
        let y = y_scaled(init);
        assert(d * n >= 1 && -(d * n) < x * n + c && x * n + c < d * n) by (nonlinear_arith)
            requires
                d >= 1,
                n >= 1,
                -d < x < d,
                -n < c < n,
        ;
        if init.len() >= 1 && slots[0].count == 1 {
            assert(init[0] == slots[0]);
            assert(y * n + 1 >= 0) by (nonlinear_arith)
                requires
                    y >= 0,
                    n >= 1,
            ;
        }
        if slots == seq![Slot { index: 0, count: 1 }] {
            assert(init =~= Seq::<Slot>::empty());
        }
    }
}

/// The way to a node of a well-formed graph starts at the root, which
/// stands alone, and goes through a slot of each generation.
pub proof fn lemma_way_to_node(g: Seq<AncestorView>, i: int, slots: Seq<Slot>)
    requires
        well_formed(g),
        0 <= i < g.len(),
        follows(slots, g, g[i].lineage),
    ensures
        slots.len() >= 1,
        slots[0] == (Slot { index: 0, count: 1 }),
        slots_valid(slots),
{
    lemma_well_formed_nodes(g, i);
    lemma_resolve_prefix(g, g[i].lineage, 1);
    assert(slots[0].index == 0 && slots[0].count == 1);
}

/// No two nodes of a well-formed graph stand for the same handle or have the
/// same lineage.
pub proof fn lemma_nodes_distinct(g: Seq<AncestorView>, i: int, j: int)
    requires
        well_formed(g),
        0 <= i < g.len(),
        0 <= j < g.len(),
        i != j,
    ensures
        g[i].handle() != g[j].handle(),
        g[i].lineage != g[j].lineage,
{
    lemma_well_formed_nodes(g, i);
    lemma_well_formed_nodes(g, j);
    lemma_position(g, i);
    lemma_position(g, j);
}

} // verus!
