use provenance_graph::graph::ancestors::{
    first_minimum, AncestorGraph, Arrow, ArrowEdge, GraphError, OrderingIndex, Slot,
};
use provenance_graph::graph::{Graph, GraphIndex};
use provenance_graph::graphs::GraphsContainer;
use provenance_graph::handle::{Accessibility, Content, Handle, Nonliteral, Object, Operation, Task};
use provenance_graph::plot::{Element, ElementContent};

fn node_handle(id: u64) -> Handle {
    Handle {
        size: 1,
        accessibility: Accessibility::Strict,
        content: Content::Other { object_type: Object::Thunk, data: Nonliteral::Local(id) },
    }
}

fn task_of(id: u64, operation: Operation) -> Task {
    Task { handle: node_handle(id), operation }
}

fn graph_of(root: u64) -> AncestorGraph {
    AncestorGraph::new(Element::new(ElementContent::Handle(node_handle(root))))
}

fn handles_of(graph: &AncestorGraph) -> Vec<Handle> {
    graph.iter().iter().map(|e| *e.get_handle()).collect()
}

fn lineage_of(graph: &AncestorGraph, index: usize) -> Vec<usize> {
    graph.get(index).unwrap().lineage().0.clone()
}

fn edges_of(graph: &AncestorGraph, index: usize) -> Vec<(OrderingIndex, Operation)> {
    graph.get(index).unwrap().children().clone()
}

fn owned_parents_of(graph: &AncestorGraph, index: usize) -> Vec<OrderingIndex> {
    graph.get(index).unwrap().parents().clone()
}

fn slots_of_node(graph: &AncestorGraph, index: usize) -> Vec<(usize, usize)> {
    graph.get_draw_parameters(index).iter().map(|s| (s.index, s.count)).collect()
}

#[test]
fn new_graph_has_only_its_root() {
    let graph = graph_of(1);
    assert_eq!(graph.iter().len(), 1);
    assert_eq!(graph.len(), 1);
    assert_eq!(graph.find(&node_handle(1)), Some(OrderingIndex(0)));
    assert_eq!(graph.find(&node_handle(2)), None);
    assert_eq!(lineage_of(&graph, 0), vec![0]);
    assert_eq!(edges_of(&graph, 0), vec![]);
    assert_eq!(owned_parents_of(&graph, 0), vec![]);
    assert_eq!(*graph.iter()[0].get_handle(), node_handle(1));
    assert!(graph.get(1).is_none());
}

#[test]
fn merging_unknown_parents_adds_a_node_for_each() {
    let mut graph = graph_of(1);
    let parents = [
        task_of(2, Operation::Apply),
        task_of(3, Operation::Eval),
        task_of(4, Operation::Fill),
    ];
    assert_eq!(graph.merge_new_parents(node_handle(1), &parents), Ok(()));
    assert_eq!(graph.iter().len(), 4);
    assert_eq!(
        handles_of(&graph),
        vec![node_handle(1), node_handle(2), node_handle(3), node_handle(4)]
    );
    assert_eq!(graph.find(&node_handle(3)), Some(OrderingIndex(2)));
    assert_eq!(lineage_of(&graph, 1), vec![0, 0]);
    assert_eq!(lineage_of(&graph, 2), vec![0, 1]);
    assert_eq!(lineage_of(&graph, 3), vec![0, 2]);
    assert_eq!(
        owned_parents_of(&graph, 0),
        vec![OrderingIndex(1), OrderingIndex(2), OrderingIndex(3)]
    );
    assert_eq!(edges_of(&graph, 0), vec![]);
    assert_eq!(edges_of(&graph, 1), vec![(OrderingIndex(0), Operation::Apply)]);
    assert_eq!(edges_of(&graph, 2), vec![(OrderingIndex(0), Operation::Eval)]);
    assert_eq!(edges_of(&graph, 3), vec![(OrderingIndex(0), Operation::Fill)]);
    assert_eq!(owned_parents_of(&graph, 2), vec![]);
}

#[test]
fn merging_known_parents_adds_edges_and_no_nodes() {
    let mut graph = graph_of(1);
    graph
        .merge_new_parents(node_handle(1), &[task_of(2, Operation::Apply), task_of(3, Operation::Apply)])
        .unwrap();
    assert_eq!(graph.len(), 3);
    // Of the three parents of node 2, two are known: the root and node 3.
    let parents = [
        task_of(1, Operation::Eval),
        task_of(5, Operation::Fill),
        task_of(3, Operation::Fill),
    ];
    assert_eq!(graph.merge_new_parents(node_handle(2), &parents), Ok(()));
    assert_eq!(graph.iter().len(), 4);
    assert_eq!(edges_of(&graph, 0), vec![(OrderingIndex(1), Operation::Eval)]);
    assert_eq!(
        edges_of(&graph, 2),
        vec![(OrderingIndex(0), Operation::Apply), (OrderingIndex(1), Operation::Fill)]
    );
    assert_eq!(edges_of(&graph, 3), vec![(OrderingIndex(1), Operation::Fill)]);
    assert_eq!(lineage_of(&graph, 3), vec![0, 0, 0]);
    assert_eq!(owned_parents_of(&graph, 1), vec![OrderingIndex(3)]);
    assert_eq!(owned_parents_of(&graph, 0), vec![OrderingIndex(1), OrderingIndex(2)]);
    assert_eq!(handles_of(&graph)[3], node_handle(5));
}

#[test]
fn merging_the_same_parent_again_changes_nothing() {
    let root = node_handle(1);
    let mut graph = graph_of(1);
    assert_eq!(graph.merge_new_parents(root, &[task_of(2, Operation::Apply)]), Ok(()));
    assert_eq!(graph.merge_new_parents(root, &[task_of(2, Operation::Apply)]), Ok(()));
    assert_eq!(graph.iter().len(), 2);
    assert_eq!(handles_of(&graph), vec![node_handle(1), node_handle(2)]);
    assert_eq!(edges_of(&graph, 1), vec![(OrderingIndex(0), Operation::Apply)]);
    assert_eq!(owned_parents_of(&graph, 0), vec![OrderingIndex(1)]);
}

#[test]
fn parent_named_twice_in_one_merge_is_one_node() {
    let mut graph = graph_of(1);
    let parents = [task_of(2, Operation::Apply), task_of(2, Operation::Apply)];
    graph.merge_new_parents(node_handle(1), &parents).unwrap();
    assert_eq!(graph.len(), 2);
    assert_eq!(edges_of(&graph, 1), vec![(OrderingIndex(0), Operation::Apply)]);
}

#[test]
fn edge_is_kept_out_only_when_index_and_operation_are_both_held() {
    let mut graph = graph_of(1);
    graph
        .merge_new_parents(node_handle(1), &[task_of(2, Operation::Apply), task_of(3, Operation::Apply)])
        .unwrap();
    // Same child, other operation.
    graph.merge_new_parents(node_handle(1), &[task_of(2, Operation::Eval)]).unwrap();
    // Other child, same operation.
    graph.merge_new_parents(node_handle(3), &[task_of(2, Operation::Apply)]).unwrap();
    // Both held already.
    graph.merge_new_parents(node_handle(3), &[task_of(2, Operation::Apply)]).unwrap();
    graph.merge_new_parents(node_handle(1), &[task_of(2, Operation::Eval)]).unwrap();
    assert_eq!(
        edges_of(&graph, 1),
        vec![
            (OrderingIndex(0), Operation::Apply),
            (OrderingIndex(0), Operation::Eval),
            (OrderingIndex(2), Operation::Apply),
        ]
    );
    assert_eq!(graph.len(), 3);
}

#[test]
fn merge_for_an_unknown_handle_is_not_found() {
    let mut graph = graph_of(1);
    graph.merge_new_parents(node_handle(1), &[task_of(2, Operation::Apply)]).unwrap();
    assert_eq!(
        graph.merge_new_parents(node_handle(9), &[task_of(3, Operation::Apply)]),
        Err(GraphError::NotFound)
    );
    assert_eq!(graph.len(), 2);
    assert_eq!(graph.find(&node_handle(3)), None);
    assert_eq!(edges_of(&graph, 1), vec![(OrderingIndex(0), Operation::Apply)]);
    assert_eq!(owned_parents_of(&graph, 0), vec![OrderingIndex(1)]);
}

#[test]
fn merge_of_no_parents_changes_nothing() {
    let mut graph = graph_of(1);
    assert_eq!(graph.merge_new_parents(node_handle(1), &[]), Ok(()));
    assert_eq!(graph.len(), 1);
}

#[test]
fn node_can_be_its_own_parent() {
    let mut graph = graph_of(1);
    graph.merge_new_parents(node_handle(1), &[task_of(1, Operation::Eval)]).unwrap();
    assert_eq!(graph.len(), 1);
    assert_eq!(edges_of(&graph, 0), vec![(OrderingIndex(0), Operation::Eval)]);
    assert_eq!(
        graph.arrows(),
        vec![ArrowEdge {
            origin: OrderingIndex(0),
            target: OrderingIndex(0),
            operation: Operation::Eval,
            direction: Arrow::Right,
        }]
    );
}

#[test]
fn nodes_keep_index_and_lineage_through_later_merges() {
    let mut graph = graph_of(1);
    graph
        .merge_new_parents(node_handle(1), &[task_of(2, Operation::Apply), task_of(3, Operation::Eval)])
        .unwrap();
    graph.merge_new_parents(node_handle(3), &[task_of(4, Operation::Fill)]).unwrap();
    let handles = handles_of(&graph);
    let lineages: Vec<Vec<usize>> = (0..graph.len()).map(|i| lineage_of(&graph, i)).collect();
    assert_eq!(lineages, vec![vec![0], vec![0, 0], vec![0, 1], vec![0, 1, 0]]);
    graph
        .merge_new_parents(node_handle(1), &[task_of(5, Operation::Apply), task_of(4, Operation::Eval)])
        .unwrap();
    graph.merge_new_parents(node_handle(2), &[task_of(6, Operation::Apply)]).unwrap();
    graph.merge_new_parents(node_handle(4), &[task_of(1, Operation::Apply)]).unwrap();
    assert_eq!(graph.len(), 6);
    for (i, handle) in handles.iter().enumerate() {
        assert_eq!(graph.find(handle), Some(OrderingIndex(i)));
        assert_eq!(lineage_of(&graph, i), lineages[i]);
        assert_eq!(graph.iter()[i].get_handle(), handle);
    }
    assert_eq!(lineage_of(&graph, 4), vec![0, 2]);
    assert_eq!(lineage_of(&graph, 5), vec![0, 0, 0]);
}

#[test]
fn draw_parameters_follow_the_lineage() {
    let mut graph = graph_of(1);
    assert_eq!(slots_of_node(&graph, 0), vec![(0, 1)]);
    graph
        .merge_new_parents(
            node_handle(1),
            &[task_of(2, Operation::Apply), task_of(3, Operation::Apply), task_of(4, Operation::Apply)],
        )
        .unwrap();
    graph
        .merge_new_parents(node_handle(3), &[task_of(5, Operation::Apply), task_of(6, Operation::Apply)])
        .unwrap();
    assert_eq!(slots_of_node(&graph, 0), vec![(0, 1)]);
    assert_eq!(slots_of_node(&graph, 1), vec![(0, 1), (0, 3)]);
    assert_eq!(slots_of_node(&graph, 2), vec![(0, 1), (1, 3)]);
    assert_eq!(slots_of_node(&graph, 3), vec![(0, 1), (2, 3)]);
    assert_eq!(slots_of_node(&graph, 4), vec![(0, 1), (1, 3), (0, 2)]);
    assert_eq!(slots_of_node(&graph, 5), vec![(0, 1), (1, 3), (1, 2)]);
}

#[test]
fn draw_parameters_change_when_a_sibling_arrives() {
    let mut graph = graph_of(1);
    graph.merge_new_parents(node_handle(1), &[task_of(2, Operation::Apply)]).unwrap();
    assert_eq!(slots_of_node(&graph, 1), vec![(0, 1), (0, 1)]);
    graph.merge_new_parents(node_handle(1), &[task_of(3, Operation::Apply)]).unwrap();
    assert_eq!(slots_of_node(&graph, 1), vec![(0, 1), (0, 2)]);
    assert_eq!(slots_of_node(&graph, 2), vec![(0, 1), (1, 2)]);
    assert_eq!(lineage_of(&graph, 1), vec![0, 0]);
}

#[test]
fn slots_are_centred_evenly_and_symmetrically() {
    assert_eq!(Slot { index: 0, count: 1 }.twice_centered(), 0);
    assert_eq!(Slot { index: 0, count: 2 }.twice_centered(), -1);
    assert_eq!(Slot { index: 1, count: 2 }.twice_centered(), 1);
    assert_eq!(Slot { index: 0, count: 3 }.twice_centered(), -2);
    assert_eq!(Slot { index: 1, count: 3 }.twice_centered(), 0);
    assert_eq!(Slot { index: 2, count: 3 }.twice_centered(), 2);
    for count in 1..9usize {
        for index in 0..count {
            let here = Slot { index, count }.twice_centered();
            let mirrored = Slot { index: count - 1 - index, count }.twice_centered();
            assert_eq!(here + mirrored, 0);
            assert!(-(count as i128) < here && here < count as i128);
            if index + 1 < count {
                assert_eq!(Slot { index: index + 1, count }.twice_centered() - here, 2);
            }
        }
    }
    assert_eq!(
        Slot { index: usize::MAX - 1, count: usize::MAX }.twice_centered(),
        usize::MAX as i128 - 1
    );
}

#[test]
fn arrows_go_from_each_node_to_its_children() {
    let mut graph = graph_of(1);
    assert_eq!(graph.arrows(), vec![]);
    graph
        .merge_new_parents(node_handle(1), &[task_of(2, Operation::Apply), task_of(3, Operation::Eval)])
        .unwrap();
    graph
        .merge_new_parents(node_handle(2), &[task_of(3, Operation::Fill), task_of(2, Operation::Apply)])
        .unwrap();
    let arrow = |origin, target, operation, direction| ArrowEdge {
        origin: OrderingIndex(origin),
        target: OrderingIndex(target),
        operation,
        direction,
    };
    assert_eq!(
        graph.arrows(),
        vec![
            arrow(1, 0, Operation::Apply, Arrow::Down),
            arrow(1, 1, Operation::Apply, Arrow::Right),
            arrow(2, 0, Operation::Eval, Arrow::Down),
            arrow(2, 1, Operation::Fill, Arrow::Down),
        ]
    );
}

#[test]
fn element_shows_its_content() {
    let handle = node_handle(217);
    let element = Element::new(ElementContent::Handle(handle));
    assert_eq!(element.get_handle(), &handle);
    assert_eq!(element.get_text(), "d9-0-1-100000000000000");
    assert_eq!(element.content(), &ElementContent::Handle(handle));
    let task = Element::new(ElementContent::Task(task_of(217, Operation::Fill)));
    assert_eq!(task.get_handle(), &handle);
    assert_eq!(task.get_text(), "d9-0-1-100000000000000: Fill");
    assert_ne!(task, element);
    assert_eq!(element, Element::new(ElementContent::Handle(node_handle(217))));
}

#[test]
fn named_graph_starts_empty() {
    let graph = Graph::new("dependency_graph");
    assert_eq!(graph.name(), "dependency_graph");
    assert_eq!(graph.iter().len(), 0);
    assert!(graph.main().is_none());
    assert_eq!(graph.get_graph_index(0), None);
    assert_eq!(graph.arrows(), vec![]);
    assert_eq!(graph.find_closest(&[1, 2]), None);
    assert!(graph.handle_nearby_click(0, true).is_none());
}

#[test]
fn graph_index_is_given_for_elements_of_the_graph() {
    let mut graph = Graph::new("g");
    graph.set_main_handle(node_handle(1));
    assert_eq!(graph.get_graph_index(0), Some(GraphIndex::Ancestor(0)));
    assert_eq!(graph.get_graph_index(1), None);
    assert_eq!(graph.set_parents(node_handle(1), vec![task_of(2, Operation::Apply)]), Ok(()));
    assert_eq!(graph.get_graph_index(1), Some(GraphIndex::Ancestor(1)));
    assert_eq!(graph.get_graph_index(2), None);
    assert_eq!(graph.get_graph_index(usize::MAX), None);
    assert_eq!(graph.iter().len(), 2);
    assert_eq!(graph.name(), "g");
}

#[test]
fn setting_parents_of_an_empty_graph_does_nothing() {
    let mut graph = Graph::new("g");
    assert_eq!(graph.set_parents(node_handle(1), vec![task_of(2, Operation::Apply)]), Ok(()));
    assert_eq!(graph.iter().len(), 0);
    assert!(graph.main().is_none());
}

#[test]
fn setting_parents_of_an_unknown_handle_is_not_found() {
    let mut graph = Graph::new("g");
    graph.set_main_handle(node_handle(1));
    assert_eq!(
        graph.set_parents(node_handle(7), vec![task_of(2, Operation::Apply)]),
        Err(GraphError::NotFound)
    );
    assert_eq!(graph.iter().len(), 1);
}

#[test]
fn choosing_a_root_again_forgets_the_ancestry() {
    let mut graph = Graph::new("g");
    graph.set_main_handle(node_handle(1));
    graph.set_parents(node_handle(1), vec![task_of(2, Operation::Apply)]).unwrap();
    graph.set_main_handle(node_handle(2));
    assert_eq!(graph.iter().len(), 1);
    assert_eq!(*graph.iter()[0].get_handle(), node_handle(2));
    assert_eq!(graph.main().unwrap().find(&node_handle(1)), None);
}

#[test]
fn draw_parameters_of_a_graph_index() {
    let mut graph = Graph::new("g");
    graph.set_main_handle(node_handle(1));
    graph
        .set_parents(node_handle(1), vec![task_of(2, Operation::Apply), task_of(3, Operation::Apply)])
        .unwrap();
    let index = graph.get_graph_index(2).unwrap();
    assert_eq!(
        graph.get_draw_parameters(index),
        vec![Slot { index: 0, count: 1 }, Slot { index: 1, count: 2 }]
    );
    assert_eq!(graph.arrows().len(), 2);
}

#[test]
fn first_minimum_is_the_first_of_the_least() {
    assert_eq!(first_minimum(&[]), None);
    assert_eq!(first_minimum(&[5]), Some(0));
    assert_eq!(first_minimum(&[5, 3, 4]), Some(1));
    assert_eq!(first_minimum(&[3, 5, 3, 3]), Some(0));
    assert_eq!(first_minimum(&[9, 8, 7, 7, 8]), Some(2));
    assert_eq!(first_minimum(&[u32::MAX, u32::MAX]), Some(0));
    assert_eq!(first_minimum(&[1, 0, 0]), Some(1));
}

#[test]
fn closest_element_is_among_the_elements() {
    let mut graph = Graph::new("g");
    graph.set_main_handle(node_handle(1));
    graph
        .set_parents(node_handle(1), vec![task_of(2, Operation::Apply), task_of(3, Operation::Apply)])
        .unwrap();
    assert_eq!(graph.find_closest(&[7, 2, 2]), Some(1));
    assert_eq!(graph.find_closest(&[7, 9, 2]), Some(2));
    assert_eq!(graph.find_closest(&[0, 0, 0]), Some(0));
    // A key without an element is not looked at.
    assert_eq!(graph.find_closest(&[7, 9, 8, 0]), Some(0));
    // Nor is an element without a key.
    assert_eq!(graph.find_closest(&[7]), Some(0));
    assert_eq!(graph.find_closest(&[]), None);
}

#[test]
fn click_inside_an_element_asks_for_its_parents() {
    let mut graph = Graph::new("g");
    graph.set_main_handle(node_handle(1));
    graph.set_parents(node_handle(1), vec![task_of(217, Operation::Apply)]).unwrap();
    let click = graph.handle_nearby_click(1, true).unwrap();
    assert_eq!(click.handle, node_handle(217));
    assert_eq!(click.copied_text, "d9-0-1-100000000000000");
    assert_eq!(graph.handle_nearby_click(0, true).unwrap().handle, node_handle(1));
    assert!(graph.handle_nearby_click(1, false).is_none());
    assert!(graph.handle_nearby_click(2, true).is_none());
}

#[test]
fn container_starts_empty_and_grows_like_a_graph() {
    let mut container = GraphsContainer::new();
    assert!(container.ancestry().is_none());
    assert_eq!(container.set_parents(node_handle(1), vec![task_of(2, Operation::Apply)]), Ok(()));
    assert!(container.ancestry().is_none());
    container.set_main_handle(node_handle(1));
    assert_eq!(container.ancestry().unwrap().len(), 1);
    assert_eq!(container.set_parents(node_handle(1), vec![task_of(2, Operation::Apply)]), Ok(()));
    assert_eq!(container.ancestry().unwrap().len(), 2);
    assert_eq!(
        container.set_parents(node_handle(9), vec![task_of(3, Operation::Apply)]),
        Err(GraphError::NotFound)
    );
    assert_eq!(container.ancestry().unwrap().len(), 2);
    container.set_main_handle(node_handle(5));
    assert_eq!(container.ancestry().unwrap().len(), 1);
}

/// The place and scale of an element, in halves of its scale: how often the
/// scale fits into the root's, and twice the distances from the root's
/// middle to the right and upward.
fn place_of(graph: &AncestorGraph, index: usize) -> (i128, i128, i128) {
    let mut scale_inverse: i128 = 1;
    let mut x: i128 = 0;
    let mut y: i128 = -1;
    for slot in graph.get_draw_parameters(index) {
        scale_inverse *= slot.count as i128;
        x = x * slot.count as i128 + slot.twice_centered();
        y = y * slot.count as i128 + 1;
    }
    (scale_inverse, x, y)
}

#[test]
fn parents_are_laid_out_evenly_and_symmetrically_above_their_child() {
    let mut graph = graph_of(1);
    graph
        .merge_new_parents(
            node_handle(1),
            &[task_of(2, Operation::Apply), task_of(3, Operation::Apply), task_of(4, Operation::Apply)],
        )
        .unwrap();
    graph
        .merge_new_parents(
            node_handle(2),
            &[
                task_of(5, Operation::Apply),
                task_of(6, Operation::Apply),
                task_of(7, Operation::Apply),
                task_of(8, Operation::Apply),
            ],
        )
        .unwrap();
    // The root: at the origin, with the scale one.
    assert_eq!(place_of(&graph, 0), (1, 0, 0));
    // Its three parents: a third of the scale, a sixth above the root's middle,
    // at -1/3, 0 and 1/3.
    assert_eq!(place_of(&graph, 1), (3, -2, 1));
    assert_eq!(place_of(&graph, 2), (3, 0, 1));
    assert_eq!(place_of(&graph, 3), (3, 2, 1));
    // The four parents of the first of them: a twelfth of the scale, at
    // -1/3 - 3/24, -1/3 - 1/24, -1/3 + 1/24 and -1/3 + 3/24.
    assert_eq!(place_of(&graph, 4), (12, -11, 5));
    assert_eq!(place_of(&graph, 5), (12, -9, 5));
    assert_eq!(place_of(&graph, 6), (12, -7, 5));
    assert_eq!(place_of(&graph, 7), (12, -5, 5));
    for (first, count) in [(1usize, 3usize), (4, 4)] {
        let owner = if first == 1 { 0 } else { 1 };
        let (owner_scale, owner_x, _) = place_of(&graph, owner);
        for k in 0..count {
            let (scale, x, y) = place_of(&graph, first + k);
            let (_, mirrored, _) = place_of(&graph, first + count - 1 - k);
            assert_eq!(scale, owner_scale * count as i128);
            assert_eq!(x + mirrored, 2 * owner_x * count as i128);
            assert_eq!(y, place_of(&graph, first).2);
            assert!(-scale < x && x < scale);
            if k + 1 < count {
                assert_eq!(place_of(&graph, first + k + 1).1 - x, 2);
            }
        }
    }
}
