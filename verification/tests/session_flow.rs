use provenance_graph::graph::ancestors::{AncestorGraph, GraphError, Lineage, OrderingIndex};
use provenance_graph::handle::{
    Accessibility, Content, DecodeError, FormatError, Handle, HandleError, Nonliteral, Object,
    Operation, Task,
};
use provenance_graph::plot::{Element, ElementContent};
use provenance_graph::session::{Outcome, Session, Storage};
use provenance_graph::wire::WireError;

fn local_handle(id: u64) -> Handle {
    Handle {
        size: 0,
        accessibility: Accessibility::Strict,
        content: Content::Other { object_type: Object::Tree, data: Nonliteral::Local(id) },
    }
}

fn parent_task(id: u64) -> Task {
    Task { handle: local_handle(id), operation: Operation::Apply }
}

#[test]
fn stored_target_defaults_to_the_literal_of_four_zero_bytes() {
    let storage = Storage::default();
    assert_eq!(storage.url, "");
    assert_eq!(storage.target, Handle::from_hex("0-0-0-2400000000000000").unwrap());
    assert_eq!(storage.target.to_hex(), "0-0-0-2400000000000000");
    assert_eq!(storage.target.get_literal_content(), Some(&[0u8, 0, 0, 0][..]));
}

#[test]
fn messages_of_handle_errors() {
    assert_eq!(
        HandleError::Format(FormatError::InvalidField).message(),
        "Failed to parse handle from hex"
    );
    assert_eq!(
        HandleError::Format(FormatError::FieldCount).message(),
        "Expected handle with exactly 4 parts when parsing from hex"
    );
    assert_eq!(
        HandleError::Decode(DecodeError::InvalidAccessibility).message(),
        "getting accessibility bits: Invalid number for Accessibility"
    );
    assert_eq!(
        HandleError::Decode(DecodeError::InvalidObject).message(),
        "getting object bits: Invalid number for Object"
    );
    assert_eq!(
        HandleError::Decode(DecodeError::InvalidOperation).message(),
        "Invalid number for Operation"
    );
    assert_eq!(DecodeError::InvalidAccessibility.message(), "Invalid number for Accessibility");
    assert_eq!(DecodeError::InvalidObject.message(), "Invalid number for Object");
    assert_eq!(DecodeError::InvalidOperation.message(), "Invalid number for Operation");
}

#[test]
fn messages_of_wire_errors() {
    assert_eq!(
        WireError::Handle(HandleError::Format(FormatError::FieldCount)).message(),
        "parsing handle: Expected handle with exactly 4 parts when parsing from hex"
    );
    assert_eq!(
        WireError::Handle(HandleError::Decode(DecodeError::InvalidAccessibility)).message(),
        "parsing handle: getting accessibility bits: Invalid number for Accessibility"
    );
    assert_eq!(WireError::OperationNumber.message(), "parsing operation as u8");
    assert_eq!(
        WireError::Operation(DecodeError::InvalidOperation).message(),
        "casting u8 to operation: Invalid number for Operation"
    );
}

#[test]
fn path_from_the_root_leads_to_its_node() {
    let mut graph = AncestorGraph::new(Element::new(ElementContent::Handle(local_handle(1))));
    graph.merge_new_parents(local_handle(1), &[parent_task(2), parent_task(3)]).unwrap();
    graph.merge_new_parents(local_handle(3), &[parent_task(4)]).unwrap();
    let at = |path: Vec<usize>| graph.get_from_lineage(&Lineage(path)).map(|n| *n.content().get_handle());
    assert_eq!(at(vec![0]), Some(local_handle(1)));
    assert_eq!(at(vec![0, 0]), Some(local_handle(2)));
    assert_eq!(at(vec![0, 1]), Some(local_handle(3)));
    assert_eq!(at(vec![0, 1, 0]), Some(local_handle(4)));
    assert_eq!(at(vec![]), None);
    assert_eq!(at(vec![1]), None);
    assert_eq!(at(vec![0, 2]), None);
    assert_eq!(at(vec![0, 0, 0]), None);
    assert_eq!(at(vec![0, 1, 0, 0]), None);
    assert_eq!(at(vec![0, 5, 0]), None);
    for i in 0..graph.len() {
        let node = graph.get(i).unwrap();
        let found = graph.get_from_lineage(node.lineage()).unwrap();
        assert_eq!(found.content(), node.content());
        assert_eq!(graph.find(found.content().get_handle()), Some(OrderingIndex(i)));
    }
}

#[test]
fn session_starts_with_its_target_as_root() {
    let session = Session::new(local_handle(1));
    assert_eq!(session.target(), &local_handle(1));
    assert_eq!(session.error(), "");
    assert_eq!(session.graph().name(), "dependency_graph");
    assert_eq!(session.graph().iter().len(), 1);
    assert_eq!(*session.graph().iter()[0].get_handle(), local_handle(1));
}

#[test]
fn text_of_a_handle_becomes_the_target_and_a_new_root() {
    let mut session = Session::new(local_handle(1));
    session.receive(local_handle(1), Outcome::Parents(vec![parent_task(2)])).unwrap();
    session.receive(local_handle(1), Outcome::Failed("request failed: timeout error".to_string())).unwrap();
    assert_eq!(session.edit_target("d9-0-4-100000000000000"), Ok(()));
    let target = Handle::from_hex("d9-0-4-100000000000000").unwrap();
    assert_eq!(session.target(), &target);
    assert_eq!(session.error(), "");
    assert_eq!(session.graph().iter().len(), 1);
    assert_eq!(*session.graph().iter()[0].get_handle(), target);
}

#[test]
fn text_of_no_handle_is_reported_and_changes_nothing_else() {
    let mut session = Session::new(local_handle(1));
    session.receive(local_handle(1), Outcome::Parents(vec![parent_task(2)])).unwrap();
    assert_eq!(
        session.edit_target("d9-0-4"),
        Err(HandleError::Format(FormatError::FieldCount))
    );
    assert_eq!(session.error(), "Expected handle with exactly 4 parts when parsing from hex");
    assert_eq!(session.target(), &local_handle(1));
    assert_eq!(session.graph().iter().len(), 2);
    assert_eq!(
        session.edit_target("0-0-0-c000000000000000"),
        Err(HandleError::Decode(DecodeError::InvalidAccessibility))
    );
    assert_eq!(session.error(), "getting accessibility bits: Invalid number for Accessibility");
    assert_eq!(
        session.edit_target("d9-0-4-q"),
        Err(HandleError::Format(FormatError::InvalidField))
    );
    assert_eq!(session.error(), "Failed to parse handle from hex");
    assert_eq!(session.graph().iter().len(), 2);
}

#[test]
fn received_parents_are_merged() {
    let mut session = Session::new(local_handle(1));
    assert_eq!(
        session.receive(local_handle(1), Outcome::Parents(vec![parent_task(2), parent_task(3)])),
        Ok(())
    );
    assert_eq!(session.graph().iter().len(), 3);
    assert_eq!(session.receive(local_handle(3), Outcome::Parents(vec![parent_task(2)])), Ok(()));
    assert_eq!(session.graph().iter().len(), 3);
    assert_eq!(session.receive(local_handle(3), Outcome::Unknown), Ok(()));
    assert_eq!(session.graph().iter().len(), 3);
    assert_eq!(session.error(), "");
    assert_eq!(session.target(), &local_handle(1));
}

#[test]
fn parents_of_a_handle_that_is_gone_are_not_merged() {
    let mut session = Session::new(local_handle(1));
    session.edit_target("d9-0-4-100000000000000").unwrap();
    assert_eq!(
        session.receive(local_handle(1), Outcome::Parents(vec![parent_task(2)])),
        Err(GraphError::NotFound)
    );
    assert_eq!(session.graph().iter().len(), 1);
    assert_eq!(session.error(), "");
}

#[test]
fn failed_request_is_reported_and_keeps_the_graph() {
    let mut session = Session::new(local_handle(1));
    session.receive(local_handle(1), Outcome::Parents(vec![parent_task(2)])).unwrap();
    assert_eq!(
        session.receive(local_handle(2), Outcome::Failed("request failed: status code error".to_string())),
        Ok(())
    );
    assert_eq!(session.error(), "Failed http request: request failed: status code error.");
    assert_eq!(session.graph().iter().len(), 2);
    assert_eq!(session.target(), &local_handle(1));
    session.receive(local_handle(2), Outcome::Failed(String::new())).unwrap();
    assert_eq!(session.error(), "Failed http request: .");
}
