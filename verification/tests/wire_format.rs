use provenance_graph::handle::{
    Accessibility, Content, DecodeError, FormatError, Handle, HandleError, Nonliteral, Object,
    Operation, Task,
};
use provenance_graph::wire::{
    child_response, child_url, dependees_response, dependees_url, parents_response, parents_url,
    parse_operation, parse_task, parse_tasks, JsonTask, Response, TransportErrorKind,
    TransportFailure, WireError,
};

fn thunk_handle() -> Handle {
    Handle {
        size: 4,
        accessibility: Accessibility::Strict,
        content: Content::Other { object_type: Object::Thunk, data: Nonliteral::Local(217) },
    }
}

fn written(handle: &str, operation: &str) -> JsonTask {
    JsonTask { handle: handle.to_string(), operation: operation.to_string() }
}

fn no_failure() -> TransportFailure {
    TransportFailure {
        is_builder: false,
        is_request: false,
        is_redirect: false,
        is_status: false,
        is_body: false,
        is_decode: false,
        is_timeout: false,
    }
}

#[test]
fn operations_are_read_from_their_numbers() {
    assert_eq!(parse_operation("0"), Ok(Operation::Apply));
    assert_eq!(parse_operation("1"), Ok(Operation::Eval));
    assert_eq!(parse_operation("2"), Ok(Operation::Fill));
    assert_eq!(parse_operation("+2"), Ok(Operation::Fill));
    assert_eq!(parse_operation("002"), Ok(Operation::Fill));
    assert_eq!(parse_operation("3"), Err(WireError::Operation(DecodeError::InvalidOperation)));
    assert_eq!(parse_operation("255"), Err(WireError::Operation(DecodeError::InvalidOperation)));
    assert_eq!(parse_operation("256"), Err(WireError::OperationNumber));
    assert_eq!(parse_operation(""), Err(WireError::OperationNumber));
    assert_eq!(parse_operation("-1"), Err(WireError::OperationNumber));
    assert_eq!(parse_operation("a"), Err(WireError::OperationNumber));
    assert_eq!(parse_operation("1 "), Err(WireError::OperationNumber));
}

#[test]
fn task_is_read_from_its_texts() {
    assert_eq!(
        parse_task(&written("d9-0-4-100000000000000", "1")),
        Ok(Task { handle: thunk_handle(), operation: Operation::Eval })
    );
}

#[test]
fn task_with_a_bad_handle_or_operation_is_not_read() {
    assert_eq!(
        parse_task(&written("d9-0-4", "1")),
        Err(WireError::Handle(HandleError::Format(FormatError::FieldCount)))
    );
    assert_eq!(
        parse_task(&written("d9-0-4-x", "1")),
        Err(WireError::Handle(HandleError::Format(FormatError::InvalidField)))
    );
    assert_eq!(
        parse_task(&written("0-0-0-c000000000000000", "1")),
        Err(WireError::Handle(HandleError::Decode(DecodeError::InvalidAccessibility)))
    );
    assert_eq!(
        parse_task(&written("d9-0-4-100000000000000", "x")),
        Err(WireError::OperationNumber)
    );
    assert_eq!(
        parse_task(&written("d9-0-4-100000000000000", "7")),
        Err(WireError::Operation(DecodeError::InvalidOperation))
    );
    // The handle is looked at first.
    assert_eq!(
        parse_task(&written("d9", "x")),
        Err(WireError::Handle(HandleError::Format(FormatError::FieldCount)))
    );
}

#[test]
fn tasks_are_read_in_order() {
    let entries = vec![
        written("d9-0-4-100000000000000", "0"),
        written("10-0-0-2400000000000000", "2"),
    ];
    let tasks = parse_tasks(&entries).unwrap();
    assert_eq!(tasks.len(), 2);
    assert_eq!(tasks[0], Task { handle: thunk_handle(), operation: Operation::Apply });
    assert_eq!(tasks[1].operation, Operation::Fill);
    assert_eq!(tasks[1].handle.to_hex(), "10-0-0-2400000000000000");
    assert_eq!(parse_tasks(&vec![]), Ok(vec![]));
}

#[test]
fn first_task_that_is_not_understood_fails_the_list() {
    let entries = vec![
        written("d9-0-4-100000000000000", "0"),
        written("d9-0-4-100000000000000", "9"),
        written("bad", "0"),
    ];
    assert_eq!(
        parse_tasks(&entries),
        Err(WireError::Operation(DecodeError::InvalidOperation))
    );
    let entries = vec![written("bad", "0"), written("d9-0-4-100000000000000", "9")];
    assert_eq!(
        parse_tasks(&entries),
        Err(WireError::Handle(HandleError::Format(FormatError::FieldCount)))
    );
}

#[test]
fn answer_without_parents_is_no_parents() {
    assert!(matches!(parents_response(None), Ok(Response::Parents(None))));
}

#[test]
fn answer_with_parents_lists_their_tasks() {
    let answer = parents_response(Some(vec![written("d9-0-4-100000000000000", "1")]));
    match answer {
        Ok(Response::Parents(Some(tasks))) => {
            assert_eq!(tasks, vec![Task { handle: thunk_handle(), operation: Operation::Eval }]);
        }
        other => panic!("{:?}", other),
    }
    assert!(matches!(parents_response(Some(vec![])), Ok(Response::Parents(Some(tasks))) if tasks.is_empty()));
    assert!(matches!(
        parents_response(Some(vec![written("d9-0-4-100000000000000", "")])),
        Err(WireError::OperationNumber)
    ));
}

#[test]
fn answer_with_dependees_is_handed_on_as_parents() {
    match dependees_response(vec![written("d9-0-4-100000000000000", "2")]) {
        Ok(Response::Parents(Some(tasks))) => {
            assert_eq!(tasks, vec![Task { handle: thunk_handle(), operation: Operation::Fill }]);
        }
        other => panic!("{:?}", other),
    }
    assert!(matches!(
        dependees_response(vec![written("zz", "2")]),
        Err(WireError::Handle(HandleError::Format(FormatError::InvalidField)))
    ));
}

#[test]
fn answer_with_a_child_names_its_handle() {
    assert!(matches!(child_response(None), Response::Child(None)));
    assert!(matches!(
        child_response(Some("d9-0-4-100000000000000".to_string())),
        Response::Child(Some(handle)) if handle == thunk_handle()
    ));
    assert!(matches!(child_response(Some("d9-0-4".to_string())), Response::Child(None)));
}

#[test]
fn addresses_name_the_handle_by_its_text() {
    let handle = thunk_handle();
    assert_eq!(
        parents_url("127.0.0.1:9090", &handle),
        "http://127.0.0.1:9090/parents?handle=d9-0-4-100000000000000"
    );
    assert_eq!(
        dependees_url("localhost", &handle),
        "http://localhost/dependees?handle=d9-0-4-100000000000000"
    );
    assert_eq!(
        child_url("h:1", &handle, Operation::Apply),
        "http://h:1/child?handle=d9-0-4-100000000000000+op=0"
    );
    assert_eq!(
        child_url("", &handle, Operation::Fill),
        "http:///child?handle=d9-0-4-100000000000000+op=2"
    );
    assert_eq!(
        child_url("h", &handle, Operation::Eval),
        "http://h/child?handle=d9-0-4-100000000000000+op=1"
    );
}

#[test]
fn failure_is_of_the_first_kind_that_the_transport_affirms() {
    assert_eq!(no_failure().kind(), TransportErrorKind::Unknown);
    assert_eq!(TransportFailure { is_builder: true, ..no_failure() }.kind(), TransportErrorKind::Builder);
    assert_eq!(TransportFailure { is_request: true, ..no_failure() }.kind(), TransportErrorKind::Request);
    assert_eq!(TransportFailure { is_redirect: true, ..no_failure() }.kind(), TransportErrorKind::Redirect);
    assert_eq!(TransportFailure { is_status: true, ..no_failure() }.kind(), TransportErrorKind::Status);
    assert_eq!(TransportFailure { is_body: true, ..no_failure() }.kind(), TransportErrorKind::Body);
    assert_eq!(TransportFailure { is_decode: true, ..no_failure() }.kind(), TransportErrorKind::Decode);
    assert_eq!(TransportFailure { is_timeout: true, ..no_failure() }.kind(), TransportErrorKind::Timeout);
    assert_eq!(
        TransportFailure { is_request: true, is_timeout: true, ..no_failure() }.kind(),
        TransportErrorKind::Request
    );
    assert_eq!(
        TransportFailure { is_builder: true, is_decode: true, is_body: true, ..no_failure() }.kind(),
        TransportErrorKind::Builder
    );
}

#[test]
fn failure_messages() {
    assert_eq!(TransportErrorKind::Builder.message(), "request failed: building url error");
    assert_eq!(TransportErrorKind::Request.message(), "request failed: request error");
    assert_eq!(TransportErrorKind::Redirect.message(), "request failed: redirect error");
    assert_eq!(TransportErrorKind::Status.message(), "request failed: status code error");
    assert_eq!(TransportErrorKind::Body.message(), "request failed: body error");
    assert_eq!(TransportErrorKind::Decode.message(), "request failed: decode error");
    assert_eq!(TransportErrorKind::Timeout.message(), "request failed: timeout error");
    assert_eq!(TransportErrorKind::Unknown.message(), "request failed: unknown error");
    assert_eq!(TransportErrorKind::Status.name(), "status code");
}
