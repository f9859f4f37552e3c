//! What is asked of the service that knows the provenance of handles, and
//! what its answers mean.
//!
//! A request names a handle by its text in the query of an address. An
//! answer lists tasks as pairs of texts: a handle, and an operation as a
//! decimal number. Sending and receiving is not done here.

use crate::handle::{
    decode_error_text, decode_text, encode_text, handle_error_text, operation_of, DecodeError,
    Handle, HandleError, HandleView, Operation, Task,
};
use crate::text::{chars_of, parse_decimal_u8, parse_unsigned};
use vstd::prelude::*;
use vstd::string::StringExecFns;

verus! {

/// A task as the service writes it.
#[derive(Clone, Debug)]
pub struct JsonTask {
    /// The text of the handle.
    pub handle: String,
    /// The number of the operation, in decimal.
    pub operation: String,
}

/// What the service answered.
#[derive(Clone, Debug)]
pub enum Response {
    /// The parents of the handle asked about, if the service knows them.
    Parents(Option<Vec<Task>>),
    /// The child of the handle and operation asked about.
    Child(Option<Handle>),
    Dependees(Vec<Task>),
}

/// Why an answer of the service is not understood.
#[derive(Clone, Copy, Debug, PartialEq, Eq, Structural)]
pub enum WireError {
    /// A handle's text is not the text of a handle.
    Handle(HandleError),
    /// An operation is no decimal number of at most eight bits.
    OperationNumber,
    /// An operation's number stands for no operation.
    Operation(DecodeError),
}

/// Why a request failed, as far as the transport tells.
#[derive(Clone, Copy, Debug, PartialEq, Eq, Structural)]
pub enum TransportErrorKind {
    Builder,
    Request,
    Redirect,
    Status,
    Body,
    Decode,
    Timeout,
    Unknown,
}

/// What the transport says of a failed request.
#[derive(Clone, Copy, Debug, PartialEq, Eq, Structural)]
pub struct TransportFailure {
    pub is_builder: bool,
    pub is_request: bool,
    pub is_redirect: bool,
    pub is_status: bool,
    pub is_body: bool,
    pub is_decode: bool,
    pub is_timeout: bool,
}

/// A task as a mathematical value.
pub struct TaskView {
    pub handle: HandleView,
    pub operation: Operation,
}

impl View for Task {
    type V = TaskView;

    open spec fn view(&self) -> TaskView {
        TaskView { handle: self.handle@, operation: self.operation }
    }
}

impl View for JsonTask {
    type V = (Seq<char>, Seq<char>);

    open spec fn view(&self) -> (Seq<char>, Seq<char>) {
        (self.handle@, self.operation@)
    }
}

/// The tasks as mathematical values.
pub open spec fn task_views(tasks: Seq<Task>) -> Seq<TaskView> {
    tasks.map_values(|t: Task| t@)
}

/// The written tasks as pairs of texts.
pub open spec fn json_views(entries: Seq<JsonTask>) -> Seq<(Seq<char>, Seq<char>)> {
    entries.map_values(|e: JsonTask| e@)
}

/// The operation that a text names: a decimal numeral of at most eight bits
/// that is the number of an operation.
pub open spec fn decode_operation(text: Seq<char>) -> Result<Operation, WireError> {
    match parse_unsigned(text, 10, u8::MAX as int) {
        None => Err(WireError::OperationNumber),
        Some(n) => match operation_of(n as u8) {
            Ok(operation) => Ok(operation),
            Err(e) => Err(WireError::Operation(e)),
        },
    }
}

/// The task that a pair of texts names. A handle that is not understood is
/// reported before an operation that is not.
pub open spec fn decode_task(entry: (Seq<char>, Seq<char>)) -> Result<TaskView, WireError> {
    match decode_text(entry.0) {
        Err(e) => Err(WireError::Handle(e)),
        Ok(handle) => match decode_operation(entry.1) {
            Err(e) => Err(e),
            Ok(operation) => Ok(TaskView { handle, operation }),
        },
    }
}

/// The tasks that the pairs of texts name, in order, or what is wrong with
/// the first pair that names none.
pub open spec fn decode_tasks(entries: Seq<(Seq<char>, Seq<char>)>) -> Result<
    Seq<TaskView>,
    WireError,
>
    decreases entries.len(),
{
    if entries.len() == 0 {
        Ok(Seq::<TaskView>::empty())
    } else {
        match decode_tasks(entries.drop_last()) {
            Err(e) => Err(e),
            Ok(tasks) => match decode_task(entries.last()) {
                Err(e) => Err(e),
                Ok(task) => Ok(tasks.push(task)),
            },
        }
    }
}

/// The address at which the parents of `handle` are asked for.
pub open spec fn parents_address(url_base: Seq<char>, handle: HandleView) -> Seq<char> {
    "http://"@ + url_base + "/parents?handle="@ + encode_text(handle)
}

/// The address at which the dependees of `handle` are asked for.
pub open spec fn dependees_address(url_base: Seq<char>, handle: HandleView) -> Seq<char> {
    "http://"@ + url_base + "/dependees?handle="@ + encode_text(handle)
}

/// The digit that an operation is written as in an address.
pub open spec fn operation_digit(operation: Operation) -> Seq<char> {
    match operation {
        Operation::Apply => "0"@,
        Operation::Eval => "1"@,
        Operation::Fill => "2"@,
    }
}

/// The address at which the child of `handle` by `operation` is asked for.
pub open spec fn child_address(
    url_base: Seq<char>,
    handle: HandleView,
    operation: Operation,
) -> Seq<char> {
    "http://"@ + url_base + "/child?handle="@ + encode_text(handle) + "+op="@ + operation_digit(
        operation,
    )
}

/// The kind of a failure: the first that the transport affirms, in the
/// order builder, request, redirect, status, body, decode, timeout.
pub open spec fn failure_kind(failure: TransportFailure) -> TransportErrorKind {
    if failure.is_builder {
        TransportErrorKind::Builder
    } else if failure.is_request {
        TransportErrorKind::Request
    } else if failure.is_redirect {
        TransportErrorKind::Redirect
    } else if failure.is_status {
        TransportErrorKind::Status
    } else if failure.is_body {
        TransportErrorKind::Body
    } else if failure.is_decode {
        TransportErrorKind::Decode
    } else if failure.is_timeout {
        TransportErrorKind::Timeout
    } else {
        TransportErrorKind::Unknown
    }
}

/// What a kind of failure is called.
pub open spec fn kind_name(kind: TransportErrorKind) -> Seq<char> {
    match kind {
        TransportErrorKind::Builder => "building url"@,
        TransportErrorKind::Request => "request"@,
        TransportErrorKind::Redirect => "redirect"@,
        TransportErrorKind::Status => "status code"@,
        TransportErrorKind::Body => "body"@,
        TransportErrorKind::Decode => "decode"@,
        TransportErrorKind::Timeout => "timeout"@,
        TransportErrorKind::Unknown => "unknown"@,
    }
}

impl TransportFailure {
    /// The kind of the failure.
    pub fn kind(&self) -> (kind: TransportErrorKind)
        ensures
            kind == failure_kind(*self),
    {
        if self.is_builder {
            TransportErrorKind::Builder
        } else if self.is_request {
            TransportErrorKind::Request
        } else if self.is_redirect {
            TransportErrorKind::Redirect
        } else if self.is_status {
            TransportErrorKind::Status
        } else if self.is_body {
            TransportErrorKind::Body
        } else if self.is_decode {
            TransportErrorKind::Decode
        } else if self.is_timeout {
            TransportErrorKind::Timeout
        } else {
            TransportErrorKind::Unknown
        }
    }
}

impl TransportErrorKind {
    /// What the kind of failure is called.
    pub fn name(&self) -> (name: &'static str)
        ensures
            name@ == kind_name(*self),
    {
        match self {
            TransportErrorKind::Builder => "building url",
            TransportErrorKind::Request => "request",
            TransportErrorKind::Redirect => "redirect",
            TransportErrorKind::Status => "status code",
            TransportErrorKind::Body => "body",
            TransportErrorKind::Decode => "decode",
            TransportErrorKind::Timeout => "timeout",
            TransportErrorKind::Unknown => "unknown",
        }
    }

    /// The message that reports a failure of this kind.
    pub fn message(&self) -> (message: String)
        ensures
            message@ == "request failed: "@ + kind_name(*self) + " error"@,
    {
        let mut message = "request failed: ".to_owned();
        message.append(self.name());
        message.append(" error");
        message
    }
}

/// The address at which the parents of `handle` are asked for.
pub fn parents_url(url_base: &str, handle: &Handle) -> (url: String)
    ensures
        url@ == parents_address(url_base@, handle@),
{
    let mut url = "http://".to_owned();
    url.append(url_base);
    url.append("/parents?handle=");
    url.append(handle.to_hex().as_str());
    url
}

/// The address at which the dependees of `handle` are asked for.
pub fn dependees_url(url_base: &str, handle: &Handle) -> (url: String)
    ensures
        url@ == dependees_address(url_base@, handle@),
{
    let mut url = "http://".to_owned();
    url.append(url_base);
    url.append("/dependees?handle=");
    url.append(handle.to_hex().as_str());
    url
}

/// The address at which the child of `handle` by `operation` is asked for.
pub fn child_url(url_base: &str, handle: &Handle, operation: Operation) -> (url: String)
    ensures
        url@ == child_address(url_base@, handle@, operation),
{
    let mut url = "http://".to_owned();
    url.append(url_base);
    url.append("/child?handle=");
    url.append(handle.to_hex().as_str());
    url.append("+op=");
    url.append(
        match operation {
            Operation::Apply => "0",
            Operation::Eval => "1",
            Operation::Fill => "2",
        },
    );
    url
}

/// Reads an operation from its decimal number.
pub fn parse_operation(text: &str) -> (r: Result<Operation, WireError>)
    ensures
        r == decode_operation(text@),
{
    let digits = chars_of(text);
    match parse_decimal_u8(&digits) {
        None => Err(WireError::OperationNumber),
        Some(number) => match Operation::try_from(number) {
            Ok(operation) => Ok(operation),
            Err(e) => Err(WireError::Operation(e)),
        },
    }
}

/// Reads a task from the texts of its handle and its operation.
pub fn parse_task(entry: &JsonTask) -> (r: Result<Task, WireError>)
    ensures
        match r {
            Ok(task) => decode_task(entry@) == Ok::<_, WireError>(task@),
            Err(e) => decode_task(entry@) == Err::<TaskView, _>(e),
        },
{
    let handle = match Handle::from_hex(entry.handle.as_str()) {
        Ok(handle) => handle,
        Err(e) => {
            return Err(WireError::Handle(e));
        },
    };
    let operation = match parse_operation(entry.operation.as_str()) {
        Ok(operation) => operation,
        Err(e) => {
            return Err(e);
        },
    };
    Ok(Task { handle, operation })
}

/// Reads the tasks of an answer, up to the first that is not understood.
pub fn parse_tasks(entries: &Vec<JsonTask>) -> (r: Result<Vec<Task>, WireError>)
    ensures
        match r {
            Ok(tasks) => decode_tasks(json_views(entries@)) == Ok::<_, WireError>(
                task_views(tasks@),
            ),
            Err(e) => decode_tasks(json_views(entries@)) == Err::<Seq<TaskView>, _>(e),
        },
{
    let ghost texts = json_views(entries@);
    let mut tasks: Vec<Task> = Vec::new();
    let mut i: usize = 0;
    assert(task_views(tasks@) =~= Seq::<TaskView>::empty());
    while i < entries.len()
        invariant
            i <= entries.len(),
            texts == json_views(entries@),
            decode_tasks(texts.take(i as int)) == Ok::<_, WireError>(task_views(tasks@)),
        decreases entries.len() - i,
    {
        proof {
            assert(texts.take(i + 1).drop_last() =~= texts.take(i as int));
            assert(texts.take(i + 1).last() == entries@[i as int]@);
        }
        match parse_task(&entries[i]) {
            Ok(task) => {
                proof {
                    assert(task_views(tasks@.push(task)) =~= task_views(tasks@).push(task@));
                }
                tasks.push(task);
            },
            Err(e) => {
                proof {
                    lemma_decode_tasks_fails(texts, i as int + 1);
                }
                return Err(e);
            },
        }
        i += 1;
    }
    assert(texts.take(texts.len() as int) =~= texts);
    Ok(tasks)
}

/// Where the first `n` pairs of texts are not understood, the whole list
/// fails in the same way.
pub proof fn lemma_decode_tasks_fails(entries: Seq<(Seq<char>, Seq<char>)>, n: int)
    requires
        0 <= n <= entries.len(),
        decode_tasks(entries.take(n)) is Err,
    ensures
        decode_tasks(entries) == decode_tasks(entries.take(n)),
    decreases entries.len() - n,
{
    if n == entries.len() {
        assert(entries.take(n) =~= entries);
    } else {
        assert(entries.take(n + 1).drop_last() =~= entries.take(n));
        lemma_decode_tasks_fails(entries, n + 1);
    }
}

/// The meaning of an answer to a request for parents: the tasks that it
/// lists, or that the service knows no parents.
pub fn parents_response(parents: Option<Vec<JsonTask>>) -> (r: Result<Response, WireError>)
    ensures
        match parents {
            None => r matches Ok(Response::Parents(None)),
            Some(entries) => match r {
                Ok(response) => response matches Response::Parents(Some(tasks)) && decode_tasks(
                    json_views(entries@),
                ) == Ok::<_, WireError>(task_views(tasks@)),
                Err(e) => decode_tasks(json_views(entries@)) == Err::<Seq<TaskView>, _>(e),
            },
        },
{
    match parents {
        None => Ok(Response::Parents(None)),
        Some(entries) => match parse_tasks(&entries) {
            Ok(tasks) => Ok(Response::Parents(Some(tasks))),
            Err(e) => Err(e),
        },
    }
}

/// The meaning of an answer to a request for dependees: the tasks that it
/// lists, handed on as parents are.
pub fn dependees_response(dependees: Vec<JsonTask>) -> (r: Result<Response, WireError>)
    ensures
        match r {
            Ok(response) => response matches Response::Parents(Some(tasks)) && decode_tasks(
                json_views(dependees@),
            ) == Ok::<_, WireError>(task_views(tasks@)),
            Err(e) => decode_tasks(json_views(dependees@)) == Err::<Seq<TaskView>, _>(e),
        },
{
    match parse_tasks(&dependees) {
        Ok(tasks) => Ok(Response::Parents(Some(tasks))),
        Err(e) => Err(e),
    }
}

/// The meaning of an answer to a request for a child: the handle that it
/// names. A text that names no handle counts as no child.
pub fn child_response(child: Option<String>) -> (r: Response)
    ensures
        r matches Response::Child(handle) && match handle {
            Some(h) => child matches Some(text) && decode_text(text@) == Ok::<_, HandleError>(h@),
            None => child matches Some(text) ==> decode_text(text@) is Err,
        },
{
    match child {
        None => Response::Child(None),
        Some(text) => match Handle::from_hex(text.as_str()) {
            Ok(handle) => Response::Child(Some(handle)),
            Err(_) => Response::Child(None),
        },
    }
}

/// What is wrong with an answer, in words: what was being read, then what
/// is wrong with it.
pub open spec fn wire_error_text(e: WireError) -> Seq<char> {
    match e {
        WireError::Handle(e) => "parsing handle: "@ + handle_error_text(e),
        WireError::OperationNumber => "parsing operation as u8"@,
        WireError::Operation(e) => "casting u8 to operation: "@ + decode_error_text(e),
    }
}

impl WireError {
    /// What is wrong, in words.
    pub fn message(&self) -> (s: String)
        ensures
            s@ == wire_error_text(*self),
    {
        match self {
            WireError::Handle(e) => {
                let mut s = "parsing handle: ".to_owned();
                s.append(e.message().as_str());
                s
            },
            WireError::OperationNumber => "parsing operation as u8".to_owned(),
            WireError::Operation(e) => {
                let mut s = "casting u8 to operation: ".to_owned();
                s.append(e.message());
                s
            },
        }
    }
}

} // verus!
