//! What the operator is looking at: the handle that was chosen, the graph
//! that grew from it, and the last thing that went wrong.
//!
//! Text that names no handle and requests that fail are reported and change
//! nothing else: what the graph has learned is never taken back.

use crate::graph::ancestors::GraphError;
use crate::graph::model::{grows_to, merge_all, position, rooted};
use crate::graph::{Graph, GraphView};
use crate::handle::{
    decode_text, handle_error_text, Accessibility, Content, Handle, HandleError, HandleView, Task,
    LITERAL_CONTENT_LENGTH,
};
use crate::plot::ElementContent;
use vstd::prelude::*;
use vstd::string::StringExecFns;

verus! {

/// What is kept from one run to the next.
#[derive(Clone, Debug)]
pub struct Storage {
    /// Where the service is reached.
    pub url: String,
    /// The handle that was chosen last.
    pub target: Handle,
}

impl Default for Storage {
    /// No address, and the literal of four zero bytes, whose text is
    /// `0-0-0-2400000000000000`.
    fn default() -> (s: Storage)
        ensures
            s.url@ == Seq::<char>::empty(),
            s.target.size == 4,
            s.target.accessibility == Accessibility::Strict,
            s.target.content matches Content::Literal(bytes) && bytes@ == crate::handle::zeros(31),
    {
        let bytes = [0u8; LITERAL_CONTENT_LENGTH];
        assert(bytes@ =~= crate::handle::zeros(31));
        Storage {
            url: String::new(),
            target: Handle {
                size: 4,
                accessibility: Accessibility::Strict,
                content: Content::Literal(bytes),
            },
        }
    }
}

/// The outcome of a request for the parents of a handle.
#[derive(Clone, Debug)]
pub enum Outcome {
    /// The service knows no parents of the handle.
    Unknown,
    /// The parents that the service knows.
    Parents(Vec<Task>),
    /// The request failed, for the reason given.
    Failed(String),
}

/// What the operator is looking at.
#[derive(Clone, Debug)]
pub struct Session {
    target: Handle,
    error: String,
    graph: Graph,
}

/// A session as a mathematical value.
pub struct SessionView {
    pub target: Handle,
    pub error: Seq<char>,
    pub graph: GraphView,
}

impl View for Session {
    type V = SessionView;

    closed spec fn view(&self) -> SessionView {
        SessionView { target: self.target, error: self.error@, graph: self.graph@ }
    }
}

/// The report of a failed request.
pub open spec fn failure_report(reason: Seq<char>) -> Seq<char> {
    "Failed http request: "@ + reason + "."@
}

impl Session {
    /// The graph of the session is well formed.
    pub closed spec fn well_formed(&self) -> bool {
        self.graph.well_formed()
    }

    /// A session that shows `target` alone and reports nothing.
    pub fn new(target: Handle) -> (s: Session)
        ensures
            s.well_formed(),
            s@.target == target,
            s@.error == Seq::<char>::empty(),
            s@.graph.name == "dependency_graph"@,
            s@.graph.main == Some(rooted(ElementContent::Handle(target))),
    {
        let mut graph = Graph::new("dependency_graph");
        graph.set_main_handle(target);
        Session { target, error: String::new(), graph }
    }

    /// The handle that was chosen last.
    pub fn target(&self) -> (h: &Handle)
        ensures
            *h == self@.target,
    {
        &self.target
    }

    /// What went wrong last; empty if nothing did.
    pub fn error(&self) -> (e: &str)
        ensures
            e@ == self@.error,
    {
        self.error.as_str()
    }

    /// The graph.
    pub fn graph(&self) -> (g: &Graph)
        ensures
            g@ == self@.graph,
            self.well_formed() ==> g.well_formed(),
    {
        &self.graph
    }

    /// Takes the text that the operator typed for a handle. Text that names
    /// a handle makes it the target and the root of a new graph, and clears
    /// the report. Other text is reported and changes nothing else.
    pub fn edit_target(&mut self, input: &str) -> (r: Result<(), HandleError>)
        requires
            old(self).well_formed(),
        ensures
            final(self).well_formed(),
            final(self)@.graph.name == old(self)@.graph.name,
            match r {
                Ok(()) => decode_text(input@) == Ok::<HandleView, HandleError>(final(self)@.target@)
                    && final(self)@.error == Seq::<char>::empty() && final(self)@.graph.main
                    == Some(rooted(ElementContent::Handle(final(self)@.target))),
                Err(e) => decode_text(input@) == Err::<HandleView, HandleError>(e)
                    && final(self)@.error == handle_error_text(e) && final(self)@.target
                    == old(self)@.target && final(self)@.graph == old(self)@.graph,
            },
    {
        match Handle::from_hex(input) {
            Ok(handle) => {
                self.error = String::new();
                self.target = handle;
                self.graph.set_main_handle(handle);
                Ok(())
            },
            Err(e) => {
                self.error = e.message();
                Err(e)
            },
        }
    }

    /// Takes the outcome of a request for the parents of `handle`. Parents
    /// are merged into the graph; for a handle that the graph does not have,
    /// as after the choice of another root, nothing is merged. A failure is
    /// reported. The target stays, and the graph keeps what it has learned.
    pub fn receive(&mut self, handle: Handle, outcome: Outcome) -> (r: Result<(), GraphError>)
        requires
            old(self).well_formed(),
        ensures
            final(self).well_formed(),
            final(self)@.target == old(self)@.target,
            final(self)@.graph.name == old(self)@.graph.name,
            old(self)@.graph.main matches Some(g) ==> grows_to(
                g,
                final(self)@.graph.main.unwrap(),
            ),
            match outcome {
                Outcome::Unknown => r is Ok && final(self)@ == old(self)@,
                Outcome::Failed(reason) => r is Ok && final(self)@.error == failure_report(reason@)
                    && final(self)@.graph == old(self)@.graph,
                Outcome::Parents(tasks) => final(self)@.error == old(self)@.error && match old(
                    self,
                )@.graph.main {
                    None => r is Ok && final(self)@.graph.main is None,
                    Some(g) => match position(g, handle) {
                        Some(at) => r is Ok && final(self)@.graph.main == Some(
                            merge_all(g, at, tasks@),
                        ),
                        None => r == Err::<(), _>(GraphError::NotFound) && final(self)@.graph.main
                            == Some(g),
                    },
                },
            },
    {
        proof {
            if let Some(g) = self@.graph.main {
                crate::graph::model::lemma_grows_to_self(g);
            }
        }
        match outcome {
            Outcome::Unknown => Ok(()),
            Outcome::Failed(reason) => {
                let mut report = "Failed http request: ".to_owned();
                report.append(reason.as_str());
                report.append(".");
                self.error = report;
                Ok(())
            },
            Outcome::Parents(tasks) => self.graph.set_parents(handle, tasks),
        }
    }
}

} // verus!
