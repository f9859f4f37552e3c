//! What a plotted element stands for. How an element is drawn is not kept
//! here: the graph reads no more of an element than its handle.

use crate::handle::{encode_text, task_text, Handle, Task};
use vstd::prelude::*;

verus! {

/// What an element shows: a handle, or a handle with the operation that was
/// applied to it.
#[derive(Clone, Copy, Debug, Eq, Hash)]
pub enum ElementContent {
    Handle(Handle),
    Task(Task),
}

impl PartialEq for ElementContent {
    fn eq(&self, other: &Self) -> (r: bool) {
        match (self, other) {
            (ElementContent::Handle(a), ElementContent::Handle(b)) => *a == *b,
            (ElementContent::Task(a), ElementContent::Task(b)) => *a == *b,
            _ => false,
        }
    }
}

impl vstd::std_specs::cmp::PartialEqSpecImpl for ElementContent {
    open spec fn obeys_eq_spec() -> bool {
        true
    }

    open spec fn eq_spec(&self, other: &Self) -> bool {
        *self == *other
    }
}

impl ElementContent {
    /// The handle that the content is about.
    pub open spec fn handle(self) -> Handle {
        match self {
            ElementContent::Handle(h) => h,
            ElementContent::Task(t) => t.handle,
        }
    }

    /// The text that the content is shown as.
    pub open spec fn text(self) -> Seq<char> {
        match self {
            ElementContent::Handle(h) => encode_text(h@),
            ElementContent::Task(t) => task_text(t),
        }
    }

    /// The handle that the content is about.
    pub fn get_handle(&self) -> (h: &Handle)
        ensures
            *h == self.handle(),
    {
        match self {
            ElementContent::Handle(h) => h,
            ElementContent::Task(t) => &t.handle,
        }
    }

    /// The text that the content is shown as: the handle's text, followed for
    /// a task by a colon, a space and the operation's name.
    pub fn to_text(&self) -> (s: String)
        ensures
            s@ == self.text(),
    {
        match self {
            ElementContent::Handle(h) => h.to_hex(),
            ElementContent::Task(t) => t.to_text(),
        }
    }
}

/// An element of the plot, as far as the graph is concerned.
#[derive(Clone, Copy, Debug, Eq, Hash)]
pub struct Element {
    content: ElementContent,
}

impl View for Element {
    type V = ElementContent;

    closed spec fn view(&self) -> ElementContent {
        self.content
    }
}

impl PartialEq for Element {
    fn eq(&self, other: &Self) -> (r: bool) {
        self.content == other.content
    }
}

impl vstd::std_specs::cmp::PartialEqSpecImpl for Element {
    open spec fn obeys_eq_spec() -> bool {
        true
    }

    closed spec fn eq_spec(&self, other: &Self) -> bool {
        self.content == other.content
    }
}

impl Element {
    /// An element that shows `content`.
    pub fn new(content: ElementContent) -> (e: Element)
        ensures
            e@ == content,
    {
        Element { content }
    }

    /// What the element shows.
    pub fn content(&self) -> (c: &ElementContent)
        ensures
            *c == self@,
    {
        &self.content
    }

    /// The text that the element is shown as.
    pub fn get_text(&self) -> (s: String)
        ensures
            s@ == self@.text(),
    {
        self.content.to_text()
    }

    /// The handle that the element is about.
    pub fn get_handle(&self) -> (h: &Handle)
        ensures
            *h == self@.handle(),
    {
        self.content.get_handle()
    }
}

} // verus!
