//! The ancestry that a window shows, without a name of its own.

use crate::graph::ancestors::{AncestorGraph, GraphError};
use crate::graph::model::{grows_to, merge_all, position, rooted, well_formed, AncestorView};
use crate::handle::{Handle, Task};
use crate::plot::{Element, ElementContent};
use vstd::prelude::*;

verus! {

/// An ancestry to show. It is empty until a root is chosen.
#[derive(Clone, Debug)]
pub struct GraphsContainer {
    ancestry: Option<AncestorGraph>,
}

impl View for GraphsContainer {
    type V = Option<Seq<AncestorView>>;

    closed spec fn view(&self) -> Option<Seq<AncestorView>> {
        match self.ancestry {
            Some(g) => Some(g@),
            None => None,
        }
    }
}

impl GraphsContainer {
    /// The container is empty, or its nodes are a well-formed ancestry.
    pub open spec fn well_formed(&self) -> bool {
        self@ matches Some(g) ==> well_formed(g)
    }

    /// An empty container.
    pub fn new() -> (c: GraphsContainer)
        ensures
            c@ is None,
            c.well_formed(),
    {
        GraphsContainer { ancestry: None }
    }

    /// The ancestry, once a root was chosen.
    pub fn ancestry(&self) -> (r: Option<&AncestorGraph>)
        ensures
            match r {
                Some(g) => self@ == Some(g@),
                None => self@ is None,
            },
    {
        self.ancestry.as_ref()
    }

    /// Makes `handle` the root of a new ancestry. What was known of an
    /// earlier root is forgotten.
    pub fn set_main_handle(&mut self, handle: Handle)
        ensures
            final(self)@ == Some(rooted(ElementContent::Handle(handle))),
            final(self).well_formed(),
    {
        self.ancestry = Some(AncestorGraph::new(Element::new(ElementContent::Handle(handle))));
    }

    /// Takes `parents` to be the parents of the element that stands for
    /// `handle`. An empty container stays empty.
    pub fn set_parents(&mut self, handle: Handle, parents: Vec<Task>) -> (r: Result<(), GraphError>)
        requires
            old(self).well_formed(),
        ensures
            final(self).well_formed(),
            old(self)@ matches Some(g) ==> grows_to(g, final(self)@.unwrap()),
            match old(self)@ {
                None => r is Ok && final(self)@ is None,
                Some(g) => match position(g, handle) {
                    Some(target) => r is Ok && final(self)@ == Some(merge_all(g, target, parents@)),
                    None => r == Err::<(), _>(GraphError::NotFound) && final(self)@ == Some(g),
                },
            },
    {
        match &mut self.ancestry {
            Some(main) => main.merge_new_parents(handle, parents.as_slice()),
            None => Ok(()),
        }
    }
}

} // verus!
