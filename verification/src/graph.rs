//! The graph that is plotted: a name, and once a root was chosen, the root
//! with its known ancestry.

use crate::graph::ancestors::{
    follows, is_first_minimum, AncestorGraph, ArrowEdge, GraphError, NearbyClick, Slot,
};
use crate::graph::model::{grows_to, merge_all, position, rooted, well_formed, AncestorView};
use crate::handle::{Handle, Task};
use crate::plot::{Element, ElementContent};
use vstd::prelude::*;

pub mod ancestors;
pub mod laws;
pub mod model;

verus! {

/// Which part of a graph an element belongs to, and its place there.
#[derive(Clone, Copy, Debug, PartialEq, Eq, Structural)]
pub enum GraphIndex {
    /// The root or one of its ancestors, by ordering index.
    Ancestor(usize),
}

/// A named graph. It is empty until a root is chosen.
#[derive(Clone, Debug)]
pub struct Graph {
    name: String,
    main: Option<AncestorGraph>,
}

/// A graph as a mathematical value.
pub struct GraphView {
    pub name: Seq<char>,
    /// The nodes, or `None` while no root is chosen.
    pub main: Option<Seq<AncestorView>>,
}

impl GraphView {
    /// The number of elements.
    pub open spec fn len(self) -> nat {
        match self.main {
            Some(g) => g.len(),
            None => 0,
        }
    }
}

impl View for Graph {
    type V = GraphView;

    closed spec fn view(&self) -> GraphView {
        GraphView {
            name: self.name@,
            main: match self.main {
                Some(g) => Some(g@),
                None => None,
            },
        }
    }
}

impl Graph {
    /// The graph is empty, or its nodes are a well-formed ancestry.
    pub open spec fn well_formed(&self) -> bool {
        self@.main matches Some(g) ==> well_formed(g)
    }

    /// An empty graph.
    pub fn new(name: &str) -> (g: Graph)
        ensures
            g@.name == name@,
            g@.main is None,
            g.well_formed(),
    {
        Graph { name: name.to_owned(), main: None }
    }

    /// The name of the graph.
    pub fn name(&self) -> (name: &str)
        ensures
            name@ == self@.name,
    {
        self.name.as_str()
    }

    /// The ancestry, once a root was chosen.
    pub fn main(&self) -> (r: Option<&AncestorGraph>)
        ensures
            match r {
                Some(g) => self@.main == Some(g@),
                None => self@.main is None,
            },
    {
        self.main.as_ref()
    }

    /// The elements in the order that indices into the graph refer to: the
    /// root first, then each ancestor in the order in which it was learned.
    ///
    /// ```text
    ///      d = 3    e = 4
    ///          \    /
    ///   a = 1   b = 2   c = 5
    ///       \     |    /
    ///         main = 0
    /// ```
    pub fn iter(&self) -> (r: Vec<&Element>)
        ensures
            r@.len() == self@.len(),
            forall|i: int|
                0 <= i < r@.len() ==> (#[trigger] r@[i])@ == self@.main.unwrap()[i].content,
    {
        match &self.main {
            Some(main) => main.iter(),
            None => Vec::new(),
        }
    }

    /// Makes `handle` the root of a new ancestry. What was known of an
    /// earlier root is forgotten.
    pub fn set_main_handle(&mut self, handle: Handle)
        ensures
            final(self)@.name == old(self)@.name,
            final(self)@.main == Some(rooted(ElementContent::Handle(handle))),
            final(self).well_formed(),
    {
        self.main = Some(AncestorGraph::new(Element::new(ElementContent::Handle(handle))));
    }

    /// Takes `parents` to be the parents of the element that stands for
    /// `handle`. An empty graph stays empty.
    pub fn set_parents(&mut self, handle: Handle, parents: Vec<Task>) -> (r: Result<(), GraphError>)
        requires
            old(self).well_formed(),
        ensures
            final(self).well_formed(),
            final(self)@.name == old(self)@.name,
            old(self)@.main matches Some(g) ==> grows_to(g, final(self)@.main.unwrap()),
            match old(self)@.main {
                None => r is Ok && final(self)@.main is None,
                Some(g) => match position(g, handle) {
                    Some(target) => r is Ok && final(self)@.main == Some(
                        merge_all(g, target, parents@),
                    ),
                    None => r == Err::<(), _>(GraphError::NotFound) && final(self)@.main == Some(g),
                },
            },
    {
        match &mut self.main {
            Some(main) => main.merge_new_parents(handle, parents.as_slice()),
            None => Ok(()),
        }
    }

    /// The place of the element at `index`: `None` where the graph has no
    /// such element.
    pub fn get_graph_index(&self, index: usize) -> (r: Option<GraphIndex>)
        ensures
            r == if index < self@.len() {
                Some(GraphIndex::Ancestor(index))
            } else {
                None
            },
    {
        match &self.main {
            Some(main) => {
                if index < main.len() {
                    Some(GraphIndex::Ancestor(index))
                } else {
                    None
                }
            },
            None => None,
        }
    }

    /// The way from the root to an element, generation by generation.
    pub fn get_draw_parameters(&self, index: GraphIndex) -> (slots: Vec<Slot>)
        requires
            self.well_formed(),
            index->0 < self@.len(),
        ensures
            follows(
                slots@,
                self@.main.unwrap(),
                self@.main.unwrap()[index->0 as int].lineage,
            ),
    {
        match index {
            GraphIndex::Ancestor(index) => match &self.main {
                Some(main) => main.get_draw_parameters(index),
                None => Vec::new(),
            },
        }
    }

    /// The arrows of the graph; none while it is empty.
    pub fn arrows(&self) -> (r: Vec<ArrowEdge>)
        requires
            self.well_formed(),
        ensures
            r@ == match self@.main {
                Some(g) => crate::graph::ancestors::arrows_of(g, g.len() as int),
                None => Seq::<ArrowEdge>::empty(),
            },
    {
        match &self.main {
            Some(main) => main.arrows(),
            None => Vec::new(),
        }
    }

    /// The element that is closest, given for each element in order a key
    /// that grows with its distance: the first of those with the least key.
    /// Keys beyond the last element are not looked at, nor are elements
    /// beyond the last key.
    pub fn find_closest(&self, keys: &[u32]) -> (r: Option<usize>)
        ensures
            ({
                let n = if keys@.len() < self@.len() {
                    keys@.len() as int
                } else {
                    self@.len() as int
                };
                match r {
                    Some(i) => is_first_minimum(keys@.take(n), i as int),
                    None => n == 0,
                }
            }),
    {
        match &self.main {
            Some(main) => main.find_closest(keys),
            None => None,
        }
    }

    /// What a click asks for that fell near the element at `index`, given
    /// whether it fell inside that element: to copy the element's text and
    /// to request the parents of its handle. A click outside the element,
    /// or near an element that the graph does not have, asks for nothing.
    pub fn handle_nearby_click(&self, index: usize, inside: bool) -> (r: Option<NearbyClick>)
        ensures
            match r {
                Some(click) => inside && index < self@.len() && ({
                    let content = self@.main.unwrap()[index as int].content;
                    click.copied_text@ == content.text() && click.handle == content.handle()
                }),
                None => !inside || index >= self@.len(),
            },
    {
        match &self.main {
            Some(main) => main.handle_nearby_click(index, inside),
            None => None,
        }
    }
}

} // verus!
