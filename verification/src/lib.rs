//! Provenance of build artifacts: handles that name them, and the graph of
//! the ancestors of one of them as far as it has been explored.
//!
//! - [`handle`] holds the handle, its packed form and its text;
//!   [`handle_laws`] holds what is proved of the two forms.
//! - [`graph`] holds the ancestry graph, which only grows, with its model and
//!   what is proved of it; [`graphs`] holds a container for one ancestry.
//! - [`plot`] holds what an element of the graph shows.
//! - [`wire`] holds what is asked of the service that knows the ancestry and
//!   what its answers mean.
//! - [`session`] holds what the operator chose and what was last reported.
//! - [`text`] holds numerals and separated fields.

pub mod graph;
pub mod graphs;
pub mod handle;
pub mod handle_laws;
pub mod plot;
pub mod session;
pub mod text;
pub mod wire;
