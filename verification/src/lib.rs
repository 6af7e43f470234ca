//! A small read-only quote service core: loading a quote collection from its
//! JSON wire format, selecting entries by id or at random, and classifying
//! failures into a fixed error taxonomy for the HTTP boundary.

pub mod models;
pub mod wire;
pub mod laws;
pub mod text;
pub mod parse;
pub mod render;
pub mod service;
pub mod responses;
pub mod errors;
pub mod api;

use vstd::prelude::*;

verus! {

/// Application state shared across request handlers: the location of the
/// quote data source, as a resolved path string.
pub struct AppState {
    pub quotes_file_path: String,
}

} // verus!
