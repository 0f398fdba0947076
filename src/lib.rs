//! Layout and typesetting core for diagram labels: Unicode width heuristics,
//! inline markup normalisation and rendering, and stadium shape geometry.

pub mod inline;
pub mod markup;
pub mod metrics;
pub mod rectangle;
pub mod stadium;
pub mod text;
pub mod types;
