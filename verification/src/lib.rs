//! Template processing for a small web framework with JSP-like tags.
use vstd::prelude::*;

pub mod text;
pub mod number;
pub mod tags;
pub mod context;
pub mod expression;
pub mod render;
pub mod processor;
pub mod includes;
pub mod server;
pub mod watcher;
pub mod laws;
pub mod value_laws;
