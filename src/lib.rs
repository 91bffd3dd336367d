//! Rewriting core of a content-transforming proxy: decides which byte ranges
//! of an HTML document must be replaced, removed or have text inserted.
pub mod document;
pub mod edit;
pub mod error;
pub mod events;
pub mod laws;
pub mod plan;
pub mod rules;
pub mod text;
pub mod visitor;
