//! Declarative extraction of structured JSON from a parsed markup document.
//!
//! A rule configuration names what to select from a document tree and how to
//! shape it; the library translates the restricted path expressions of the
//! rules into element selectors, evaluates each rule against the document,
//! resolves calendar-grid day/item associations, and projects an output
//! template over the evaluated values.

pub mod dom;
pub mod encoding;
pub mod eval;
pub mod json;
pub mod laws;
pub mod pipeline;
pub mod project;
pub mod rules;
pub mod selector;
pub mod xpath;
pub mod text;
