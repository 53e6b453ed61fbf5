//! Literal-template matching: find a template's literal pieces in an input,
//! in order, and hand back the text that stands where the template has `{}`.

pub mod captures;
pub mod laws;
pub mod matcher;
pub mod template;
pub mod text;
