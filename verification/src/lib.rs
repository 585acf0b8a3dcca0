//! Rendering policy and diagnostics for a paginated document: how large the
//! first page may be, where a diagnostic points in the text, what is
//! reported when compilation fails, and how the first page becomes an image.
pub mod offsets;
pub mod render;
pub mod report;
pub mod resolution;
pub mod span;

pub use render::{render, Error, Output};
pub use report::SourceErrorsWithSource;
pub use resolution::TooBig;
