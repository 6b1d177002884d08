//! The project model: chapters, tales, materials, settings and document references.

pub mod project;
pub mod properties;
