//! Parsing, editing and rendering of CMake manifests, and the small rules
//! of a project scaffolder built around them.

pub mod cmakelists;
pub mod laws;
pub mod project;
