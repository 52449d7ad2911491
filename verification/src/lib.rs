//! Parts of a module graph: the dependencies that a program states, and the packages that a graph
//! refers to.

pub mod analysis;
pub mod attribute_laws;
pub mod comments;
pub mod dep;
pub mod dependency_laws;
pub mod import_attributes;
pub mod json;
pub mod order;
pub mod ordered_map;
pub mod package_history;
pub mod package_laws;
pub mod package_specifiers;
pub mod packages;
pub mod semver;
pub mod syntax;
pub mod version_resolution;
