//! Loading of systems-engineering models stored as XML: versioned schema
//! namespaces that resolve type tags to model classes, and a streaming
//! loader that builds the element graph, indexed by identifier, while it
//! keeps untyped XML as written.

pub mod element_list;
pub mod error;
pub mod loader;
pub mod model;
pub mod namespace;
pub mod registry;
pub mod relation;
pub mod resource;
pub mod scan;
pub mod text;
pub mod tokens;
pub mod version;
pub mod xml;
