//! The core of a language server for Python: positions and edits of documents, the names of a
//! module and what they stand for, and the open documents of a workspace.

pub mod batch;
pub mod binding;
pub mod hover;
pub mod imports;
pub mod laws;
pub mod location;
pub mod modules;
pub mod parser;
pub mod references;
pub mod scope;
pub mod search;
pub mod source;
pub mod strings;
pub mod symbols;
pub mod syntax;
pub mod text;
pub mod trace;
pub mod workspace;
