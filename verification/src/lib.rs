//! Core of a local note store: path-safe identifiers rooted at a single
//! directory, typed content encoding and decoding with extension-based type
//! inference, resilient tree building, and a wiki-link graph extracted from
//! note bodies.
#![allow(unused_imports)]
#![verifier::loop_isolation(false)]

pub mod adapter;
pub mod chars;
pub mod content;
pub mod csv;
pub mod directory;
pub mod errors;
pub mod file;
pub mod file_type;
pub mod graph;
pub mod id;
pub mod image;
pub mod manager;
pub mod metadata;
pub mod note;
pub mod numbers;
pub mod preview;
pub mod table;
pub mod tasks;
pub mod tree;

pub use errors::NoterError;
pub use file_type::FileType;
pub use id::Id;
