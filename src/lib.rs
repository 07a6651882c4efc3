//! A generic, self-describing tree document format with a compact binary
//! encoding, a validating zero-copy reader, and a builder that serializes
//! an in-memory tree into that encoding.
pub mod builder;
pub mod classify;
pub mod codec;
pub mod document;
pub mod error;
pub mod laws;
pub mod raw;

pub use classify::ClassifyNode;
pub use document::{
    Arg, Args, Children, Document, DocumentBuffer, Entry, IndexOrString, Node, ValueRef,
};
pub use error::{ValidationError, ValidationErrorKind};
