//! Tags for source navigation.
//!
//! A parser turns a file into a tree of scopes and symbols. This library
//! walks such a tree and writes one tag for every named scope and every
//! symbol: its name, file, line, kind and enclosing scope, as one line of
//! JSON each.

pub mod descriptor;
pub mod json;
pub mod order;
pub mod protocol;
pub mod request;
pub mod scope;
pub mod tags;

pub use crate::descriptor::{descriptors_to_kind, Descriptor, Suffix};
pub use crate::protocol::{Reply, Request, Tag, TagEntry, TagKind};
pub use crate::request::{generate_tags, Extraction, SourceFile};
pub use crate::scope::{LeafSymbol, Scope};
pub use crate::tags::emit_tags_for_scope;
