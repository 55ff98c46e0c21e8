//! Run-time field selection for tree-shaped records.
//!
//! A [`Selector`] mirrors the [`Shape`] of a record and holds, per field,
//! whether the field is left out, included whole, or included through a
//! nested selector. Dotted paths such as `"profile.stats.followers"` enable
//! fields; [`render`] walks a record and its selector together and keeps only
//! what was enabled, in the record's own field order.
//!
//! Unknown field names, empty or malformed paths, and paths that go below a
//! field whose values are not records are ignored rather than reported: a
//! list of fields taken from a query string never fails to apply. The one
//! error is [`UnknownField`], from reading a typed [`FieldRef`] out of text.

pub mod combinators;
pub mod field_ref;
pub mod laws;
pub mod path;
pub mod render;
pub mod selector;
pub mod shape;
pub mod text;
pub mod utils;
pub mod value;

pub use combinators::{copy_selected, filter_field_set};
pub use field_ref::{FieldRef, UnknownField};
pub use path::Path;
pub use render::{render, SerializeFields};
pub use selector::{FieldSelector, FieldState, Selector, Slot};
pub use shape::{strip_raw_prefix, FieldDecl, Shape, TypeExpr, UnknownType};
pub use value::Value;
