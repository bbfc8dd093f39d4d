//! Field reflection and a canonical string codec for record values.
//!
//! A record type is described by an ordered schema of field descriptors.
//! Values of every supported field kind are read and written as canonical
//! strings; the codec's rules are stated as spec functions, and the laws
//! that tie encoding and decoding together are proved.
//!
//! - `field_type`: the closed taxonomy of field kinds.
//! - `field`: per-field descriptors.
//! - `text`, `float`, `decimal`, `time`: the codec of each kind.
//! - `value`: values of any kind and the codec's dispatch on the kind.
//! - `record`: a record instance, read and written through descriptors,
//!   and the tolerant equality of two records.
//! - `random`: randomly filled records.
//! - `laws`: the laws that relate these operations.

mod convert;
mod field;
mod field_type;

pub mod decimal;
pub mod float;
pub mod laws;
pub mod random;
pub mod record;
pub mod text;
pub mod time;
pub mod value;

pub use convert::{ToReflectedString, ToReflectedVal};
pub use field::{kind_of_declared, Field, FieldView};
pub use field_type::{OptionalType, Type};
