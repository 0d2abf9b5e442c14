//! Redis hash persistence for plain structs: the model that the derive reads
//! off a struct definition, the commands and replies that carry a record to
//! and from a Redis hash, and the interfaces that records implement.
pub mod command;
pub mod derive;
pub mod errors;
pub mod field_map;
pub mod keys;
pub mod laws;
pub mod schema;
pub mod text;
pub mod traits;

pub use errors::{ConvertError, DeriveError};
pub use field_map::FieldMap;
pub use schema::{Conversion, DecodeError, FieldSchema, ModelSchema, RawRecord};
pub use traits::{HSetRedis, HashSet};
