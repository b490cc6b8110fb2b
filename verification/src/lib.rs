//! Reactive runtime for a tabular dataflow language.
//!
//! Programs are made of blocks that read from and write to tables. When a
//! watched column changes, the blocks that depend on it run again, until no
//! block is ready.

pub mod block;
pub mod collections;
pub mod column;
pub mod database;
pub mod error;
pub mod errors;
pub mod hash;
pub mod index;
pub mod indexes;
pub mod mech;
pub mod operations;
pub mod quantities;
pub mod runtime;
pub mod solver;
pub mod store;
pub mod string;
pub mod table;
pub mod theorems;
pub mod value;

pub use crate::block::{BlockState, Transformation};
pub use crate::column::Column;
pub use crate::error::{MechError, MechErrorKind, ParserErrorContext, ParserErrorReport, TableShape};
pub use crate::hash::{hash_bytes, hash_str, humanize};
pub use crate::string::{hash_chars, MechString};
pub use crate::indexes::Hasher;
pub use crate::quantities::{make_quantity, Quantity, ToQuantity};
pub use crate::table::{Table, TableId, TableIndex};
pub use crate::value::{Operator, Value, ValueKind};
