//! A columnar dataset as a data source of a query engine.
//!
//! * [`numeric_coercion`] rewrites comparisons between a number column and a
//!   floating point literal so that the column stays bare, which is what an
//!   index and the scan need, without changing what the comparison says of any
//!   row. [`semantics`] says what filters say of a row, and proves that.
//! * [`filter`] renders filters as SQL for the dataset's own parser. [`sql`] reads
//!   them back, and proves that what is read is what was rendered; [`meaning`]
//!   proves that it stands for what the filter says.
//! * [`provider`] plans a scan: its columns, its filter and its partitions.
//! * [`sink`] and [`transfer`] decide a write: what it does about a dataset that
//!   is already there, and how the rows of the input are handed over.
//! * [`bridge`] decides how a batch crosses between two Arrow versions.
//!
//! Floating point numbers are held as the bits of their IEEE 754 encoding;
//! [`float`] says what such bits are worth.

pub mod bridge;
pub mod cast;
pub mod expr;
pub mod filter;
pub mod float;
pub mod literal;
pub mod meaning;
pub mod numeric_coercion;
pub mod options;
pub mod provider;
pub mod scalar;
pub mod schema;
pub mod semantics;
pub mod sink;
pub mod special;
pub mod sql;
pub mod text;
pub mod transfer;
pub mod value_type;
