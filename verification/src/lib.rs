//! A remote GraphQL operation seen as a read-only table: the query text is
//! analysed into a column schema, pruned to the columns a scan reads, and the
//! JSON answer is flattened into rows.
pub mod arguments;
pub mod blocks;
pub mod cursor;
pub mod error;
pub mod flatten;
pub mod json;
pub mod optimize;
pub mod plan;
pub mod query;
pub mod syntax;
pub mod table;
pub mod text;
