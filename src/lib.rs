//! Query evaluation for a command-line CSV inspector: column projection,
//! equality filters and a streaming offset/limit evaluator, all checked
//! against their contracts.

pub mod text;
pub mod record;
pub mod schema;
pub mod filter;
pub mod query;
pub mod stream;
pub mod info;
