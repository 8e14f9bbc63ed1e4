//! Bulk loading of delimited text files into a relational store: delimiter
//! detection, schema inference, row framing for two write targets and the
//! migration state machine that drives them.

pub mod cancel;
pub mod text;
pub mod schema;
pub mod detect;
pub mod chunks;
pub mod infer;
pub mod copy_text;
pub mod sql;
pub mod fields;
pub mod retry;
pub mod migration;
pub mod validate;
pub mod binary_copy;
