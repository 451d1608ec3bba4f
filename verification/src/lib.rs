pub mod base64_text;
pub mod bytes;
pub mod capabilities;
pub mod conditions;
pub mod config;
pub mod config_laws;
pub mod ddl;
pub mod error;
pub mod event;
pub mod filter;
pub mod glob;
pub mod glob_laws;
pub mod handoff_laws;
pub mod identifier;
pub mod incremental;
pub mod json;
pub mod keyset;
pub mod mysql;
pub mod poll;
pub mod poll_laws;
pub mod postgres;
pub mod record_laws;
pub mod refusal_laws;
pub mod schema;
pub mod schema_laws;
pub mod snapshot_request;
pub mod statement_laws;
pub mod text;
pub mod text_laws;
mod utf8;
