//! The PostgreSQL connector: pgoutput decoding, streaming, snapshots and handoff.
pub mod bulk_laws;
pub mod config;
pub mod connection;
pub mod decoder;
pub mod event_laws;
pub mod handoff;
pub mod lsn;
pub mod parser;
pub mod polling;
pub mod relation;
pub mod resume;
pub mod resume_laws;
pub mod shape_laws;
pub mod snapshot;
pub mod snapshot_laws;
pub mod snapshot_run;
pub mod stream;
pub mod stream_laws;
pub mod turn;
pub mod validation;
pub mod visibility;
pub mod visibility_laws;
pub mod wire_laws;
