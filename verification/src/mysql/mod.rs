//! The MySQL and MariaDB connector: binlog decoding, streaming, snapshots and handoff.
pub mod binlog;
pub mod bulk_laws;
pub mod config;
pub mod connection;
pub mod event_laws;
pub mod gtid;
pub mod gtid_laws;
pub mod handoff;
pub mod parser;
pub mod place_laws;
pub mod reader;
pub mod resume;
pub mod resume_laws;
pub mod snapshot;
pub mod snapshot_laws;
pub mod snapshot_run;
pub mod stream;
pub mod stream_laws;
pub mod turn;
pub mod validation;
pub mod value_laws;
pub mod values;
pub mod visibility;
