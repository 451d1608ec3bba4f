//! The DBLog incremental snapshot: chunk reads interleaved with the live stream.
pub mod driver;
pub mod fingerprint;
pub mod laws;
pub mod repair;
pub mod row_index;
pub mod row_laws;
pub mod run;
pub mod setup;
pub mod setup_laws;
pub mod state;
pub mod steps;
pub mod table;
