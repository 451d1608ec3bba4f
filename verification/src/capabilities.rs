//! What a connector can do, for runtime and embedder introspection.
use vstd::prelude::*;

verus! {

/// Authentication mode for database source connectors.
#[derive(Clone, Copy, Debug, PartialEq, Eq, Structural)]
#[non_exhaustive]
pub enum DatabaseAuthMode {
    /// A static password.
    Password,
    /// AWS IAM database authentication with short-lived tokens.
    AwsIamToken,
}

impl Default for DatabaseAuthMode {
    fn default() -> (mode: Self)
        ensures
            mode == DatabaseAuthMode::Password,
    {
        DatabaseAuthMode::Password
    }
}

/// Outcome of finishing a snapshot phase.
#[derive(Clone, Copy, Debug, PartialEq, Eq, Structural)]
pub struct SnapshotEnd {
    /// Unix milliseconds when the snapshot completed.
    pub snapshot_end_ts: u64,
}

/// Outcome of the snapshot-to-stream handoff.
#[derive(Clone, Copy, Debug, PartialEq, Eq)]
pub struct HandoffResult {
    /// Unix milliseconds when the snapshot completed, if the connector reports it.
    pub snapshot_end_ts: Option<u64>,
    /// Unix milliseconds the stream resumed from, if the connector reports it.
    pub stream_start_ts: Option<u64>,
    /// Overlap events dropped at the handoff; `None` where the connector does not measure it.
    pub overlap_events_dropped: Option<u64>,
    /// The distance of the stream's watermark from the snapshot's, where the connector knows it.
    pub stream_watermark_gap: Option<u64>,
}

/// Which features a connector supports.
#[derive(Clone, Copy, Debug, PartialEq, Eq, Structural)]
#[non_exhaustive]
pub struct ConnectorCapabilities {
    /// A blocking bulk snapshot.
    pub snapshot: bool,
    /// An interrupted snapshot resumes from its checkpoint.
    pub snapshot_checkpoint_resume: bool,
    /// The snapshot-to-stream handoff.
    pub handoff: bool,
    /// DDL as schema-change events.
    pub ddl_capture: bool,
    /// A keepalive against the source.
    pub heartbeat: bool,
    /// An encrypted transport.
    pub tls: bool,
    /// Column and key metadata from the source's catalog.
    pub schema_introspection: bool,
    /// `TRUNCATE` as events.
    pub truncate: bool,
    /// The non-blocking incremental snapshot.
    pub incremental_snapshot: bool,
}

impl ConnectorCapabilities {
    /// No capability.
    pub fn none() -> (c: Self)
        ensures
            c == (ConnectorCapabilities {
                snapshot: false,
                snapshot_checkpoint_resume: false,
                handoff: false,
                ddl_capture: false,
                heartbeat: false,
                tls: false,
                schema_introspection: false,
                truncate: false,
                incremental_snapshot: false,
            }),
    {
        ConnectorCapabilities {
            snapshot: false,
            snapshot_checkpoint_resume: false,
            handoff: false,
            ddl_capture: false,
            heartbeat: false,
            tls: false,
            schema_introspection: false,
            truncate: false,
            incremental_snapshot: false,
        }
    }

    /// These capabilities with `snapshot` as given.
    #[must_use]
    pub fn with_snapshot(self, supported: bool) -> (c: Self)
        ensures
            c == (ConnectorCapabilities { snapshot: supported, ..self }),
    {
        ConnectorCapabilities { snapshot: supported, ..self }
    }

    /// These capabilities with `snapshot_checkpoint_resume` as given.
    #[must_use]
    pub fn with_snapshot_checkpoint_resume(self, supported: bool) -> (c: Self)
        ensures
            c == (ConnectorCapabilities { snapshot_checkpoint_resume: supported, ..self }),
    {
        ConnectorCapabilities { snapshot_checkpoint_resume: supported, ..self }
    }

    /// These capabilities with `handoff` as given.
    #[must_use]
    pub fn with_handoff(self, supported: bool) -> (c: Self)
        ensures
            c == (ConnectorCapabilities { handoff: supported, ..self }),
    {
        ConnectorCapabilities { handoff: supported, ..self }
    }

    /// These capabilities with `ddl_capture` as given.
    #[must_use]
    pub fn with_ddl_capture(self, supported: bool) -> (c: Self)
        ensures
            c == (ConnectorCapabilities { ddl_capture: supported, ..self }),
    {
        ConnectorCapabilities { ddl_capture: supported, ..self }
    }

    /// These capabilities with `heartbeat` as given.
    #[must_use]
    pub fn with_heartbeat(self, supported: bool) -> (c: Self)
        ensures
            c == (ConnectorCapabilities { heartbeat: supported, ..self }),
    {
        ConnectorCapabilities { heartbeat: supported, ..self }
    }

    /// These capabilities with `tls` as given.
    #[must_use]
    pub fn with_tls(self, supported: bool) -> (c: Self)
        ensures
            c == (ConnectorCapabilities { tls: supported, ..self }),
    {
        ConnectorCapabilities { tls: supported, ..self }
    }

    /// These capabilities with `schema_introspection` as given.
    #[must_use]
    pub fn with_schema_introspection(self, supported: bool) -> (c: Self)
        ensures
            c == (ConnectorCapabilities { schema_introspection: supported, ..self }),
    {
        ConnectorCapabilities { schema_introspection: supported, ..self }
    }

    /// These capabilities with `truncate` as given.
    #[must_use]
    pub fn with_truncate(self, supported: bool) -> (c: Self)
        ensures
            c == (ConnectorCapabilities { truncate: supported, ..self }),
    {
        ConnectorCapabilities { truncate: supported, ..self }
    }

    /// These capabilities with `incremental_snapshot` as given.
    #[must_use]
    pub fn with_incremental_snapshot(self, supported: bool) -> (c: Self)
        ensures
            c == (ConnectorCapabilities { incremental_snapshot: supported, ..self }),
    {
        ConnectorCapabilities { incremental_snapshot: supported, ..self }
    }

}

impl Default for ConnectorCapabilities {
    fn default() -> (c: Self)
        ensures
            c == (ConnectorCapabilities {
                snapshot: false,
                snapshot_checkpoint_resume: false,
                handoff: false,
                ddl_capture: false,
                heartbeat: false,
                tls: false,
                schema_introspection: false,
                truncate: false,
                incremental_snapshot: false,
            }),
    {
        ConnectorCapabilities::none()
    }
}

} // verus!
