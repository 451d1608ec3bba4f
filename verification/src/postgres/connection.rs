//! The lifecycle of a PostgreSQL connection: what may be started when, and what each start leaves
//! for the handoff.
use vstd::prelude::*;
use crate::capabilities::ConnectorCapabilities;
use crate::config;
use crate::config::TransportConfig;
use crate::error::Error;
use crate::postgres::config::PostgresSourceConfig;
use crate::postgres::snapshot::PostgresSnapshotHandle;
use crate::text;

verus! {

/// PostgreSQL connector lifecycle.
pub struct PostgresConnection {
    pub config: PostgresSourceConfig,
    /// Whether a connection is established.
    pub connected: bool,
    /// The place in the log that the snapshot was taken at.
    pub snapshot_watermark: Option<u64>,
    /// The place in the log that the stream was started from.
    pub stream_start_watermark: Option<u64>,
    pub stream_poll_interval_ms: u64,
    pub max_events_per_poll: usize,
    pub slot_idle_advance_interval_ms: u64,
}

/// What is told of a transport that asks for less than full verification.
pub const UNVERIFIED_TRANSPORT: &'static str =
    "postgres transport sets allow_invalid_certificates or allow_invalid_hostnames, but this connector always verifies the server certificate and cannot disable it. Rather than silently ignoring the setting and failing verification with an opaque error, it is rejected here. For a self-signed or private-CA server use TransportConfig::tls_with_ca_cert_path(Some(path)) and trust the CA explicitly; for a plaintext test setup use TransportConfig::Plaintext.";

/// Checks that a transport can be honoured. The server's certificate is always verified; a
/// transport that asks for less is refused rather than ignored.
pub fn check_transport(transport: &TransportConfig) -> (checked: Result<(), Error>)
    ensures
        checked is Ok == !transport.skips_verification(),
        checked matches Err(error) ==> error is ConfigError && error.text()
            == UNVERIFIED_TRANSPORT@,
{
    match transport {
        TransportConfig::Tls { allow_invalid_certificates, allow_invalid_hostnames, .. } => {
            if *allow_invalid_certificates || *allow_invalid_hostnames {
                return Err(Error::ConfigError(UNVERIFIED_TRANSPORT.to_owned()));
            }
        },
        _ => {},
    }
    Ok(())
}

impl PostgresConnection {
    /// A connection that is not established.
    pub fn new(config: PostgresSourceConfig) -> (connection: Self)
        ensures
            connection.config == config,
            !connection.connected,
            connection.snapshot_watermark is None,
            connection.stream_start_watermark is None,
            connection.stream_poll_interval_ms == (if config.stream_poll_interval_ms == 0 {
                1
            } else {
                config.stream_poll_interval_ms
            }),
            connection.max_events_per_poll == (if config.max_events_per_poll == 0 {
                1
            } else {
                config.max_events_per_poll
            }),
            connection.slot_idle_advance_interval_ms == config.slot_idle_advance_interval_ms,
    {
        let stream_poll_interval_ms = config::at_least_one(config.stream_poll_interval_ms);
        let max_events_per_poll = if config.max_events_per_poll == 0 {
            1
        } else {
            config.max_events_per_poll
        };
        let slot_idle_advance_interval_ms = config.slot_idle_advance_interval_ms;
        PostgresConnection {
            config,
            connected: false,
            snapshot_watermark: None,
            stream_start_watermark: None,
            stream_poll_interval_ms,
            max_events_per_poll,
            slot_idle_advance_interval_ms,
        }
    }

    /// Whether connecting has anything to do: the configuration must be usable, and the transport
    /// one that can be honoured. An established connection is left as it is.
    pub fn connect(&self) -> (due: Result<bool, Error>)
        ensures
            match due {
                Ok(due) => due == !self.connected && (due ==> self.config.valid()
                    && !self.config.transport.skips_verification()),
                Err(error) => {
                    &&& !self.connected
                    &&& error is ConfigError
                    &&& if !self.config.valid() {
                        error.text() == self.config.invalid_text()
                    } else {
                        self.config.transport.skips_verification() && error.text()
                            == UNVERIFIED_TRANSPORT@
                    }
                },
            },
    {
        if self.connected {
            return Ok(false);
        }
        match self.config.validate() {
            Ok(_) => {},
            Err(error) => {
                return Err(error);
            },
        }
        match check_transport(&self.config.transport) {
            Ok(_) => Ok(true),
            Err(error) => Err(error),
        }
    }

    /// The connection is established.
    pub fn connection_established(&mut self)
        ensures
            *final(self) == (PostgresConnection { connected: true, ..*old(self) }),
    {
        self.connected = true;
    }

    /// The connection is closed, whether it was established or not.
    pub fn close(&mut self)
        ensures
            *final(self) == (PostgresConnection { connected: false, ..*old(self) }),
    {
        self.connected = false;
    }

    /// Whether a connection is established.
    pub fn is_connected(&self) -> (yes: bool)
        ensures
            yes == self.connected,
    {
        self.connected
    }

    /// Whether a snapshot of some tables may start, from a checkpoint of the given source type
    /// where there is one.
    pub fn start_snapshot_from_checkpoint(
        &self,
        tables: &Vec<String>,
        checkpoint_source: Option<&str>,
    ) -> (checked: Result<(), Error>)
        ensures
            ({
                let foreign = checkpoint_source matches Some(source) && source@
                    != "postgres_snapshot"@;
                match checked {
                    Ok(_) => !foreign && tables@.len() > 0 && self.connected,
                    Err(Error::CheckpointError(message)) => foreign && message@
                        == "cannot resume postgres snapshot from source type '"@
                        + checkpoint_source->0@ + "'"@,
                    Err(Error::ConfigError(message)) => !foreign && tables@.len() == 0 && message@
                        == "postgres snapshot requires at least one table"@,
                    Err(Error::StateError(message)) => !foreign && tables@.len() > 0
                        && !self.connected && message@
                        == "postgres connection must be established before snapshot"@,
                    Err(_) => false,
                }
            }),
    {
        match checkpoint_source {
            Some(source) => {
                if !text::same_text(source, "postgres_snapshot") {
                    return Err(
                        Error::CheckpointError(
                            text::join3(
                                "cannot resume postgres snapshot from source type '",
                                source,
                                "'",
                            ),
                        ),
                    );
                }
            },
            None => {},
        }
        if tables.len() == 0 {
            return Err(
                Error::ConfigError("postgres snapshot requires at least one table".to_owned()),
            );
        }
        if !self.connected {
            return Err(
                Error::StateError(
                    "postgres connection must be established before snapshot".to_owned(),
                ),
            );
        }
        Ok(())
    }

    /// A snapshot has started: its place in the log is what the handoff starts from.
    pub fn snapshot_started(&mut self, handle: &PostgresSnapshotHandle)
        ensures
            *final(self) == (PostgresConnection {
                snapshot_watermark: Some(handle.snapshot_watermark),
                ..*old(self)
            }),
    {
        self.snapshot_watermark = Some(handle.snapshot_watermark);
    }

    /// Whether a stream may start.
    pub fn start_stream(&self) -> (checked: Result<(), Error>)
        ensures
            checked is Ok == self.connected,
            checked matches Err(error) ==> error is StateError && error.text()
                == "postgres connection must be established before stream"@,
    {
        if self.connected {
            Ok(())
        } else {
            Err(
                Error::StateError(
                    "postgres connection must be established before stream".to_owned(),
                ),
            )
        }
    }

    /// A stream has started from a place in the log.
    pub fn stream_started(&mut self, place: u64)
        ensures
            *final(self) == (PostgresConnection {
                stream_start_watermark: Some(place),
                ..*old(self)
            }),
    {
        self.stream_start_watermark = Some(place);
    }

    /// Whether an incremental snapshot may start.
    pub fn start_incremental_snapshot(&self) -> (checked: Result<(), Error>)
        ensures
            checked is Ok == self.connected,
            checked matches Err(error) ==> error is StateError && error.text()
                == "postgres connection must be established before starting an incremental snapshot"@,
    {
        if self.connected {
            Ok(())
        } else {
            Err(
                Error::StateError(
                    "postgres connection must be established before starting an incremental snapshot".to_owned(),
                ),
            )
        }
    }

    /// The places that a handoff goes between: both a snapshot and a stream must have started.
    pub fn perform_handoff(&self) -> (places: Result<(u64, u64), Error>)
        ensures
            match places {
                Ok((snapshot, stream)) => self.snapshot_watermark == Some(snapshot)
                    && self.stream_start_watermark == Some(stream),
                Err(error) => {
                    &&& error is StateError
                    &&& if self.snapshot_watermark is None {
                        error.text()
                            == "postgres perform_handoff requires start_snapshot to have been called first"@
                    } else {
                        self.stream_start_watermark is None && error.text()
                            == "postgres perform_handoff requires start_stream to have been called first"@
                    }
                },
            },
    {
        match self.snapshot_watermark {
            None => Err(
                Error::StateError(
                    "postgres perform_handoff requires start_snapshot to have been called first".to_owned(),
                ),
            ),
            Some(snapshot) => match self.stream_start_watermark {
                None => Err(
                    Error::StateError(
                        "postgres perform_handoff requires start_stream to have been called first".to_owned(),
                    ),
                ),
                Some(stream) => Ok((snapshot, stream)),
            },
        }
    }

    /// The source type.
    pub fn source_type(&self) -> (name: &'static str)
        ensures
            name@ == "postgres"@,
    {
        PostgresSourceConfig::source_type()
    }

    /// What the connector offers: everything but a heartbeat, in whose place an idle slot is
    /// advanced.
    pub fn capabilities(&self) -> (offered: ConnectorCapabilities)
        ensures
            offered == (ConnectorCapabilities {
                snapshot: true,
                snapshot_checkpoint_resume: true,
                handoff: true,
                ddl_capture: true,
                heartbeat: false,
                tls: true,
                schema_introspection: true,
                truncate: true,
                incremental_snapshot: true,
            }),
    {
        ConnectorCapabilities {
            snapshot: true,
            snapshot_checkpoint_resume: true,
            handoff: true,
            ddl_capture: true,
            heartbeat: false,
            tls: true,
            schema_introspection: true,
            truncate: true,
            incremental_snapshot: true,
        }
    }
}

} // verus!
