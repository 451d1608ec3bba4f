//! The lifecycle of a MySQL connection: what may be started when, and what each start leaves for
//! the handoff.
use vstd::prelude::*;
use crate::capabilities::ConnectorCapabilities;
use crate::config;
use crate::error::Error;
use crate::mysql::config::MysqlSourceConfig;
use crate::mysql::parser::MysqlOffset;
use crate::mysql::snapshot::MysqlSnapshotHandle;
use crate::text;

verus! {

/// How connections to the server are obtained.
#[derive(Debug, Clone, Copy, PartialEq, Eq, Structural)]
pub enum ConnectionMode {
    /// From a pool, whose secret is resolved once.
    Pooled,
    /// From a pool, whose secret is fetched once, when the pool is built.
    PooledDeferred,
    /// Anew each time, with the secret fetched each time.
    PerConnection,
}

/// MySQL connector lifecycle.
pub struct MysqlConnection {
    pub config: MysqlSourceConfig,
    /// Whether a connection is established.
    pub connected: bool,
    /// The place in the log that the snapshot was taken at.
    pub snapshot_watermark: Option<MysqlOffset>,
    /// The place in the log that the stream was started from.
    pub stream_start: Option<MysqlOffset>,
    pub stream_poll_interval_ms: u64,
    pub max_events_per_poll: usize,
}

/// How connections are obtained with a configuration. Only tokens declared short-lived are worth a
/// new connection each time; a fixed secret that is merely fetched late is not.
pub open spec fn mode_of(config: MysqlSourceConfig) -> ConnectionMode {
    match config.auth_mode {
        crate::capabilities::DatabaseAuthMode::AwsIamToken => ConnectionMode::PerConnection,
        _ => if config.password is Deferred {
            ConnectionMode::PooledDeferred
        } else {
            ConnectionMode::Pooled
        },
    }
}

/// How connections are obtained with a configuration; see [`mode_of`].
pub fn connection_mode(config: &MysqlSourceConfig) -> (mode: ConnectionMode)
    ensures
        mode == mode_of(*config),
{
    match config.auth_mode {
        crate::capabilities::DatabaseAuthMode::AwsIamToken => ConnectionMode::PerConnection,
        crate::capabilities::DatabaseAuthMode::Password => if config.password.is_deferred() {
            ConnectionMode::PooledDeferred
        } else {
            ConnectionMode::Pooled
        },
    }
}

impl MysqlConnection {
    /// A connection that is not established.
    pub fn new(config: MysqlSourceConfig) -> (connection: Self)
        ensures
            connection.config == config,
            !connection.connected,
            connection.snapshot_watermark is None,
            connection.stream_start is None,
            connection.stream_poll_interval_ms == (if config.stream_poll_interval_ms == 0 {
                1
            } else {
                config.stream_poll_interval_ms
            }),
            connection.max_events_per_poll == (if config.max_events_per_poll == 0 {
                1
            } else {
                config.max_events_per_poll
            }),
    {
        let stream_poll_interval_ms = config::at_least_one(config.stream_poll_interval_ms);
        let max_events_per_poll = if config.max_events_per_poll == 0 {
            1
        } else {
            config.max_events_per_poll
        };
        MysqlConnection {
            config,
            connected: false,
            snapshot_watermark: None,
            stream_start: None,
            stream_poll_interval_ms,
            max_events_per_poll,
        }
    }

    /// How connections are to be obtained, where connecting has anything to do: the configuration
    /// must be usable. An established connection is left as it is.
    pub fn connect(&self) -> (mode: Result<Option<ConnectionMode>, Error>)
        ensures
            match mode {
                Ok(None) => self.connected,
                Ok(Some(mode)) => !self.connected && self.config.valid() && mode == mode_of(
                    self.config,
                ),
                Err(error) => !self.connected && !self.config.valid() && error is ConfigError
                    && error.text() == self.config.invalid_text(),
            },
    {
        if self.connected {
            return Ok(None);
        }
        match self.config.validate() {
            Ok(_) => Ok(Some(connection_mode(&self.config))),
            Err(error) => Err(error),
        }
    }

    /// The connection is established.
    pub fn connection_established(&mut self)
        ensures
            *final(self) == (MysqlConnection { connected: true, ..*old(self) }),
    {
        self.connected = true;
    }

    /// The connection is closed, whether it was established or not.
    pub fn close(&mut self)
        ensures
            *final(self) == (MysqlConnection { connected: false, ..*old(self) }),
    {
        self.connected = false;
    }

    /// Whether a connection is established.
    pub fn is_connected(&self) -> (yes: bool)
        ensures
            yes == self.connected,
    {
        self.connected
    }

    /// Whether a snapshot of some tables may start, from a checkpoint of the given source type
    /// where there is one.
    pub fn start_snapshot_from_checkpoint(
        &self,
        tables: &Vec<String>,
        checkpoint_source: Option<&str>,
    ) -> (checked: Result<(), Error>)
        ensures
            match checked {
                Ok(_) => tables@.len() > 0 && self.connected && (checkpoint_source matches Some(
                    source,
                ) ==> source@ == self.config.server_flavor.snapshot_name()),
                Err(Error::ConfigError(message)) => tables@.len() == 0 && message@
                    == "mysql snapshot requires at least one table"@,
                Err(Error::StateError(message)) => tables@.len() > 0 && !self.connected && message@
                    == "mysql connection must be established before snapshot"@,
                Err(Error::CheckpointError(message)) => tables@.len() > 0 && self.connected && (
                checkpoint_source matches Some(source) && source@
                    != self.config.server_flavor.snapshot_name() && message@ == "cannot resume "@
                    + self.config.server_flavor.name() + " snapshot from source type '"@ + source@
                    + "'"@),
                Err(_) => false,
            },
    {
        if tables.len() == 0 {
            return Err(
                Error::ConfigError("mysql snapshot requires at least one table".to_owned()),
            );
        }
        if !self.connected {
            return Err(
                Error::StateError(
                    "mysql connection must be established before snapshot".to_owned(),
                ),
            );
        }
        match checkpoint_source {
            Some(source) => {
                if !text::same_text(source, self.config.server_flavor.snapshot_source_name()) {
                    return Err(
                        Error::CheckpointError(
                            text::join5(
                                "cannot resume ",
                                self.config.source_type(),
                                " snapshot from source type '",
                                source,
                                "'",
                            ),
                        ),
                    );
                }
            },
            None => {},
        }
        Ok(())
    }

    /// A snapshot has started: its place in the log is what the handoff starts from.
    pub fn snapshot_started(&mut self, handle: &MysqlSnapshotHandle)
        ensures
            final(self).snapshot_watermark matches Some(place) && place.source_flavor@ == old(
                self,
            ).config.server_flavor.name() && place.binlog_file@ == handle.snapshot.binlog_file@
                && place.binlog_pos == handle.snapshot.binlog_pos && place.gtid@
                == handle.snapshot.gtid@,
            *final(self) == (MysqlConnection {
                snapshot_watermark: final(self).snapshot_watermark,
                ..*old(self)
            }),
    {
        self.snapshot_watermark = Some(
            MysqlOffset::new(
                self.config.server_flavor.source_name().to_owned(),
                handle.snapshot.binlog_file.clone(),
                handle.snapshot.binlog_pos,
                handle.snapshot.gtid.clone(),
            ),
        );
    }

    /// Whether a stream may start.
    pub fn start_stream(&self) -> (checked: Result<(), Error>)
        ensures
            checked is Ok == self.connected,
            checked matches Err(error) ==> error is StateError && error.text()
                == "mysql connection must be established before stream"@,
    {
        if self.connected {
            Ok(())
        } else {
            Err(
                Error::StateError(
                    "mysql connection must be established before stream".to_owned(),
                ),
            )
        }
    }

    /// A stream has started from a place in the log.
    pub fn stream_started(&mut self, place: &MysqlOffset)
        ensures
            final(self).stream_start matches Some(kept) && kept.source_flavor@ == old(
                self,
            ).config.server_flavor.name() && kept.binlog_file@ == place.binlog_file@
                && kept.binlog_pos == place.binlog_pos && kept.gtid@ == place.gtid@,
            *final(self) == (MysqlConnection {
                stream_start: final(self).stream_start,
                ..*old(self)
            }),
    {
        self.stream_start = Some(
            MysqlOffset::new(
                self.config.server_flavor.source_name().to_owned(),
                place.binlog_file.clone(),
                place.binlog_pos,
                place.gtid.clone(),
            ),
        );
    }

    /// Whether an incremental snapshot may start.
    pub fn start_incremental_snapshot(&self) -> (checked: Result<(), Error>)
        ensures
            checked is Ok == self.connected,
            checked matches Err(error) ==> error is StateError && error.text()
                == "mysql connection must be established before incremental snapshot"@,
    {
        if self.connected {
            Ok(())
        } else {
            Err(
                Error::StateError(
                    "mysql connection must be established before incremental snapshot".to_owned(),
                ),
            )
        }
    }

    /// The places that a handoff goes between: both a snapshot and a stream must have started.
    pub fn perform_handoff(&self) -> (places: Result<(&MysqlOffset, &MysqlOffset), Error>)
        ensures
            match places {
                Ok((snapshot, stream)) => self.snapshot_watermark == Some(*snapshot)
                    && self.stream_start == Some(*stream),
                Err(error) => {
                    &&& error is StateError
                    &&& if self.snapshot_watermark is None {
                        error.text()
                            == "mysql perform_handoff requires start_snapshot to have been called first"@
                    } else {
                        self.stream_start is None && error.text()
                            == "mysql perform_handoff requires start_stream to have been called first"@
                    }
                },
            },
    {
        match &self.snapshot_watermark {
            None => Err(
                Error::StateError(
                    "mysql perform_handoff requires start_snapshot to have been called first".to_owned(),
                ),
            ),
            Some(snapshot) => match &self.stream_start {
                None => Err(
                    Error::StateError(
                        "mysql perform_handoff requires start_stream to have been called first".to_owned(),
                    ),
                ),
                Some(stream) => Ok((snapshot, stream)),
            },
        }
    }

    /// The source type of the configured flavor.
    pub fn source_type(&self) -> (name: &'static str)
        ensures
            name@ == self.config.server_flavor.name(),
    {
        self.config.source_type()
    }

    /// What the connector offers: everything.
    pub fn capabilities(&self) -> (offered: ConnectorCapabilities)
        ensures
            offered == (ConnectorCapabilities {
                snapshot: true,
                snapshot_checkpoint_resume: true,
                handoff: true,
                ddl_capture: true,
                heartbeat: true,
                tls: true,
                schema_introspection: true,
                truncate: true,
                incremental_snapshot: true,
            }),
    {
        ConnectorCapabilities {
            snapshot: true,
            snapshot_checkpoint_resume: true,
            handoff: true,
            ddl_capture: true,
            heartbeat: true,
            tls: true,
            schema_introspection: true,
            truncate: true,
            incremental_snapshot: true,
        }
    }
}

} // verus!
