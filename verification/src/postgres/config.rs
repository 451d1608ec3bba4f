//! The PostgreSQL connector's configuration.
use vstd::prelude::*;
use crate::capabilities::DatabaseAuthMode;
use crate::config;
use crate::config::{
    ConnectOptions, SecretString, TransportConfig, MAX_EVENTS_PER_POLL, STREAM_POLL_INTERVAL_MS,
};
use crate::error::Error;
use crate::text;

verus! {

/// How the log is read.
#[derive(Debug, Clone, Copy, PartialEq, Eq, Structural)]
#[non_exhaustive]
pub enum WalTransport {
    /// The streaming replication protocol: the server pushes, over a direct connection of a role
    /// that may replicate.
    StreamingReplication,
    /// Peeks at the slot over an ordinary connection: slower, for environments that allow nothing
    /// else.
    SqlPeek,
}

impl Default for WalTransport {
    fn default() -> (transport: Self)
        ensures
            transport == WalTransport::StreamingReplication,
    {
        WalTransport::StreamingReplication
    }
}

/// The configuration of a PostgreSQL capture.
pub struct PostgresSourceConfig {
    pub host: String,
    pub port: u16,
    pub user: String,
    pub password: SecretString,
    /// `AwsIamToken` says that the password is a short-lived token.
    pub auth_mode: DatabaseAuthMode,
    pub database: String,
    /// The slot that keeps the log until progress is confirmed.
    pub replication_slot_name: String,
    /// The publication that the slot reads through.
    pub publication_name: String,
    pub transport: TransportConfig,
    pub conn_timeout_secs: u64,
    pub stream_poll_interval_ms: u64,
    pub max_events_per_poll: usize,
    /// The only tables to stream, where it is not empty.
    pub table_include_list: Vec<String>,
    /// The tables to leave out, where nothing is listed above.
    pub table_exclude_list: Vec<String>,
    /// Milliseconds between advances of an idle slot; zero for none.
    pub slot_idle_advance_interval_ms: u64,
    /// Whether connecting may create a missing slot. A slot that has vanished has lost its log, so
    /// that this is for first-time provisioning only.
    pub create_replication_slot_if_missing: bool,
    /// Whether a created slot is kept in step on standbys.
    pub failover_slot: bool,
    pub wal_transport: WalTransport,
    /// Whether values that the log omits are read back from the table.
    pub reselect_unavailable_columns: bool,
    /// Whether messages that applications write to the log are captured.
    pub capture_logical_messages: bool,
}

impl PostgresSourceConfig {
    /// The port where none is given.
    pub fn default_port() -> (port: u16)
        ensures
            port == 5432,
    {
        5432
    }

    /// The connection timeout where none is given, in seconds.
    pub fn default_conn_timeout_secs() -> (secs: u64)
        ensures
            secs == 30,
    {
        30
    }

    /// The poll interval where none is given, in milliseconds.
    pub fn default_stream_poll_interval_ms() -> (ms: u64)
        ensures
            ms == STREAM_POLL_INTERVAL_MS,
    {
        STREAM_POLL_INTERVAL_MS
    }

    /// The events of one poll where nothing is said.
    pub fn default_max_events_per_poll() -> (count: usize)
        ensures
            count == MAX_EVENTS_PER_POLL,
    {
        MAX_EVENTS_PER_POLL
    }

    /// The interval between advances of an idle slot where none is given, in milliseconds.
    pub fn default_slot_idle_advance_interval_ms() -> (ms: u64)
        ensures
            ms == 30_000,
    {
        30_000
    }

    /// The source type.
    pub fn source_type() -> (name: &'static str)
        ensures
            name@ == "postgres"@,
    {
        "postgres"
    }

    /// Whether the configuration can be used.
    pub open spec fn valid(self) -> bool {
        &&& !config::blank(self.host@)
        &&& !config::blank(self.user@)
        &&& !config::blank(self.database@)
        &&& !config::blank(self.replication_slot_name@)
        &&& !config::blank(self.publication_name@)
        &&& config::tuned(
            self.conn_timeout_secs,
            self.stream_poll_interval_ms,
            self.max_events_per_poll,
            self.auth_mode,
            self.transport,
        )
    }

    /// What is told of a configuration that cannot be used: of the first thing that is found.
    pub open spec fn invalid_text(self) -> Seq<char> {
        if config::blank(self.host@) {
            config::empty_field_text("postgres"@, "host"@)
        } else if config::blank(self.user@) {
            config::empty_field_text("postgres"@, "user"@)
        } else if config::blank(self.database@) {
            config::empty_field_text("postgres"@, "database"@)
        } else if config::blank(self.replication_slot_name@) {
            config::empty_field_text("postgres"@, "replication_slot_name"@)
        } else if config::blank(self.publication_name@) {
            config::empty_field_text("postgres"@, "publication_name"@)
        } else {
            config::mistuned_text(
                "postgres"@,
                self.conn_timeout_secs,
                self.stream_poll_interval_ms,
                self.max_events_per_poll,
            )
        }
    }

    /// Checks that the configuration can be used.
    pub fn validate(&self) -> (checked: Result<(), Error>)
        ensures
            checked is Ok == self.valid(),
            checked matches Err(error) ==> error is ConfigError && error.text()
                == self.invalid_text(),
    {
        let source = "postgres";
        match config::check_field(source, "host", self.host.as_str()) {
            Ok(_) => {},
            Err(error) => {
                return Err(error);
            },
        }
        match config::check_field(source, "user", self.user.as_str()) {
            Ok(_) => {},
            Err(error) => {
                return Err(error);
            },
        }
        match config::check_field(source, "database", self.database.as_str()) {
            Ok(_) => {},
            Err(error) => {
                return Err(error);
            },
        }
        match config::check_field(
            source,
            "replication_slot_name",
            self.replication_slot_name.as_str(),
        ) {
            Ok(_) => {},
            Err(error) => {
                return Err(error);
            },
        }
        match config::check_field(source, "publication_name", self.publication_name.as_str()) {
            Ok(_) => {},
            Err(error) => {
                return Err(error);
            },
        }
        config::check_tuning(
            source,
            self.conn_timeout_secs,
            self.stream_poll_interval_ms,
            self.max_events_per_poll,
            self.auth_mode,
            &self.transport,
        )
    }

    /// What a connection is made with. The secret is fetched anew each time.
    pub fn build_connect_config<F: Fn(String) -> Result<String, Error>>(&self, fetch: F) -> (options:
        Result<ConnectOptions, Error>)
        requires
            forall|label: String| call_requires(fetch, (label,)),
        ensures
            match options {
                Ok(options) => {
                    &&& options.host@ == self.host@
                    &&& options.port == self.port
                    &&& options.user@ == self.user@
                    &&& options.database@ == self.database@
                    &&& options.conn_timeout_secs == self.conn_timeout_secs
                    &&& self.password.resolved(fetch, Ok(options.password))
                },
                Err(error) => self.password.resolved(fetch, Err(error)),
            },
    {
        match self.password.resolve(fetch) {
            Ok(password) => Ok(
                ConnectOptions {
                    host: self.host.clone(),
                    port: self.port,
                    user: self.user.clone(),
                    password,
                    database: self.database.clone(),
                    conn_timeout_secs: self.conn_timeout_secs,
                },
            ),
            Err(error) => Err(error),
        }
    }

    /// The same configuration over TLS that trusts the system's roots and verifies everything.
    pub fn with_tls_transport(self) -> (config: Self)
        ensures
            config == (PostgresSourceConfig {
                transport: TransportConfig::Tls {
                    ca_cert_path: None,
                    client_cert_path: None,
                    client_key_path: None,
                    allow_invalid_certificates: false,
                    allow_invalid_hostnames: false,
                },
                ..self
            }),
    {
        let mut config = self;
        config.transport = TransportConfig::tls();
        config
    }

    /// The same configuration without encryption.
    pub fn with_plaintext_transport(self) -> (config: Self)
        ensures
            config == (PostgresSourceConfig { transport: TransportConfig::Plaintext, ..self }),
    {
        let mut config = self;
        config.transport = TransportConfig::plaintext();
        config
    }

    /// The configuration as it may be shown. It does not depend on the secret.
    pub fn shown(&self) -> (shown: String)
        ensures
            shown@ == "PostgresSourceConfig { host: "@ + self.host@ + ", port: "@
                + text::decimal_text(self.port as nat) + ", user: "@ + self.user@
                + ", password: "@ + config::REDACTED@ + ", database: "@ + self.database@
                + ", replication_slot_name: "@ + self.replication_slot_name@
                + ", publication_name: "@ + self.publication_name@ + " }"@,
    {
        let mut shown = "PostgresSourceConfig { host: ".to_owned();
        shown.append(self.host.as_str());
        shown.append(", port: ");
        shown.append(text::decimal(self.port as u64).as_str());
        shown.append(", user: ");
        shown.append(self.user.as_str());
        shown.append(", password: ");
        shown.append(config::REDACTED);
        shown.append(", database: ");
        shown.append(self.database.as_str());
        shown.append(", replication_slot_name: ");
        shown.append(self.replication_slot_name.as_str());
        shown.append(", publication_name: ");
        shown.append(self.publication_name.as_str());
        shown.append(" }");
        shown
    }
}

impl Default for PostgresSourceConfig {
    fn default() -> (config: Self)
        ensures
            config.host@.len() == 0,
            config.port == 5432,
            config.user@.len() == 0,
            config.password matches SecretString::Inline(secret) && secret@.len() == 0,
            config.auth_mode == DatabaseAuthMode::Password,
            config.database@.len() == 0,
            config.replication_slot_name@.len() == 0,
            config.publication_name@.len() == 0,
            !(config.transport is Plaintext),
            config.conn_timeout_secs == 30,
            config.stream_poll_interval_ms == STREAM_POLL_INTERVAL_MS,
            config.max_events_per_poll == MAX_EVENTS_PER_POLL,
            config.table_include_list@.len() == 0,
            config.table_exclude_list@.len() == 0,
            config.slot_idle_advance_interval_ms == 30_000,
            !config.create_replication_slot_if_missing,
            !config.failover_slot,
            config.wal_transport == WalTransport::StreamingReplication,
            !config.reselect_unavailable_columns,
            !config.capture_logical_messages,
    {
        proof {
            reveal_strlit("");
        }
        PostgresSourceConfig {
            host: String::new(),
            port: PostgresSourceConfig::default_port(),
            user: String::new(),
            password: SecretString::new(""),
            auth_mode: DatabaseAuthMode::Password,
            database: String::new(),
            replication_slot_name: String::new(),
            publication_name: String::new(),
            transport: TransportConfig::tls(),
            conn_timeout_secs: PostgresSourceConfig::default_conn_timeout_secs(),
            stream_poll_interval_ms: PostgresSourceConfig::default_stream_poll_interval_ms(),
            max_events_per_poll: PostgresSourceConfig::default_max_events_per_poll(),
            table_include_list: Vec::new(),
            table_exclude_list: Vec::new(),
            slot_idle_advance_interval_ms:
                PostgresSourceConfig::default_slot_idle_advance_interval_ms(),
            create_replication_slot_if_missing: false,
            failover_slot: false,
            wal_transport: WalTransport::StreamingReplication,
            reselect_unavailable_columns: false,
            capture_logical_messages: false,
        }
    }
}

} // verus!
