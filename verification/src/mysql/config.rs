//! The MySQL connector's configuration.
use vstd::prelude::*;
use crate::capabilities::DatabaseAuthMode;
use crate::config;
use crate::config::{
    ConnectOptions, SecretString, TransportConfig, MAX_EVENTS_PER_POLL, STREAM_POLL_INTERVAL_MS,
};
use crate::error::Error;
use crate::text;

verus! {

/// The server dialect. Both speak the same log protocol; the flavor decides the source type, and
/// with it the checkpoint that a stream reads and writes.
#[derive(Debug, Clone, Copy, PartialEq, Eq, Structural)]
#[non_exhaustive]
pub enum ServerFlavor {
    /// Oracle MySQL: transaction identifiers are `uuid:interval`.
    Mysql,
    /// MariaDB: transaction identifiers are `domain-server-sequence`.
    MariaDb,
}

impl Default for ServerFlavor {
    fn default() -> (flavor: Self)
        ensures
            flavor == ServerFlavor::Mysql,
    {
        ServerFlavor::Mysql
    }
}

impl ServerFlavor {
    /// The source type of a flavor.
    pub open spec fn name(self) -> Seq<char> {
        match self {
            ServerFlavor::Mysql => "mysql"@,
            ServerFlavor::MariaDb => "mariadb"@,
        }
    }

    /// The source type that a flavor's snapshot checkpoints are kept under.
    pub open spec fn snapshot_name(self) -> Seq<char> {
        match self {
            ServerFlavor::Mysql => "mysql_snapshot"@,
            ServerFlavor::MariaDb => "mariadb_snapshot"@,
        }
    }

    /// The short name: the source type, and the label in logs.
    pub fn source_name(self) -> (name: &'static str)
        ensures
            name@ == self.name(),
    {
        match self {
            ServerFlavor::Mysql => "mysql",
            ServerFlavor::MariaDb => "mariadb",
        }
    }

    /// The source type of snapshot checkpoints.
    pub fn snapshot_source_name(self) -> (name: &'static str)
        ensures
            name@ == self.snapshot_name(),
    {
        match self {
            ServerFlavor::Mysql => "mysql_snapshot",
            ServerFlavor::MariaDb => "mariadb_snapshot",
        }
    }
}

/// A flavor's snapshot checkpoints are kept under its source type followed by `_snapshot`, and the
/// four source types differ.
pub proof fn source_names_do_not_meet(a: ServerFlavor, b: ServerFlavor)
    ensures
        a.snapshot_name() == a.name() + "_snapshot"@,
        a.name() != b.snapshot_name(),
        a != b ==> a.name() != b.name() && a.snapshot_name() != b.snapshot_name(),
{
    reveal_strlit("mysql");
    reveal_strlit("mariadb");
    reveal_strlit("mysql_snapshot");
    reveal_strlit("mariadb_snapshot");
    reveal_strlit("_snapshot");
    assert("mysql"@.len() == 5 && "mariadb"@.len() == 7);
    assert("mysql_snapshot"@.len() == 14 && "mariadb_snapshot"@.len() == 16);
    assert(a.snapshot_name() =~= a.name() + "_snapshot"@);
}

/// The configuration of a MySQL capture.
pub struct MysqlSourceConfig {
    pub host: String,
    pub port: u16,
    pub user: String,
    pub password: SecretString,
    /// `AwsIamToken` says that the password is a short-lived token.
    pub auth_mode: DatabaseAuthMode,
    /// The database of an unqualified table reference.
    pub database: String,
    /// The replication server id, unique among the server's replicas. Zero, the default, is an id
    /// that the server turns down.
    pub server_id: u32,
    /// Resume by executed set rather than by file and position.
    pub gtid_mode_enabled: bool,
    /// Verify the log format when connecting.
    pub binlog_format_check: bool,
    pub transport: TransportConfig,
    pub conn_timeout_secs: u64,
    pub stream_poll_interval_ms: u64,
    pub max_events_per_poll: usize,
    pub server_flavor: ServerFlavor,
    /// The only tables to stream, where it is not empty.
    pub table_include_list: Vec<String>,
    /// The tables to leave out, where nothing is listed above.
    pub table_exclude_list: Vec<String>,
    /// How long a handoff may drain overlapping events, in milliseconds; zero is without limit.
    pub handoff_overlap_drain_budget_ms: u64,
}

impl MysqlSourceConfig {
    /// The port where none is given.
    pub fn default_port() -> (port: u16)
        ensures
            port == 3306,
    {
        3306
    }

    /// Whether the log format is verified where nothing is said.
    pub fn default_binlog_format_check() -> (check: bool)
        ensures
            check,
    {
        true
    }

    /// The connection timeout where none is given, in seconds.
    pub fn default_conn_timeout_secs() -> (secs: u64)
        ensures
            secs == 30,
    {
        30
    }

    /// The poll interval where none is given, in milliseconds.
    pub fn default_stream_poll_interval_ms() -> (ms: u64)
        ensures
            ms == STREAM_POLL_INTERVAL_MS,
    {
        STREAM_POLL_INTERVAL_MS
    }

    /// The events of one poll where nothing is said.
    pub fn default_max_events_per_poll() -> (count: usize)
        ensures
            count == MAX_EVENTS_PER_POLL,
    {
        MAX_EVENTS_PER_POLL
    }

    /// The drain budget where none is given: eight poll intervals, in milliseconds.
    pub fn default_handoff_overlap_drain_budget_ms() -> (ms: u64)
        ensures
            ms == STREAM_POLL_INTERVAL_MS * 8,
    {
        STREAM_POLL_INTERVAL_MS * 8
    }

    /// The source type of the configured flavor.
    pub fn source_type(&self) -> (name: &'static str)
        ensures
            name@ == self.server_flavor.name(),
    {
        self.server_flavor.source_name()
    }

    /// Whether the configuration can be used.
    pub open spec fn valid(self) -> bool {
        &&& !config::blank(self.host@)
        &&& !config::blank(self.user@)
        &&& !config::blank(self.database@)
        &&& config::tuned(
            self.conn_timeout_secs,
            self.stream_poll_interval_ms,
            self.max_events_per_poll,
            self.auth_mode,
            self.transport,
        )
    }

    /// What is told of a configuration that cannot be used: of the first thing that is found.
    pub open spec fn invalid_text(self) -> Seq<char> {
        if config::blank(self.host@) {
            config::empty_field_text("mysql"@, "host"@)
        } else if config::blank(self.user@) {
            config::empty_field_text("mysql"@, "user"@)
        } else if config::blank(self.database@) {
            config::empty_field_text("mysql"@, "database"@)
        } else {
            config::mistuned_text(
                "mysql"@,
                self.conn_timeout_secs,
                self.stream_poll_interval_ms,
                self.max_events_per_poll,
            )
        }
    }

    /// Checks that the configuration can be used.
    pub fn validate(&self) -> (checked: Result<(), Error>)
        ensures
            checked is Ok == self.valid(),
            checked matches Err(error) ==> error is ConfigError && error.text()
                == self.invalid_text(),
    {
        let source = "mysql";
        match config::check_field(source, "host", self.host.as_str()) {
            Ok(_) => {},
            Err(error) => {
                return Err(error);
            },
        }
        match config::check_field(source, "user", self.user.as_str()) {
            Ok(_) => {},
            Err(error) => {
                return Err(error);
            },
        }
        match config::check_field(source, "database", self.database.as_str()) {
            Ok(_) => {},
            Err(error) => {
                return Err(error);
            },
        }
        config::check_tuning(
            source,
            self.conn_timeout_secs,
            self.stream_poll_interval_ms,
            self.max_events_per_poll,
            self.auth_mode,
            &self.transport,
        )
    }

    /// What a connection is made with. The secret is fetched anew each time.
    pub fn build_pool_opts<F: Fn(String) -> Result<String, Error>>(&self, fetch: F) -> (options:
        Result<ConnectOptions, Error>)
        requires
            forall|label: String| call_requires(fetch, (label,)),
        ensures
            match options {
                Ok(options) => {
                    &&& options.host@ == self.host@
                    &&& options.port == self.port
                    &&& options.user@ == self.user@
                    &&& options.database@ == self.database@
                    &&& options.conn_timeout_secs == self.conn_timeout_secs
                    &&& self.password.resolved(fetch, Ok(options.password))
                },
                Err(error) => self.password.resolved(fetch, Err(error)),
            },
    {
        match self.password.resolve(fetch) {
            Ok(password) => Ok(
                ConnectOptions {
                    host: self.host.clone(),
                    port: self.port,
                    user: self.user.clone(),
                    password,
                    database: self.database.clone(),
                    conn_timeout_secs: self.conn_timeout_secs,
                },
            ),
            Err(error) => Err(error),
        }
    }

    /// The same configuration over TLS that trusts the system's roots and verifies everything.
    pub fn with_tls_transport(self) -> (config: Self)
        ensures
            config == (MysqlSourceConfig {
                transport: TransportConfig::Tls {
                    ca_cert_path: None,
                    client_cert_path: None,
                    client_key_path: None,
                    allow_invalid_certificates: false,
                    allow_invalid_hostnames: false,
                },
                ..self
            }),
    {
        let mut config = self;
        config.transport = TransportConfig::tls();
        config
    }

    /// The same configuration without encryption.
    pub fn with_plaintext_transport(self) -> (config: Self)
        ensures
            config == (MysqlSourceConfig { transport: TransportConfig::Plaintext, ..self }),
    {
        let mut config = self;
        config.transport = TransportConfig::plaintext();
        config
    }

    /// The configuration as it may be shown. It does not depend on the secret.
    pub fn shown(&self) -> (shown: String)
        ensures
            shown@ == "MysqlSourceConfig { host: "@ + self.host@ + ", port: "@
                + text::decimal_text(self.port as nat) + ", user: "@ + self.user@
                + ", password: "@ + config::REDACTED@ + ", database: "@ + self.database@
                + ", server_id: "@ + text::decimal_text(self.server_id as nat) + " }"@,
    {
        let mut shown = "MysqlSourceConfig { host: ".to_owned();
        shown.append(self.host.as_str());
        shown.append(", port: ");
        shown.append(text::decimal(self.port as u64).as_str());
        shown.append(", user: ");
        shown.append(self.user.as_str());
        shown.append(", password: ");
        shown.append(config::REDACTED);
        shown.append(", database: ");
        shown.append(self.database.as_str());
        shown.append(", server_id: ");
        shown.append(text::decimal(self.server_id as u64).as_str());
        shown.append(" }");
        shown
    }
}

impl Default for MysqlSourceConfig {
    fn default() -> (config: Self)
        ensures
            config.host@.len() == 0,
            config.port == 3306,
            config.user@.len() == 0,
            config.password matches SecretString::Inline(secret) && secret@.len() == 0,
            config.auth_mode == DatabaseAuthMode::Password,
            config.database@.len() == 0,
            config.server_id == 0,
            !config.gtid_mode_enabled,
            config.binlog_format_check,
            !(config.transport is Plaintext),
            config.conn_timeout_secs == 30,
            config.stream_poll_interval_ms == STREAM_POLL_INTERVAL_MS,
            config.max_events_per_poll == MAX_EVENTS_PER_POLL,
            config.server_flavor == ServerFlavor::Mysql,
            config.table_include_list@.len() == 0,
            config.table_exclude_list@.len() == 0,
            config.handoff_overlap_drain_budget_ms == STREAM_POLL_INTERVAL_MS * 8,
    {
        proof {
            reveal_strlit("");
        }
        MysqlSourceConfig {
            host: String::new(),
            port: MysqlSourceConfig::default_port(),
            user: String::new(),
            password: SecretString::new(""),
            auth_mode: DatabaseAuthMode::Password,
            database: String::new(),
            server_id: 0,
            gtid_mode_enabled: false,
            binlog_format_check: MysqlSourceConfig::default_binlog_format_check(),
            transport: TransportConfig::tls(),
            conn_timeout_secs: MysqlSourceConfig::default_conn_timeout_secs(),
            stream_poll_interval_ms: MysqlSourceConfig::default_stream_poll_interval_ms(),
            max_events_per_poll: MysqlSourceConfig::default_max_events_per_poll(),
            server_flavor: ServerFlavor::Mysql,
            table_include_list: Vec::new(),
            table_exclude_list: Vec::new(),
            handoff_overlap_drain_budget_ms:
                MysqlSourceConfig::default_handoff_overlap_drain_budget_ms(),
        }
    }
}

} // verus!
