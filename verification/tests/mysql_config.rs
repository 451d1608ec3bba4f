use rustcdc::capabilities::DatabaseAuthMode;
use rustcdc::config::{
    SecretString, TransportConfig, MAX_EVENTS_PER_POLL, STREAM_POLL_INTERVAL_MS,
};
use rustcdc::error::Error;
use rustcdc::mysql::config::{MysqlSourceConfig, ServerFlavor};
use rustcdc::mysql::connection::{connection_mode, ConnectionMode, MysqlConnection};
use rustcdc::mysql::parser::MysqlOffset;
use rustcdc::mysql::validation::{find_fault, validate_server, ServerFacts, ServerFault};
use std::sync::atomic::{AtomicUsize, Ordering};
use std::sync::Arc;

fn text(value: &str) -> Option<String> {
    Some(value.to_string())
}

fn base_config() -> MysqlSourceConfig {
    MysqlSourceConfig {
        host: "localhost".into(),
        port: 3306,
        user: "cdc".into(),
        password: SecretString::new("secret"),
        database: "app".into(),
        server_id: 10,
        gtid_mode_enabled: false,
        binlog_format_check: true,
        transport: TransportConfig::tls(),
        conn_timeout_secs: 30,
        stream_poll_interval_ms: STREAM_POLL_INTERVAL_MS,
        max_events_per_poll: MAX_EVENTS_PER_POLL,
        ..Default::default()
    }
}

/// A correctly configured server.
fn good_server() -> ServerFacts {
    ServerFacts {
        gtid_mode: text("ON"),
        binlog_format: text("ROW"),
        grants: vec!["GRANT REPLICATION SLAVE ON *.* TO `cdc`@`%`".into()],
        log_bin: Some(1),
        binlog_row_metadata: text("FULL"),
        binlog_row_image: text("FULL"),
        binlog_row_value_options: text(""),
    }
}

#[test]
fn mysql_config_validation_rejects_empty_fields() {
    let config = MysqlSourceConfig::default();
    assert!(config.validate().is_err());
}

#[test]
fn mysql_config_validation_rejects_zero_stream_tuning() {
    let mut config = MysqlSourceConfig {
        host: "localhost".into(),
        port: 3306,
        user: "cdc".into(),
        password: SecretString::new("secret"),
        database: "app".into(),
        server_id: 1,
        gtid_mode_enabled: false,
        binlog_format_check: true,
        transport: TransportConfig::tls(),
        conn_timeout_secs: 30,
        stream_poll_interval_ms: 1,
        max_events_per_poll: 1,
        ..Default::default()
    };
    assert!(config.validate().is_ok());

    config.stream_poll_interval_ms = 0;
    assert!(config.validate().is_err());

    config.stream_poll_interval_ms = 1;
    config.max_events_per_poll = 0;
    assert!(config.validate().is_err());

    config.max_events_per_poll = 1;
    config.conn_timeout_secs = 301;
    assert!(config.validate().is_err());

    config.conn_timeout_secs = 30;
    config.stream_poll_interval_ms = 60_001;
    assert!(config.validate().is_err());

    config.stream_poll_interval_ms = 1;
    config.max_events_per_poll = 100_001;
    assert!(config.validate().is_err());
}

#[test]
fn mysql_each_field_is_required() {
    let mut config = base_config();
    config.host = "  ".into();
    assert!(matches!(config.validate(), Err(Error::ConfigError(message)) if message == "mysql host must not be empty"));
    let mut config = base_config();
    config.user = String::new();
    assert!(matches!(config.validate(), Err(Error::ConfigError(message)) if message == "mysql user must not be empty"));
    let mut config = base_config();
    config.database = String::new();
    assert!(matches!(config.validate(), Err(Error::ConfigError(message)) if message == "mysql database must not be empty"));
}

#[test]
fn mysql_default_config_prefers_tls_when_available() {
    let config = MysqlSourceConfig::default();
    assert!(config.transport.is_tls());
}

#[test]
fn mysql_default_tuning() {
    let config = MysqlSourceConfig::default();
    assert_eq!(config.port, 3306);
    assert_eq!(config.conn_timeout_secs, 30);
    assert_eq!(config.stream_poll_interval_ms, 50);
    assert_eq!(config.max_events_per_poll, 1_000);
    assert_eq!(config.handoff_overlap_drain_budget_ms, 400);
    assert_eq!(config.server_id, 0);
    assert_eq!(config.server_flavor, ServerFlavor::Mysql);
}

#[test]
fn mysql_debug_redacts_password() {
    let config = MysqlSourceConfig {
        host: "localhost".into(),
        port: 3306,
        user: "cdc".into(),
        password: SecretString::new("secret"),
        database: "app".into(),
        server_id: 7,
        gtid_mode_enabled: true,
        binlog_format_check: true,
        transport: TransportConfig::tls(),
        conn_timeout_secs: 30,
        stream_poll_interval_ms: STREAM_POLL_INTERVAL_MS,
        max_events_per_poll: MAX_EVENTS_PER_POLL,
        ..Default::default()
    };

    let debug = config.shown();
    assert!(debug.contains("***redacted***"));
    assert!(!debug.contains("secret"));
    assert_eq!(
        debug,
        "MysqlSourceConfig { host: localhost, port: 3306, user: cdc, password: ***redacted***, database: app, server_id: 7 }"
    );
}

#[test]
fn mysql_validation_accepts_callback_backed_passwords() {
    let config = MysqlSourceConfig {
        host: "localhost".into(),
        port: 3306,
        user: "cdc".into(),
        password: SecretString::from_callback("mysql-test"),
        database: "app".into(),
        server_id: 7,
        gtid_mode_enabled: false,
        binlog_format_check: true,
        transport: TransportConfig::tls(),
        conn_timeout_secs: 30,
        stream_poll_interval_ms: STREAM_POLL_INTERVAL_MS,
        max_events_per_poll: MAX_EVENTS_PER_POLL,
        ..Default::default()
    };

    assert!(config.validate().is_ok());
    let options = config.build_pool_opts(|_label: String| Ok("secret".to_string()));
    assert!(options.is_ok());
    assert_eq!(options.ok().unwrap().password, "secret");
}

#[test]
fn callback_backed_password_is_re_resolved_for_rotation() {
    let counter = Arc::new(AtomicUsize::new(0));
    let config = MysqlSourceConfig {
        host: "localhost".into(),
        port: 3306,
        user: "cdc".into(),
        password: SecretString::from_callback("mysql-rotation"),
        database: "app".into(),
        server_id: 7,
        gtid_mode_enabled: false,
        binlog_format_check: true,
        transport: TransportConfig::tls(),
        conn_timeout_secs: 30,
        stream_poll_interval_ms: STREAM_POLL_INTERVAL_MS,
        max_events_per_poll: MAX_EVENTS_PER_POLL,
        ..Default::default()
    };
    let fetch = |label: String| {
        assert_eq!(label, "mysql-rotation");
        let next = counter.fetch_add(1, Ordering::Relaxed) + 1;
        Ok(format!("secret-{next}"))
    };

    let first = config.build_pool_opts(&fetch).ok().unwrap();
    let second = config.build_pool_opts(&fetch).ok().unwrap();

    assert_eq!(counter.load(Ordering::Relaxed), 2);
    assert_eq!(first.password, "secret-1");
    assert_eq!(second.password, "secret-2");
}

#[test]
fn a_failed_callback_fails_the_connection() {
    let mut config = base_config();
    config.password = SecretString::from_callback("vault");
    let outcome = config.build_pool_opts(|label: String| {
        Err(Error::SourceError(format!("{label} is sealed")))
    });
    assert!(matches!(outcome, Err(Error::SourceError(message)) if message == "vault is sealed"));
}

#[test]
fn a_deferred_secret_is_distinguishable_from_an_inline_one() {
    assert!(!SecretString::new("static").is_deferred());
    assert!(SecretString::from_callback("iam-token").is_deferred());
}

#[test]
fn mysql_aws_iam_auth_mode_requires_tls() {
    let mut config = MysqlSourceConfig {
        host: "localhost".into(),
        port: 3306,
        user: "cdc".into(),
        password: SecretString::from_callback("mysql-iam-token"),
        auth_mode: DatabaseAuthMode::AwsIamToken,
        database: "app".into(),
        server_id: 7,
        gtid_mode_enabled: false,
        binlog_format_check: true,
        transport: TransportConfig::plaintext(),
        conn_timeout_secs: 30,
        stream_poll_interval_ms: STREAM_POLL_INTERVAL_MS,
        max_events_per_poll: MAX_EVENTS_PER_POLL,
        ..Default::default()
    };

    let error = config.validate().unwrap_err();
    assert!(matches!(error, Error::ConfigError(message) if message.contains("requires TLS")));

    config.transport = TransportConfig::tls();
    assert!(config.validate().is_ok());
}

#[test]
fn mysql_plaintext_transport_is_explicitly_supported() {
    let config = MysqlSourceConfig {
        host: "localhost".into(),
        port: 3306,
        user: "cdc".into(),
        password: SecretString::new("secret"),
        auth_mode: DatabaseAuthMode::Password,
        database: "app".into(),
        server_id: 7,
        gtid_mode_enabled: false,
        binlog_format_check: true,
        transport: TransportConfig::plaintext(),
        conn_timeout_secs: 30,
        stream_poll_interval_ms: STREAM_POLL_INTERVAL_MS,
        max_events_per_poll: MAX_EVENTS_PER_POLL,
        ..Default::default()
    };

    assert!(config.validate().is_ok());
}

#[test]
fn mysql_transport_helper_methods_set_expected_mode() {
    let plaintext = MysqlSourceConfig::default().with_plaintext_transport();
    assert!(!plaintext.transport.is_tls());

    let tls = plaintext.with_tls_transport();
    assert!(tls.transport.is_tls());
    assert_eq!(tls.transport, TransportConfig::tls());
}

#[test]
fn source_type_is_mysql() {
    let connection = MysqlConnection::new(base_config());

    assert_eq!(connection.source_type(), "mysql");
    let capabilities = connection.capabilities();
    assert!(capabilities.snapshot);
    assert!(capabilities.handoff);
    assert!(capabilities.heartbeat);
    assert!(capabilities.ddl_capture);
}

#[test]
fn mariadb_has_its_own_source_types() {
    assert_eq!(ServerFlavor::Mysql.source_name(), "mysql");
    assert_eq!(ServerFlavor::MariaDb.source_name(), "mariadb");
    assert_eq!(ServerFlavor::Mysql.snapshot_source_name(), "mysql_snapshot");
    assert_eq!(ServerFlavor::MariaDb.snapshot_source_name(), "mariadb_snapshot");
    let mut config = base_config();
    config.server_flavor = ServerFlavor::MariaDb;
    assert_eq!(MysqlConnection::new(config).source_type(), "mariadb");
}

#[test]
fn validation_passes_when_prerequisites_are_satisfied() {
    let mut config = base_config();
    config.gtid_mode_enabled = true;
    assert!(validate_server(&config, &good_server()).is_ok());
}

#[test]
fn validation_rejects_minimal_binlog_row_metadata() {
    let facts = ServerFacts { binlog_row_metadata: text("MINIMAL"), ..good_server() };
    let error = validate_server(&base_config(), &facts)
        .expect_err("MINIMAL binlog_row_metadata must be rejected");
    let message = error.message().to_string();
    assert!(message.contains("binlog_row_metadata"), "{message}");
    assert!(message.contains("FULL"), "{message}");
}

#[test]
fn validation_rejects_non_full_binlog_row_image() {
    for value in ["MINIMAL", "NOBLOB"] {
        let facts = ServerFacts { binlog_row_image: text(value), ..good_server() };
        let error = validate_server(&base_config(), &facts)
            .expect_err("non-FULL binlog_row_image must be rejected");
        let message = error.message().to_string();
        assert!(message.contains("binlog_row_image"), "{message}");
        assert!(message.contains(value), "{message}");
    }
}

#[test]
fn validation_rejects_partial_json_row_value_options() {
    let facts = ServerFacts { binlog_row_value_options: text("PARTIAL_JSON"), ..good_server() };
    let error = validate_server(&base_config(), &facts)
        .expect_err("PARTIAL_JSON binlog_row_value_options must be rejected");
    assert!(error.message().contains("binlog_row_value_options"));
}

#[test]
fn validation_skips_row_image_guards_when_server_lacks_the_variables() {
    let facts = ServerFacts {
        binlog_row_metadata: None,
        binlog_row_image: None,
        binlog_row_value_options: None,
        ..good_server()
    };
    validate_server(&base_config(), &facts)
        .expect("absent variables must be treated as not-applicable, not as a failure");
}

#[test]
fn validation_rejects_missing_gtid_mode_when_required() {
    let mut config = base_config();
    config.gtid_mode_enabled = true;
    let facts = ServerFacts { gtid_mode: text("OFF"), ..good_server() };
    let error = validate_server(&config, &facts).unwrap_err();
    assert!(matches!(error, Error::SourceError(_)));

    let unknown = ServerFacts { gtid_mode: None, ..good_server() };
    assert!(validate_server(&config, &unknown).is_err());
}

#[test]
fn validation_rejects_missing_binlog_or_privilege() {
    let missing_priv = ServerFacts {
        grants: vec!["GRANT SELECT ON `app`.* TO `cdc`@`%`".into()],
        ..good_server()
    };
    let error = validate_server(&base_config(), &missing_priv).unwrap_err();
    assert!(matches!(error, Error::SourceError(_)));

    let missing_binlog = ServerFacts { log_bin: Some(0), ..good_server() };
    let error = validate_server(&base_config(), &missing_binlog).unwrap_err();
    assert!(matches!(error, Error::SourceError(_)));
}

#[test]
fn faults_come_in_a_fixed_order_and_values_in_any_case() {
    let config = base_config();
    let worst = ServerFacts {
        gtid_mode: None,
        binlog_format: text("STATEMENT"),
        grants: Vec::new(),
        log_bin: None,
        binlog_row_metadata: text("MINIMAL"),
        binlog_row_image: text("MINIMAL"),
        binlog_row_value_options: text(" PARTIAL_JSON "),
    };
    assert_eq!(find_fault(&config, &worst), Some(ServerFault::BinlogFormat));
    let worst = ServerFacts { binlog_format: text("row"), ..worst };
    assert_eq!(find_fault(&config, &worst), Some(ServerFault::NoReplicationPrivilege));
    let worst = ServerFacts { grants: vec!["grant all privileges on *.* to cdc".into()], ..worst };
    assert_eq!(find_fault(&config, &worst), Some(ServerFault::BinlogDisabled));
    let worst = ServerFacts { log_bin: Some(1), ..worst };
    assert_eq!(find_fault(&config, &worst), Some(ServerFault::RowMetadata));
    let worst = ServerFacts { binlog_row_metadata: text("full"), ..worst };
    assert_eq!(find_fault(&config, &worst), Some(ServerFault::RowImage));
    let worst = ServerFacts { binlog_row_image: text("Full"), ..worst };
    assert_eq!(find_fault(&config, &worst), Some(ServerFault::RowValueOptions));
    let fine = ServerFacts { binlog_row_value_options: text("   "), ..worst };
    assert_eq!(find_fault(&config, &fine), None);
    let mut strict = base_config();
    strict.gtid_mode_enabled = true;
    assert_eq!(find_fault(&strict, &fine), Some(ServerFault::GtidModeOff));
}

#[test]
fn snapshot_start_rejects_empty_table_list() {
    let connection = MysqlConnection::new(base_config());
    let result = connection.start_snapshot_from_checkpoint(&Vec::new(), None);
    assert!(matches!(result, Err(Error::ConfigError(_))));
}

#[test]
fn mysql_lifecycle_guards() {
    let mut connection = MysqlConnection::new(base_config());
    let tables = vec!["users".to_string()];
    assert!(!connection.is_connected());
    assert!(matches!(connection.start_snapshot_from_checkpoint(&tables, None), Err(Error::StateError(_))));
    assert!(matches!(connection.start_stream(), Err(Error::StateError(_))));
    assert!(matches!(connection.start_incremental_snapshot(), Err(Error::StateError(_))));

    assert_eq!(connection.connect().unwrap(), Some(ConnectionMode::Pooled));
    connection.connection_established();
    assert!(connection.is_connected());
    assert_eq!(connection.connect().unwrap(), None, "an established connection is left alone");
    assert!(connection.start_snapshot_from_checkpoint(&tables, Some("mysql_snapshot")).is_ok());
    assert!(matches!(
        connection.start_snapshot_from_checkpoint(&tables, Some("mariadb_snapshot")),
        Err(Error::CheckpointError(message))
            if message == "cannot resume mysql snapshot from source type 'mariadb_snapshot'"
    ));
    assert!(connection.start_stream().is_ok());
    assert!(connection.start_incremental_snapshot().is_ok());
    connection.close();
    assert!(!connection.is_connected());
    connection.close();

    let mut invalid = base_config();
    invalid.user = String::new();
    assert!(matches!(MysqlConnection::new(invalid).connect(), Err(Error::ConfigError(_))));
}

#[test]
fn connection_mode_follows_the_kind_of_secret() {
    let mut config = base_config();
    assert_eq!(connection_mode(&config), ConnectionMode::Pooled);
    config.password = SecretString::from_callback("vault");
    assert_eq!(connection_mode(&config), ConnectionMode::PooledDeferred);
    config.auth_mode = DatabaseAuthMode::AwsIamToken;
    assert_eq!(connection_mode(&config), ConnectionMode::PerConnection);
}

#[test]
fn zero_tuning_is_raised_to_one() {
    let mut config = base_config();
    config.stream_poll_interval_ms = 0;
    config.max_events_per_poll = 0;
    let connection = MysqlConnection::new(config);
    assert_eq!(connection.stream_poll_interval_ms, 1);
    assert_eq!(connection.max_events_per_poll, 1);
}

#[test]
fn lifecycle_guards_say_what_is_missing() {
    let told = |outcome: Result<(), Error>| outcome.unwrap_err().message().to_string();
    let tables = vec!["users".to_string()];
    let mut connection = MysqlConnection::new(base_config());
    assert_eq!(
        told(connection.start_snapshot_from_checkpoint(&Vec::new(), None)),
        "mysql snapshot requires at least one table"
    );
    assert_eq!(
        told(connection.start_snapshot_from_checkpoint(&tables, None)),
        "mysql connection must be established before snapshot"
    );
    assert_eq!(
        told(connection.start_stream()),
        "mysql connection must be established before stream"
    );
    assert_eq!(
        told(connection.start_incremental_snapshot()),
        "mysql connection must be established before incremental snapshot"
    );
    assert_eq!(
        connection.perform_handoff().err().unwrap(),
        Error::StateError(
            "mysql perform_handoff requires start_snapshot to have been called first".into()
        )
    );
    connection.snapshot_watermark =
        Some(MysqlOffset::new("mysql".into(), "mysql-bin.000001".into(), 4, String::new()));
    assert_eq!(
        connection.perform_handoff().err().unwrap(),
        Error::StateError(
            "mysql perform_handoff requires start_stream to have been called first".into()
        )
    );
    let invalid = || MysqlSourceConfig { user: String::new(), ..base_config() };
    assert_eq!(
        MysqlConnection::new(invalid()).connect().unwrap_err(),
        invalid().validate().unwrap_err()
    );
}
