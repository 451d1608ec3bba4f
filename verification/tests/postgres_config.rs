use rustcdc::capabilities::DatabaseAuthMode;
use rustcdc::config::{
    SecretString, TransportConfig, MAX_EVENTS_PER_POLL, STREAM_POLL_INTERVAL_MS,
};
use rustcdc::error::Error;
use rustcdc::postgres::config::{PostgresSourceConfig, WalTransport};
use rustcdc::postgres::connection::{check_transport, PostgresConnection};
use rustcdc::postgres::handoff::{
    postgres_handoff_result, postgres_handoff_stream_watermark_gap,
};
use rustcdc::postgres::validation::{validate_server, Preparation, ServerFacts};

const NOW: u64 = 1_700_000_000_000;

fn base_config() -> PostgresSourceConfig {
    PostgresSourceConfig {
        host: "localhost".into(),
        port: 5432,
        user: "cdc".into(),
        password: SecretString::new("secret"),
        database: "app".into(),
        replication_slot_name: "slot".into(),
        publication_name: "pub".into(),
        transport: TransportConfig::tls(),
        conn_timeout_secs: 30,
        stream_poll_interval_ms: STREAM_POLL_INTERVAL_MS,
        max_events_per_poll: MAX_EVENTS_PER_POLL,
        ..Default::default()
    }
}

fn no_callback(_label: String) -> Result<String, Error> {
    Err(Error::ConfigError("no callback".into()))
}

#[test]
fn postgres_default_config_prefers_tls_when_available() {
    let config = PostgresSourceConfig::default();
    assert!(config.transport.is_tls());
}

#[test]
fn postgres_config_validation_rejects_empty_fields() {
    let config = PostgresSourceConfig::default();
    assert!(config.validate().is_err());
}

#[test]
fn postgres_config_validation_rejects_zero_stream_tuning() {
    let mut config = PostgresSourceConfig {
        stream_poll_interval_ms: 1,
        max_events_per_poll: 1,
        ..base_config()
    };

    config.stream_poll_interval_ms = 0;
    assert!(config.validate().is_err());

    config.stream_poll_interval_ms = 1;
    config.max_events_per_poll = 0;
    assert!(config.validate().is_err());

    config.max_events_per_poll = 1;
    config.conn_timeout_secs = 301;
    assert!(config.validate().is_err());

    config.conn_timeout_secs = 30;
    config.stream_poll_interval_ms = 60_001;
    assert!(config.validate().is_err());

    config.stream_poll_interval_ms = 1;
    config.max_events_per_poll = 100_001;
    assert!(config.validate().is_err());

    config.max_events_per_poll = 100_000;
    assert!(config.validate().is_ok());
}

#[test]
fn postgres_debug_redacts_password() {
    let shown = base_config().shown();
    assert!(shown.contains("***redacted***"));
    assert!(!shown.contains("secret"));
}

#[test]
fn postgres_validation_accepts_callback_backed_passwords() {
    let config = PostgresSourceConfig {
        password: SecretString::from_callback("postgres-password"),
        ..base_config()
    };

    assert!(config.validate().is_ok());
    let options = config
        .build_connect_config(|label: String| {
            assert_eq!(label, "postgres-password");
            Ok("callback-secret".to_string())
        })
        .ok()
        .unwrap();
    assert_eq!(options.password, "callback-secret");
    assert_eq!(options.host, "localhost");
    assert_eq!(options.port, 5432);
    assert!(config.build_connect_config(no_callback).is_err());
}

#[test]
fn postgres_aws_iam_auth_mode_requires_tls() {
    let mut config = PostgresSourceConfig {
        password: SecretString::from_callback("postgres-iam-token"),
        auth_mode: DatabaseAuthMode::AwsIamToken,
        transport: TransportConfig::plaintext(),
        ..base_config()
    };

    let error = config.validate().unwrap_err();
    assert!(matches!(error, Error::ConfigError(message) if message.contains("requires TLS")));

    config.transport = TransportConfig::tls();
    assert!(config.validate().is_ok());
}

#[test]
fn postgres_plaintext_transport_is_explicitly_supported() {
    let config = PostgresSourceConfig {
        auth_mode: DatabaseAuthMode::Password,
        transport: TransportConfig::plaintext(),
        ..base_config()
    };
    assert!(config.validate().is_ok());
}

#[test]
fn postgres_transport_helper_methods_set_expected_mode() {
    let plaintext = PostgresSourceConfig::default().with_plaintext_transport();
    assert!(!plaintext.transport.is_tls());

    let tls = plaintext.with_tls_transport();
    assert!(tls.transport.is_tls());
    assert_eq!(tls.transport, TransportConfig::tls());
}

#[test]
fn postgres_defaults_are_the_documented_ones() {
    let config = PostgresSourceConfig::default();
    assert_eq!(config.port, 5432);
    assert_eq!(config.conn_timeout_secs, PostgresSourceConfig::default_conn_timeout_secs());
    assert_eq!(config.stream_poll_interval_ms, STREAM_POLL_INTERVAL_MS);
    assert_eq!(config.max_events_per_poll, MAX_EVENTS_PER_POLL);
    assert_eq!(config.wal_transport, WalTransport::StreamingReplication);
    assert!(!config.failover_slot);
    assert_eq!(PostgresSourceConfig::source_type(), "postgres");
}

#[test]
fn source_type_is_postgres() {
    let connection = PostgresConnection::new(base_config());

    assert_eq!(connection.source_type(), "postgres");
    let capabilities = connection.capabilities();
    assert!(capabilities.snapshot);
    assert!(capabilities.handoff);
    assert!(!capabilities.heartbeat);
    assert!(capabilities.ddl_capture);
}

#[test]
fn validation_creates_replication_slot_when_explicitly_opted_in() {
    let config = PostgresSourceConfig {
        create_replication_slot_if_missing: true,
        ..base_config()
    };
    let facts = ServerFacts {
        slot_exists: false,
        publication_exists: true,
        has_replication_privilege: true,
    };
    assert!(matches!(validate_server(&config, &facts), Ok(Preparation::CreateSlot { .. })));
    let present = ServerFacts { slot_exists: true, ..facts };
    assert!(matches!(validate_server(&config, &present), Ok(Preparation::Ready)));
}

#[test]
fn failover_slot_flag_reaches_slot_creation() {
    assert!(!base_config().failover_slot, "failover slots are PG17+, so they must be opt-in");
    for failover in [false, true] {
        let config = PostgresSourceConfig {
            create_replication_slot_if_missing: true,
            failover_slot: failover,
            ..base_config()
        };
        let facts = ServerFacts {
            slot_exists: false,
            publication_exists: true,
            has_replication_privilege: true,
        };
        assert_eq!(
            validate_server(&config, &facts).unwrap(),
            Preparation::CreateSlot { failover },
            "failover_slot={failover} must be passed through to slot creation"
        );
    }
}

#[test]
fn validation_refuses_to_recreate_a_missing_slot_by_default() {
    let config = base_config();
    assert!(!config.create_replication_slot_if_missing, "auto-create must be off by default");
    let facts = ServerFacts {
        slot_exists: false,
        publication_exists: true,
        has_replication_privilege: true,
    };
    let error = validate_server(&config, &facts)
        .expect_err("a missing slot must fail loud unless explicitly opted in");
    let message = error.message().to_string();
    assert!(message.contains("does not exist"), "{message}");
    assert!(
        message.contains("create_replication_slot_if_missing"),
        "the error must name the opt-in: {message}"
    );
}

#[test]
fn validation_rejects_missing_publication() {
    let facts = ServerFacts {
        slot_exists: true,
        publication_exists: false,
        has_replication_privilege: true,
    };
    let error = validate_server(&base_config(), &facts).unwrap_err();
    assert!(matches!(error, Error::SourceError(_)));
}

#[test]
fn validation_rejects_missing_replication_privilege() {
    let facts = ServerFacts {
        slot_exists: true,
        publication_exists: true,
        has_replication_privilege: false,
    };
    let error = validate_server(&base_config(), &facts).unwrap_err();
    assert!(matches!(error, Error::SourceError(_)));
}

#[test]
fn handoff_watermarks_accept_equal_or_forward_progress() {
    let equal = postgres_handoff_stream_watermark_gap(100, 100).unwrap();
    assert_eq!(equal, 0);

    let overlap = postgres_handoff_stream_watermark_gap(100, 160).unwrap();
    assert_eq!(overlap, 60);
}

#[test]
fn handoff_watermarks_reject_stream_behind_snapshot() {
    let err = postgres_handoff_stream_watermark_gap(200, 199).unwrap_err();
    assert!(matches!(err, Error::SourceError(_)));
}

#[test]
fn handoff_snapshot_only_returns_no_stream_start() {
    let result = postgres_handoff_result(Some(11), Some(10), None, NOW).unwrap();
    assert_eq!(result.snapshot_end_ts, Some(11));
    assert_eq!(result.stream_start_ts, None);
    assert_eq!(result.overlap_events_dropped, None);
    assert_eq!(result.stream_watermark_gap, None);
}

#[test]
fn handoff_stream_only_returns_no_snapshot_end() {
    let result = postgres_handoff_result(None, None, Some(10), NOW).unwrap();
    assert_eq!(result.snapshot_end_ts, None);
    assert!(result.stream_start_ts.is_some());
    assert_eq!(result.overlap_events_dropped, None);
    assert_eq!(result.stream_watermark_gap, None);
}

#[test]
fn handoff_overlap_reports_watermark_gap_not_event_count() {
    let result = postgres_handoff_result(Some(25), Some(100), Some(160), NOW).unwrap();
    assert_eq!(result.snapshot_end_ts, Some(25));
    assert_eq!(result.overlap_events_dropped, None);
    assert_eq!(result.stream_watermark_gap, Some(60));
    assert!(result.stream_start_ts.is_some());
}

#[test]
fn a_connection_goes_through_its_states() {
    let mut connection = PostgresConnection::new(base_config());
    assert!(!connection.is_connected());
    assert!(connection.connect().unwrap());
    assert!(matches!(connection.start_stream(), Err(Error::StateError(_))));
    assert!(matches!(connection.start_incremental_snapshot(), Err(Error::StateError(_))));
    assert!(matches!(connection.perform_handoff(), Err(Error::StateError(_))));
    connection.connection_established();
    assert!(connection.is_connected());
    assert!(!connection.connect().unwrap(), "an established connection is left alone");
    assert!(connection.start_stream().is_ok());
    connection.close();
    assert!(!connection.is_connected());
}

#[test]
fn transports_that_cannot_be_honoured_are_refused() {
    assert!(check_transport(&TransportConfig::tls()).is_ok());
    assert!(check_transport(&TransportConfig::plaintext()).is_ok());
    let lax = TransportConfig::Tls {
        ca_cert_path: None,
        client_cert_path: None,
        client_key_path: None,
        allow_invalid_certificates: true,
        allow_invalid_hostnames: false,
    };
    assert!(matches!(check_transport(&lax), Err(Error::ConfigError(_))));
}

#[test]
fn lifecycle_guards_say_what_is_missing_on_postgres() {
    let told = |outcome: Result<(), Error>| outcome.unwrap_err().message().to_string();
    let tables = vec!["users".to_string()];
    let mut connection = PostgresConnection::new(base_config());
    assert_eq!(
        told(connection.start_snapshot_from_checkpoint(&Vec::new(), Some("mysql_snapshot"))),
        "cannot resume postgres snapshot from source type 'mysql_snapshot'"
    );
    assert_eq!(
        told(connection.start_snapshot_from_checkpoint(&Vec::new(), None)),
        "postgres snapshot requires at least one table"
    );
    assert_eq!(
        told(connection.start_snapshot_from_checkpoint(&tables, Some("postgres_snapshot"))),
        "postgres connection must be established before snapshot"
    );
    assert_eq!(
        told(connection.start_stream()),
        "postgres connection must be established before stream"
    );
    assert_eq!(
        told(connection.start_incremental_snapshot()),
        "postgres connection must be established before starting an incremental snapshot"
    );
    assert_eq!(
        connection.perform_handoff().unwrap_err(),
        Error::StateError(
            "postgres perform_handoff requires start_snapshot to have been called first".into()
        )
    );
    connection.snapshot_watermark = Some(7);
    assert_eq!(
        connection.perform_handoff().unwrap_err(),
        Error::StateError(
            "postgres perform_handoff requires start_stream to have been called first".into()
        )
    );
    assert_eq!(
        postgres_handoff_result(None, Some(0x1_0000_0002), Some(255), NOW).unwrap_err(),
        Error::SourceError(
            "postgres handoff refused: the stream starts at 0/000000FF, behind the snapshot \
             watermark 1/00000002"
                .into()
        )
    );
}

#[test]
fn connecting_says_what_is_wrong_with_the_configuration_first() {
    let lax = || TransportConfig::Tls {
        ca_cert_path: None,
        client_cert_path: None,
        client_key_path: None,
        allow_invalid_certificates: false,
        allow_invalid_hostnames: true,
    };
    let refused = Error::ConfigError(
        "postgres transport sets allow_invalid_certificates or allow_invalid_hostnames, but this \
         connector always verifies the server certificate and cannot disable it. Rather than \
         silently ignoring the setting and failing verification with an opaque error, it is \
         rejected here. For a self-signed or private-CA server use \
         TransportConfig::tls_with_ca_cert_path(Some(path)) and trust the CA explicitly; for a \
         plaintext test setup use TransportConfig::Plaintext."
            .into(),
    );
    let config = PostgresSourceConfig { transport: lax(), ..base_config() };
    assert_eq!(PostgresConnection::new(config).connect().unwrap_err(), refused);
    let invalid =
        || PostgresSourceConfig { transport: lax(), user: String::new(), ..base_config() };
    assert_eq!(
        PostgresConnection::new(invalid()).connect().unwrap_err(),
        invalid().validate().unwrap_err()
    );
}
