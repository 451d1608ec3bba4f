//! Which configurations can be used, field by field.
use vstd::prelude::*;
use crate::capabilities::DatabaseAuthMode;
use crate::config;
use crate::config::{SecretString, TransportConfig};
use crate::error::Error;
use crate::mysql::config::MysqlSourceConfig;
use crate::mysql::validation;
use crate::mysql::validation::{ServerFacts, ServerFault};
use crate::postgres::config::PostgresSourceConfig;
use crate::text;

verus! {

proof fn lemma_trim_start(value: Seq<char>)
    ensures
        text::trim_start(value).len() == 0 <==> (forall|i: int|
            0 <= i < value.len() ==> text::is_space(#[trigger] value[i])),
        text::trim_start(value).len() > 0 ==> !text::is_space(text::trim_start(value)[0]),
    decreases value.len(),
{
    if value.len() > 0 && text::is_space(value[0]) {
        let less = value.drop_first();
        lemma_trim_start(less);
        if forall|i: int| 0 <= i < less.len() ==> text::is_space(#[trigger] less[i]) {
            assert forall|i: int| 0 <= i < value.len() implies text::is_space(
                #[trigger] value[i],
            ) by {
                if i > 0 {
                    assert(less[i - 1] == value[i]);
                }
            }
        }
        if forall|i: int| 0 <= i < value.len() ==> text::is_space(#[trigger] value[i]) {
            assert forall|i: int| 0 <= i < less.len() implies text::is_space(
                #[trigger] less[i],
            ) by {
                assert(value[i + 1] == less[i]);
            }
        }
    }
}

proof fn lemma_trim_end(value: Seq<char>)
    ensures
        value.len() > 0 && !text::is_space(value[0]) ==> text::trim_end(value).len() > 0,
        value.len() == 0 ==> text::trim_end(value).len() == 0,
    decreases value.len(),
{
    if value.len() > 0 && text::is_space(value.last()) {
        lemma_trim_end(value.drop_last());
    }
}

/// A text says nothing exactly where it holds nothing but white space.
pub proof fn blank_is_nothing_but_white_space(value: Seq<char>)
    ensures
        config::blank(value) <==> (forall|i: int|
            0 <= i < value.len() ==> text::is_space(#[trigger] value[i])),
{
    lemma_trim_start(value);
    lemma_trim_end(text::trim_start(value));
}

/// A PostgreSQL configuration can be used exactly where each text that it needs says something,
/// each number is in its range, and a short-lived token travels encrypted.
pub proof fn usable_postgres_configuration(settings: PostgresSourceConfig)
    ensures
        settings.valid() <==> {
            &&& !config::blank(settings.host@)
            &&& !config::blank(settings.user@)
            &&& !config::blank(settings.database@)
            &&& !config::blank(settings.replication_slot_name@)
            &&& !config::blank(settings.publication_name@)
            &&& 1 <= settings.conn_timeout_secs <= 300
            &&& 1 <= settings.stream_poll_interval_ms <= 60_000
            &&& 1 <= settings.max_events_per_poll <= 100_000
            &&& settings.auth_mode == DatabaseAuthMode::AwsIamToken ==> settings.transport
                != TransportConfig::Plaintext
        },
{
}

/// A MySQL configuration can be used exactly where each text that it needs says something, each
/// number is in its range, and a short-lived token travels encrypted.
pub proof fn usable_mysql_configuration(settings: MysqlSourceConfig)
    ensures
        settings.valid() <==> {
            &&& !config::blank(settings.host@)
            &&& !config::blank(settings.user@)
            &&& !config::blank(settings.database@)
            &&& 1 <= settings.conn_timeout_secs <= 300
            &&& 1 <= settings.stream_poll_interval_ms <= 60_000
            &&& 1 <= settings.max_events_per_poll <= 100_000
            &&& settings.auth_mode == DatabaseAuthMode::AwsIamToken ==> settings.transport
                != TransportConfig::Plaintext
        },
{
}

/// What is told of a configuration that cannot be used names a field that is at fault.
pub proof fn refusal_names_a_field_at_fault(
    settings: PostgresSourceConfig,
    others: MysqlSourceConfig,
)
    ensures
        config::blank(settings.host@) ==> settings.invalid_text() == "postgres"@ + " "@ + "host"@
            + " must not be empty"@,
        !config::blank(settings.host@) && config::blank(settings.user@)
            ==> settings.invalid_text() == "postgres"@ + " "@ + "user"@ + " must not be empty"@,
        config::blank(others.host@) ==> others.invalid_text() == "mysql"@ + " "@ + "host"@
            + " must not be empty"@,
        !config::blank(others.host@) && config::blank(others.user@) ==> others.invalid_text()
            == "mysql"@ + " "@ + "user"@ + " must not be empty"@,
        !config::blank(others.host@) && !config::blank(others.user@) && config::blank(
            others.database@,
        ) ==> others.invalid_text() == "mysql"@ + " "@ + "database"@ + " must not be empty"@,
{
}

/// Only TLS of which a verification is switched off leaves one out.
pub proof fn verification_is_left_out_only_where_asked(transport: TransportConfig)
    ensures
        transport.skips_verification() <==> (transport matches TransportConfig::Tls {
            allow_invalid_certificates,
            allow_invalid_hostnames,
            ..
        } && (allow_invalid_certificates || allow_invalid_hostnames)),
{
}

/// A secret that is held resolves to itself, whatever a callback would give; one that is fetched
/// resolves to what the callback of its own label gives.
pub proof fn secret_resolves_to_what_it_names<F: Fn(String) -> Result<String, Error>>(
    held: String,
    fetch: F,
    secret: Result<String, Error>,
)
    ensures
        SecretString::Inline(held).resolved(fetch, secret) <==> (secret matches Ok(found) && found@
            == held@),
        SecretString::Deferred(held).resolved(fetch, secret) ==> exists|label: String|
            label@ == held@ && #[trigger] call_ensures(fetch, (label,), secret),
{
}

/// A fault that is found in a MySQL server is one that the server has.
pub proof fn found_fault_is_there(
    settings: &MysqlSourceConfig,
    facts: &ServerFacts,
    found: Option<ServerFault>,
)
    requires
        call_ensures(validation::find_fault, (settings, facts), found),
    ensures
        found == Some(ServerFault::GtidModeOff) ==> settings.gtid_mode_enabled && !(
        facts.gtid_mode matches Some(mode) && text::folded(mode@) == text::folded("ON"@)),
        found == Some(ServerFault::BinlogFormat) ==> settings.binlog_format_check && !(
        facts.binlog_format matches Some(format) && text::folded(format@) == text::folded(
            "ROW"@,
        )),
        found == Some(ServerFault::NoReplicationPrivilege) ==> forall|i: int|
            0 <= i < facts.grants@.len() ==> !validation::holds(
                #[trigger] facts.grants@[i]@,
                "REPLICATION"@,
            ) && !validation::holds(facts.grants@[i]@, "ALL PRIVILEGES"@),
        found == Some(ServerFault::BinlogDisabled) ==> facts.log_bin is None || facts.log_bin
            == Some(0u8),
        found == Some(ServerFault::RowMetadata) ==> (facts.binlog_row_metadata matches Some(value)
            && text::folded(value@) != text::folded("FULL"@)),
        found == Some(ServerFault::RowImage) ==> (facts.binlog_row_image matches Some(value)
            && text::folded(value@) != text::folded("FULL"@)),
        found == Some(ServerFault::RowValueOptions) ==> (
        facts.binlog_row_value_options matches Some(value) && !config::blank(value@)),
        found is None ==> (settings.gtid_mode_enabled ==> facts.gtid_mode is Some) && (
        settings.binlog_format_check ==> facts.binlog_format is Some) && facts.log_bin is Some,
{
    if found == Some(ServerFault::NoReplicationPrivilege) {
        let grants = text::texts(facts.grants@);
        assert forall|i: int| 0 <= i < facts.grants@.len() implies !validation::holds(
            #[trigger] facts.grants@[i]@,
            "REPLICATION"@,
        ) && !validation::holds(facts.grants@[i]@, "ALL PRIVILEGES"@) by {
            assert(grants[i] == facts.grants@[i]@);
        }
    }
}

} // verus!
