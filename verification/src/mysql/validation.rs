//! What a MySQL server must offer before anything is captured from it.
use vstd::prelude::*;
use crate::error::Error;
use crate::mysql::config::MysqlSourceConfig;
use crate::text;

verus! {

/// What a server answered about itself.
#[derive(Debug, PartialEq, Eq)]
pub struct ServerFacts {
    /// The value of the GTID mode; only asked where the configuration wants it.
    pub gtid_mode: Option<String>,
    /// The log format; only asked where the configuration wants it checked.
    pub binlog_format: Option<String>,
    /// The grants of the connected user.
    pub grants: Vec<String>,
    /// Whether the log is written at all.
    pub log_bin: Option<u8>,
    /// `None` where the server has no such variable.
    pub binlog_row_metadata: Option<String>,
    /// `None` where the server has no such variable.
    pub binlog_row_image: Option<String>,
    /// `None` where the server has no such variable.
    pub binlog_row_value_options: Option<String>,
}

/// Whether a setting has a value, in any case.
pub open spec fn set_to(setting: Option<Seq<char>>, value: Seq<char>) -> bool {
    match setting {
        Some(found) => text::folded(found) == text::folded(value),
        None => false,
    }
}

/// Whether a setting, where the server has it, has another value.
pub open spec fn set_otherwise(setting: Option<Seq<char>>, value: Seq<char>) -> bool {
    setting is Some && !set_to(setting, value)
}

/// Whether a text holds another, in any case.
pub open spec fn holds(whole: Seq<char>, part: Seq<char>) -> bool {
    exists|at: int|
        0 <= at && at + part.len() <= whole.len() && #[trigger] text::folded(whole).subrange(
            at,
            at + part.len(),
        ) == text::folded(part)
}

/// Whether one of a user's grants lets it replicate.
pub open spec fn may_replicate(grants: Seq<Seq<char>>) -> bool {
    exists|i: int|
        0 <= i < grants.len() && (holds(#[trigger] grants[i], "REPLICATION"@) || holds(
            grants[i],
            "ALL PRIVILEGES"@,
        ))
}

/// What is wrong with a server.
#[derive(Debug, Clone, Copy, PartialEq, Eq, Structural)]
pub enum ServerFault {
    /// The configuration wants GTID mode and the server has it off.
    GtidModeOff,
    /// The log does not hold rows.
    BinlogFormat,
    /// The user may not replicate.
    NoReplicationPrivilege,
    /// No log is written.
    BinlogDisabled,
    /// The log does not carry column names and keys.
    RowMetadata,
    /// The log carries partial rows.
    RowImage,
    /// The log carries changes of JSON values in place of values.
    RowValueOptions,
}

/// The first thing that is wrong with a server. A variable that the server does not have is not
/// held against it.
pub open spec fn fault(
    gtid_mode_enabled: bool,
    binlog_format_check: bool,
    facts: ServerFacts,
) -> Option<ServerFault> {
    if gtid_mode_enabled && !set_to(text::text_option(facts.gtid_mode), "ON"@) {
        Some(ServerFault::GtidModeOff)
    } else if binlog_format_check && !set_to(text::text_option(facts.binlog_format), "ROW"@) {
        Some(ServerFault::BinlogFormat)
    } else if !may_replicate(text::texts(facts.grants@)) {
        Some(ServerFault::NoReplicationPrivilege)
    } else if facts.log_bin is None || facts.log_bin == Some(0u8) {
        Some(ServerFault::BinlogDisabled)
    } else if set_otherwise(text::text_option(facts.binlog_row_metadata), "FULL"@) {
        Some(ServerFault::RowMetadata)
    } else if set_otherwise(text::text_option(facts.binlog_row_image), "FULL"@) {
        Some(ServerFault::RowImage)
    } else {
        match facts.binlog_row_value_options {
            Some(options) if text::trimmed(options@).len() > 0 => Some(
                ServerFault::RowValueOptions,
            ),
            _ => None,
        }
    }
}

fn is_set_to(setting: &Option<String>, value: &str) -> (yes: bool)
    ensures
        yes == set_to(text::text_option(*setting), value@),
{
    match setting {
        Some(found) => text::same_folded(found.as_str(), value),
        None => false,
    }
}

fn text_holds(whole: &str, part: &str) -> (yes: bool)
    ensures
        yes == holds(whole@, part@),
{
    let chars = text::fold_chars(whole);
    let wanted = text::fold_chars(part);
    let size = chars.len();
    let width = wanted.len();
    if width > size {
        return false;
    }
    let mut at: usize = 0;
    while at <= size - width
        invariant
            size == chars@.len(),
            width == wanted@.len(),
            width <= size,
            at <= size - width + 1,
            chars@ == text::folded(whole@),
            wanted@ == text::folded(part@),
            whole@.len() == size,
            part@.len() == width,
            forall|k: int|
                0 <= k < at ==> #[trigger] text::folded(whole@).subrange(k, k + part@.len())
                    != text::folded(part@),
        decreases size - width + 1 - at,
    {
        let mut n: usize = 0;
        while n < width && chars[at + n] == wanted[n]
            invariant
                size == chars@.len(),
                width == wanted@.len(),
                n <= width,
                at + width <= size,
                forall|k: int| 0 <= k < n ==> chars@[at + k] == #[trigger] wanted@[k],
            decreases width - n,
        {
            n = n + 1;
        }
        if n == width {
            proof {
                assert(text::folded(whole@).subrange(at as int, at + part@.len())
                    =~= text::folded(part@));
            }
            return true;
        }
        proof {
            assert(text::folded(whole@).subrange(at as int, at + part@.len())[n as int]
                != text::folded(part@)[n as int]);
        }
        at = at + 1;
    }
    false
}

/// Whether one of a user's grants lets it replicate; see [`may_replicate`].
pub fn grants_replication(grants: &Vec<String>) -> (yes: bool)
    ensures
        yes == may_replicate(text::texts(grants@)),
{
    let ghost list = text::texts(grants@);
    let mut i: usize = 0;
    while i < grants.len()
        invariant
            i <= grants@.len(),
            list == text::texts(grants@),
            forall|k: int|
                0 <= k < i ==> !holds(#[trigger] list[k], "REPLICATION"@) && !holds(
                    list[k],
                    "ALL PRIVILEGES"@,
                ),
        decreases grants.len() - i,
    {
        proof {
            assert(list[i as int] == grants@[i as int]@);
        }
        if text_holds(grants[i].as_str(), "REPLICATION") || text_holds(
            grants[i].as_str(),
            "ALL PRIVILEGES",
        ) {
            return true;
        }
        i = i + 1;
    }
    false
}

/// The first thing that is wrong with a server; see [`fault`].
pub fn find_fault(config: &MysqlSourceConfig, facts: &ServerFacts) -> (found: Option<ServerFault>)
    ensures
        found == fault(config.gtid_mode_enabled, config.binlog_format_check, *facts),
{
    if config.gtid_mode_enabled && !is_set_to(&facts.gtid_mode, "ON") {
        return Some(ServerFault::GtidModeOff);
    }
    if config.binlog_format_check && !is_set_to(&facts.binlog_format, "ROW") {
        return Some(ServerFault::BinlogFormat);
    }
    if !grants_replication(&facts.grants) {
        return Some(ServerFault::NoReplicationPrivilege);
    }
    match facts.log_bin {
        None => {
            return Some(ServerFault::BinlogDisabled);
        },
        Some(value) => {
            if value == 0 {
                return Some(ServerFault::BinlogDisabled);
            }
        },
    }
    if facts.binlog_row_metadata.is_some() && !is_set_to(&facts.binlog_row_metadata, "FULL") {
        return Some(ServerFault::RowMetadata);
    }
    if facts.binlog_row_image.is_some() && !is_set_to(&facts.binlog_row_image, "FULL") {
        return Some(ServerFault::RowImage);
    }
    match &facts.binlog_row_value_options {
        Some(options) => {
            let rest = text::trim(options.as_str());
            proof {
                reveal_strlit("");
                if rest@.len() == 0 {
                    assert(rest@ =~= ""@);
                }
            }
            if !text::same_text(rest.as_str(), "") {
                return Some(ServerFault::RowValueOptions);
            }
        },
        None => {},
    }
    None
}

/// What follows the unsuitable value of `binlog_row_metadata`.
pub const ROW_METADATA_REMEDY: &'static str = "' but rustcdc requires 'FULL'. Anything less omits column names and primary-key flags from the binlog, so streamed events would carry positional placeholder keys ('@0', '@1', …) instead of real column names, and no primary key — which additionally disables snapshot/stream duplicate suppression and incremental-snapshot override suppression. Neither default is suitable: MySQL 8 defaults to MINIMAL, MariaDB to NO_LOG. Fix: SET GLOBAL binlog_row_metadata = FULL (and add binlog_row_metadata=FULL to my.cnf / server config so it survives a restart). Note this only affects binlog events written after the change, so existing binlog content keeps the old encoding.";

/// What follows the unsuitable value of `binlog_row_image`.
pub const ROW_IMAGE_REMEDY: &'static str = "' but rustcdc requires 'FULL'. With MINIMAL or NOBLOB the binlog records only a subset of columns, so UPDATE after-images would be emitted as if complete while silently missing columns — a consumer performing an upsert would erase them. Fix: SET GLOBAL binlog_row_image = FULL (and persist it in my.cnf).";

/// What follows the unsuitable value of `binlog_row_value_options`.
pub const ROW_VALUE_OPTIONS_REMEDY: &'static str = "' but rustcdc requires it to be empty. PARTIAL_JSON makes the server write JSON diffs instead of complete JSON values; rustcdc cannot apply those diffs, and the resulting decode failure recurs on every restart because it happens before the checkpoint advances — stalling the pipeline permanently. Fix: SET GLOBAL binlog_row_value_options = '' (and persist it in my.cnf).";

/// What a setting says, nothing where the server does not have it.
pub open spec fn said(setting: Option<String>) -> Seq<char> {
    match setting {
        Some(found) => found@,
        None => Seq::empty(),
    }
}

/// What is told of a fault: what is wrong, with the value that was found, and the remedy.
pub open spec fn fault_text(found: ServerFault, facts: ServerFacts) -> Seq<char> {
    match found {
        ServerFault::GtidModeOff => "mysql GTID mode is required but not enabled"@,
        ServerFault::BinlogFormat => "mysql binlog_format must be ROW for CDC"@,
        ServerFault::NoReplicationPrivilege => "mysql user lacks REPLICATION privilege"@,
        ServerFault::BinlogDisabled => "mysql binary logging is disabled (log_bin=OFF)"@,
        ServerFault::RowMetadata => "binlog_row_metadata is '"@ + said(facts.binlog_row_metadata)
            + ROW_METADATA_REMEDY@,
        ServerFault::RowImage => "mysql binlog_row_image is '"@ + said(facts.binlog_row_image)
            + ROW_IMAGE_REMEDY@,
        ServerFault::RowValueOptions => "mysql binlog_row_value_options is '"@ + said(
            facts.binlog_row_value_options,
        ) + ROW_VALUE_OPTIONS_REMEDY@,
    }
}

fn setting_text(setting: &Option<String>) -> (value: String)
    ensures
        value@ == said(*setting),
{
    match setting {
        Some(found) => found.clone(),
        None => {
            let none = String::new();
            proof {
                assert(none@ =~= Seq::<char>::empty());
            }
            none
        },
    }
}

/// Checks that a server offers what capture needs. Each unsuitable value would make capture
/// silently wrong, so that each is refused with a remedy.
pub fn validate_server(config: &MysqlSourceConfig, facts: &ServerFacts) -> (checked: Result<
    (),
    Error,
>)
    ensures
        match fault(config.gtid_mode_enabled, config.binlog_format_check, *facts) {
            None => checked is Ok,
            Some(found) => checked matches Err(error) && error is SourceError && error.text()
                == fault_text(found, *facts),
        },
{
    match find_fault(config, facts) {
        None => Ok(()),
        Some(found) => {
            let message = match found {
                ServerFault::GtidModeOff => "mysql GTID mode is required but not enabled".to_owned(),
                ServerFault::BinlogFormat => "mysql binlog_format must be ROW for CDC".to_owned(),
                ServerFault::NoReplicationPrivilege =>
                    "mysql user lacks REPLICATION privilege".to_owned(),
                ServerFault::BinlogDisabled =>
                    "mysql binary logging is disabled (log_bin=OFF)".to_owned(),
                ServerFault::RowMetadata => text::join3(
                    "binlog_row_metadata is '",
                    setting_text(&facts.binlog_row_metadata).as_str(),
                    ROW_METADATA_REMEDY,
                ),
                ServerFault::RowImage => text::join3(
                    "mysql binlog_row_image is '",
                    setting_text(&facts.binlog_row_image).as_str(),
                    ROW_IMAGE_REMEDY,
                ),
                ServerFault::RowValueOptions => text::join3(
                    "mysql binlog_row_value_options is '",
                    setting_text(&facts.binlog_row_value_options).as_str(),
                    ROW_VALUE_OPTIONS_REMEDY,
                ),
            };
            Err(Error::SourceError(message))
        },
    }
}

/// A server is found suitable exactly when nothing that capture needs is missing, in whatever
/// order the needs are looked at.
pub proof fn suitable_server_meets_every_need(
    gtid_mode_enabled: bool,
    binlog_format_check: bool,
    facts: ServerFacts,
)
    ensures
        fault(gtid_mode_enabled, binlog_format_check, facts) is None <==> {
            &&& gtid_mode_enabled ==> set_to(text::text_option(facts.gtid_mode), "ON"@)
            &&& binlog_format_check ==> set_to(text::text_option(facts.binlog_format), "ROW"@)
            &&& may_replicate(text::texts(facts.grants@))
            &&& facts.log_bin matches Some(value) && value != 0
            &&& !set_otherwise(text::text_option(facts.binlog_row_metadata), "FULL"@)
            &&& !set_otherwise(text::text_option(facts.binlog_row_image), "FULL"@)
            &&& facts.binlog_row_value_options matches Some(options) ==> text::trimmed(
                options@,
            ).len() == 0
        },
{
}

} // verus!
