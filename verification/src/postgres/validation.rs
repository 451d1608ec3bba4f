//! What a PostgreSQL server must offer before anything is captured from it.
use vstd::prelude::*;
use crate::error::Error;
use crate::postgres::config::PostgresSourceConfig;
use crate::text;

verus! {

/// What a server answered about itself.
#[derive(Debug, Clone, Copy, PartialEq, Eq, Structural)]
pub struct ServerFacts {
    /// Whether the configured slot exists.
    pub slot_exists: bool,
    /// Whether the configured publication exists.
    pub publication_exists: bool,
    /// Whether the connected role may replicate.
    pub has_replication_privilege: bool,
}

/// What is left to do before capture can start.
#[derive(Debug, Clone, Copy, PartialEq, Eq, Structural)]
pub enum Preparation {
    /// Nothing.
    Ready,
    /// Create the configured slot.
    CreateSlot {
        /// Whether the slot is kept in step on standbys.
        failover: bool,
    },
}

/// What follows the name of a slot that does not exist.
pub const MISSING_SLOT_REMEDY: &'static str = "' does not exist. Its log is gone, and creating it anew would skip every change since; take a new snapshot, and set create_replication_slot_if_missing only for first-time provisioning.";

/// What is told of a slot that does not exist: its name, and the remedy.
pub open spec fn missing_slot_text(slot: Seq<char>) -> Seq<char> {
    "postgres replication slot '"@ + slot + MISSING_SLOT_REMEDY@
}

/// What is told of a publication that does not exist.
pub open spec fn missing_publication_text(publication: Seq<char>) -> Seq<char> {
    "postgres publication '"@ + publication + "' does not exist"@
}

/// Checks that a server offers what capture needs, and says what is left to do. A missing slot is
/// created only where the configuration asks for it: elsewhere its log is gone, and capture must
/// not go on as if nothing had happened.
pub fn validate_server(config: &PostgresSourceConfig, facts: &ServerFacts) -> (plan: Result<
    Preparation,
    Error,
>)
    ensures
        match plan {
            Ok(plan) => {
                &&& facts.has_replication_privilege
                &&& facts.publication_exists
                &&& facts.slot_exists || config.create_replication_slot_if_missing
                &&& plan == (if facts.slot_exists {
                    Preparation::Ready
                } else {
                    Preparation::CreateSlot { failover: config.failover_slot }
                })
            },
            Err(Error::SourceError(told)) => if !facts.has_replication_privilege {
                told@ == "postgres role lacks the REPLICATION privilege"@
            } else {
                !facts.publication_exists && told@ == missing_publication_text(
                    config.publication_name@,
                )
            },
            Err(Error::Unrecoverable(told)) => facts.has_replication_privilege
                && facts.publication_exists && !facts.slot_exists
                && !config.create_replication_slot_if_missing && told@ == missing_slot_text(
                config.replication_slot_name@,
            ),
            Err(_) => false,
        },
{
    if !facts.has_replication_privilege {
        return Err(
            Error::SourceError("postgres role lacks the REPLICATION privilege".to_owned()),
        );
    }
    if !facts.publication_exists {
        return Err(
            Error::SourceError(
                text::join3(
                    "postgres publication '",
                    config.publication_name.as_str(),
                    "' does not exist",
                ),
            ),
        );
    }
    if facts.slot_exists {
        return Ok(Preparation::Ready);
    }
    if config.create_replication_slot_if_missing {
        return Ok(Preparation::CreateSlot { failover: config.failover_slot });
    }
    Err(
        Error::Unrecoverable(
            text::join3(
                "postgres replication slot '",
                config.replication_slot_name.as_str(),
                MISSING_SLOT_REMEDY,
            ),
        ),
    )
}

} // verus!
