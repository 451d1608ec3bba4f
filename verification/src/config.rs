//! What the connectors' configurations share: secrets, transports, and tuning limits.
use vstd::prelude::*;
use crate::capabilities::DatabaseAuthMode;
use crate::error::Error;
use crate::text;

verus! {

/// How long the stream waits between polls, in milliseconds, where nothing else is said.
pub const STREAM_POLL_INTERVAL_MS: u64 = 50;

/// How many events one poll yields at most, where nothing else is said.
pub const MAX_EVENTS_PER_POLL: usize = 1_000;

/// The longest connection timeout, in seconds.
pub const MAX_CONN_TIMEOUT_SECS: u64 = 300;

/// The longest poll interval, in milliseconds.
pub const MAX_STREAM_POLL_INTERVAL_MS: u64 = 60_000;

/// The most events that one poll may be set to yield.
pub const MAX_EVENTS_PER_POLL_LIMIT: usize = 100_000;

/// What stands for a secret wherever a configuration is shown.
pub const REDACTED: &'static str = "***redacted***";

/// Password material: held inline, or fetched by a named callback whenever a connection is made.
#[derive(PartialEq, Eq)]
pub enum SecretString {
    /// The secret itself.
    Inline(String),
    /// The label of the callback that fetches it.
    Deferred(String),
}

impl SecretString {
    /// A secret held inline.
    pub fn new(secret: &str) -> (made: Self)
        ensures
            made matches SecretString::Inline(held) && held@ == secret@,
    {
        SecretString::Inline(secret.to_owned())
    }

    /// A secret fetched by the callback of this label.
    pub fn from_callback(label: &str) -> (made: Self)
        ensures
            made matches SecretString::Deferred(held) && held@ == label@,
    {
        SecretString::Deferred(label.to_owned())
    }

    /// Whether the secret is fetched when it is needed. Only such a one may be short-lived.
    pub fn is_deferred(&self) -> (yes: bool)
        ensures
            yes == (self is Deferred),
    {
        match self {
            SecretString::Inline(_) => false,
            SecretString::Deferred(_) => true,
        }
    }
}

impl SecretString {
    /// Whether this is what resolving the secret gives: the inline one, or what the callback of
    /// its label returns.
    pub open spec fn resolved<F: Fn(String) -> Result<String, Error>>(
        self,
        fetch: F,
        secret: Result<String, Error>,
    ) -> bool {
        match self {
            SecretString::Inline(held) => secret matches Ok(found) && found@ == held@,
            SecretString::Deferred(held) => exists|label: String|
                label@ == held@ && #[trigger] call_ensures(fetch, (label,), secret),
        }
    }

    /// The secret: the inline one, or what the callback of its label returns. Nothing is kept, so
    /// that a rotated secret is seen by the next connection.
    pub fn resolve<F: Fn(String) -> Result<String, Error>>(&self, fetch: F) -> (secret: Result<
        String,
        Error,
    >)
        requires
            forall|label: String| call_requires(fetch, (label,)),
        ensures
            self.resolved(fetch, secret),
    {
        match self {
            SecretString::Inline(held) => Ok(held.clone()),
            SecretString::Deferred(held) => {
                let label = held.clone();
                fetch(label)
            },
        }
    }
}

impl Clone for SecretString {
    fn clone(&self) -> (copy: Self)
        ensures
            match (*self, copy) {
                (SecretString::Inline(a), SecretString::Inline(b)) => a@ == b@,
                (SecretString::Deferred(a), SecretString::Deferred(b)) => a@ == b@,
                _ => false,
            },
    {
        match self {
            SecretString::Inline(held) => SecretString::Inline(held.clone()),
            SecretString::Deferred(held) => SecretString::Deferred(held.clone()),
        }
    }
}

/// How a connection is carried.
#[derive(Debug, PartialEq, Eq)]
pub enum TransportConfig {
    /// No encryption.
    Plaintext,
    /// TLS with the given trust and client material.
    Tls {
        ca_cert_path: Option<String>,
        client_cert_path: Option<String>,
        client_key_path: Option<String>,
        allow_invalid_certificates: bool,
        allow_invalid_hostnames: bool,
    },
    /// TLS with a client configuration that the embedder hands in.
    RustlsConfig,
}

impl TransportConfig {
    /// No encryption.
    pub fn plaintext() -> (transport: Self)
        ensures
            transport is Plaintext,
    {
        TransportConfig::Plaintext
    }

    /// TLS that trusts the system's roots and verifies everything.
    pub fn tls() -> (transport: Self)
        ensures
            transport == (TransportConfig::Tls {
                ca_cert_path: None,
                client_cert_path: None,
                client_key_path: None,
                allow_invalid_certificates: false,
                allow_invalid_hostnames: false,
            }),
    {
        TransportConfig::Tls {
            ca_cert_path: None,
            client_cert_path: None,
            client_key_path: None,
            allow_invalid_certificates: false,
            allow_invalid_hostnames: false,
        }
    }

    /// Whether the connection is encrypted.
    pub fn is_tls(&self) -> (yes: bool)
        ensures
            yes == !(self is Plaintext),
    {
        match self {
            TransportConfig::Plaintext => false,
            _ => true,
        }
    }

    /// Whether the transport asks for a verification to be left out.
    pub open spec fn skips_verification(self) -> bool {
        match self {
            TransportConfig::Tls { allow_invalid_certificates, allow_invalid_hostnames, .. } =>
                allow_invalid_certificates || allow_invalid_hostnames,
            _ => false,
        }
    }
}

impl Clone for TransportConfig {
    fn clone(&self) -> (copy: Self)
        ensures
            copy is Plaintext == self is Plaintext,
            copy is RustlsConfig == self is RustlsConfig,
            copy.skips_verification() == self.skips_verification(),
            match (*self, copy) {
                (
                    TransportConfig::Tls {
                        ca_cert_path: a,
                        client_cert_path: b,
                        client_key_path: c,
                        allow_invalid_certificates: d,
                        allow_invalid_hostnames: e,
                    },
                    TransportConfig::Tls {
                        ca_cert_path: x,
                        client_cert_path: y,
                        client_key_path: z,
                        allow_invalid_certificates: v,
                        allow_invalid_hostnames: w,
                    },
                ) => text::text_option(a) == text::text_option(x) && text::text_option(b)
                    == text::text_option(y) && text::text_option(c) == text::text_option(z) && d
                    == v && e == w,
                _ => true,
            },
    {
        match self {
            TransportConfig::Plaintext => TransportConfig::Plaintext,
            TransportConfig::Tls {
                ca_cert_path,
                client_cert_path,
                client_key_path,
                allow_invalid_certificates,
                allow_invalid_hostnames,
            } => TransportConfig::Tls {
                ca_cert_path: text::clone_text_option(ca_cert_path),
                client_cert_path: text::clone_text_option(client_cert_path),
                client_key_path: text::clone_text_option(client_key_path),
                allow_invalid_certificates: *allow_invalid_certificates,
                allow_invalid_hostnames: *allow_invalid_hostnames,
            },
            TransportConfig::RustlsConfig => TransportConfig::RustlsConfig,
        }
    }
}

/// What a driver needs to make a connection.
pub struct ConnectOptions {
    pub host: String,
    pub port: u16,
    pub user: String,
    pub password: String,
    pub database: String,
    pub conn_timeout_secs: u64,
}

/// Whether a text says nothing.
pub open spec fn blank(value: Seq<char>) -> bool {
    text::trimmed(value).len() == 0
}

/// Whether a text says nothing; see [`blank`].
pub fn is_blank(value: &str) -> (yes: bool)
    ensures
        yes == blank(value@),
{
    let rest = text::trim(value);
    proof {
        reveal_strlit("");
        if rest@.len() == 0 {
            assert(rest@ =~= ""@);
        }
    }
    text::same_text(rest.as_str(), "")
}

/// Whether the tuning that every connector has is in range, and short-lived tokens travel
/// encrypted only.
pub open spec fn tuned(
    conn_timeout_secs: u64,
    stream_poll_interval_ms: u64,
    max_events_per_poll: usize,
    auth_mode: DatabaseAuthMode,
    transport: TransportConfig,
) -> bool {
    &&& 1 <= conn_timeout_secs <= MAX_CONN_TIMEOUT_SECS
    &&& 1 <= stream_poll_interval_ms <= MAX_STREAM_POLL_INTERVAL_MS
    &&& 1 <= max_events_per_poll <= MAX_EVENTS_PER_POLL_LIMIT
    &&& auth_mode == DatabaseAuthMode::AwsIamToken ==> !(transport is Plaintext)
}

/// What is told of tuning that is not in range, or of a token that would travel in the clear: of
/// the first that is found.
pub open spec fn mistuned_text(
    source: Seq<char>,
    conn_timeout_secs: u64,
    stream_poll_interval_ms: u64,
    max_events_per_poll: usize,
) -> Seq<char> {
    if !(1 <= conn_timeout_secs <= MAX_CONN_TIMEOUT_SECS) {
        source + " conn_timeout_secs must be between 1 and 300"@
    } else if !(1 <= stream_poll_interval_ms <= MAX_STREAM_POLL_INTERVAL_MS) {
        source + " stream_poll_interval_ms must be between 1 and 60000"@
    } else if !(1 <= max_events_per_poll <= MAX_EVENTS_PER_POLL_LIMIT) {
        source + " max_events_per_poll must be between 1 and 100000"@
    } else {
        source + " auth_mode AwsIamToken requires TLS transport"@
    }
}

/// What is told of a field that is empty.
pub open spec fn empty_field_text(source: Seq<char>, name: Seq<char>) -> Seq<char> {
    source + " "@ + name + " must not be empty"@
}

/// Checks the tuning that every connector has; see [`tuned`].
pub fn check_tuning(
    source: &str,
    conn_timeout_secs: u64,
    stream_poll_interval_ms: u64,
    max_events_per_poll: usize,
    auth_mode: DatabaseAuthMode,
    transport: &TransportConfig,
) -> (checked: Result<(), Error>)
    ensures
        checked is Ok == tuned(
            conn_timeout_secs,
            stream_poll_interval_ms,
            max_events_per_poll,
            auth_mode,
            *transport,
        ),
        checked matches Err(error) ==> error is ConfigError && error.text() == mistuned_text(
            source@,
            conn_timeout_secs,
            stream_poll_interval_ms,
            max_events_per_poll,
        ),
{
    if conn_timeout_secs < 1 || conn_timeout_secs > MAX_CONN_TIMEOUT_SECS {
        return Err(
            Error::ConfigError(
                text::join2(source, " conn_timeout_secs must be between 1 and 300"),
            ),
        );
    }
    if stream_poll_interval_ms < 1 || stream_poll_interval_ms > MAX_STREAM_POLL_INTERVAL_MS {
        return Err(
            Error::ConfigError(
                text::join2(source, " stream_poll_interval_ms must be between 1 and 60000"),
            ),
        );
    }
    if max_events_per_poll < 1 || max_events_per_poll > MAX_EVENTS_PER_POLL_LIMIT {
        return Err(
            Error::ConfigError(
                text::join2(source, " max_events_per_poll must be between 1 and 100000"),
            ),
        );
    }
    match auth_mode {
        DatabaseAuthMode::AwsIamToken => {
            if !transport.is_tls() {
                return Err(
                    Error::ConfigError(
                        text::join2(source, " auth_mode AwsIamToken requires TLS transport"),
                    ),
                );
            }
        },
        DatabaseAuthMode::Password => {},
    }
    Ok(())
}

/// Refuses an empty field.
pub fn check_field(source: &str, name: &str, value: &str) -> (checked: Result<(), Error>)
    ensures
        checked is Ok == !blank(value@),
        checked matches Err(error) ==> error is ConfigError && error.text() == empty_field_text(
            source@,
            name@,
        ),
{
    if is_blank(value) {
        Err(Error::ConfigError(text::join2(text::join3(source, " ", name).as_str(), " must not be empty")))
    } else {
        Ok(())
    }
}

/// At least one.
pub fn at_least_one(value: u64) -> (kept: u64)
    ensures
        kept == (if value == 0 {
            1
        } else {
            value
        }),
{
    if value == 0 {
        1
    } else {
        value
    }
}

} // verus!
