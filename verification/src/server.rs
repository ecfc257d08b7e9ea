//! What is settled before the server starts.

use vstd::prelude::*;

use crate::config::{config_fault, ConfigError, ControllerConfig};
use crate::metrics::MetricsOutput;
use crate::text::join_text;

verus! {

/// Why the server did not start. What failed outside is told in words.
#[derive(Debug, PartialEq, Eq)]
pub enum ServerStartError {
    Config(ConfigError),
    MumbleBind(String),
    ControllerBind(String),
    ControllerAddress(String),
    Actor(String),
    ZeroMetricsInterval,
}

impl ServerStartError {
    /// The message of an error, given the one of its configuration error.
    pub open spec fn text(self, config: Seq<char>) -> Seq<char> {
        match self {
            ServerStartError::Config(_) => config,
            ServerStartError::MumbleBind(reason) => "binding the Mumble listener failed: "@
                + reason@,
            ServerStartError::ControllerBind(reason) => "binding the Controller listener failed: "@
                + reason@,
            ServerStartError::ControllerAddress(reason) =>
                "reading the bound Controller address failed: "@ + reason@,
            ServerStartError::Actor(reason) => reason@,
            ServerStartError::ZeroMetricsInterval => "metrics interval must be positive"@,
        }
    }

    /// The message of this error; `config` is the one of its configuration error.
    pub fn message(&self, config: &str) -> (message: String)
        ensures
            message@ == self.text(config@),
    {
        proof {
            reveal_strlit("");
        }
        let message = match self {
            ServerStartError::Config(_) => config.to_owned(),
            ServerStartError::MumbleBind(reason) => join_text(
                "binding the Mumble listener failed: ",
                reason.as_str(),
                "",
            ),
            ServerStartError::ControllerBind(reason) => join_text(
                "binding the Controller listener failed: ",
                reason.as_str(),
                "",
            ),
            ServerStartError::ControllerAddress(reason) => join_text(
                "reading the bound Controller address failed: ",
                reason.as_str(),
                "",
            ),
            ServerStartError::Actor(reason) => reason.clone(),
            ServerStartError::ZeroMetricsInterval => "metrics interval must be positive".to_owned(),
        };
        assert(message@ =~= self.text(config@));
        message
    }
}

/// Why a server may not start, before anything is bound.
pub open spec fn start_fault(config: ControllerConfig, metrics: Option<MetricsOutput>) -> Option<
    ServerStartError,
> {
    match config_fault(config) {
        Err(error) => Some(ServerStartError::Config(error)),
        Ok(()) => match metrics {
            Some(output) if output.interval@ == 0 => Some(ServerStartError::ZeroMetricsInterval),
            _ => None,
        },
    }
}

/// Whether a server may start: its configuration is valid, and its metrics, if
/// they are written, come at a positive interval.
pub fn check_start(config: &ControllerConfig, metrics: &Option<MetricsOutput>) -> (result: Result<
    (),
    ServerStartError,
>)
    ensures
        match start_fault(*config, *metrics) {
            None => result is Ok,
            Some(fault) => result == Err::<(), ServerStartError>(fault),
        },
{
    if let Err(error) = config.validate() {
        return Err(ServerStartError::Config(error));
    }
    if let Some(output) = metrics {
        if output.interval.is_zero() {
            return Err(ServerStartError::ZeroMetricsInterval);
        }
    }
    Ok(())
}

/// Where the server's certificate comes from.
#[derive(Debug, Clone, Copy, PartialEq, Eq, Structural)]
pub enum IdentitySource {
    /// Made at start, for development.
    SelfSigned,
    /// The certificate and the key of two files.
    Files,
}

/// Why a certificate cannot be had.
#[derive(Debug, Clone, Copy, PartialEq, Eq, Structural)]
pub enum IdentityError {
    Conflicting,
    Missing,
}

impl IdentityError {
    pub open spec fn text(self) -> Seq<char> {
        match self {
            IdentityError::Conflicting =>
                "--dev-self-signed cannot be combined with certificate files"@,
            IdentityError::Missing =>
                "provide --mumble-cert and --mumble-key, or explicitly use --dev-self-signed"@,
        }
    }

    pub fn message(&self) -> (message: String)
        ensures
            message@ == self.text(),
    {
        match self {
            IdentityError::Conflicting =>
                "--dev-self-signed cannot be combined with certificate files".to_owned(),
            IdentityError::Missing =>
                "provide --mumble-cert and --mumble-key, or explicitly use --dev-self-signed".to_owned(),
        }
    }
}

/// Where the certificate comes from: a made one must be asked for, and excludes
/// files; files come in pairs.
pub fn identity_source(self_signed: bool, certificate: bool, key: bool) -> (source: Result<
    IdentitySource,
    IdentityError,
>)
    ensures
        source is Ok <==> (self_signed && !certificate && !key) || (!self_signed && certificate
            && key),
        source matches Ok(found) ==> (found == IdentitySource::SelfSigned <==> self_signed),
        source matches Err(error) ==> (error == IdentityError::Conflicting <==> self_signed),
{
    if self_signed {
        if certificate || key {
            Err(IdentityError::Conflicting)
        } else {
            Ok(IdentitySource::SelfSigned)
        }
    } else if certificate && key {
        Ok(IdentitySource::Files)
    } else {
        Err(IdentityError::Missing)
    }
}

/// A server that may start has a positive metrics interval, if it has any.
pub proof fn a_metrics_interval_is_positive(config: ControllerConfig, metrics: Option<MetricsOutput>)
    requires
        start_fault(config, metrics) is None,
    ensures
        metrics matches Some(output) ==> output.interval@ > 0,
{
}

/// A server starts exactly where its configuration is usable and its metrics, if it has
/// any, come at an interval. A configuration is complained about first.
pub proof fn a_server_starts_where_all_is_settled(
    config: ControllerConfig,
    metrics: Option<MetricsOutput>,
)
    ensures
        start_fault(config, metrics) is None <==> config_fault(config) is Ok && (
        metrics matches Some(output) ==> output.interval@ > 0),
        config_fault(config) matches Err(error) ==> start_fault(config, metrics) == Some(
            ServerStartError::Config(error),
        ),
{
}

} // verus!
