//! Limits and addresses of one Controller process.

use vstd::prelude::*;

use crate::clock::Duration;
use crate::text::join_text;

verus! {

/// The address of a host.
#[derive(Debug, Clone, Copy, PartialEq, Eq, Structural)]
pub enum IpAddress {
    V4(u8, u8, u8, u8),
    V6(u128),
}

impl IpAddress {
    /// 127.0.0.0/8, or ::1.
    pub open spec fn loopback(self) -> bool {
        match self {
            IpAddress::V4(first, _, _, _) => first == 127,
            IpAddress::V6(bits) => bits == 1,
        }
    }

    pub fn is_loopback(&self) -> (loopback: bool)
        ensures
            loopback == self.loopback(),
    {
        match self {
            IpAddress::V4(first, _, _, _) => *first == 127,
            IpAddress::V6(bits) => *bits == 1,
        }
    }
}

/// Where a socket is bound.
#[derive(Debug, Clone, Copy, PartialEq, Eq, Structural)]
pub struct SocketAddress {
    pub ip: IpAddress,
    pub port: u16,
}

/// Resource and network limits for one Controller process.
#[derive(Debug, Clone, Copy, PartialEq, Eq)]
pub struct ControllerConfig {
    pub controller_bind: SocketAddress,
    pub mumble_bind: SocketAddress,
    pub lease_duration: Duration,
    pub empty_space_grace: Duration,
    pub max_sessions: usize,
    pub max_participants: usize,
    pub max_participants_per_session: usize,
    pub max_spaces: usize,
    pub max_observations_per_session: usize,
    pub queue_capacity: usize,
    pub grpc_max_frame_bytes: usize,
    pub max_mumble_connections: u32,
    pub allow_unauthenticated_controller_network: bool,
}

impl Default for ControllerConfig {
    fn default() -> (config: Self)
        ensures
            config.controller_bind == (SocketAddress {
                ip: IpAddress::V4(127, 0, 0, 1),
                port: 4_000,
            }),
            config.mumble_bind == (SocketAddress { ip: IpAddress::V4(0, 0, 0, 0), port: 64_738 }),
            config.lease_duration@ == 30 * 1_000_000_000,
            config.empty_space_grace@ == 30 * 1_000_000_000,
            config.max_sessions == 64,
            config.max_participants == 10_000,
            config.max_participants_per_session == 5_000,
            config.max_spaces == 1_024,
            config.max_observations_per_session == 1_024,
            config.queue_capacity == 1_024,
            config.grpc_max_frame_bytes == 4_194_304,
            config.max_mumble_connections == 100,
            !config.allow_unauthenticated_controller_network,
    {
        ControllerConfig {
            controller_bind: SocketAddress { ip: IpAddress::V4(127, 0, 0, 1), port: 4_000 },
            mumble_bind: SocketAddress { ip: IpAddress::V4(0, 0, 0, 0), port: 64_738 },
            lease_duration: Duration::from_secs(30),
            empty_space_grace: Duration::from_secs(30),
            max_sessions: 64,
            max_participants: 10_000,
            max_participants_per_session: 5_000,
            max_spaces: 1_024,
            max_observations_per_session: 1_024,
            queue_capacity: 1_024,
            grpc_max_frame_bytes: 4_194_304,
            max_mumble_connections: 100,
            allow_unauthenticated_controller_network: false,
        }
    }
}

/// The first fault of a configuration.
pub open spec fn config_fault(config: ControllerConfig) -> Result<(), ConfigError> {
    if !config.controller_bind.ip.loopback() && !config.allow_unauthenticated_controller_network {
        Err(ConfigError::UnauthenticatedNetworkBind(config.controller_bind))
    } else if config.lease_duration@ == 0 {
        Err(ConfigError::ZeroLease)
    } else if config.queue_capacity == 0 {
        Err(ConfigError::ZeroQueue)
    } else if config.max_sessions == 0 || config.max_participants == 0
        || config.max_participants_per_session == 0 || config.max_spaces == 0
        || config.max_observations_per_session == 0 || config.grpc_max_frame_bytes == 0
        || config.max_mumble_connections == 0 {
        Err(ConfigError::ZeroLimit)
    } else {
        Ok(())
    }
}

impl ControllerConfig {
    /// Rejects unsafe or unusable process configuration.
    pub fn validate(&self) -> (result: Result<(), ConfigError>)
        ensures
            result == config_fault(*self),
    {
        if !self.controller_bind.ip.is_loopback() && !self.allow_unauthenticated_controller_network {
            return Err(ConfigError::UnauthenticatedNetworkBind(self.controller_bind));
        }
        if self.lease_duration.is_zero() {
            return Err(ConfigError::ZeroLease);
        }
        if self.queue_capacity == 0 {
            return Err(ConfigError::ZeroQueue);
        }
        if self.max_sessions == 0 || self.max_participants == 0
            || self.max_participants_per_session == 0 || self.max_spaces == 0
            || self.max_observations_per_session == 0 || self.grpc_max_frame_bytes == 0
            || self.max_mumble_connections == 0 {
            return Err(ConfigError::ZeroLimit);
        }
        Ok(())
    }
}

/// A valid configuration that listens beyond the host acknowledges it.
pub proof fn a_network_bind_is_acknowledged(config: ControllerConfig)
    requires
        config_fault(config) is Ok,
    ensures
        config.controller_bind.ip.loopback() || config.allow_unauthenticated_controller_network,
{
}

/// A configuration is taken exactly where it listens on the host itself or admits to more,
/// and every span and limit is positive. An open bind is complained about first, then the
/// lease, then the queue.
pub proof fn a_configuration_is_taken_where_it_is_usable(config: ControllerConfig)
    ensures
        ({
            let local = match config.controller_bind.ip {
                IpAddress::V4(first, _, _, _) => first == 127,
                IpAddress::V6(bits) => bits == 1,
            };
            let safe = local || config.allow_unauthenticated_controller_network;
            &&& config_fault(config) is Ok <==> {
                &&& safe
                &&& config.lease_duration@ > 0
                &&& config.queue_capacity > 0
                &&& config.max_sessions > 0
                &&& config.max_participants > 0
                &&& config.max_participants_per_session > 0
                &&& config.max_spaces > 0
                &&& config.max_observations_per_session > 0
                &&& config.grpc_max_frame_bytes > 0
                &&& config.max_mumble_connections > 0
            }
            &&& !safe ==> config_fault(config) == Err::<(), ConfigError>(
                ConfigError::UnauthenticatedNetworkBind(config.controller_bind),
            )
            &&& safe && config.lease_duration@ == 0 ==> config_fault(config) == Err::<
                (),
                ConfigError,
            >(ConfigError::ZeroLease)
            &&& safe && config.lease_duration@ > 0 && config.queue_capacity == 0 ==> config_fault(
                config,
            ) == Err::<(), ConfigError>(ConfigError::ZeroQueue)
        }),
{
}

#[derive(Debug, Clone, Copy, PartialEq, Eq, Structural)]
pub enum ConfigError {
    UnauthenticatedNetworkBind(SocketAddress),
    ZeroLease,
    ZeroQueue,
    ZeroLimit,
}

impl ConfigError {
    /// The message of an error; `address` is the address that it names, as it is
    /// written.
    pub open spec fn text(self, address: Seq<char>) -> Seq<char> {
        match self {
            ConfigError::UnauthenticatedNetworkBind(_) => "controller bind "@ + address
                + " is not loopback; pass --allow-unauthenticated-controller-network to acknowledge plaintext unauthenticated access"@,
            ConfigError::ZeroLease => "controller lease duration must be positive"@,
            ConfigError::ZeroQueue => "controller queue capacity must be positive"@,
            ConfigError::ZeroLimit => "controller resource limits must be positive"@,
        }
    }

    pub fn message(&self, address: &str) -> (message: String)
        ensures
            message@ == self.text(address@),
    {
        match self {
            ConfigError::UnauthenticatedNetworkBind(_) => join_text(
                "controller bind ",
                address,
                " is not loopback; pass --allow-unauthenticated-controller-network to acknowledge plaintext unauthenticated access",
            ),
            ConfigError::ZeroLease => "controller lease duration must be positive".to_owned(),
            ConfigError::ZeroQueue => "controller queue capacity must be positive".to_owned(),
            ConfigError::ZeroLimit => "controller resource limits must be positive".to_owned(),
        }
    }
}

} // verus!
