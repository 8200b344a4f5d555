//! Settings of an endpoint.

use vstd::prelude::*;

use crate::net::{IpAddr, SocketAddr};
use crate::reliable_core::config::connection_config_error;
use crate::reliable_core::ConnectionConfig;
use crate::reliable_udp::error::{retry_failure, spec_retry_failure, EndpointError};
use crate::reliable_udp::retry::{all_zero, times_fit, RetryConfig, RetryError};
use crate::wire::WireLimits;

verus! {

/// Settings of an endpoint.
#[derive(Debug, Clone)]
pub struct EndpointConfig {
    pub bind_addr: SocketAddr,
    pub connection: ConnectionConfig,
    pub command_capacity: usize,
    pub accept_capacity: usize,
    pub max_connections: usize,
    pub max_send_batch: usize,
    pub retry: RetryConfig,
}

/// The first capacity that is zero.
pub open spec fn zero_capacity(config: EndpointConfig) -> Option<EndpointError> {
    if config.command_capacity == 0 {
        Some(EndpointError::InvalidCapacity { field: "command_capacity" })
    } else if config.accept_capacity == 0 {
        Some(EndpointError::InvalidCapacity { field: "accept_capacity" })
    } else if config.max_connections == 0 {
        Some(EndpointError::InvalidCapacity { field: "max_connections" })
    } else if config.max_send_batch == 0 {
        Some(EndpointError::InvalidCapacity { field: "max_send_batch" })
    } else {
        None
    }
}

/// What checking the settings of the cookies gives: where a secret had to be
/// drawn, the one that was drawn.
pub open spec fn retry_checked(
    before: RetryConfig,
    after: RetryConfig,
    result: Result<(), RetryError>,
) -> bool {
    &&& after.enabled == before.enabled
    &&& after.cookie_ttl == before.cookie_ttl
    &&& after.clock_skew == before.clock_skew
    &&& if !before.enabled {
        result is Ok && after == before
    } else if !times_fit(before) {
        result == Err::<(), RetryError>(RetryError::InvalidConfig) && after == before
    } else {
        &&& before.cookie_secret is Some ==> after == before
        &&& match after.cookie_secret {
            None => result == Err::<(), RetryError>(RetryError::RandomnessUnavailable),
            Some(secret) => result == (if all_zero(secret@) {
                Err::<(), RetryError>(RetryError::InvalidConfig)
            } else {
                Ok(())
            }),
        }
    }
}

impl EndpointConfig {
    /// The default settings, for a socket at `bind_addr`.
    pub fn new(
        bind_addr: SocketAddr,
        max_datagram_size: usize,
        limits: WireLimits,
    ) -> (config: Self)
        ensures
            config.bind_addr == bind_addr,
            config.connection.max_datagram_size == max_datagram_size,
            config.connection.limits == limits,
            config.command_capacity == 1024,
            config.accept_capacity == 64,
            config.max_connections == 1024,
            config.max_send_batch == 64,
            config.retry.enabled,
            config.retry.cookie_secret is None,
            config.retry.cookie_ttl@ == 10_000_000_000,
            config.retry.clock_skew@ == 5_000_000_000,
    {
        EndpointConfig {
            bind_addr,
            connection: ConnectionConfig::new(max_datagram_size, limits),
            command_capacity: 1024,
            accept_capacity: 64,
            max_connections: 1024,
            max_send_batch: 64,
            retry: RetryConfig::default(),
        }
    }

    /// The default settings, for any address and port.
    pub fn any(max_datagram_size: usize, limits: WireLimits) -> (config: Self)
        ensures
            config.bind_addr == (SocketAddr::V4 { ip: 0, port: 0 }),
            config.connection.max_datagram_size == max_datagram_size,
            config.connection.limits == limits,
    {
        Self::new(SocketAddr::new(IpAddr::V4(0), 0), max_datagram_size, limits)
    }

    /// Checks the settings, and draws a secret for the cookies if there is none.
    pub fn validate(&mut self) -> (result: Result<(), EndpointError>)
        ensures
            *final(self) == (EndpointConfig { retry: final(self).retry, ..*old(self) }),
            match connection_config_error(old(self).connection) {
                Some(problem) => *final(self) == *old(self) && result == Err::<(), EndpointError>(
                    EndpointError::InvalidConfig(problem),
                ),
                None => exists|checked: Result<(), RetryError>| #[trigger]
                    retry_checked(old(self).retry, final(self).retry, checked) && match checked {
                        Err(error) => result == Err::<(), EndpointError>(spec_retry_failure(error)),
                        Ok(_) => match zero_capacity(*old(self)) {
                            Some(error) => result == Err::<(), EndpointError>(error),
                            None => result is Ok,
                        },
                    },
            },
    {
        match self.connection.validate() {
            Ok(_) => {},
            Err(problem) => {
                return Err(EndpointError::InvalidConfig(problem));
            },
        }
        let checked = self.retry.prepare();
        assert(retry_checked(old(self).retry, self.retry, checked));
        match checked {
            Ok(_) => {},
            Err(error) => {
                return Err(retry_failure(error));
            },
        }
        if self.command_capacity == 0 {
            return Err(EndpointError::InvalidCapacity { field: "command_capacity" });
        }
        if self.accept_capacity == 0 {
            return Err(EndpointError::InvalidCapacity { field: "accept_capacity" });
        }
        if self.max_connections == 0 {
            return Err(EndpointError::InvalidCapacity { field: "max_connections" });
        }
        if self.max_send_batch == 0 {
            return Err(EndpointError::InvalidCapacity { field: "max_send_batch" });
        }
        Ok(())
    }
}

} // verus!
