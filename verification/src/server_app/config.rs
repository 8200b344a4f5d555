//! The configuration of the server: defaults, files, the environment and the
//! command line, each overriding what comes before it.

use vstd::prelude::*;

use crate::duration::{Duration, NANOS_PER_SEC};
use crate::net::{IpAddr, SocketAddr};
use crate::overriding::{replace_with, spec_or};

verus! {

/// Why a configuration cannot be used.
#[derive(Debug, Clone, Copy)]
pub enum ConfigError {
    Invalid(&'static str),
}

/// How the server pairs clients.
#[derive(Debug, Clone, Copy, PartialEq, Eq, Structural)]
pub struct ServerConfigFile {
    /// Where the server listens; the system picks the port if it is zero.
    pub bind: SocketAddr,
    pub pairing_ttl_seconds: u64,
    pub max_pairings: usize,
    pub max_join_attempts: usize,
    pub max_pending_messages: usize,
}

impl Default for ServerConfigFile {
    fn default() -> (config: Self)
        ensures
            config == (ServerConfigFile {
                bind: SocketAddr::spec_new(IpAddr::V4(0), 41000),
                pairing_ttl_seconds: 600,
                max_pairings: 1024,
                max_join_attempts: 8,
                max_pending_messages: 1024,
            }),
    {
        ServerConfigFile {
            bind: SocketAddr::new(IpAddr::V4(0), 41000),
            pairing_ttl_seconds: 600,
            max_pairings: 1024,
            max_join_attempts: 8,
            max_pending_messages: 1024,
        }
    }
}

/// How the server relays data.
#[derive(Debug, Clone, Copy, PartialEq, Eq, Structural)]
pub struct RelayConfigFile {
    pub max_bytes_per_session: u64,
    pub max_bytes_total: u64,
    pub max_streams_per_session: usize,
    pub buffer_size: usize,
}

/// The configuration of the server.
#[derive(Debug, Clone, Copy, PartialEq, Eq, Structural)]
pub struct AppConfig {
    pub server: ServerConfigFile,
    pub relay: RelayConfigFile,
}

/// What the environment or the command line says instead of the configuration.
#[derive(Debug, Clone, Copy, PartialEq, Eq, Structural)]
pub struct Overrides {
    pub bind: Option<SocketAddr>,
    pub pairing_ttl_seconds: Option<u64>,
    pub max_pairings: Option<usize>,
    pub max_join_attempts: Option<usize>,
    pub max_pending_messages: Option<usize>,
    pub relay_max_bytes_per_session: Option<u64>,
    pub relay_max_bytes_total: Option<u64>,
    pub relay_max_streams_per_session: Option<usize>,
    pub relay_buffer_size: Option<usize>,
}

/// With what the server works.
#[derive(Debug, Clone, Copy, PartialEq, Eq, Structural)]
pub struct ServerSettings {
    pub bind: SocketAddr,
    pub pairing_ttl: Duration,
    pub max_pairings: usize,
    pub max_join_attempts: usize,
    pub max_pending_messages: usize,
    pub relay: RelayConfigFile,
}

impl AppConfig {
    /// The default configuration, with this configuration of the relay.
    pub fn new(relay: RelayConfigFile) -> (config: Self)
        ensures
            config.relay == relay,
            config.server == (ServerConfigFile {
                bind: SocketAddr::spec_new(IpAddr::V4(0), 41000),
                pairing_ttl_seconds: 600,
                max_pairings: 1024,
                max_join_attempts: 8,
                max_pending_messages: 1024,
            }),
    {
        AppConfig { server: ServerConfigFile::default(), relay }
    }

    /// The configuration with what is said instead.
    pub open spec fn overridden(self, said: Overrides) -> AppConfig {
        AppConfig {
            server: ServerConfigFile {
                bind: spec_or(said.bind, self.server.bind),
                pairing_ttl_seconds: spec_or(
                    said.pairing_ttl_seconds,
                    self.server.pairing_ttl_seconds,
                ),
                max_pairings: spec_or(said.max_pairings, self.server.max_pairings),
                max_join_attempts: spec_or(said.max_join_attempts, self.server.max_join_attempts),
                max_pending_messages: spec_or(
                    said.max_pending_messages,
                    self.server.max_pending_messages,
                ),
            },
            relay: RelayConfigFile {
                max_bytes_per_session: spec_or(
                    said.relay_max_bytes_per_session,
                    self.relay.max_bytes_per_session,
                ),
                max_bytes_total: spec_or(said.relay_max_bytes_total, self.relay.max_bytes_total),
                max_streams_per_session: spec_or(
                    said.relay_max_streams_per_session,
                    self.relay.max_streams_per_session,
                ),
                buffer_size: spec_or(said.relay_buffer_size, self.relay.buffer_size),
            },
        }
    }

    /// Takes what the environment says.
    pub fn apply_environment(&mut self, said: &Overrides)
        ensures
            *final(self) == old(self).overridden(*said),
    {
        replace_with(&mut self.server.bind, said.bind);
        replace_with(&mut self.server.pairing_ttl_seconds, said.pairing_ttl_seconds);
        replace_with(&mut self.server.max_pairings, said.max_pairings);
        replace_with(&mut self.server.max_join_attempts, said.max_join_attempts);
        replace_with(&mut self.server.max_pending_messages, said.max_pending_messages);
        replace_with(&mut self.relay.max_bytes_per_session, said.relay_max_bytes_per_session);
        replace_with(&mut self.relay.max_bytes_total, said.relay_max_bytes_total);
        replace_with(&mut self.relay.max_streams_per_session, said.relay_max_streams_per_session);
        replace_with(&mut self.relay.buffer_size, said.relay_buffer_size);
    }

    /// Takes what the command line says, with which the server must be able to
    /// work.
    pub fn apply_cli(&mut self, said: &Overrides) -> (result: Result<(), ConfigError>)
        ensures
            *final(self) == old(self).overridden(*said),
            final(self).is_checked(result),
    {
        self.apply_environment(said);
        self.validate()
    }

    /// What the server cannot work with.
    pub open spec fn problem(self) -> Option<&'static str> {
        if self.server.pairing_ttl_seconds == 0 {
            Some("server.pairing_ttl_seconds 必须大于 0")
        } else if self.server.max_pairings == 0 {
            Some("server.max_pairings 必须大于 0")
        } else if self.server.max_join_attempts == 0 {
            Some("server.max_join_attempts 必须大于 0")
        } else if self.server.max_pending_messages == 0 {
            Some("server.max_pending_messages 必须大于 0")
        } else if self.relay.max_streams_per_session == 0 {
            Some("relay.max_streams_per_session 必须大于 0")
        } else if self.relay.buffer_size == 0 {
            Some("relay.buffer_size 必须大于 0")
        } else {
            None
        }
    }

    /// Whether the result says what the server cannot work with.
    pub open spec fn is_checked(self, result: Result<(), ConfigError>) -> bool {
        match result {
            Ok(()) => self.problem() is None,
            Err(ConfigError::Invalid(message)) => self.problem() == Some(message),
        }
    }

    /// Whether the server can work with this, and if not, why.
    pub fn validate(&self) -> (result: Result<(), ConfigError>)
        ensures
            self.is_checked(result),
    {
        if self.server.pairing_ttl_seconds == 0 {
            return Err(ConfigError::Invalid("server.pairing_ttl_seconds 必须大于 0"));
        }
        if self.server.max_pairings == 0 {
            return Err(ConfigError::Invalid("server.max_pairings 必须大于 0"));
        }
        if self.server.max_join_attempts == 0 {
            return Err(ConfigError::Invalid("server.max_join_attempts 必须大于 0"));
        }
        if self.server.max_pending_messages == 0 {
            return Err(ConfigError::Invalid("server.max_pending_messages 必须大于 0"));
        }
        if self.relay.max_streams_per_session == 0 {
            return Err(ConfigError::Invalid("relay.max_streams_per_session 必须大于 0"));
        }
        if self.relay.buffer_size == 0 {
            return Err(ConfigError::Invalid("relay.buffer_size 必须大于 0"));
        }
        Ok(())
    }

    /// With what the server works.
    pub fn server_config(&self) -> (result: Result<ServerSettings, ConfigError>)
        ensures
            match result {
                Ok(settings) => {
                    &&& self.problem() is None
                    &&& settings.bind == self.server.bind
                    &&& settings.pairing_ttl@ == self.server.pairing_ttl_seconds
                        * NANOS_PER_SEC as nat
                    &&& settings.max_pairings == self.server.max_pairings
                    &&& settings.max_join_attempts == self.server.max_join_attempts
                    &&& settings.max_pending_messages == self.server.max_pending_messages
                    &&& settings.relay == self.relay
                },
                Err(ConfigError::Invalid(message)) => self.problem() == Some(message),
            },
    {
        match self.validate() {
            Ok(()) => Ok(
                ServerSettings {
                    bind: self.server.bind,
                    pairing_ttl: Duration::from_secs(self.server.pairing_ttl_seconds),
                    max_pairings: self.server.max_pairings,
                    max_join_attempts: self.server.max_join_attempts,
                    max_pending_messages: self.server.max_pending_messages,
                    relay: self.relay,
                },
            ),
            Err(error) => Err(error),
        }
    }
}

} // verus!
