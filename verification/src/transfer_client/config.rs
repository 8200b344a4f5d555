//! How a client works.

use vstd::prelude::*;
use vstd::string::*;
use vstd::utf8::encode_utf8;

use crate::duration::NANOS_PER_MILLI;
use crate::net::{IpAddr, SocketAddr};
use crate::network_probe::ProbeConfig;

verus! {

/// What to do about a file that is there already.
#[derive(Debug, Clone, Copy, PartialEq, Eq, Structural)]
pub enum OverwritePolicy {
    Ask,
    NoReplace,
    ReplaceAfterConfirm,
    RenameWithSuffix,
}

/// How a client works.
#[derive(Debug, Clone)]
pub struct ClientConfig {
    pub server_addr: SocketAddr,
    pub network: ProbeConfig,
    pub enable_direct: bool,
    pub direct_only: bool,
    pub max_parallel_files: usize,
    pub display_name: String,
    pub chunk_size: usize,
    pub checkpoint_interval_bytes: u64,
    pub control_queue_capacity: usize,
}

impl ClientConfig {
    /// A client of this server that works as clients do by default.
    pub fn new(server_addr: SocketAddr) -> (config: Self)
        ensures
            config.server_addr == server_addr,
            config.network.problem() is None,
            config.network.timeout@ == 500 * NANOS_PER_MILLI as nat,
            config.network.max_candidates == 16,
            config.enable_direct,
            !config.direct_only,
            config.max_parallel_files == 1,
            config.display_name@ == "udp-file-client"@,
            config.chunk_size == 64 * 1024,
            config.checkpoint_interval_bytes == 4 * 1024 * 1024,
            config.control_queue_capacity == 128,
    {
        ClientConfig {
            server_addr,
            network: ProbeConfig::default(),
            enable_direct: true,
            direct_only: false,
            max_parallel_files: 1,
            display_name: "udp-file-client".to_owned(),
            chunk_size: 65_536,
            checkpoint_interval_bytes: 4_194_304,
            control_queue_capacity: 128,
        }
    }

    /// The first field with which a client cannot work.
    pub open spec fn problem(self, max_display_name_len: usize) -> Option<&'static str> {
        if encode_utf8(self.display_name@).len() > max_display_name_len {
            Some("display_name")
        } else if self.chunk_size == 0 || self.chunk_size > 1024 * 1024 {
            Some("chunk_size")
        } else if self.checkpoint_interval_bytes == 0 {
            Some("checkpoint_interval_bytes")
        } else if self.control_queue_capacity == 0 {
            Some("control_queue_capacity")
        } else if self.network.problem() is Some {
            Some("network probe configuration")
        } else {
            None
        }
    }

    /// Whether a client can work with this, and if not, because of which field.
    pub fn validate(&self, max_display_name_len: usize) -> (result: Result<(), &'static str>)
        ensures
            match result {
                Ok(()) => self.problem(max_display_name_len) is None,
                Err(field) => self.problem(max_display_name_len) == Some(field),
            },
    {
        if self.display_name.as_str().as_bytes().len() > max_display_name_len {
            return Err("display_name");
        }
        if self.chunk_size == 0 || self.chunk_size > 1024 * 1024 {
            return Err("chunk_size");
        }
        if self.checkpoint_interval_bytes == 0 {
            return Err("checkpoint_interval_bytes");
        }
        if self.control_queue_capacity == 0 {
            return Err("control_queue_capacity");
        }
        if self.network.validate().is_err() {
            return Err("network probe configuration");
        }
        Ok(())
    }
}

impl Default for ClientConfig {
    fn default() -> (config: Self)
        ensures
            config.server_addr == SocketAddr::spec_new(IpAddr::V4(0x7f00_0001), 41000),
            config.network.problem() is None,
            config.enable_direct,
            !config.direct_only,
            config.max_parallel_files == 1,
            config.display_name@ == "udp-file-client"@,
            config.chunk_size == 64 * 1024,
            config.checkpoint_interval_bytes == 4 * 1024 * 1024,
            config.control_queue_capacity == 128,
    {
        ClientConfig::new(SocketAddr::new(IpAddr::V4(0x7f00_0001), 41000))
    }
}

/// How a pairing is made.
#[derive(Debug, Clone, Copy, PartialEq, Eq, Structural, Default)]
pub struct PairingOptions {
    pub requested_ttl_seconds: u32,
}

/// How files are received.
#[derive(Debug, Clone)]
pub struct ReceiveOptions {
    pub root: String,
    pub overwrite_policy: OverwritePolicy,
    pub target_root_label: String,
    pub sync_data: bool,
    pub sync_all: bool,
}

impl ReceiveOptions {
    /// Receives files below this directory, as is done by default.
    pub fn new(root: String) -> (options: Self)
        ensures
            options.root == root,
            options.overwrite_policy == OverwritePolicy::Ask,
            options.target_root_label@ == "default"@,
            options.sync_data,
            options.sync_all,
    {
        ReceiveOptions {
            root,
            overwrite_policy: OverwritePolicy::Ask,
            target_root_label: "default".to_owned(),
            sync_data: true,
            sync_all: true,
        }
    }
}

/// Why an offer is refused.
#[derive(Debug, Clone, Copy, PartialEq, Eq, Structural)]
pub enum RejectReason {
    User,
    Policy,
}

impl RejectReason {
    /// The number of the reason.
    pub fn code(self) -> (code: u16)
        ensures
            code == match self {
                RejectReason::User => 1u16,
                RejectReason::Policy => 2u16,
            },
    {
        match self {
            RejectReason::User => 1,
            RejectReason::Policy => 2,
        }
    }

    /// What the other side is told.
    pub fn policy(self) -> (policy: String)
        ensures
            policy@ == match self {
                RejectReason::User => "reject:1"@,
                RejectReason::Policy => "reject:2"@,
            },
    {
        match self {
            RejectReason::User => "reject:1".to_owned(),
            RejectReason::Policy => "reject:2".to_owned(),
        }
    }
}

} // verus!
