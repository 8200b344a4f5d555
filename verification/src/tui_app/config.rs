//! The configuration of the client: defaults, files, the environment and the
//! command line, each overriding what comes before it.

use vstd::prelude::*;
use vstd::string::*;

use crate::duration::{Duration, NANOS_PER_MILLI};
use crate::net::{IpAddr, SocketAddr};
use crate::overriding::{replace_with, spec_or};
use crate::text::{is_word, lowered};
use crate::transfer_client::{ClientConfig, OverwritePolicy};

verus! {

/// Why a configuration cannot be used.
#[derive(Debug)]
pub enum ConfigError {
    Invalid(&'static str),
    /// There is no such way to treat files that are there already.
    UnsupportedOverwrite(String),
}

/// Where the server is, and how long to wait for it.
#[derive(Debug, Clone, Copy, PartialEq, Eq, Structural)]
pub struct ServerConfigFile {
    pub endpoint: SocketAddr,
    pub connect_timeout_ms: u64,
    pub pairing_ttl_seconds: u32,
}

impl Default for ServerConfigFile {
    fn default() -> (config: Self)
        ensures
            config == (ServerConfigFile {
                endpoint: SocketAddr::spec_new(IpAddr::V4(0x7f00_0001), 41000),
                connect_timeout_ms: 5_000,
                pairing_ttl_seconds: 600,
            }),
    {
        ServerConfigFile {
            endpoint: SocketAddr::new(IpAddr::V4(0x7f00_0001), 41000),
            connect_timeout_ms: 5_000,
            pairing_ttl_seconds: 600,
        }
    }
}

/// Where the client is, and what it is called.
#[derive(Debug, Clone)]
pub struct ClientConfigFile {
    pub bind: SocketAddr,
    pub display_name: String,
}

impl Default for ClientConfigFile {
    fn default() -> (config: Self)
        ensures
            config.bind == SocketAddr::spec_new(IpAddr::V4(0), 0),
            config.display_name@ == "udp-file-client"@,
    {
        ClientConfigFile {
            bind: SocketAddr::new(IpAddr::V4(0), 0),
            display_name: "udp-file-client".to_owned(),
        }
    }
}

/// Which paths to try.
#[derive(Debug, Clone, Copy, PartialEq, Eq, Structural)]
pub struct NetworkConfigFile {
    pub enable_direct: bool,
    pub direct_only: bool,
    pub probe_timeout_ms: u64,
    pub probe_retries: usize,
    pub max_candidates: usize,
    pub keep_relay_warm: bool,
}

impl Default for NetworkConfigFile {
    fn default() -> (config: Self)
        ensures
            config == (NetworkConfigFile {
                enable_direct: true,
                direct_only: false,
                probe_timeout_ms: 1_500,
                probe_retries: 3,
                max_candidates: 16,
                keep_relay_warm: true,
            }),
    {
        NetworkConfigFile {
            enable_direct: true,
            direct_only: false,
            probe_timeout_ms: 1_500,
            probe_retries: 3,
            max_candidates: 16,
            keep_relay_warm: true,
        }
    }
}

/// How files are transferred.
#[derive(Debug, Clone)]
pub struct TransferConfigFile {
    pub chunk_size: usize,
    pub max_parallel_files: usize,
    pub checkpoint_interval_bytes: u64,
    pub checkpoint_interval_seconds: u64,
    pub max_file_size: u64,
    pub max_total_size: u64,
    pub overwrite: String,
}

impl Default for TransferConfigFile {
    fn default() -> (config: Self)
        ensures
            config.chunk_size == 1024 * 1024,
            config.max_parallel_files == 2,
            config.checkpoint_interval_bytes == 4 * 1024 * 1024,
            config.checkpoint_interval_seconds == 2,
            config.max_file_size == 1024 * 1024 * 1024 * 1024,
            config.max_total_size == 4 * 1024 * 1024 * 1024 * 1024,
            config.overwrite@ == "ask"@,
    {
        TransferConfigFile {
            chunk_size: 1_048_576,
            max_parallel_files: 2,
            checkpoint_interval_bytes: 4_194_304,
            checkpoint_interval_seconds: 2,
            max_file_size: 1_099_511_627_776,
            max_total_size: 4_398_046_511_104,
            overwrite: "ask".to_owned(),
        }
    }
}

/// Where files are stored, and how.
#[derive(Debug, Clone)]
pub struct StorageConfigFile {
    pub download_root: String,
    pub allow_symlink: bool,
    pub sync_data: bool,
    pub sync_all: bool,
}

impl Default for StorageConfigFile {
    fn default() -> (config: Self)
        ensures
            config.download_root@ == "./downloads"@,
            !config.allow_symlink,
            config.sync_data,
            config.sync_all,
    {
        StorageConfigFile {
            download_root: "./downloads".to_owned(),
            allow_symlink: false,
            sync_data: true,
            sync_all: true,
        }
    }
}

/// How things are shown.
#[derive(Debug, Clone, Copy, PartialEq, Eq, Structural)]
pub struct UiConfigFile {
    pub color: bool,
    pub refresh_hz: u16,
}

impl Default for UiConfigFile {
    fn default() -> (config: Self)
        ensures
            config == (UiConfigFile { color: true, refresh_hz: 10 }),
    {
        UiConfigFile { color: true, refresh_hz: 10 }
    }
}

/// The configuration of the client.
#[derive(Debug, Clone)]
pub struct AppConfig {
    pub server: ServerConfigFile,
    pub client: ClientConfigFile,
    pub network: NetworkConfigFile,
    pub transfer: TransferConfigFile,
    pub storage: StorageConfigFile,
    pub ui: UiConfigFile,
}

/// What is known of a configuration of the client.
#[verifier::ext_equal]
pub struct ConfigView {
    pub server: ServerConfigFile,
    pub bind: SocketAddr,
    pub display_name: Seq<char>,
    pub network: NetworkConfigFile,
    pub chunk_size: usize,
    pub max_parallel_files: usize,
    pub checkpoint_interval_bytes: u64,
    pub checkpoint_interval_seconds: u64,
    pub max_file_size: u64,
    pub max_total_size: u64,
    pub overwrite: Seq<char>,
    pub download_root: Seq<char>,
    pub allow_symlink: bool,
    pub sync_data: bool,
    pub sync_all: bool,
    pub ui: UiConfigFile,
}

impl View for AppConfig {
    type V = ConfigView;

    open spec fn view(&self) -> ConfigView {
        ConfigView {
            server: self.server,
            bind: self.client.bind,
            display_name: self.client.display_name@,
            network: self.network,
            chunk_size: self.transfer.chunk_size,
            max_parallel_files: self.transfer.max_parallel_files,
            checkpoint_interval_bytes: self.transfer.checkpoint_interval_bytes,
            checkpoint_interval_seconds: self.transfer.checkpoint_interval_seconds,
            max_file_size: self.transfer.max_file_size,
            max_total_size: self.transfer.max_total_size,
            overwrite: self.transfer.overwrite@,
            download_root: self.storage.download_root@,
            allow_symlink: self.storage.allow_symlink,
            sync_data: self.storage.sync_data,
            sync_all: self.storage.sync_all,
            ui: self.ui,
        }
    }
}

/// What the command line says instead of the configuration.
#[derive(Debug)]
pub struct Overrides {
    pub server: Option<SocketAddr>,
    pub bind: Option<SocketAddr>,
    pub display_name: Option<String>,
    pub chunk_size: Option<usize>,
    pub max_parallel_files: Option<usize>,
    pub checkpoint_interval_bytes: Option<u64>,
    pub download_root: Option<String>,
    pub direct_only: bool,
    pub no_direct: bool,
    pub no_color: bool,
    pub refresh_hz: Option<u16>,
}

/// What the environment says instead of the configuration.
#[derive(Debug)]
pub struct Environment {
    pub endpoint: Option<SocketAddr>,
    pub pairing_ttl_seconds: Option<u32>,
    pub bind: Option<SocketAddr>,
    pub display_name: Option<String>,
    pub enable_direct: Option<bool>,
    pub direct_only: Option<bool>,
    pub probe_timeout_ms: Option<u64>,
    pub probe_retries: Option<usize>,
    pub max_candidates: Option<usize>,
    pub chunk_size: Option<usize>,
    pub max_parallel_files: Option<usize>,
    pub checkpoint_interval_bytes: Option<u64>,
    pub checkpoint_interval_seconds: Option<u64>,
    pub max_file_size: Option<u64>,
    pub max_total_size: Option<u64>,
    pub overwrite: Option<String>,
    pub download_root: Option<String>,
    pub sync_data: Option<bool>,
    pub sync_all: Option<bool>,
    pub color: Option<bool>,
    pub refresh_hz: Option<u16>,
}

/// A text that is said, or else the one that was there.
pub open spec fn text_or(said: Option<String>, there: Seq<char>) -> Seq<char> {
    match said {
        Some(said) => said@,
        None => there,
    }
}

/// The configuration with what the command line says instead.
pub open spec fn with_cli(view: ConfigView, said: Overrides) -> ConfigView {
    ConfigView {
        server: ServerConfigFile {
            endpoint: spec_or(said.server, view.server.endpoint),
            ..view.server
        },
        bind: spec_or(said.bind, view.bind),
        display_name: text_or(said.display_name, view.display_name),
        chunk_size: spec_or(said.chunk_size, view.chunk_size),
        max_parallel_files: spec_or(said.max_parallel_files, view.max_parallel_files),
        checkpoint_interval_bytes: spec_or(
            said.checkpoint_interval_bytes,
            view.checkpoint_interval_bytes,
        ),
        download_root: text_or(said.download_root, view.download_root),
        network: NetworkConfigFile {
            enable_direct: !said.no_direct && !said.direct_only && view.network.enable_direct,
            ..view.network
        },
        ui: UiConfigFile {
            color: !said.no_color && view.ui.color,
            refresh_hz: spec_or(said.refresh_hz, view.ui.refresh_hz),
        },
        ..view
    }
}

/// The configuration with what the environment says instead.
pub open spec fn with_environment(view: ConfigView, said: Environment) -> ConfigView {
    ConfigView {
        server: ServerConfigFile {
            endpoint: spec_or(said.endpoint, view.server.endpoint),
            pairing_ttl_seconds: spec_or(said.pairing_ttl_seconds, view.server.pairing_ttl_seconds),
            ..view.server
        },
        bind: spec_or(said.bind, view.bind),
        display_name: text_or(said.display_name, view.display_name),
        network: NetworkConfigFile {
            enable_direct: spec_or(said.enable_direct, view.network.enable_direct),
            direct_only: spec_or(said.direct_only, view.network.direct_only),
            probe_timeout_ms: spec_or(said.probe_timeout_ms, view.network.probe_timeout_ms),
            probe_retries: spec_or(said.probe_retries, view.network.probe_retries),
            max_candidates: spec_or(said.max_candidates, view.network.max_candidates),
            ..view.network
        },
        chunk_size: spec_or(said.chunk_size, view.chunk_size),
        max_parallel_files: spec_or(said.max_parallel_files, view.max_parallel_files),
        checkpoint_interval_bytes: spec_or(
            said.checkpoint_interval_bytes,
            view.checkpoint_interval_bytes,
        ),
        checkpoint_interval_seconds: spec_or(
            said.checkpoint_interval_seconds,
            view.checkpoint_interval_seconds,
        ),
        max_file_size: spec_or(said.max_file_size, view.max_file_size),
        max_total_size: spec_or(said.max_total_size, view.max_total_size),
        overwrite: text_or(said.overwrite, view.overwrite),
        download_root: text_or(said.download_root, view.download_root),
        sync_data: spec_or(said.sync_data, view.sync_data),
        sync_all: spec_or(said.sync_all, view.sync_all),
        ui: UiConfigFile {
            color: spec_or(said.color, view.ui.color),
            refresh_hz: spec_or(said.refresh_hz, view.ui.refresh_hz),
        },
        ..view
    }
}

/// What a word says about files that are there already, whatever its case.
pub open spec fn overwrite_of(text: Seq<char>) -> Option<OverwritePolicy> {
    let word = lowered(text);
    if word == "ask"@ {
        Some(OverwritePolicy::Ask)
    } else if word == "no-replace"@ || word == "noreplace"@ {
        Some(OverwritePolicy::NoReplace)
    } else if word == "replace"@ || word == "replace-after-confirm"@ {
        Some(OverwritePolicy::ReplaceAfterConfirm)
    } else if word == "rename"@ || word == "rename-with-suffix"@ {
        Some(OverwritePolicy::RenameWithSuffix)
    } else {
        None
    }
}

/// What a word says about files that are there already.
pub fn parse_overwrite(value: &str) -> (result: Result<OverwritePolicy, ConfigError>)
    ensures
        is_overwrite(value@, result),
{
    if is_word(value, "ask") {
        Ok(OverwritePolicy::Ask)
    } else if is_word(value, "no-replace") || is_word(value, "noreplace") {
        Ok(OverwritePolicy::NoReplace)
    } else if is_word(value, "replace") || is_word(value, "replace-after-confirm") {
        Ok(OverwritePolicy::ReplaceAfterConfirm)
    } else if is_word(value, "rename") || is_word(value, "rename-with-suffix") {
        Ok(OverwritePolicy::RenameWithSuffix)
    } else {
        Err(ConfigError::UnsupportedOverwrite(value.to_owned()))
    }
}

/// Whether the result is what a word says about files that are there already.
pub open spec fn is_overwrite(
    text: Seq<char>,
    result: Result<OverwritePolicy, ConfigError>,
) -> bool {
    match result {
        Ok(policy) => overwrite_of(text) == Some(policy),
        Err(ConfigError::UnsupportedOverwrite(value)) => overwrite_of(text) is None && value@
            == text,
        Err(_) => false,
    }
}

/// With what the client works.
#[derive(Debug)]
pub struct ClientSettings {
    pub config: ClientConfig,
    pub bind: SocketAddr,
    pub max_file_size: u64,
    pub max_total_size: u64,
}

/// What the client cannot work with, besides an unknown way to treat files that are
/// there already.
pub open spec fn config_problem(view: ConfigView) -> Option<&'static str> {
    if view.server.endpoint.spec_port() == 0 {
        Some("server.endpoint 不能使用 0 端口")
    } else if view.server.connect_timeout_ms == 0 {
        Some("server.connect_timeout_ms 必须大于 0")
    } else if view.server.pairing_ttl_seconds == 0 {
        Some("server.pairing_ttl_seconds 必须大于 0")
    } else if view.display_name.len() == 0 {
        Some("client.display_name 不能为空")
    } else if view.network.probe_timeout_ms == 0 {
        Some("network.probe_timeout_ms 必须大于 0")
    } else if view.network.max_candidates == 0 {
        Some("network.max_candidates 必须大于 0")
    } else if view.chunk_size == 0 || view.chunk_size > 1024 * 1024 {
        Some("transfer.chunk_size 必须在 1..=1048576 范围内")
    } else if view.max_parallel_files == 0 {
        Some("transfer.max_parallel_files 必须大于 0")
    } else if view.checkpoint_interval_bytes == 0 || view.checkpoint_interval_seconds == 0 {
        Some("checkpoint interval 必须大于 0")
    } else if view.max_file_size == 0 || view.max_total_size == 0 {
        Some("传输大小上限必须大于 0")
    } else if view.allow_symlink {
        Some("storage.allow_symlink=true 当前不受 transfer-client 支持；为安全起见已拒绝")
    } else if view.ui.refresh_hz == 0 {
        Some("ui.refresh_hz 必须大于 0")
    } else {
        None
    }
}

/// Whether the error says what the client cannot work with.
pub open spec fn is_problem(view: ConfigView, error: ConfigError) -> bool {
    match error {
        ConfigError::Invalid(message) => config_problem(view) == Some(message),
        ConfigError::UnsupportedOverwrite(value) => config_problem(view) is None && overwrite_of(
            view.overwrite,
        ) is None && value@ == view.overwrite,
    }
}

/// Whether the client can work with a configuration.
pub open spec fn is_usable(view: ConfigView) -> bool {
    config_problem(view) is None && overwrite_of(view.overwrite) is Some
}

impl Default for AppConfig {
    fn default() -> (config: Self)
        ensures
            config@.server == (ServerConfigFile {
                endpoint: SocketAddr::spec_new(IpAddr::V4(0x7f00_0001), 41000),
                connect_timeout_ms: 5_000,
                pairing_ttl_seconds: 600,
            }),
            config@.bind == SocketAddr::spec_new(IpAddr::V4(0), 0),
            config@.display_name == "udp-file-client"@,
            config@.network == (NetworkConfigFile {
                enable_direct: true,
                direct_only: false,
                probe_timeout_ms: 1_500,
                probe_retries: 3,
                max_candidates: 16,
                keep_relay_warm: true,
            }),
            config@.chunk_size == 1024 * 1024,
            config@.max_parallel_files == 2,
            config@.checkpoint_interval_bytes == 4 * 1024 * 1024,
            config@.checkpoint_interval_seconds == 2,
            config@.max_file_size == 1024 * 1024 * 1024 * 1024,
            config@.max_total_size == 4 * 1024 * 1024 * 1024 * 1024,
            config@.overwrite == "ask"@,
            config@.download_root == "./downloads"@,
            !config@.allow_symlink,
            config@.sync_data,
            config@.sync_all,
            config@.ui == (UiConfigFile { color: true, refresh_hz: 10 }),
    {
        AppConfig {
            server: ServerConfigFile::default(),
            client: ClientConfigFile::default(),
            network: NetworkConfigFile::default(),
            transfer: TransferConfigFile::default(),
            storage: StorageConfigFile::default(),
            ui: UiConfigFile::default(),
        }
    }
}

impl AppConfig {
    /// Takes what the environment says.
    pub fn apply_environment(&mut self, said: Environment)
        ensures
            final(self)@ == with_environment(old(self)@, said),
    {
        replace_with(&mut self.server.endpoint, said.endpoint);
        replace_with(&mut self.server.pairing_ttl_seconds, said.pairing_ttl_seconds);
        replace_with(&mut self.client.bind, said.bind);
        replace_with(&mut self.client.display_name, said.display_name);
        replace_with(&mut self.network.enable_direct, said.enable_direct);
        replace_with(&mut self.network.direct_only, said.direct_only);
        replace_with(&mut self.network.probe_timeout_ms, said.probe_timeout_ms);
        replace_with(&mut self.network.probe_retries, said.probe_retries);
        replace_with(&mut self.network.max_candidates, said.max_candidates);
        replace_with(&mut self.transfer.chunk_size, said.chunk_size);
        replace_with(&mut self.transfer.max_parallel_files, said.max_parallel_files);
        replace_with(&mut self.transfer.checkpoint_interval_bytes, said.checkpoint_interval_bytes);
        replace_with(
            &mut self.transfer.checkpoint_interval_seconds,
            said.checkpoint_interval_seconds,
        );
        replace_with(&mut self.transfer.max_file_size, said.max_file_size);
        replace_with(&mut self.transfer.max_total_size, said.max_total_size);
        replace_with(&mut self.transfer.overwrite, said.overwrite);
        replace_with(&mut self.storage.download_root, said.download_root);
        replace_with(&mut self.storage.sync_data, said.sync_data);
        replace_with(&mut self.storage.sync_all, said.sync_all);
        replace_with(&mut self.ui.color, said.color);
        replace_with(&mut self.ui.refresh_hz, said.refresh_hz);
    }

    /// Takes what the command line says, with which the client must be able to
    /// work.
    pub fn apply_cli(&mut self, said: Overrides) -> (result: Result<(), ConfigError>)
        ensures
            final(self)@ == with_cli(old(self)@, said),
            match result {
                Ok(()) => is_usable(final(self)@),
                Err(error) => is_problem(final(self)@, error),
            },
    {
        replace_with(&mut self.server.endpoint, said.server);
        replace_with(&mut self.client.bind, said.bind);
        replace_with(&mut self.client.display_name, said.display_name);
        replace_with(&mut self.transfer.chunk_size, said.chunk_size);
        replace_with(&mut self.transfer.max_parallel_files, said.max_parallel_files);
        replace_with(&mut self.transfer.checkpoint_interval_bytes, said.checkpoint_interval_bytes);
        replace_with(&mut self.storage.download_root, said.download_root);
        if said.direct_only || said.no_direct {
            self.network.enable_direct = false;
        }
        if said.no_color {
            self.ui.color = false;
        }
        replace_with(&mut self.ui.refresh_hz, said.refresh_hz);
        self.validate()
    }

    /// Whether the client can work with this, and if not, why.
    pub fn validate(&self) -> (result: Result<(), ConfigError>)
        ensures
            match result {
                Ok(()) => is_usable(self@),
                Err(error) => is_problem(self@, error),
            },
    {
        if self.server.endpoint.port() == 0 {
            return Err(ConfigError::Invalid("server.endpoint 不能使用 0 端口"));
        }
        if self.server.connect_timeout_ms == 0 {
            return Err(ConfigError::Invalid("server.connect_timeout_ms 必须大于 0"));
        }
        if self.server.pairing_ttl_seconds == 0 {
            return Err(ConfigError::Invalid("server.pairing_ttl_seconds 必须大于 0"));
        }
        if self.client.display_name.as_str().is_empty() {
            return Err(ConfigError::Invalid("client.display_name 不能为空"));
        }
        if self.network.probe_timeout_ms == 0 {
            return Err(ConfigError::Invalid("network.probe_timeout_ms 必须大于 0"));
        }
        if self.network.max_candidates == 0 {
            return Err(ConfigError::Invalid("network.max_candidates 必须大于 0"));
        }
        if self.transfer.chunk_size == 0 || self.transfer.chunk_size > 1024 * 1024 {
            return Err(ConfigError::Invalid("transfer.chunk_size 必须在 1..=1048576 范围内"));
        }
        if self.transfer.max_parallel_files == 0 {
            return Err(ConfigError::Invalid("transfer.max_parallel_files 必须大于 0"));
        }
        if self.transfer.checkpoint_interval_bytes == 0 || self.transfer.checkpoint_interval_seconds
            == 0 {
            return Err(ConfigError::Invalid("checkpoint interval 必须大于 0"));
        }
        if self.transfer.max_file_size == 0 || self.transfer.max_total_size == 0 {
            return Err(ConfigError::Invalid("传输大小上限必须大于 0"));
        }
        if self.storage.allow_symlink {
            return Err(
                ConfigError::Invalid(
                    "storage.allow_symlink=true 当前不受 transfer-client 支持；为安全起见已拒绝",
                ),
            );
        }
        if self.ui.refresh_hz == 0 {
            return Err(ConfigError::Invalid("ui.refresh_hz 必须大于 0"));
        }
        match self.overwrite_policy() {
            Ok(_) => Ok(()),
            Err(error) => Err(error),
        }
    }

    /// What to do about files that are there already.
    pub fn overwrite_policy(&self) -> (result: Result<OverwritePolicy, ConfigError>)
        ensures
            is_overwrite(self@.overwrite, result),
    {
        parse_overwrite(self.transfer.overwrite.as_str())
    }

    /// With what the client works.
    pub fn client_config(&self) -> (result: Result<ClientSettings, ConfigError>)
        ensures
            match result {
                Ok(settings) => {
                    &&& is_usable(self@)
                    &&& settings.config.server_addr == self@.server.endpoint
                    &&& settings.config.network.timeout@ == self@.network.probe_timeout_ms
                        * NANOS_PER_MILLI as nat
                    &&& settings.config.network.retries == self@.network.probe_retries
                    &&& settings.config.network.max_candidates == self@.network.max_candidates
                    &&& settings.config.enable_direct == self@.network.enable_direct
                    &&& settings.config.direct_only == self@.network.direct_only
                    &&& settings.config.max_parallel_files == self@.max_parallel_files
                    &&& settings.config.display_name@ == self@.display_name
                    &&& settings.config.chunk_size == self@.chunk_size
                    &&& settings.config.checkpoint_interval_bytes
                        == self@.checkpoint_interval_bytes
                    &&& settings.config.control_queue_capacity == 128
                    &&& settings.config.network.problem() is None
                    &&& settings.bind == self@.bind
                    &&& settings.max_file_size == self@.max_file_size
                    &&& settings.max_total_size == self@.max_total_size
                },
                Err(error) => is_problem(self@, error),
            },
    {
        match self.validate() {
            Ok(()) => {},
            Err(error) => {
                return Err(error);
            },
        }
        let mut config = ClientConfig::new(self.server.endpoint);
        config.network.timeout = Duration::from_millis(self.network.probe_timeout_ms);
        config.network.retries = self.network.probe_retries;
        config.network.max_candidates = self.network.max_candidates;
        config.enable_direct = self.network.enable_direct;
        config.direct_only = self.network.direct_only;
        config.max_parallel_files = self.transfer.max_parallel_files;
        config.display_name = self.client.display_name.clone();
        config.chunk_size = self.transfer.chunk_size;
        config.checkpoint_interval_bytes = self.transfer.checkpoint_interval_bytes;
        Ok(
            ClientSettings {
                config,
                bind: self.client.bind,
                max_file_size: self.transfer.max_file_size,
                max_total_size: self.transfer.max_total_size,
            },
        )
    }
}

/// The default configuration is one that the client can work with.
pub proof fn law_defaults_are_usable(view: ConfigView)
    requires
        view.server == (ServerConfigFile {
            endpoint: SocketAddr::spec_new(IpAddr::V4(0x7f00_0001), 41000),
            connect_timeout_ms: 5_000,
            pairing_ttl_seconds: 600,
        }),
        view.display_name == "udp-file-client"@,
        view.network == (NetworkConfigFile {
            enable_direct: true,
            direct_only: false,
            probe_timeout_ms: 1_500,
            probe_retries: 3,
            max_candidates: 16,
            keep_relay_warm: true,
        }),
        view.chunk_size == 1024 * 1024,
        view.max_parallel_files == 2,
        view.checkpoint_interval_bytes == 4 * 1024 * 1024,
        view.checkpoint_interval_seconds == 2,
        view.max_file_size == 1024 * 1024 * 1024 * 1024,
        view.max_total_size == 4 * 1024 * 1024 * 1024 * 1024,
        view.overwrite == "ask"@,
        !view.allow_symlink,
        view.ui == (UiConfigFile { color: true, refresh_hz: 10 }),
    ensures
        is_usable(view),
{
    reveal_strlit("udp-file-client");
    reveal_strlit("ask");
    assert(lowered("ask"@) =~= "ask"@);
}

} // verus!
