//! What the settings of the server come to.

use vstd::prelude::*;

use crate::server_app::config::{AppConfig, ConfigError, Overrides, ServerSettings};

verus! {

/// Whether a setting is the one that was said, where one was, and else the old one.
pub open spec fn says<T>(said: Option<T>, was: T, is: T) -> bool {
    &&& said is Some ==> is == said->0
    &&& said is None ==> is == was
}

/// What is said replaces the setting it is about and no other.
pub open spec fn is_changed(before: AppConfig, said: Overrides, after: AppConfig) -> bool {
    &&& says(said.bind, before.server.bind, after.server.bind)
    &&& says(
        said.pairing_ttl_seconds,
        before.server.pairing_ttl_seconds,
        after.server.pairing_ttl_seconds,
    )
    &&& says(said.max_pairings, before.server.max_pairings, after.server.max_pairings)
    &&& says(
        said.max_join_attempts,
        before.server.max_join_attempts,
        after.server.max_join_attempts,
    )
    &&& says(
        said.max_pending_messages,
        before.server.max_pending_messages,
        after.server.max_pending_messages,
    )
    &&& says(
        said.relay_max_bytes_per_session,
        before.relay.max_bytes_per_session,
        after.relay.max_bytes_per_session,
    )
    &&& says(
        said.relay_max_bytes_total,
        before.relay.max_bytes_total,
        after.relay.max_bytes_total,
    )
    &&& says(
        said.relay_max_streams_per_session,
        before.relay.max_streams_per_session,
        after.relay.max_streams_per_session,
    )
    &&& says(said.relay_buffer_size, before.relay.buffer_size, after.relay.buffer_size)
}

/// What must not be nothing is something.
pub open spec fn is_usable(config: AppConfig) -> bool {
    &&& config.server.pairing_ttl_seconds > 0
    &&& config.server.max_pairings > 0
    &&& config.server.max_join_attempts > 0
    &&& config.server.max_pending_messages > 0
    &&& config.relay.max_streams_per_session > 0
    &&& config.relay.buffer_size > 0
}

/// The environment replaces what it speaks of, and the command line what it speaks
/// of, whatever the environment said. The settings are then taken exactly if nothing
/// that is needed is missing.
pub proof fn law_command_line_has_the_last_word(
    first: &mut AppConfig,
    environment: &Overrides,
    second: &mut AppConfig,
    line: &Overrides,
    result: Result<(), ConfigError>,
)
    requires
        call_ensures(AppConfig::apply_environment, (first, environment), ()),
        *old(second) == *final(first),
        call_ensures(AppConfig::apply_cli, (second, line), result),
    ensures
        is_changed(*old(first), *environment, *final(first)),
        is_changed(*final(first), *line, *final(second)),
        line.bind is Some ==> final(second).server.bind == line.bind->0,
        line.bind is None && environment.bind is Some ==> final(second).server.bind
            == environment.bind->0,
        result is Ok <==> is_usable(*final(second)),
{
}

/// The server runs with the settings as they are, if they are usable.
pub proof fn law_server_runs_with_its_settings(
    config: &AppConfig,
    checked: Result<(), ConfigError>,
    result: Result<ServerSettings, ConfigError>,
)
    requires
        call_ensures(AppConfig::validate, (config,), checked),
        call_ensures(AppConfig::server_config, (config,), result),
    ensures
        checked is Ok <==> is_usable(*config),
        result is Ok <==> is_usable(*config),
        result is Ok ==> {
            let settings = result->Ok_0;
            &&& settings.bind == config.server.bind
            &&& settings.pairing_ttl@ == config.server.pairing_ttl_seconds * 1_000_000_000
            &&& settings.max_pairings == config.server.max_pairings
            &&& settings.max_join_attempts == config.server.max_join_attempts
            &&& settings.max_pending_messages == config.server.max_pending_messages
            &&& settings.relay == config.relay
        },
{
}

} // verus!
