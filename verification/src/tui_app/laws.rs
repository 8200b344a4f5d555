//! What the settings, the commands and the screens of the client come to.

use vstd::prelude::*;

use crate::duration::Duration;
use crate::net::SocketAddr;
use crate::network_probe::candidate::PathKind;
use crate::server_app::laws::says;
use crate::text::{decimal_text, hex_text, lowered, lowered_char};
use crate::transfer_client::config::OverwritePolicy;
use crate::transfer_client::manifest::FileId;
use crate::transfer_client::messages::{TransferEvent, TransferSummary};
use crate::tui_app::cli::{
    answer, answer_or, check_resume_choice, confirm, dispatch, overwrite_from_arg,
    receive_questions, send_ttl, CliError, Command, OverwriteArg, ReceiveArgs, ReceiveQuestions,
    SendArgs,
};
use crate::tui_app::config::{
    parse_overwrite, AppConfig, ClientSettings, ConfigError, Environment, Overrides,
};
use crate::tui_app::ui::{
    cancels, home_action, json_summary, kind_name, progress_at, refresh_duration, spec_kind_name,
    stored, FileProgress, HomeAction, Key, ResumeAction, ResumeScreen, TransferView,
};

verus! {

/// What the command line says replaces the setting it is about and no other. Asked to
/// send through the relay, or to try no direct path, the client offers no direct
/// addresses; asked for no colour, it shows none.
pub proof fn law_command_line_replaces_settings(
    config: &mut AppConfig,
    said: Overrides,
    result: Result<(), ConfigError>,
)
    requires
        call_ensures(AppConfig::apply_cli, (config, said), result),
    ensures
        ({
            let before = old(config)@;
            let after = final(config)@;
            &&& says(said.server, before.server.endpoint, after.server.endpoint)
            &&& says(said.bind, before.bind, after.bind)
            &&& said.display_name is Some ==> after.display_name == said.display_name->0@
            &&& said.display_name is None ==> after.display_name == before.display_name
            &&& says(said.chunk_size, before.chunk_size, after.chunk_size)
            &&& says(said.max_parallel_files, before.max_parallel_files, after.max_parallel_files)
            &&& says(
                said.checkpoint_interval_bytes,
                before.checkpoint_interval_bytes,
                after.checkpoint_interval_bytes,
            )
            &&& said.download_root is Some ==> after.download_root == said.download_root->0@
            &&& said.download_root is None ==> after.download_root == before.download_root
            &&& said.no_direct || said.direct_only ==> !after.network.enable_direct
            &&& !said.no_direct && !said.direct_only ==> after.network == before.network
            &&& said.no_color ==> !after.ui.color
            &&& !said.no_color ==> after.ui.color == before.ui.color
            &&& says(said.refresh_hz, before.ui.refresh_hz, after.ui.refresh_hz)
            &&& after.overwrite == before.overwrite
            &&& after.max_file_size == before.max_file_size
            &&& after.max_total_size == before.max_total_size
            &&& after.server.connect_timeout_ms == before.server.connect_timeout_ms
            &&& after.allow_symlink == before.allow_symlink
        }),
{
}

/// What the environment says replaces the setting it is about and no other.
pub proof fn law_environment_replaces_settings(config: &mut AppConfig, said: Environment)
    requires
        call_ensures(AppConfig::apply_environment, (config, said), ()),
    ensures
        ({
            let before = old(config)@;
            let after = final(config)@;
            &&& says(said.endpoint, before.server.endpoint, after.server.endpoint)
            &&& says(
                said.pairing_ttl_seconds,
                before.server.pairing_ttl_seconds,
                after.server.pairing_ttl_seconds,
            )
            &&& says(said.bind, before.bind, after.bind)
            &&& says(
                said.enable_direct,
                before.network.enable_direct,
                after.network.enable_direct,
            )
            &&& says(said.direct_only, before.network.direct_only, after.network.direct_only)
            &&& says(
                said.probe_timeout_ms,
                before.network.probe_timeout_ms,
                after.network.probe_timeout_ms,
            )
            &&& says(said.probe_retries, before.network.probe_retries, after.network.probe_retries)
            &&& says(
                said.max_candidates,
                before.network.max_candidates,
                after.network.max_candidates,
            )
            &&& says(said.chunk_size, before.chunk_size, after.chunk_size)
            &&& says(said.max_parallel_files, before.max_parallel_files, after.max_parallel_files)
            &&& says(
                said.checkpoint_interval_bytes,
                before.checkpoint_interval_bytes,
                after.checkpoint_interval_bytes,
            )
            &&& says(
                said.checkpoint_interval_seconds,
                before.checkpoint_interval_seconds,
                after.checkpoint_interval_seconds,
            )
            &&& says(said.max_file_size, before.max_file_size, after.max_file_size)
            &&& says(said.max_total_size, before.max_total_size, after.max_total_size)
            &&& said.overwrite is Some ==> after.overwrite == said.overwrite->0@
            &&& said.overwrite is None ==> after.overwrite == before.overwrite
            &&& says(said.sync_data, before.sync_data, after.sync_data)
            &&& says(said.sync_all, before.sync_all, after.sync_all)
            &&& says(said.color, before.ui.color, after.ui.color)
            &&& says(said.refresh_hz, before.ui.refresh_hz, after.ui.refresh_hz)
            &&& after.allow_symlink == before.allow_symlink
        }),
{
}

/// Settings are taken exactly if the server can be reached at its port, everything
/// that must not be nothing is something, pieces hold at most a mebibyte, links are
/// not followed, and the word for what to do about files that are there is known.
pub proof fn law_usable_app_settings_are_taken(
    config: &AppConfig,
    port: u16,
    policy: Result<OverwritePolicy, ConfigError>,
    checked: Result<(), ConfigError>,
    result: Result<ClientSettings, ConfigError>,
)
    requires
        call_ensures(SocketAddr::port, (config@.server.endpoint,), port),
        call_ensures(AppConfig::overwrite_policy, (config,), policy),
        call_ensures(AppConfig::validate, (config,), checked),
        call_ensures(AppConfig::client_config, (config,), result),
    ensures
        checked is Ok <==> {
            &&& port != 0
            &&& config@.server.connect_timeout_ms > 0
            &&& config@.server.pairing_ttl_seconds > 0
            &&& config@.display_name.len() > 0
            &&& config@.network.probe_timeout_ms > 0
            &&& config@.network.max_candidates > 0
            &&& 1 <= config@.chunk_size <= 1_048_576
            &&& config@.max_parallel_files > 0
            &&& config@.checkpoint_interval_bytes > 0
            &&& config@.checkpoint_interval_seconds > 0
            &&& config@.max_file_size > 0
            &&& config@.max_total_size > 0
            &&& !config@.allow_symlink
            &&& config@.ui.refresh_hz > 0
            &&& policy is Ok
        },
        result is Ok <==> checked is Ok,
        result is Ok ==> {
            let settings = result->Ok_0;
            &&& settings.config.server_addr == config@.server.endpoint
            &&& settings.bind == config@.bind
            &&& settings.config.network.timeout@ == config@.network.probe_timeout_ms * 1_000_000
            &&& settings.config.network.retries == config@.network.probe_retries
            &&& settings.config.network.max_candidates == config@.network.max_candidates
            &&& settings.config.enable_direct == config@.network.enable_direct
            &&& settings.config.direct_only == config@.network.direct_only
            &&& settings.config.max_parallel_files == config@.max_parallel_files
            &&& settings.config.display_name@ == config@.display_name
            &&& settings.config.chunk_size == config@.chunk_size
            &&& settings.config.checkpoint_interval_bytes == config@.checkpoint_interval_bytes
            &&& settings.max_file_size == config@.max_file_size
            &&& settings.max_total_size == config@.max_total_size
        },
{
}

/// Upper and lower case make no difference to the word for what to do about files
/// that are there.
pub proof fn law_case_makes_no_difference(
    word: &str,
    other: &str,
    policy: Result<OverwritePolicy, ConfigError>,
    other_policy: Result<OverwritePolicy, ConfigError>,
)
    requires
        word@.len() == other@.len(),
        forall|i: int|
            0 <= i < word@.len() ==> {
                let c = #[trigger] word@[i];
                let d = other@[i];
                c == d || ('A' <= c <= 'Z' && d as int == c as int + 32) || ('a' <= c <= 'z'
                    && d as int == c as int - 32)
            },
        call_ensures(parse_overwrite, (word,), policy),
        call_ensures(parse_overwrite, (other,), other_policy),
    ensures
        policy is Ok <==> other_policy is Ok,
        policy is Ok ==> policy->Ok_0 == other_policy->Ok_0,
{
    assert forall|i: int| 0 <= i < word@.len() implies lowered_char(#[trigger] word@[i])
        == lowered_char(other@[i]) by {
    }
    assert(lowered(word@) =~= lowered(other@));
}

/// Without questions there must be a command, a code to receive with, and something
/// to send.
pub proof fn law_nothing_is_asked_without_questions(
    command: Option<Command>,
    non_interactive: bool,
    dispatched: Result<Option<Command>, CliError>,
    args: &ReceiveArgs,
    questions: Result<ReceiveQuestions, CliError>,
)
    requires
        call_ensures(dispatch, (command, non_interactive), dispatched),
        call_ensures(receive_questions, (args, non_interactive), questions),
    ensures
        dispatched is Err <==> command is None && non_interactive,
        dispatched is Ok ==> dispatched->Ok_0 == command,
        questions is Err <==> args.code is None && non_interactive,
        questions is Ok ==> {
            &&& questions->Ok_0.code <==> args.code is None
            &&& non_interactive ==> !questions->Ok_0.code && !questions->Ok_0.root
                && !questions->Ok_0.accept
            &&& args.output is Some ==> !questions->Ok_0.root
            &&& args.accept ==> !questions->Ok_0.accept
            &&& !non_interactive && args.output is None ==> questions->Ok_0.root
            &&& !non_interactive && !args.accept ==> questions->Ok_0.accept
        },
{
}

/// What is sent must be named; the time that is said goes before the one that is set.
pub proof fn law_said_time_goes_first(
    args: &SendArgs,
    configured: u32,
    result: Result<u32, CliError>,
)
    requires
        call_ensures(send_ttl, (args, configured), result),
    ensures
        result is Err <==> args.sources@.len() == 0,
        result is Ok ==> says(args.pairing_ttl_seconds, configured, result->Ok_0),
{
}

/// Each way to deal with files that are there is its own policy.
pub proof fn law_policies_are_told_apart(
    value: OverwriteArg,
    other: OverwriteArg,
    policy: OverwritePolicy,
    other_policy: OverwritePolicy,
)
    requires
        call_ensures(overwrite_from_arg, (value,), policy),
        call_ensures(overwrite_from_arg, (other,), other_policy),
    ensures
        policy == other_policy <==> value == other,
        policy == OverwritePolicy::Ask <==> value == OverwriteArg::Ask,
        policy == OverwritePolicy::NoReplace <==> value == OverwriteArg::NoReplace,
        policy == OverwritePolicy::ReplaceAfterConfirm <==> value == OverwriteArg::Replace,
        policy == OverwritePolicy::RenameWithSuffix <==> value == OverwriteArg::Rename,
{
}

/// A transfer can be chosen to go on exactly if it is listed and has a ticket.
pub proof fn law_only_transfers_with_tickets_go_on(
    has_ticket: &Vec<bool>,
    index: usize,
    result: Result<(), CliError>,
)
    requires
        call_ensures(check_resume_choice, (has_ticket, index), result),
    ensures
        result is Ok <==> index < has_ticket@.len() && has_ticket@[index as int],
        result is Err ==> (result->Err_0 == CliError::NoSuchItem <==> index >= has_ticket@.len()),
{
}

/// An empty answer is no answer: it is refused, gives way to the default, and
/// confirms nothing; an answer that is given is the same in each.
pub proof fn law_answers_agree(
    line: &str,
    default: &str,
    given: Result<String, CliError>,
    either: String,
    agreed: Result<bool, CliError>,
)
    requires
        call_ensures(answer, (line,), given),
        call_ensures(answer_or, (line, default), either),
        call_ensures(confirm, (line,), agreed),
    ensures
        given is Ok ==> either@ == given->Ok_0@ && given->Ok_0@.len() > 0,
        given is Err ==> either@ == default@,
        agreed is Ok <==> given is Ok,
        agreed is Ok && agreed->Ok_0 ==> given is Ok && given->Ok_0@.len() <= 3,
{
    reveal_strlit("y");
    reveal_strlit("yes");
    reveal_strlit("是");
    if agreed is Ok && agreed->Ok_0 {
        assert(lowered(given->Ok_0@).len() == given->Ok_0@.len());
    }
}

/// The keys of the first screen, in either case.
pub proof fn law_keys_work_in_either_case(
    small: Option<HomeAction>,
    large: Option<HomeAction>,
    receive: Option<HomeAction>,
    resume: Option<HomeAction>,
    quit: Option<HomeAction>,
    escape: Option<HomeAction>,
    other: char,
    nothing: Option<HomeAction>,
)
    requires
        call_ensures(home_action, (Key::Char('s'),), small),
        call_ensures(home_action, (Key::Char('S'),), large),
        call_ensures(home_action, (Key::Char('r'),), receive),
        call_ensures(home_action, (Key::Char('u'),), resume),
        call_ensures(home_action, (Key::Char('q'),), quit),
        call_ensures(home_action, (Key::Esc,), escape),
        lowered_char(other) != 's',
        lowered_char(other) != 'r',
        lowered_char(other) != 'u',
        lowered_char(other) != 'q',
        call_ensures(home_action, (Key::Char(other),), nothing),
    ensures
        small == Some(HomeAction::Send),
        large == small,
        receive == Some(HomeAction::Receive),
        resume == Some(HomeAction::Resume),
        quit == Some(HomeAction::Quit),
        escape == quit,
        nothing is None,
{
}

/// On the list of broken off transfers, up undoes down, no move leaves the list, and
/// what is done is done to the one that is selected: it goes on only if it can.
pub proof fn law_list_is_walked_up_and_down(
    down: &mut ResumeScreen,
    up: &mut ResumeScreen,
    usable: &Vec<bool>,
    moved: Option<ResumeAction>,
    back: Option<ResumeAction>,
    entered: &mut ResumeScreen,
    action: Option<ResumeAction>,
)
    requires
        old(down).is_valid(usable@),
        call_ensures(ResumeScreen::on_key, (down, usable, Key::Down), moved),
        *old(up) == *final(down),
        call_ensures(ResumeScreen::on_key, (up, usable, Key::Up), back),
        *old(entered) == *old(down),
        call_ensures(ResumeScreen::on_key, (entered, usable, Key::Enter), action),
    ensures
        moved is None,
        back is None,
        old(down).selected + 1 < usable@.len() ==> final(down).selected == old(down).selected + 1
            && final(up).selected == old(down).selected,
        old(down).selected + 1 >= usable@.len() ==> final(down).selected == old(down).selected,
        action is Some <==> old(down).selected < usable@.len()
            && usable@[old(down).selected as int],
        action is Some ==> action->0 == ResumeAction::Resume(old(down).selected),
        final(entered).selected == old(down).selected,
{
    assert(usable@.len() == usable.len());
}

/// A transfer is cancelled by the keys for that and by no other.
pub proof fn law_only_some_keys_cancel(key: Key, yes: bool)
    requires
        call_ensures(cancels, (key,), yes),
    ensures
        key == Key::Esc ==> yes,
        key == Key::Enter ==> !yes,
        key matches Key::Char(c) ==> (yes <==> c == 'c' || c == 'q'),
{
}

/// The screen is drawn as often as asked for, at least once a second and at most
/// every millisecond.
pub proof fn law_screen_is_drawn_often_enough(
    refresh_hz: u16,
    duration: Duration,
    often: u16,
    shorter: Duration,
)
    requires
        call_ensures(refresh_duration, (refresh_hz,), duration),
        call_ensures(refresh_duration, (often,), shorter),
    ensures
        1_000_000 <= duration@ <= 1_000_000_000,
        0 < refresh_hz <= 1000 ==> duration@ * refresh_hz <= 1_000_000_000 < (duration@
            + 1_000_000) * refresh_hz,
        0 < refresh_hz <= often ==> shorter@ <= duration@,
{
    if 0 < refresh_hz <= 1000 {
        let millis: int = 1000int / refresh_hz as int;
        let hz: int = refresh_hz as int;
        assert(millis * hz <= 1000 < (millis + 1) * hz) by (nonlinear_arith)
            requires
                millis == 1000int / hz,
                hz > 0,
        ;
        assert((millis * 1_000_000) * hz == (millis * hz) * 1_000_000) by (nonlinear_arith);
        assert((millis * 1_000_000 + 1_000_000) * hz == ((millis + 1) * hz) * 1_000_000)
            by (nonlinear_arith);
        assert(1 <= millis <= 1000) by (nonlinear_arith)
            requires
                millis * hz <= 1000 < (millis + 1) * hz,
                1 <= hz <= 1000,
        ;
        if refresh_hz <= often && often <= 1000 {
            let less: int = 1000int / often as int;
            assert(less <= millis) by (nonlinear_arith)
                requires
                    millis == 1000int / hz,
                    less == 1000int / (often as int),
                    0 < hz <= often,
            ;
        }
    }
    if 0 < often <= 1000 {
        let less: int = 1000int / often as int;
        assert(1 <= less) by (nonlinear_arith)
            requires
                less == 1000int / (often as int),
                0 < often <= 1000,
        ;
    }
}

/// Kinds of paths are told apart by their names.
pub proof fn law_paths_are_told_apart(
    kind: PathKind,
    other: PathKind,
    name: &'static str,
    other_name: &'static str,
)
    requires
        call_ensures(kind_name, (kind,), name),
        call_ensures(kind_name, (other,), other_name),
    ensures
        name@ == other_name@ <==> kind == other,
{
    reveal_strlit("Host");
    reveal_strlit("RoutedLan");
    reveal_strlit("ReflexiveDirect");
    reveal_strlit("Relay");
    if kind != other && name@ == other_name@ {
        assert(name@.len() == other_name@.len());
        assert(name@[0] == other_name@[0]);
        assert(name@[1] == other_name@[1]);
    }
}

/// How far a file is on the screen.
pub open spec fn shown_at(screen: TransferView, file_id: FileId, offset: u64) -> bool {
    exists|i: int|
        0 <= i < screen.progress@.len() && (#[trigger] screen.progress@[i]) == (FileProgress {
            file_id,
            durable_offset: offset,
        })
}

/// The progress of a file is shown once it is told; the last line of the log tells of
/// the event, and no more than six lines are kept.
pub proof fn law_progress_is_shown(screen: &mut TransferView, event: &TransferEvent)
    requires
        old(screen)@.logs.len() <= 6,
        call_ensures(TransferView::apply, (screen, event), ()),
    ensures
        event is FileProgress ==> shown_at(
            *final(screen),
            event->FileProgress_file_id,
            event->FileProgress_durable_offset,
        ),
        event is FileProgress && event->FileProgress_total_size > 0 ==> final(screen)@.known_total
            == Some(event->FileProgress_total_size),
        event is Completed ==> final(screen)@.known_total == Some(
            event->Completed_0.total_size,
        ),
        event is StateChanged ==> final(screen)@.state == event->to@ && final(screen)@.logs.last()
            == "状态 -> "@ + event->to@,
        event matches TransferEvent::Failed(message) ==> final(screen)@.message == "失败："@
            + message@ && final(screen)@.logs.last() == "失败 -> "@ + message@,
        !(event is FileProgress) ==> final(screen)@.progress == old(screen)@.progress,
        final(screen)@.title == old(screen)@.title,
        1 <= final(screen)@.logs.len() <= 6,
        old(screen)@.logs.len() < 6 ==> final(screen)@.logs.len() == old(screen)@.logs.len() + 1,
        old(screen)@.logs.len() == 6 ==> forall|i: int|
            0 <= i < 5 ==> #[trigger] final(screen)@.logs[i] == old(screen)@.logs[i + 1],
{
    if event is FileProgress {
        let progress = old(screen)@.progress;
        let file_id = event->FileProgress_file_id;
        let place = progress_at(progress, file_id, 0);
        lemma_progress_at(progress, file_id, 0);
        match place {
            Some(place) => {
                assert(final(screen).progress@[place] == (FileProgress {
                    file_id,
                    durable_offset: event->FileProgress_durable_offset,
                }));
            },
            None => {
                assert(final(screen).progress@[progress.len() as int] == (FileProgress {
                    file_id,
                    durable_offset: event->FileProgress_durable_offset,
                }));
            },
        }
    }
}

/// Whether these come one after the other somewhere in a text.
pub open spec fn says_in_order(text: Seq<char>, first: Seq<char>, second: Seq<char>) -> bool {
    exists|front: Seq<char>, back: Seq<char>| text == #[trigger] (front + first + second + back)
}

/// The record of a transfer gives its name, whether the relay was used and how many
/// bytes were transferred, each behind the word for it.
pub proof fn law_record_tells_what_was_transferred(summary: &TransferSummary, text: String)
    requires
        call_ensures(json_summary, (summary,), text),
    ensures
        says_in_order(
            text@,
            "{\"transfer_id\":\""@,
            hex_text(summary.transfer_id.value as nat, 32),
        ),
        says_in_order(text@, ",\"path_id\":null,\"bytes\":"@, decimal_text(summary.total_size as nat)),
        says_in_order(
            text@,
            "\",\"relay_used\":"@,
            if summary.relay_used {
                "true"@
            } else {
                "false"@
            },
        ),
{
    let start = "{\"transfer_id\":\""@;
    let name = hex_text(summary.transfer_id.value as nat, 32);
    let kind = "\",\"path_kind\":\""@ + spec_kind_name(summary.path_kind)@;
    let relay = "\",\"relay_used\":"@;
    let used = if summary.relay_used {
        "true"@
    } else {
        "false"@
    };
    let bytes = ",\"path_id\":null,\"bytes\":"@;
    let count = decimal_text(summary.total_size as nat);
    let end = ",\"integrity\":\"ok\"}"@;
    let empty = Seq::<char>::empty();
    assert(text@ =~= empty + start + name + (kind + relay + used + bytes + count + end));
    assert(text@ =~= (start + name + kind) + relay + used + (bytes + count + end));
    assert(text@ =~= (start + name + kind + relay + used) + bytes + count + end);
}

proof fn lemma_progress_at(progress: Seq<FileProgress>, file_id: FileId, from: int)
    requires
        0 <= from,
    ensures
        progress_at(progress, file_id, from) matches Some(place) ==> from
            <= place < progress.len() && progress[place].file_id == file_id,
    decreases progress.len() - from,
{
    if from < progress.len() && progress[from].file_id != file_id {
        lemma_progress_at(progress, file_id, from + 1);
    }
}

/// The bytes that are shown as stored are those of all files together.
pub proof fn law_stored_bytes_add_up(
    progress: Seq<FileProgress>,
    more: FileProgress,
    screen: &TransferView,
    total: Option<u64>,
)
    requires
        screen.progress@ == progress.push(more),
        call_ensures(TransferView::total_bytes, (screen,), total),
    ensures
        total is Some ==> total->0 == stored(progress, progress.len() as int)
            + more.durable_offset,
        total is None <==> stored(progress, progress.len() as int) + more.durable_offset
            > u64::MAX,
{
    let all = progress.push(more);
    lemma_stored_before(progress, all, progress.len() as int);
    assert(screen@.progress == all);
}

proof fn lemma_stored_before(before: Seq<FileProgress>, after: Seq<FileProgress>, count: int)
    requires
        0 <= count <= before.len() <= after.len(),
        forall|i: int| 0 <= i < before.len() ==> #[trigger] after[i] == before[i],
    ensures
        stored(before, count) == stored(after, count),
    decreases count,
{
    if count > 0 {
        lemma_stored_before(before, after, count - 1);
        assert(after[count - 1] == before[count - 1]);
    }
}

} // verus!
