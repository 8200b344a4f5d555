//! Behaviour of the configuration and of the screens.

use udp_transfer::duration::Duration;
use udp_transfer::ids::Id;
use udp_transfer::net::{IpAddr, SocketAddr};
use udp_transfer::network_probe::PathKind;
use udp_transfer::server_app;
use udp_transfer::transfer_client::{OverwritePolicy, TransferEvent, TransferRole, TransferSummary};
use udp_transfer::tui_app::cli::{
    answer, answer_or, check_resume_choice, confirm, dispatch, overwrite_from_arg,
    receive_questions, send_ttl, CliError, ReceiveQuestions,
};
use udp_transfer::tui_app::config::parse_overwrite;
use udp_transfer::tui_app::ui::{
    cancels, format_event, home_action, json_summary, refresh_duration, role_label, ticket_status,
    ResumeNotice,
};
use udp_transfer::tui_app::{
    AppConfig, Command, ConfigError, Environment, HomeAction, Key, Overrides, OverwriteArg,
    ReceiveArgs, ResumeAction, ResumeScreen, SendArgs, TransferView,
};

fn v4(a: u8, b: u8, c: u8, d: u8, port: u16) -> SocketAddr {
    SocketAddr::new(IpAddr::v4(a, b, c, d), port)
}

fn relay() -> server_app::RelayConfigFile {
    server_app::RelayConfigFile {
        max_bytes_per_session: 1_000,
        max_bytes_total: 0,
        max_streams_per_session: 16,
        buffer_size: 64 * 1024,
    }
}

#[test]
fn default_config_matches_server_defaults() {
    let config = server_app::AppConfig::new(relay());
    assert_eq!(config.server.bind, v4(0, 0, 0, 0, 41000));
    assert_eq!(config.server.pairing_ttl_seconds, 600);
    assert_eq!(config.relay.buffer_size, 64 * 1024);
}

#[test]
fn cli_values_override_config() {
    let cli = server_app::Overrides {
        bind: Some(v4(127, 0, 0, 1, 0)),
        pairing_ttl_seconds: Some(30),
        max_pairings: Some(2),
        max_join_attempts: Some(3),
        max_pending_messages: Some(4),
        relay_max_bytes_per_session: Some(5),
        relay_max_bytes_total: Some(6),
        relay_max_streams_per_session: Some(7),
        relay_buffer_size: Some(8),
    };
    let mut config = server_app::AppConfig::new(relay());
    config.apply_cli(&cli).expect("valid overrides");
    let server = config.server_config().expect("valid server config");
    assert_eq!(server.bind, v4(127, 0, 0, 1, 0));
    assert_eq!(server.pairing_ttl, Duration::from_secs(30));
    assert_eq!(server.max_pairings, 2);
    assert_eq!(server.relay.max_bytes_per_session, 5);
    assert_eq!(server.relay.buffer_size, 8);
}

#[test]
fn server_cannot_work_with_nothing() {
    let none = server_app::Overrides {
        bind: None,
        pairing_ttl_seconds: None,
        max_pairings: None,
        max_join_attempts: None,
        max_pending_messages: None,
        relay_max_bytes_per_session: None,
        relay_max_bytes_total: None,
        relay_max_streams_per_session: None,
        relay_buffer_size: None,
    };
    let refused = |said: server_app::Overrides| {
        let mut config = server_app::AppConfig::new(relay());
        match config.apply_cli(&said) {
            Err(server_app::ConfigError::Invalid(message)) => message,
            Ok(()) => "",
        }
    };
    assert_eq!(refused(none), "");
    let zero = |said: server_app::Overrides| refused(said);
    assert_eq!(
        zero(server_app::Overrides { pairing_ttl_seconds: Some(0), ..none }),
        "server.pairing_ttl_seconds 必须大于 0"
    );
    assert_eq!(
        zero(server_app::Overrides { max_pairings: Some(0), ..none }),
        "server.max_pairings 必须大于 0"
    );
    assert_eq!(
        zero(server_app::Overrides { max_join_attempts: Some(0), ..none }),
        "server.max_join_attempts 必须大于 0"
    );
    assert_eq!(
        zero(server_app::Overrides { max_pending_messages: Some(0), ..none }),
        "server.max_pending_messages 必须大于 0"
    );
    assert_eq!(
        zero(server_app::Overrides { relay_max_streams_per_session: Some(0), ..none }),
        "relay.max_streams_per_session 必须大于 0"
    );
    assert_eq!(
        zero(server_app::Overrides { relay_buffer_size: Some(0), ..none }),
        "relay.buffer_size 必须大于 0"
    );
}

fn no_overrides() -> Overrides {
    Overrides {
        server: None,
        bind: None,
        display_name: None,
        chunk_size: None,
        max_parallel_files: None,
        checkpoint_interval_bytes: None,
        download_root: None,
        direct_only: false,
        no_direct: false,
        no_color: false,
        refresh_hz: None,
    }
}

fn no_environment() -> Environment {
    Environment {
        endpoint: None,
        pairing_ttl_seconds: None,
        bind: None,
        display_name: None,
        enable_direct: None,
        direct_only: None,
        probe_timeout_ms: None,
        probe_retries: None,
        max_candidates: None,
        chunk_size: None,
        max_parallel_files: None,
        checkpoint_interval_bytes: None,
        checkpoint_interval_seconds: None,
        max_file_size: None,
        max_total_size: None,
        overwrite: None,
        download_root: None,
        sync_data: None,
        sync_all: None,
        color: None,
        refresh_hz: None,
    }
}

#[test]
fn default_config_matches_documented_defaults() {
    let config = AppConfig::default();
    assert_eq!(config.server.endpoint, v4(127, 0, 0, 1, 41000));
    assert_eq!(config.transfer.chunk_size, 1024 * 1024);
    assert_eq!(config.ui.refresh_hz, 10);
    assert!(config.validate().is_ok());
}

#[test]
fn the_command_line_can_force_the_relay() {
    let mut config = AppConfig::default();
    config.apply_cli(Overrides { direct_only: true, ..no_overrides() }).unwrap();
    let settings = config.client_config().unwrap();
    assert!(!settings.config.enable_direct);
    assert!(!settings.config.direct_only);
    let mut untouched = AppConfig::default();
    untouched.apply_cli(no_overrides()).unwrap();
    assert!(untouched.client_config().unwrap().config.enable_direct);
}

#[test]
fn environment_and_command_line_replace_the_configuration() {
    let mut config = AppConfig::default();
    config.apply_environment(Environment {
        endpoint: Some(v4(192, 0, 2, 10, 42000)),
        display_name: Some("env".to_owned()),
        direct_only: Some(true),
        probe_retries: Some(9),
        overwrite: Some("Rename".to_owned()),
        sync_all: Some(false),
        ..no_environment()
    });
    assert!(config.network.direct_only);
    assert_eq!(config.overwrite_policy().unwrap(), OverwritePolicy::RenameWithSuffix);
    assert!(!config.storage.sync_all);
    config
        .apply_cli(Overrides {
            display_name: Some("cli".to_owned()),
            download_root: Some("./out".to_owned()),
            no_direct: true,
            no_color: true,
            refresh_hz: Some(3),
            chunk_size: Some(7),
            ..no_overrides()
        })
        .unwrap();
    let settings = config.client_config().unwrap();
    assert_eq!(settings.config.server_addr, v4(192, 0, 2, 10, 42000));
    assert_eq!(settings.config.display_name, "cli");
    assert_eq!(settings.config.chunk_size, 7);
    assert_eq!(settings.config.network.retries, 9);
    assert_eq!(settings.config.network.timeout, Duration::from_millis(1_500));
    assert!(!settings.config.enable_direct);
    assert!(settings.config.direct_only);
    assert_eq!(settings.config.max_parallel_files, 2);
    assert_eq!(settings.max_file_size, 1 << 40);
    assert_eq!(settings.max_total_size, 1 << 42);
    assert_eq!(config.storage.download_root, "./out");
    assert!(!config.ui.color);
    assert_eq!(config.ui.refresh_hz, 3);
}

#[test]
fn client_cannot_work_with_nothing() {
    let refused = |change: fn(&mut AppConfig)| {
        let mut config = AppConfig::default();
        change(&mut config);
        match config.validate() {
            Err(ConfigError::Invalid(message)) => message.to_owned(),
            Err(ConfigError::UnsupportedOverwrite(value)) => value,
            Ok(()) => String::new(),
        }
    };
    assert_eq!(
        refused(|config| config.server.endpoint = SocketAddr::new(IpAddr::V4(1), 0)),
        "server.endpoint 不能使用 0 端口"
    );
    assert_eq!(
        refused(|config| config.server.connect_timeout_ms = 0),
        "server.connect_timeout_ms 必须大于 0"
    );
    assert_eq!(
        refused(|config| config.server.pairing_ttl_seconds = 0),
        "server.pairing_ttl_seconds 必须大于 0"
    );
    assert_eq!(
        refused(|config| config.client.display_name = String::new()),
        "client.display_name 不能为空"
    );
    assert_eq!(
        refused(|config| config.network.probe_timeout_ms = 0),
        "network.probe_timeout_ms 必须大于 0"
    );
    assert_eq!(
        refused(|config| config.network.max_candidates = 0),
        "network.max_candidates 必须大于 0"
    );
    assert_eq!(
        refused(|config| config.transfer.chunk_size = 1024 * 1024 + 1),
        "transfer.chunk_size 必须在 1..=1048576 范围内"
    );
    assert_eq!(
        refused(|config| config.transfer.max_parallel_files = 0),
        "transfer.max_parallel_files 必须大于 0"
    );
    assert_eq!(
        refused(|config| config.transfer.checkpoint_interval_seconds = 0),
        "checkpoint interval 必须大于 0"
    );
    assert_eq!(refused(|config| config.transfer.max_total_size = 0), "传输大小上限必须大于 0");
    assert!(refused(|config| config.storage.allow_symlink = true).contains("allow_symlink"));
    assert_eq!(refused(|config| config.ui.refresh_hz = 0), "ui.refresh_hz 必须大于 0");
    assert_eq!(refused(|config| config.transfer.overwrite = "maybe".to_owned()), "maybe");
}

#[test]
fn words_for_files_that_are_there_are_understood_in_any_case() {
    for (word, policy) in [
        ("ASK", OverwritePolicy::Ask),
        ("No-Replace", OverwritePolicy::NoReplace),
        ("noreplace", OverwritePolicy::NoReplace),
        ("replace", OverwritePolicy::ReplaceAfterConfirm),
        ("replace-after-confirm", OverwritePolicy::ReplaceAfterConfirm),
        ("rename", OverwritePolicy::RenameWithSuffix),
        ("RENAME-with-suffix", OverwritePolicy::RenameWithSuffix),
    ] {
        assert_eq!(parse_overwrite(word).unwrap(), policy);
    }
    assert!(parse_overwrite("ask ").is_err());
    assert_eq!(overwrite_from_arg(OverwriteArg::Replace), OverwritePolicy::ReplaceAfterConfirm);
    assert_eq!(overwrite_from_arg(OverwriteArg::Ask), OverwritePolicy::Ask);
}

#[test]
fn commands_need_what_cannot_be_asked() {
    assert!(matches!(dispatch(None, true), Err(CliError::NeedsCommand)));
    assert!(matches!(dispatch(None, false), Ok(None)));
    assert!(matches!(dispatch(Some(Command::Doctor), true), Ok(Some(Command::Doctor))));
    let send = |sources: Vec<String>, ttl| SendArgs { sources, pairing_ttl_seconds: ttl };
    assert_eq!(send_ttl(&send(vec![], None), 9), Err(CliError::NoSources));
    assert_eq!(send_ttl(&send(vec!["a".to_owned()], None), 9), Ok(9));
    assert_eq!(send_ttl(&send(vec!["a".to_owned()], Some(0)), 9), Ok(0));
    let mut receive = ReceiveArgs { code: None, output: None, overwrite: None, accept: false };
    assert_eq!(receive_questions(&receive, true), Err(CliError::NeedsCode));
    assert_eq!(
        receive_questions(&receive, false),
        Ok(ReceiveQuestions { code: true, root: true, accept: true })
    );
    receive.code = Some("c".to_owned());
    assert_eq!(
        receive_questions(&receive, true),
        Ok(ReceiveQuestions { code: false, root: false, accept: false })
    );
    receive.output = Some("d".to_owned());
    receive.accept = true;
    assert_eq!(
        receive_questions(&receive, false),
        Ok(ReceiveQuestions { code: false, root: false, accept: false })
    );
    assert_eq!(check_resume_choice(&vec![true, false], 0), Ok(()));
    assert_eq!(check_resume_choice(&vec![true, false], 1), Err(CliError::NoTicket));
    assert_eq!(check_resume_choice(&vec![true, false], 2), Err(CliError::NoSuchItem));
    assert_eq!(CliError::EmptyInput.message(), "输入不能为空");
}

#[test]
fn typed_lines_are_trimmed() {
    assert_eq!(answer("  a b\t\r\n").unwrap(), "a b");
    assert_eq!(answer(" \n"), Err(CliError::EmptyInput));
    assert_eq!(answer_or("\n", "here"), "here");
    assert_eq!(answer_or(" there\n", "here"), "there");
    for line in ["y\n", " Yes ", "YES", "是\n"] {
        assert_eq!(confirm(line), Ok(true));
    }
    assert_eq!(confirm("no"), Ok(false));
    assert_eq!(confirm("\n"), Err(CliError::EmptyInput));
}

#[test]
fn keys_choose_on_the_home_screen() {
    assert_eq!(home_action(Key::Char('s')), Some(HomeAction::Send));
    assert_eq!(home_action(Key::Char('R')), Some(HomeAction::Receive));
    assert_eq!(home_action(Key::Char('u')), Some(HomeAction::Resume));
    assert_eq!(home_action(Key::Esc), Some(HomeAction::Quit));
    assert_eq!(home_action(Key::Enter), None);
    assert!(cancels(Key::Char('c')) && cancels(Key::Esc) && !cancels(Key::Char('x')));
}

#[test]
fn selection_stays_among_the_items() {
    let usable = vec![true, false];
    let mut screen = ResumeScreen::new(usable.len());
    assert_eq!(screen.notice, ResumeNotice::Keys);
    assert_eq!(screen.on_key(&usable, Key::Up), None);
    assert_eq!(screen.selected, 0);
    assert_eq!(screen.on_key(&usable, Key::Enter), Some(ResumeAction::Resume(0)));
    for _ in 0..3 {
        assert_eq!(screen.on_key(&usable, Key::Char('j')), None);
    }
    assert_eq!(screen.selected, 1);
    assert_eq!(screen.on_key(&usable, Key::Enter), None);
    assert_eq!(screen.notice, ResumeNotice::NoTicket);
    assert_eq!(screen.on_key(&usable, Key::Char('D')), Some(ResumeAction::Clean(1)));
    assert_eq!(screen.on_key(&usable, Key::Char('q')), Some(ResumeAction::Back));
    let mut empty = ResumeScreen::new(0);
    assert_eq!(empty.notice, ResumeNotice::Nothing);
    assert_eq!(empty.on_key(&vec![], Key::Down), None);
    assert_eq!(empty.on_key(&vec![], Key::Enter), None);
    assert_eq!(empty.on_key(&vec![], Key::Char('d')), None);
    assert_eq!(empty.notice.message(), "没有发现未完成的传输状态。按 Esc 返回主页。");
    assert_eq!(role_label(Some(TransferRole::Accepter)), "接收");
    assert_eq!(ticket_status(true, true, None), "ticket 已过期");
    assert_eq!(ticket_status(true, false, None), "可恢复");
    assert_eq!(ticket_status(false, false, Some("broken")), "broken");
    assert_eq!(ticket_status(false, false, None), "ticket 不可用");
}

#[test]
fn pictures_are_drawn_as_often_as_configured() {
    assert_eq!(refresh_duration(10), Duration::from_millis(100));
    assert_eq!(refresh_duration(0), Duration::from_millis(1_000));
    assert_eq!(refresh_duration(3), Duration::from_millis(333));
    assert_eq!(refresh_duration(u16::MAX), Duration::from_millis(1));
}

#[test]
fn transfer_screen_follows_events() {
    let mut view = TransferView::new("title".to_owned(), None);
    let progress = |byte: u8, durable_offset, total_size| TransferEvent::FileProgress {
        file_id: Id::from_bytes([byte; 16]),
        durable_offset,
        total_size,
    };
    view.apply(&TransferEvent::StateChanged { from: "a".to_owned(), to: "b".to_owned() });
    view.apply(&progress(1, 10, 0));
    view.apply(&progress(2, 5, 100));
    view.apply(&progress(1, 20, 0));
    assert_eq!(view.state, "b");
    assert_eq!(view.known_total, Some(100));
    assert_eq!(view.total_bytes(), Some(25));
    assert_eq!(view.progress.len(), 2);
    view.apply(&TransferEvent::PathSelected { kind: PathKind::Relay });
    assert_eq!(view.path, "Relay");
    view.apply(&TransferEvent::PathFallback);
    view.apply(&TransferEvent::Failed("gone".to_owned()));
    assert_eq!(view.message, "失败：gone");
    assert_eq!(view.logs.len(), 6);
    assert_eq!(view.logs[0], "文件 01010101010101010101010101010101 durable=10/0");
    assert_eq!(view.logs[5], "失败 -> gone");
    view.apply(&progress(3, u64::MAX, 0));
    assert_eq!(view.total_bytes(), None);
}

#[test]
fn results_are_put_in_words() {
    let summary = TransferSummary {
        transfer_id: Id::from_bytes([0xab; 16]),
        completed_files: 12,
        total_size: 3_400,
        path_kind: PathKind::Relay,
        relay_used: true,
    };
    assert_eq!(format_event(&TransferEvent::Completed(summary)), "完成 -> 12 个文件");
    assert_eq!(
        json_summary(&summary),
        "{\"transfer_id\":\"abababababababababababababababab\",\"path_kind\":\"Relay\",\
         \"relay_used\":true,\"path_id\":null,\"bytes\":3400,\"integrity\":\"ok\"}"
    );
}
