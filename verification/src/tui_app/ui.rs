//! What the screens of the client show, and what keys do.

use vstd::prelude::*;
use vstd::string::*;

use crate::duration::{Duration, NANOS_PER_MILLI};
use crate::network_probe::PathKind;
use crate::text::{decimal_text, hex_text, push_decimal, push_hex};
use crate::transfer_client::{FileId, TransferEvent, TransferRole, TransferSummary};

verus! {

/// A key.
#[derive(Debug, Clone, Copy, PartialEq, Eq, Structural)]
pub enum Key {
    Char(char),
    Up,
    Down,
    Enter,
    Esc,
    Other,
}

/// What is chosen on the home screen.
#[derive(Debug, Clone, Copy, PartialEq, Eq, Structural)]
pub enum HomeAction {
    Send,
    Receive,
    Resume,
    Quit,
}

/// What is chosen on the screen of broken off transfers.
#[derive(Debug, Clone, Copy, PartialEq, Eq, Structural)]
pub enum ResumeAction {
    Back,
    Resume(usize),
    Clean(usize),
}

/// What a key chooses on the home screen.
pub open spec fn spec_home_action(key: Key) -> Option<HomeAction> {
    match key {
        Key::Char(c) => if c == 's' || c == 'S' {
            Some(HomeAction::Send)
        } else if c == 'r' || c == 'R' {
            Some(HomeAction::Receive)
        } else if c == 'u' || c == 'U' {
            Some(HomeAction::Resume)
        } else if c == 'q' || c == 'Q' {
            Some(HomeAction::Quit)
        } else {
            None
        },
        Key::Esc => Some(HomeAction::Quit),
        _ => None,
    }
}

/// What a key chooses on the home screen.
pub fn home_action(key: Key) -> (action: Option<HomeAction>)
    ensures
        action == spec_home_action(key),
{
    match key {
        Key::Char(c) => {
            if c == 's' || c == 'S' {
                Some(HomeAction::Send)
            } else if c == 'r' || c == 'R' {
                Some(HomeAction::Receive)
            } else if c == 'u' || c == 'U' {
                Some(HomeAction::Resume)
            } else if c == 'q' || c == 'Q' {
                Some(HomeAction::Quit)
            } else {
                None
            }
        },
        Key::Esc => Some(HomeAction::Quit),
        _ => None,
    }
}

/// What the screen of broken off transfers says below the list.
#[derive(Debug, Clone, Copy, PartialEq, Eq, Structural)]
pub enum ResumeNotice {
    Nothing,
    Keys,
    NoTicket,
}

impl ResumeNotice {
    /// The notice in words.
    pub fn message(self) -> (message: &'static str)
        ensures
            message == match self {
                ResumeNotice::Nothing => "没有发现未完成的传输状态。按 Esc 返回主页。",
                ResumeNotice::Keys => "Enter 恢复，d 清理，Esc 返回",
                ResumeNotice::NoTicket => "当前条目没有可用的未过期 ticket。",
            },
    {
        match self {
            ResumeNotice::Nothing => "没有发现未完成的传输状态。按 Esc 返回主页。",
            ResumeNotice::Keys => "Enter 恢复，d 清理，Esc 返回",
            ResumeNotice::NoTicket => "当前条目没有可用的未过期 ticket。",
        }
    }
}

/// The screen of broken off transfers.
#[derive(Debug, Clone, Copy, PartialEq, Eq, Structural)]
pub struct ResumeScreen {
    pub selected: usize,
    pub notice: ResumeNotice,
}

/// What a key does on the screen of broken off transfers, of which the given ones
/// have a ticket that is still good.
pub open spec fn resume_course(screen: ResumeScreen, usable: Seq<bool>, key: Key) -> (
    ResumeScreen,
    Option<ResumeAction>,
) {
    if key == Key::Up || key == Key::Char('k') {
        (
            ResumeScreen {
                selected: if usable.len() > 0 && screen.selected > 0 {
                    (screen.selected - 1) as usize
                } else {
                    screen.selected
                },
                ..screen
            },
            None,
        )
    } else if key == Key::Down || key == Key::Char('j') {
        (
            ResumeScreen {
                selected: if usable.len() > 0 && screen.selected + 1 < usable.len() {
                    (screen.selected + 1) as usize
                } else {
                    screen.selected
                },
                ..screen
            },
            None,
        )
    } else if key == Key::Enter {
        if screen.selected >= usable.len() {
            (screen, None)
        } else if usable[screen.selected as int] {
            (screen, Some(ResumeAction::Resume(screen.selected)))
        } else {
            (ResumeScreen { notice: ResumeNotice::NoTicket, ..screen }, None)
        }
    } else if key == Key::Char('d') || key == Key::Char('D') {
        if usable.len() > 0 {
            (screen, Some(ResumeAction::Clean(screen.selected)))
        } else {
            (screen, None)
        }
    } else if key == Key::Esc || key == Key::Char('q') || key == Key::Char('Q') {
        (screen, Some(ResumeAction::Back))
    } else {
        (screen, None)
    }
}

impl ResumeScreen {
    /// Whether something that there is is selected.
    pub open spec fn is_valid(self, usable: Seq<bool>) -> bool {
        self.selected < usable.len() || (usable.len() == 0 && self.selected == 0)
    }

    /// The screen as it is shown first.
    pub fn new(count: usize) -> (screen: Self)
        ensures
            screen == (ResumeScreen {
                selected: 0,
                notice: if count == 0 {
                    ResumeNotice::Nothing
                } else {
                    ResumeNotice::Keys
                },
            }),
    {
        if count == 0 {
            ResumeScreen { selected: 0, notice: ResumeNotice::Nothing }
        } else {
            ResumeScreen { selected: 0, notice: ResumeNotice::Keys }
        }
    }

    /// What a key does. What it chooses is something that there is.
    pub fn on_key(&mut self, usable: &Vec<bool>, key: Key) -> (action: Option<ResumeAction>)
        requires
            old(self).is_valid(usable@),
        ensures
            (*final(self), action) == resume_course(*old(self), usable@, key),
            final(self).is_valid(usable@),
            action matches Some(ResumeAction::Clean(index)) ==> index < usable@.len(),
            action matches Some(ResumeAction::Resume(index)) ==> index < usable@.len()
                && usable@[index as int],
    {
        match key {
            Key::Up | Key::Char('k') => {
                if usable.len() > 0 && self.selected > 0 {
                    self.selected = self.selected - 1;
                }
                None
            },
            Key::Down | Key::Char('j') => {
                if usable.len() > 0 && self.selected < usable.len() - 1 {
                    self.selected = self.selected + 1;
                }
                None
            },
            Key::Enter => {
                if self.selected >= usable.len() {
                    return None;
                }
                if usable[self.selected] {
                    return Some(ResumeAction::Resume(self.selected));
                }
                self.notice = ResumeNotice::NoTicket;
                None
            },
            Key::Char('d') | Key::Char('D') => {
                if usable.len() > 0 {
                    Some(ResumeAction::Clean(self.selected))
                } else {
                    None
                }
            },
            Key::Esc | Key::Char('q') | Key::Char('Q') => Some(ResumeAction::Back),
            _ => None,
        }
    }
}

/// What the list says of the part that this side takes.
pub fn role_label(role: Option<TransferRole>) -> (label: &'static str)
    ensures
        label == match role {
            Some(TransferRole::Offerer) => "发送",
            Some(TransferRole::Accepter) => "接收",
            None => "未知",
        },
{
    match role {
        Some(TransferRole::Offerer) => "发送",
        Some(TransferRole::Accepter) => "接收",
        None => "未知",
    }
}

/// What the list says of the ticket of a broken off transfer: whether it is still
/// good, or why there is none.
pub fn ticket_status<'a>(
    has_ticket: bool,
    expired: bool,
    error: Option<&'a str>,
) -> (status: &'a str)
    ensures
        status == if has_ticket && expired {
            "ticket 已过期"
        } else if has_ticket {
            "可恢复"
        } else {
            match error {
                Some(error) => error,
                None => "ticket 不可用",
            }
        },
{
    if has_ticket {
        if expired {
            "ticket 已过期"
        } else {
            "可恢复"
        }
    } else {
        match error {
            Some(error) => error,
            None => "ticket 不可用",
        }
    }
}

/// Whether a key cancels a transfer.
pub fn cancels(key: Key) -> (yes: bool)
    ensures
        yes == (key == Key::Char('c') || key == Key::Char('q') || key == Key::Esc),
{
    match key {
        Key::Char('c') | Key::Char('q') | Key::Esc => true,
        _ => false,
    }
}

/// How long to wait between two pictures: so many in a second, but at least a
/// millisecond.
pub fn refresh_duration(refresh_hz: u16) -> (duration: Duration)
    ensures
        duration@ == refresh_millis(refresh_hz) * NANOS_PER_MILLI as nat,
{
    let hz: u64 = if refresh_hz < 1 {
        1
    } else {
        refresh_hz as u64
    };
    let millis: u64 = 1_000 / hz;
    assert(if hz > 1_000 {
        millis == 0
    } else {
        millis >= 1
    }) by (nonlinear_arith)
        requires
            hz >= 1,
            millis == 1_000u64 / hz,
    ;
    Duration::from_millis(
        if millis < 1 {
            1
        } else {
            millis
        },
    )
}

/// How many milliseconds to wait between two pictures.
pub open spec fn refresh_millis(refresh_hz: u16) -> nat {
    if refresh_hz == 0 {
        1_000
    } else if refresh_hz > 1_000 {
        1
    } else {
        (1_000nat / refresh_hz as nat) as nat
    }
}

/// The name of what a path goes over.
pub open spec fn spec_kind_name(kind: PathKind) -> &'static str {
    match kind {
        PathKind::Host => "Host",
        PathKind::RoutedLan => "RoutedLan",
        PathKind::ReflexiveDirect => "ReflexiveDirect",
        PathKind::Relay => "Relay",
    }
}

/// The name of what a path goes over.
pub fn kind_name(kind: PathKind) -> (name: &'static str)
    ensures
        name == spec_kind_name(kind),
{
    match kind {
        PathKind::Host => "Host",
        PathKind::RoutedLan => "RoutedLan",
        PathKind::ReflexiveDirect => "ReflexiveDirect",
        PathKind::Relay => "Relay",
    }
}

/// An event in words.
pub open spec fn event_text(event: TransferEvent) -> Seq<char> {
    match event {
        TransferEvent::StateChanged { to, .. } => "状态 -> "@ + to@,
        TransferEvent::FileProgress { file_id, durable_offset, total_size } => "文件 "@ + hex_text(
            file_id.value as nat,
            32,
        ) + " durable="@ + decimal_text(durable_offset as nat) + "/"@ + decimal_text(
            total_size as nat,
        ),
        TransferEvent::PathSelected { kind } => "路径 -> "@ + spec_kind_name(kind)@,
        TransferEvent::PathFallback => "路径回退 -> relay"@,
        TransferEvent::Completed(summary) => "完成 -> "@ + decimal_text(
            summary.completed_files as nat,
        ) + " 个文件"@,
        TransferEvent::Failed(message) => "失败 -> "@ + message@,
    }
}

/// An event in words.
pub fn format_event(event: &TransferEvent) -> (text: String)
    ensures
        text@ == event_text(*event),
{
    match event {
        TransferEvent::StateChanged { to, .. } => "状态 -> ".to_owned().concat(to.as_str()),
        TransferEvent::FileProgress { file_id, durable_offset, total_size } => {
            let mut text: String = "文件 ".to_owned();
            push_hex(&mut text, file_id.value, 32);
            text.append(" durable=");
            push_decimal(&mut text, *durable_offset);
            text.append("/");
            push_decimal(&mut text, *total_size);
            text
        },
        TransferEvent::PathSelected { kind } => "路径 -> ".to_owned().concat(kind_name(*kind)),
        TransferEvent::PathFallback => "路径回退 -> relay".to_owned(),
        TransferEvent::Completed(summary) => {
            let mut text: String = "完成 -> ".to_owned();
            push_decimal(&mut text, summary.completed_files);
            text.append(" 个文件");
            text
        },
        TransferEvent::Failed(message) => "失败 -> ".to_owned().concat(message.as_str()),
    }
}

/// What came of a transfer, as a record for programs.
pub open spec fn summary_record(summary: TransferSummary) -> Seq<char> {
    "{\"transfer_id\":\""@ + hex_text(summary.transfer_id.value as nat, 32)
        + "\",\"path_kind\":\""@ + spec_kind_name(summary.path_kind)@ + "\",\"relay_used\":"@ + (
    if summary.relay_used {
        "true"@
    } else {
        "false"@
    }) + ",\"path_id\":null,\"bytes\":"@ + decimal_text(summary.total_size as nat)
        + ",\"integrity\":\"ok\"}"@
}

/// What came of a transfer, as a record for programs.
pub fn json_summary(summary: &TransferSummary) -> (text: String)
    ensures
        text@ == summary_record(*summary),
{
    let mut text: String = "{\"transfer_id\":\"".to_owned();
    push_hex(&mut text, summary.transfer_id.value, 32);
    text.append("\",\"path_kind\":\"");
    text.append(kind_name(summary.path_kind));
    text.append("\",\"relay_used\":");
    text.append(
        if summary.relay_used {
            "true"
        } else {
            "false"
        },
    );
    text.append(",\"path_id\":null,\"bytes\":");
    push_decimal(&mut text, summary.total_size);
    text.append(",\"integrity\":\"ok\"}");
    text
}

/// How much of a file is stored.
#[derive(Debug, Clone, Copy, PartialEq, Eq, Structural)]
pub struct FileProgress {
    pub file_id: FileId,
    pub durable_offset: u64,
}

/// The screen of a transfer.
#[derive(Debug)]
pub struct TransferView {
    pub title: String,
    pub known_total: Option<u64>,
    /// How much is stored of each file, in the order in which they were first heard
    /// of.
    pub progress: Vec<FileProgress>,
    pub path: String,
    pub state: String,
    pub message: String,
    /// The last events.
    pub logs: Vec<String>,
}

/// What is known of the screen of a transfer.
#[verifier::ext_equal]
pub struct ScreenView {
    pub title: Seq<char>,
    pub known_total: Option<u64>,
    pub progress: Seq<FileProgress>,
    pub path: Seq<char>,
    pub state: Seq<char>,
    pub message: Seq<char>,
    pub logs: Seq<Seq<char>>,
}

impl View for TransferView {
    type V = ScreenView;

    open spec fn view(&self) -> ScreenView {
        ScreenView {
            title: self.title@,
            known_total: self.known_total,
            progress: self.progress@,
            path: self.path@,
            state: self.state@,
            message: self.message@,
            logs: self.logs@.map_values(|line: String| line@),
        }
    }
}

/// The place of a file, from the one at `from` on.
pub open spec fn progress_at(progress: Seq<FileProgress>, file_id: FileId, from: int) -> Option<int>
    decreases progress.len() - from,
{
    if from < 0 || from >= progress.len() {
        None
    } else if progress[from].file_id == file_id {
        Some(from)
    } else {
        progress_at(progress, file_id, from + 1)
    }
}

/// What is stored, once so much of a file is.
pub open spec fn progressed(
    progress: Seq<FileProgress>,
    file_id: FileId,
    durable_offset: u64,
) -> Seq<FileProgress> {
    match progress_at(progress, file_id, 0) {
        Some(place) => progress.update(place, FileProgress { file_id, durable_offset }),
        None => progress.push(FileProgress { file_id, durable_offset }),
    }
}

/// The last lines once there is one more: at most six.
pub open spec fn logged(logs: Seq<Seq<char>>, line: Seq<char>) -> Seq<Seq<char>> {
    if logs.len() >= 6 {
        logs.push(line).remove(0)
    } else {
        logs.push(line)
    }
}

/// What the screen shows after an event.
pub open spec fn after_event(view: ScreenView, event: TransferEvent) -> ScreenView {
    let shown = match event {
        TransferEvent::StateChanged { to, .. } => ScreenView { state: to@, ..view },
        TransferEvent::FileProgress { file_id, durable_offset, total_size } => ScreenView {
            progress: progressed(view.progress, file_id, durable_offset),
            known_total: if total_size > 0 {
                Some(total_size)
            } else {
                view.known_total
            },
            ..view
        },
        TransferEvent::PathSelected { kind } => ScreenView { path: spec_kind_name(kind)@, ..view },
        TransferEvent::PathFallback => ScreenView { path: "路径回退到 relay"@, ..view },
        TransferEvent::Completed(summary) => ScreenView {
            known_total: Some(summary.total_size),
            message: "传输完成"@,
            ..view
        },
        TransferEvent::Failed(message) => ScreenView { message: "失败："@ + message@, ..view },
    };
    ScreenView { logs: logged(view.logs, event_text(event)), ..shown }
}

/// How much is stored of the first `count` files together.
pub open spec fn stored(progress: Seq<FileProgress>, count: int) -> nat
    decreases count,
{
    if count <= 0 {
        0
    } else {
        stored(progress, count - 1) + progress[count - 1].durable_offset as nat
    }
}

impl TransferView {
    /// The screen as it is shown first.
    pub fn new(title: String, known_total: Option<u64>) -> (screen: Self)
        ensures
            screen@ == (ScreenView {
                title: title@,
                known_total,
                progress: Seq::empty(),
                path: "等待路径选择"@,
                state: "启动中"@,
                message: "按 c 或 q 取消"@,
                logs: Seq::empty(),
            }),
    {
        let screen = TransferView {
            title,
            known_total,
            progress: Vec::new(),
            path: "等待路径选择".to_owned(),
            state: "启动中".to_owned(),
            message: "按 c 或 q 取消".to_owned(),
            logs: Vec::new(),
        };
        assert(screen@.logs =~= Seq::empty());
        screen
    }

    /// Shows an event.
    pub fn apply(&mut self, event: &TransferEvent)
        ensures
            final(self)@ == after_event(old(self)@, *event),
            old(self)@.logs.len() <= 6 ==> final(self)@.logs.len() <= 6,
    {
        let ghost before = self@;
        match event {
            TransferEvent::StateChanged { to, .. } => {
                self.state = to.clone();
            },
            TransferEvent::FileProgress { file_id, durable_offset, total_size } => {
                self.note(*file_id, *durable_offset);
                if *total_size > 0 {
                    self.known_total = Some(*total_size);
                }
            },
            TransferEvent::PathSelected { kind } => {
                self.path = kind_name(*kind).to_owned();
            },
            TransferEvent::PathFallback => {
                self.path = "路径回退到 relay".to_owned();
            },
            TransferEvent::Completed(summary) => {
                self.known_total = Some(summary.total_size);
                self.message = "传输完成".to_owned();
            },
            TransferEvent::Failed(message) => {
                self.message = "失败：".to_owned().concat(message.as_str());
            },
        }
        let ghost logs = self.logs@;
        assert(self@.logs =~= before.logs);
        let line: String = format_event(event);
        self.logs.push(line);
        assert(self@.logs =~= before.logs.push(event_text(*event)));
        if self.logs.len() > 6 {
            let ghost longer = self@.logs;
            self.logs.remove(0);
            assert(self@.logs =~= longer.remove(0));
        }
        assert(self@ =~= after_event(before, *event));
    }

    /// Notes how much of a file is stored.
    fn note(&mut self, file_id: FileId, durable_offset: u64)
        ensures
            *final(self) == (TransferView { progress: final(self).progress, ..*old(self) }),
            final(self).progress@ == progressed(old(self).progress@, file_id, durable_offset),
    {
        let mut index: usize = 0;
        while index < self.progress.len()
            invariant
                *self == *old(self),
                index <= self.progress@.len(),
                progress_at(self.progress@, file_id, 0) == progress_at(
                    self.progress@,
                    file_id,
                    index as int,
                ),
            decreases self.progress@.len() - index,
        {
            if self.progress[index].file_id == file_id {
                self.progress.set(index, FileProgress { file_id, durable_offset });
                return ;
            }
            index = index + 1;
        }
        self.progress.push(FileProgress { file_id, durable_offset });
    }

    /// How much is stored, if that can be told.
    pub fn total_bytes(&self) -> (total: Option<u64>)
        ensures
            total == if stored(self@.progress, self@.progress.len() as int) <= u64::MAX {
                Some(stored(self@.progress, self@.progress.len() as int) as u64)
            } else {
                None
            },
    {
        let mut total: u64 = 0;
        let mut index: usize = 0;
        while index < self.progress.len()
            invariant
                index <= self.progress@.len(),
                total == stored(self.progress@, index as int),
            decreases self.progress@.len() - index,
        {
            match total.checked_add(self.progress[index].durable_offset) {
                Some(sum) => {
                    total = sum;
                },
                None => {
                    proof {
                        lemma_stored_grows(
                            self.progress@,
                            index + 1,
                            self.progress@.len() as int,
                        );
                    }
                    return None;
                },
            }
            index = index + 1;
        }
        Some(total)
    }
}

proof fn lemma_stored_grows(progress: Seq<FileProgress>, count: int, total: int)
    requires
        0 <= count <= total,
    ensures
        stored(progress, count) <= stored(progress, total),
    decreases total - count,
{
    if count < total {
        lemma_stored_grows(progress, count, total - 1);
    }
}

} // verus!
