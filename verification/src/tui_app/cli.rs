//! What the command line asks for, and what is to be done about it.

use vstd::prelude::*;
use vstd::string::*;

use crate::text::{is_word, lowered, trim, trimmed};
use crate::transfer_client::OverwritePolicy;

verus! {

/// What to send.
#[derive(Debug, Clone)]
pub struct SendArgs {
    pub sources: Vec<String>,
    /// How long the pairing is good; the server decides if it is zero.
    pub pairing_ttl_seconds: Option<u32>,
}

/// What to receive.
#[derive(Debug, Clone)]
pub struct ReceiveArgs {
    pub code: Option<String>,
    pub output: Option<String>,
    pub overwrite: Option<OverwriteArg>,
    pub accept: bool,
}

/// What to do about files that are there already.
#[derive(Debug, Clone, Copy, PartialEq, Eq, Structural)]
pub enum OverwriteArg {
    Ask,
    NoReplace,
    Replace,
    Rename,
}

/// What to do about what broken off transfers left behind.
#[derive(Debug, Clone)]
pub enum ResumeCommand {
    List { root: Option<String> },
    Clean { root: Option<String>, transfer_id: String },
}

/// What to do.
#[derive(Debug)]
pub enum Command {
    Send(SendArgs),
    Receive(ReceiveArgs),
    Doctor,
    Probe,
    Resume { command: ResumeCommand },
}

/// Why nothing is done.
#[derive(Debug, Clone, Copy, PartialEq, Eq, Structural)]
pub enum CliError {
    /// Without a command the user would have to be asked.
    NeedsCommand,
    NoSources,
    NeedsCode,
    EmptyInput,
    NoSuchItem,
    NoTicket,
}

impl CliError {
    /// The error in words.
    pub fn message(self) -> (message: &'static str)
        ensures
            message == match self {
                CliError::NeedsCommand =>
                "--non-interactive 必须配合 send、receive、doctor、probe 或 resume 使用",
                CliError::NoSources => "至少需要一个发送源路径",
                CliError::NeedsCode => "无交互模式必须通过 --code 提供配对码",
                CliError::EmptyInput => "输入不能为空",
                CliError::NoSuchItem => "选中的断点状态不存在",
                CliError::NoTicket => "选中的断点状态没有可用的 resume ticket",
            },
    {
        match self {
            CliError::NeedsCommand =>
            "--non-interactive 必须配合 send、receive、doctor、probe 或 resume 使用",
            CliError::NoSources => "至少需要一个发送源路径",
            CliError::NeedsCode => "无交互模式必须通过 --code 提供配对码",
            CliError::EmptyInput => "输入不能为空",
            CliError::NoSuchItem => "选中的断点状态不存在",
            CliError::NoTicket => "选中的断点状态没有可用的 resume ticket",
        }
    }
}

/// What to do: without a command the user is asked, unless there is nobody to ask.
pub fn dispatch(command: Option<Command>, non_interactive: bool) -> (result: Result<
    Option<Command>,
    CliError,
>)
    ensures
        result == if command is None && non_interactive {
            Err::<Option<Command>, CliError>(CliError::NeedsCommand)
        } else {
            Ok::<Option<Command>, CliError>(command)
        },
{
    match command {
        None => {
            if non_interactive {
                return Err(CliError::NeedsCommand);
            }
            Ok(None)
        },
        Some(command) => Ok(Some(command)),
    }
}

/// How long the pairing is to be good: as asked for, or as configured.
pub fn send_ttl(args: &SendArgs, configured: u32) -> (result: Result<u32, CliError>)
    ensures
        result == if args.sources@.len() == 0 {
            Err::<u32, CliError>(CliError::NoSources)
        } else {
            match args.pairing_ttl_seconds {
                Some(ttl) => Ok::<u32, CliError>(ttl),
                None => Ok::<u32, CliError>(configured),
            }
        },
{
    if args.sources.len() == 0 {
        return Err(CliError::NoSources);
    }
    match args.pairing_ttl_seconds {
        Some(ttl) => Ok(ttl),
        None => Ok(configured),
    }
}

/// What is to be asked before files are received.
#[derive(Debug, Clone, Copy, PartialEq, Eq, Structural)]
pub struct ReceiveQuestions {
    /// The pairing code.
    pub code: bool,
    /// Where to put the files.
    pub root: bool,
    /// Whether to accept the offer.
    pub accept: bool,
}

/// What is to be asked before files are received. Nothing is if there is nobody to
/// ask, so that the code must be given then.
pub fn receive_questions(args: &ReceiveArgs, non_interactive: bool) -> (result: Result<
    ReceiveQuestions,
    CliError,
>)
    ensures
        result == if args.code is None && non_interactive {
            Err::<ReceiveQuestions, CliError>(CliError::NeedsCode)
        } else {
            Ok::<ReceiveQuestions, CliError>(
                ReceiveQuestions {
                    code: args.code is None,
                    root: !non_interactive && args.output is None,
                    accept: !args.accept && !non_interactive,
                },
            )
        },
{
    if args.code.is_none() && non_interactive {
        return Err(CliError::NeedsCode);
    }
    Ok(
        ReceiveQuestions {
            code: args.code.is_none(),
            root: !non_interactive && args.output.is_none(),
            accept: !args.accept && !non_interactive,
        },
    )
}

/// What an argument says about files that are there already.
pub fn overwrite_from_arg(value: OverwriteArg) -> (policy: OverwritePolicy)
    ensures
        policy == match value {
            OverwriteArg::Ask => OverwritePolicy::Ask,
            OverwriteArg::NoReplace => OverwritePolicy::NoReplace,
            OverwriteArg::Replace => OverwritePolicy::ReplaceAfterConfirm,
            OverwriteArg::Rename => OverwritePolicy::RenameWithSuffix,
        },
{
    match value {
        OverwriteArg::Ask => OverwritePolicy::Ask,
        OverwriteArg::NoReplace => OverwritePolicy::NoReplace,
        OverwriteArg::Replace => OverwritePolicy::ReplaceAfterConfirm,
        OverwriteArg::Rename => OverwritePolicy::RenameWithSuffix,
    }
}

/// What a line that was typed answers, without the white space around it. It must
/// not be empty.
pub fn answer(line: &str) -> (result: Result<String, CliError>)
    ensures
        match result {
            Ok(answer) => answer@ == trimmed(line@) && answer@.len() > 0,
            Err(error) => trimmed(line@).len() == 0 && error == CliError::EmptyInput,
        },
{
    let answer: String = trim(line);
    if answer.as_str().is_empty() {
        return Err(CliError::EmptyInput);
    }
    Ok(answer)
}

/// What a line that was typed answers; nothing stands for the default.
pub fn answer_or(line: &str, default: &str) -> (answer: String)
    ensures
        answer@ == if trimmed(line@).len() == 0 {
            default@
        } else {
            trimmed(line@)
        },
{
    let answer: String = trim(line);
    if answer.as_str().is_empty() {
        default.to_owned()
    } else {
        answer
    }
}

/// Whether an answer agrees.
pub open spec fn agrees(answer: Seq<char>) -> bool {
    lowered(answer) == "y"@ || lowered(answer) == "yes"@ || lowered(answer) == "是"@
}

/// Whether a line that was typed agrees.
pub fn confirm(line: &str) -> (result: Result<bool, CliError>)
    ensures
        result == if trimmed(line@).len() == 0 {
            Err::<bool, CliError>(CliError::EmptyInput)
        } else {
            Ok::<bool, CliError>(agrees(trimmed(line@)))
        },
{
    match answer(line) {
        Ok(answer) => Ok(
            is_word(answer.as_str(), "y") || is_word(answer.as_str(), "yes") || is_word(
                answer.as_str(),
                "是",
            ),
        ),
        Err(error) => Err(error),
    }
}

/// Whether the item at an index, of which the given ones have a ticket, can be
/// taken up again.
pub fn check_resume_choice(has_ticket: &Vec<bool>, index: usize) -> (result: Result<(), CliError>)
    ensures
        result == if index >= has_ticket@.len() {
            Err::<(), CliError>(CliError::NoSuchItem)
        } else if !has_ticket@[index as int] {
            Err::<(), CliError>(CliError::NoTicket)
        } else {
            Ok::<(), CliError>(())
        },
{
    if index >= has_ticket.len() {
        return Err(CliError::NoSuchItem);
    }
    if !has_ticket[index] {
        return Err(CliError::NoTicket);
    }
    Ok(())
}

} // verus!
