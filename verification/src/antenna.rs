//! The antenna service: a command and acknowledgement front for the antenna
//! hardware.
//!
//! A request is a short text with the operation's name inside braces, as in
//! `{ ack }` or `mutation { arm(state: ARM) { success } }`. Only the name is
//! read: the service records which command was asked for last and answers
//! queries about it. Driving the hardware with the command's arguments is
//! the caller's part, which also hands in what the hardware last reported.

use crate::chunks::append_bytes;
use crate::storage::same_bytes;
use vstd::prelude::*;
use vstd::string::*;

verus! {

/// The command that was asked for last.
#[derive(Clone, Copy, Debug, PartialEq, Eq, Structural)]
pub enum AckCommand {
    /// No command yet.
    Nothing,
    /// No-operation.
    Noop,
    /// Power control.
    ControlPower,
    /// Hardware configuration.
    ConfigureHardware,
    /// Hardware test.
    TestHardware,
    /// A raw command passed through.
    IssueRawCommand,
    /// Arming or disarming.
    Arm,
    /// Deployment.
    Deploy,
}

/// What the deployment system last reported.
#[derive(Clone, Copy, Debug, PartialEq, Eq, Structural)]
pub struct DeployStatus {
    /// A burn is under way.
    pub sys_burn_active: bool,
    /// The deployment switches are ignored.
    pub sys_ignore_deploy: bool,
    /// The system is armed.
    pub sys_armed: bool,
}

impl Default for DeployStatus {
    fn default() -> (status: DeployStatus)
        ensures
            status == (DeployStatus {
                sys_burn_active: false,
                sys_ignore_deploy: false,
                sys_armed: false,
            }),
    {
        DeployStatus { sys_burn_active: false, sys_ignore_deploy: false, sys_armed: false }
    }
}

/// What a request asks for.
#[derive(Clone, Copy, Debug, PartialEq, Eq, Structural)]
pub enum Request {
    /// Which command was asked for last.
    Ack,
    /// Whether the system is armed.
    ArmStatus,
    /// A command for the hardware.
    Command(AckCommand),
}

/// Whether `byte` is blank: a space, a tab, a line feed or a carriage
/// return.
pub open spec fn is_blank(byte: u8) -> bool {
    byte == 32 || byte == 9 || byte == 10 || byte == 13
}

/// Whether `byte` may stand in a name: an ASCII letter, a digit or an
/// underscore.
pub open spec fn is_name_byte(byte: u8) -> bool {
    (48 <= byte <= 57) || (65 <= byte <= 90) || (97 <= byte <= 122) || byte == 95
}

/// The first position at or after `at` that holds no blank.
pub open spec fn after_blanks(text: Seq<u8>, at: int) -> int
    decreases text.len() - at,
{
    if 0 <= at < text.len() && is_blank(text[at]) {
        after_blanks(text, at + 1)
    } else {
        at
    }
}

/// The first position at or after `at` that holds no name byte.
pub open spec fn after_name(text: Seq<u8>, at: int) -> int
    decreases text.len() - at,
{
    if 0 <= at < text.len() && is_name_byte(text[at]) {
        after_name(text, at + 1)
    } else {
        at
    }
}

/// The command that the mutation `name` asks for, if it is one.
pub open spec fn command_named(name: Seq<u8>) -> Option<AckCommand> {
    if name == "noop".spec_bytes() {
        Some(AckCommand::Noop)
    } else if name == "controlPower".spec_bytes() {
        Some(AckCommand::ControlPower)
    } else if name == "configureHardware".spec_bytes() {
        Some(AckCommand::ConfigureHardware)
    } else if name == "testHardware".spec_bytes() {
        Some(AckCommand::TestHardware)
    } else if name == "issueRawCommand".spec_bytes() {
        Some(AckCommand::IssueRawCommand)
    } else if name == "arm".spec_bytes() {
        Some(AckCommand::Arm)
    } else if name == "deploy".spec_bytes() {
        Some(AckCommand::Deploy)
    } else {
        None
    }
}

/// What the request `text` asks for, or `None` where it is no request.
///
/// A request is, between blanks: an optional keyword, `query` or
/// `mutation`; an opening brace; and the operation's name. What follows
/// the name is not read.
pub open spec fn parsed(text: Seq<u8>) -> Option<Request> {
    let keyword_start = after_blanks(text, 0);
    let keyword_end = after_name(text, keyword_start);
    let keyword = text.subrange(keyword_start, keyword_end);
    let brace = after_blanks(text, keyword_end);
    if brace >= text.len() || text[brace] != 123 {
        None
    } else {
        let name_start = after_blanks(text, brace + 1);
        let name_end = after_name(text, name_start);
        let name = text.subrange(name_start, name_end);
        if keyword.len() == 0 || keyword == "query".spec_bytes() {
            if name == "ack".spec_bytes() {
                Some(Request::Ack)
            } else if name == "armStatus".spec_bytes() {
                Some(Request::ArmStatus)
            } else {
                None
            }
        } else if keyword == "mutation".spec_bytes() {
            match command_named(name) {
                Some(command) => Some(Request::Command(command)),
                None => None,
            }
        } else {
            None
        }
    }
}

impl AckCommand {
    /// The name of the command in an answer.
    pub open spec fn name(self) -> Seq<u8> {
        match self {
            AckCommand::Nothing => "NONE".spec_bytes(),
            AckCommand::Noop => "NOOP".spec_bytes(),
            AckCommand::ControlPower => "CONTROL_POWER".spec_bytes(),
            AckCommand::ConfigureHardware => "CONFIGURE_HARDWARE".spec_bytes(),
            AckCommand::TestHardware => "TEST_HARDWARE".spec_bytes(),
            AckCommand::IssueRawCommand => "ISSUE_RAW_COMMAND".spec_bytes(),
            AckCommand::Arm => "ARM".spec_bytes(),
            AckCommand::Deploy => "DEPLOY".spec_bytes(),
        }
    }

    /// The name of the mutation that asks for the command.
    pub open spec fn operation(self) -> Seq<u8> {
        match self {
            AckCommand::Nothing => Seq::empty(),
            AckCommand::Noop => "noop".spec_bytes(),
            AckCommand::ControlPower => "controlPower".spec_bytes(),
            AckCommand::ConfigureHardware => "configureHardware".spec_bytes(),
            AckCommand::TestHardware => "testHardware".spec_bytes(),
            AckCommand::IssueRawCommand => "issueRawCommand".spec_bytes(),
            AckCommand::Arm => "arm".spec_bytes(),
            AckCommand::Deploy => "deploy".spec_bytes(),
        }
    }

    /// The name of the command in an answer.
    pub fn label(&self) -> (text: &'static str)
        ensures
            text.spec_bytes() == self.name(),
    {
        match self {
            AckCommand::Nothing => "NONE",
            AckCommand::Noop => "NOOP",
            AckCommand::ControlPower => "CONTROL_POWER",
            AckCommand::ConfigureHardware => "CONFIGURE_HARDWARE",
            AckCommand::TestHardware => "TEST_HARDWARE",
            AckCommand::IssueRawCommand => "ISSUE_RAW_COMMAND",
            AckCommand::Arm => "ARM",
            AckCommand::Deploy => "DEPLOY",
        }
    }

    /// The name of the mutation that asks for the command; empty for
    /// `Nothing`, which no mutation asks for.
    pub fn mutation(&self) -> (text: &'static str)
        ensures
            self != AckCommand::Nothing ==> text.spec_bytes() == self.operation(),
            self == AckCommand::Nothing ==> text.spec_bytes() == "".spec_bytes(),
    {
        match self {
            AckCommand::Nothing => "",
            AckCommand::Noop => "noop",
            AckCommand::ControlPower => "controlPower",
            AckCommand::ConfigureHardware => "configureHardware",
            AckCommand::TestHardware => "testHardware",
            AckCommand::IssueRawCommand => "issueRawCommand",
            AckCommand::Arm => "arm",
            AckCommand::Deploy => "deploy",
        }
    }
}

/// The answer that carries `body` as its message and reports no error.
pub open spec fn answer_with(body: Seq<u8>) -> Seq<u8> {
    "{\"errs\":\"\",\"msg\":{".spec_bytes() + body + "}}".spec_bytes()
}

/// The answer that reports the error `text` and carries no message.
pub open spec fn error_with(text: Seq<u8>) -> Seq<u8> {
    "{\"errs\":\"".spec_bytes() + text + "\",\"msg\":{}}".spec_bytes()
}

/// The answer to `request` of a service whose last command was `last` and
/// whose hardware last reported `deploy`.
pub open spec fn answer_to(
    request: Option<Request>,
    last: AckCommand,
    deploy: Option<DeployStatus>,
) -> Seq<u8> {
    match request {
        Some(Request::Ack) => answer_with(
            "\"ack\":\"".spec_bytes() + last.name() + "\"".spec_bytes(),
        ),
        Some(Request::ArmStatus) => match deploy {
            Some(status) => answer_with(
                "\"armStatus\":\"".spec_bytes() + (if status.sys_armed {
                    "ARMED".spec_bytes()
                } else {
                    "DISARMED".spec_bytes()
                }) + "\"".spec_bytes(),
            ),
            None => error_with("deploy status unavailable".spec_bytes()),
        },
        Some(Request::Command(command)) => answer_with(
            "\"".spec_bytes() + command.operation() + "\":{\"success\":true}".spec_bytes(),
        ),
        None => error_with("unsupported request".spec_bytes()),
    }
}

/// The command that was asked for last, after `request`.
pub open spec fn last_after(request: Option<Request>, last: AckCommand) -> AckCommand {
    match request {
        Some(Request::Command(command)) => command,
        _ => last,
    }
}

/// The first position at or after `at` that holds no blank.
fn skip_blanks(text: &[u8], at: usize) -> (end: usize)
    requires
        at <= text@.len(),
    ensures
        end == after_blanks(text@, at as int),
        at <= end <= text@.len(),
{
    let mut end: usize = at;
    while end < text.len() && (text[end] == 32 || text[end] == 9 || text[end] == 10 || text[end]
        == 13)
        invariant
            at <= end <= text@.len(),
            after_blanks(text@, at as int) == after_blanks(text@, end as int),
        decreases text@.len() - end,
    {
        end = end + 1;
    }
    end
}

/// The first position at or after `at` that holds no name byte.
fn skip_name(text: &[u8], at: usize) -> (end: usize)
    requires
        at <= text@.len(),
    ensures
        end == after_name(text@, at as int),
        at <= end <= text@.len(),
{
    let mut end: usize = at;
    while end < text.len() && ((48 <= text[end] && text[end] <= 57) || (65 <= text[end]
        && text[end] <= 90) || (97 <= text[end] && text[end] <= 122) || text[end] == 95)
        invariant
            at <= end <= text@.len(),
            after_name(text@, at as int) == after_name(text@, end as int),
        decreases text@.len() - end,
    {
        end = end + 1;
    }
    end
}

/// The command that the mutation `name` asks for, if it is one.
fn command_of(name: &[u8]) -> (command: Option<AckCommand>)
    ensures
        command == command_named(name@),
{
    if same_bytes(name, "noop".as_bytes()) {
        Some(AckCommand::Noop)
    } else if same_bytes(name, "controlPower".as_bytes()) {
        Some(AckCommand::ControlPower)
    } else if same_bytes(name, "configureHardware".as_bytes()) {
        Some(AckCommand::ConfigureHardware)
    } else if same_bytes(name, "testHardware".as_bytes()) {
        Some(AckCommand::TestHardware)
    } else if same_bytes(name, "issueRawCommand".as_bytes()) {
        Some(AckCommand::IssueRawCommand)
    } else if same_bytes(name, "arm".as_bytes()) {
        Some(AckCommand::Arm)
    } else if same_bytes(name, "deploy".as_bytes()) {
        Some(AckCommand::Deploy)
    } else {
        None
    }
}

/// What the request `text` asks for, or `None` where it is no request.
pub fn parse_request(text: &str) -> (request: Option<Request>)
    ensures
        request == parsed(text.spec_bytes()),
{
    let bytes = text.as_bytes();
    let keyword_start = skip_blanks(bytes, 0);
    let keyword_end = skip_name(bytes, keyword_start);
    let keyword = vstd::slice::slice_subrange(bytes, keyword_start, keyword_end);
    let brace = skip_blanks(bytes, keyword_end);
    if brace >= bytes.len() || bytes[brace] != 123 {
        return None;
    }
    let name_start = skip_blanks(bytes, brace + 1);
    let name_end = skip_name(bytes, name_start);
    let name = vstd::slice::slice_subrange(bytes, name_start, name_end);
    if keyword.len() == 0 || same_bytes(keyword, "query".as_bytes()) {
        if same_bytes(name, "ack".as_bytes()) {
            Some(Request::Ack)
        } else if same_bytes(name, "armStatus".as_bytes()) {
            Some(Request::ArmStatus)
        } else {
            None
        }
    } else if same_bytes(keyword, "mutation".as_bytes()) {
        match command_of(name) {
            Some(command) => Some(Request::Command(command)),
            None => None,
        }
    } else {
        None
    }
}

/// The antenna service: the command asked for last, and what the hardware
/// last reported.
#[derive(Clone, Copy, Debug, PartialEq, Eq, Structural)]
pub struct Subsystem {
    /// The command that was asked for last.
    pub last_command: AckCommand,
    /// What the deployment system last reported; `None` where it could not
    /// be read.
    pub deploy: Option<DeployStatus>,
}

impl Subsystem {
    /// A service that has been asked for no command yet.
    pub fn new(deploy: Option<DeployStatus>) -> (service: Subsystem)
        ensures
            service.last_command == AckCommand::Nothing,
            service.deploy == deploy,
    {
        Subsystem { last_command: AckCommand::Nothing, deploy }
    }

    /// Takes what the hardware reports now.
    pub fn report(&mut self, deploy: Option<DeployStatus>)
        ensures
            final(self).deploy == deploy,
            final(self).last_command == old(self).last_command,
    {
        self.deploy = deploy;
    }

    /// Answers the request `query`. A command is recorded as the last one
    /// asked for; a query changes nothing.
    pub fn process(&mut self, query: &str) -> (answer: Vec<u8>)
        ensures
            answer@ == answer_to(
                parsed(query.spec_bytes()),
                old(self).last_command,
                old(self).deploy,
            ),
            final(self).last_command == last_after(
                parsed(query.spec_bytes()),
                old(self).last_command,
            ),
            final(self).deploy == old(self).deploy,
    {
        let request = parse_request(query);
        let mut out: Vec<u8> = Vec::new();
        match request {
            Some(Request::Ack) => {
                append_bytes(&mut out, "{\"errs\":\"\",\"msg\":{".as_bytes());
                append_bytes(&mut out, "\"ack\":\"".as_bytes());
                append_bytes(&mut out, self.last_command.label().as_bytes());
                append_bytes(&mut out, "\"".as_bytes());
                append_bytes(&mut out, "}}".as_bytes());
            },
            Some(Request::ArmStatus) => match self.deploy {
                Some(status) => {
                    append_bytes(&mut out, "{\"errs\":\"\",\"msg\":{".as_bytes());
                    append_bytes(&mut out, "\"armStatus\":\"".as_bytes());
                    if status.sys_armed {
                        append_bytes(&mut out, "ARMED".as_bytes());
                    } else {
                        append_bytes(&mut out, "DISARMED".as_bytes());
                    }
                    append_bytes(&mut out, "\"".as_bytes());
                    append_bytes(&mut out, "}}".as_bytes());
                },
                None => {
                    append_bytes(&mut out, "{\"errs\":\"".as_bytes());
                    append_bytes(&mut out, "deploy status unavailable".as_bytes());
                    append_bytes(&mut out, "\",\"msg\":{}}".as_bytes());
                },
            },
            Some(Request::Command(command)) => {
                self.last_command = command;
                append_bytes(&mut out, "{\"errs\":\"\",\"msg\":{".as_bytes());
                append_bytes(&mut out, "\"".as_bytes());
                if command != AckCommand::Nothing {
                    append_bytes(&mut out, command.mutation().as_bytes());
                }
                append_bytes(&mut out, "\":{\"success\":true}".as_bytes());
                append_bytes(&mut out, "}}".as_bytes());
            },
            None => {
                append_bytes(&mut out, "{\"errs\":\"".as_bytes());
                append_bytes(&mut out, "unsupported request".as_bytes());
                append_bytes(&mut out, "\",\"msg\":{}}".as_bytes());
            },
        }
        assert(out@ =~= answer_to(request, old(self).last_command, old(self).deploy));
        out
    }
}

} // verus!
