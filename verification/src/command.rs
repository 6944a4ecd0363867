//! The commands that a line of input can stand for.
use vstd::prelude::*;

use crate::text;

verus! {

/// The names that the shell answers itself.
pub const BUILT_IN_COMMANDS: [&'static str; 9] = [
    "echo",
    "type",
    "exit",
    "pwd",
    "cd",
    "complete",
    "jobs",
    "history",
    "declare",
];

/// A line of input, understood.
#[derive(Debug, PartialEq, Eq)]
pub enum Command {
    ExitCommand,
    PwdCommand { stdout_file: Option<String>, stdout_append: bool },
    CdCommand { directory: exeCmd },
    EchoCommand { display_string: exeCmd },
    TypeCommand { command_name: exeCmd },
    ExecCommand { exec_name: exeCmd },
    CompleteCommand {
        subcommnad: CompleteAction,
        stdout_file: Option<String>,
        stdout_append: bool,
        stderr_file: Option<String>,
        stderr_append: bool,
    },
    JobsCommand { stdout_file: Option<String>, stdout_append: bool },
    HistoryCommand {
        stdout_file: Option<String>,
        stdout_append: bool,
        count: Option<usize>,
        read_file: Option<String>,
        write_file: Option<String>,
        append_file: Option<String>,
    },
    DeclareCommand {
        subcommand: DeclareAction,
        stdout_file: Option<String>,
        stdout_append: bool,
        stderr_file: Option<String>,
        stderr_append: bool,
    },
    CommandChain { segments: Vec<ChainSegment>, background: bool },
    PipeCommand { commands: Vec<Command>, background: bool },
    Noop,
    CommandNotFound,
}

/// What joins a part of a chain to the next one.
#[derive(Debug, Clone, Copy, PartialEq, Eq, Structural)]
pub enum ChainOp {
    And,
    Or,
    End,
}

/// A part of a chain: its words and what follows them.
#[derive(Debug, PartialEq, Eq)]
pub struct ChainSegment {
    pub tokens: Vec<String>,
    pub operator: ChainOp,
}

/// Whether a background job still runs.
#[derive(Debug, Clone, Copy, PartialEq, Eq, Structural)]
pub enum JobStatus {
    Running,
    Done,
}

/// A background job.
#[derive(Debug, Clone, PartialEq, Eq)]
pub struct Job {
    pub job_number: usize,
    pub pid: u32,
    pub command: String,
    pub status: JobStatus,
    pub notified: bool,
}

/// What `complete` is asked for.
#[derive(Debug, PartialEq, Eq)]
pub enum CompleteAction {
    Register { script: String, command: String },
    Print { command: String },
    Remove { command: String },
    Error(String),
    Empty,
}

/// What `declare` is asked for.
#[derive(Debug, PartialEq, Eq)]
pub enum DeclareAction {
    Print { name: String },
    Assign { name: String, value: String },
    Error(String),
    Empty,
}

/// A command together with how to run it.
#[allow(non_camel_case_types)]
#[derive(Debug, PartialEq, Eq)]
pub struct exeCmd {
    pub name: String,
    pub path: Option<String>,
    pub args: Vec<String>,
    pub stdout_file: Option<String>,
    pub stdout_append: bool,
    pub stderr_file: Option<String>,
    pub stderr_append: bool,
    pub background: bool,
}

/// What a `Command` says.
pub enum CommandView {
    ExitCommand,
    PwdCommand { stdout_file: Option<Seq<char>>, stdout_append: bool },
    CdCommand { directory: ExecView },
    EchoCommand { display_string: ExecView },
    TypeCommand { command_name: ExecView },
    ExecCommand { exec_name: ExecView },
    CompleteCommand {
        subcommnad: CompleteView,
        stdout_file: Option<Seq<char>>,
        stdout_append: bool,
        stderr_file: Option<Seq<char>>,
        stderr_append: bool,
    },
    JobsCommand { stdout_file: Option<Seq<char>>, stdout_append: bool },
    HistoryCommand {
        stdout_file: Option<Seq<char>>,
        stdout_append: bool,
        count: Option<usize>,
        read_file: Option<Seq<char>>,
        write_file: Option<Seq<char>>,
        append_file: Option<Seq<char>>,
    },
    DeclareCommand {
        subcommand: DeclareView,
        stdout_file: Option<Seq<char>>,
        stdout_append: bool,
        stderr_file: Option<Seq<char>>,
        stderr_append: bool,
    },
    CommandChain { segments: Seq<SegmentView>, background: bool },
    PipeCommand { commands: Seq<CommandView>, background: bool },
    Noop,
    CommandNotFound,
}

/// What a `ChainSegment` says.
pub struct SegmentView {
    pub tokens: Seq<Seq<char>>,
    pub operator: ChainOp,
}

/// What a `Job` says.
pub struct JobView {
    pub job_number: usize,
    pub pid: u32,
    pub command: Seq<char>,
    pub status: JobStatus,
    pub notified: bool,
}

/// What a `CompleteAction` says.
pub enum CompleteView {
    Register { script: Seq<char>, command: Seq<char> },
    Print { command: Seq<char> },
    Remove { command: Seq<char> },
    Error(Seq<char>),
    Empty,
}

/// What a `DeclareAction` says.
pub enum DeclareView {
    Print { name: Seq<char> },
    Assign { name: Seq<char>, value: Seq<char> },
    Error(Seq<char>),
    Empty,
}

/// What an `exeCmd` says.
pub struct ExecView {
    pub name: Seq<char>,
    pub path: Option<Seq<char>>,
    pub args: Seq<Seq<char>>,
    pub stdout_file: Option<Seq<char>>,
    pub stdout_append: bool,
    pub stderr_file: Option<Seq<char>>,
    pub stderr_append: bool,
    pub background: bool,
}

impl View for exeCmd {
    type V = ExecView;

    open spec fn view(&self) -> ExecView {
        ExecView {
            name: self.name@,
            path: text::opt_text(self.path),
            args: text::texts(self.args@),
            stdout_file: text::opt_text(self.stdout_file),
            stdout_append: self.stdout_append,
            stderr_file: text::opt_text(self.stderr_file),
            stderr_append: self.stderr_append,
            background: self.background,
        }
    }
}

impl View for ChainSegment {
    type V = SegmentView;

    open spec fn view(&self) -> SegmentView {
        SegmentView { tokens: text::texts(self.tokens@), operator: self.operator }
    }
}

impl View for Job {
    type V = JobView;

    open spec fn view(&self) -> JobView {
        JobView {
            job_number: self.job_number,
            pid: self.pid,
            command: self.command@,
            status: self.status,
            notified: self.notified,
        }
    }
}

impl View for CompleteAction {
    type V = CompleteView;

    open spec fn view(&self) -> CompleteView {
        match self {
            CompleteAction::Register { script, command } => CompleteView::Register {
                script: script@,
                command: command@,
            },
            CompleteAction::Print { command } => CompleteView::Print { command: command@ },
            CompleteAction::Remove { command } => CompleteView::Remove { command: command@ },
            CompleteAction::Error(message) => CompleteView::Error(message@),
            CompleteAction::Empty => CompleteView::Empty,
        }
    }
}

impl View for DeclareAction {
    type V = DeclareView;

    open spec fn view(&self) -> DeclareView {
        match self {
            DeclareAction::Print { name } => DeclareView::Print { name: name@ },
            DeclareAction::Assign { name, value } => DeclareView::Assign { name: name@, value: value@ },
            DeclareAction::Error(message) => DeclareView::Error(message@),
            DeclareAction::Empty => DeclareView::Empty,
        }
    }
}

/// What each part of a chain says.
pub open spec fn segment_views(segments: Seq<ChainSegment>) -> Seq<SegmentView> {
    segments.map_values(|s: ChainSegment| s@)
}

/// What each job of a list says.
pub open spec fn job_views(jobs: Seq<Job>) -> Seq<JobView> {
    jobs.map_values(|j: Job| j@)
}

impl View for Command {
    type V = CommandView;

    open spec fn view(&self) -> CommandView
        decreases self,
    {
        match self {
            Command::ExitCommand => CommandView::ExitCommand,
            Command::PwdCommand { stdout_file, stdout_append } => CommandView::PwdCommand {
                stdout_file: text::opt_text(*stdout_file),
                stdout_append: *stdout_append,
            },
            Command::CdCommand { directory } => CommandView::CdCommand { directory: directory@ },
            Command::EchoCommand { display_string } => CommandView::EchoCommand {
                display_string: display_string@,
            },
            Command::TypeCommand { command_name } => CommandView::TypeCommand {
                command_name: command_name@,
            },
            Command::ExecCommand { exec_name } => CommandView::ExecCommand {
                exec_name: exec_name@,
            },
            Command::CompleteCommand {
                subcommnad,
                stdout_file,
                stdout_append,
                stderr_file,
                stderr_append,
            } => CommandView::CompleteCommand {
                subcommnad: subcommnad@,
                stdout_file: text::opt_text(*stdout_file),
                stdout_append: *stdout_append,
                stderr_file: text::opt_text(*stderr_file),
                stderr_append: *stderr_append,
            },
            Command::JobsCommand { stdout_file, stdout_append } => CommandView::JobsCommand {
                stdout_file: text::opt_text(*stdout_file),
                stdout_append: *stdout_append,
            },
            Command::HistoryCommand {
                stdout_file,
                stdout_append,
                count,
                read_file,
                write_file,
                append_file,
            } => CommandView::HistoryCommand {
                stdout_file: text::opt_text(*stdout_file),
                stdout_append: *stdout_append,
                count: *count,
                read_file: text::opt_text(*read_file),
                write_file: text::opt_text(*write_file),
                append_file: text::opt_text(*append_file),
            },
            Command::DeclareCommand {
                subcommand,
                stdout_file,
                stdout_append,
                stderr_file,
                stderr_append,
            } => CommandView::DeclareCommand {
                subcommand: subcommand@,
                stdout_file: text::opt_text(*stdout_file),
                stdout_append: *stdout_append,
                stderr_file: text::opt_text(*stderr_file),
                stderr_append: *stderr_append,
            },
            Command::CommandChain { segments, background } => CommandView::CommandChain {
                segments: segment_views(segments@),
                background: *background,
            },
            Command::PipeCommand { commands, background } => CommandView::PipeCommand {
                commands: Seq::new(
                    commands@.len(),
                    |i: int|
                        if 0 <= i < commands@.len() {
                            commands@[i].view()
                        } else {
                            arbitrary()
                        },
                ),
                background: *background,
            },
            Command::Noop => CommandView::Noop,
            Command::CommandNotFound => CommandView::CommandNotFound,
        }
    }
}

/// What each command of a list says.
pub open spec fn command_views(commands: Seq<Command>) -> Seq<CommandView> {
    commands.map_values(|c: Command| c@)
}

/// A pipe says what its commands say.
pub proof fn lemma_pipe_view(commands: Vec<Command>, background: bool)
    ensures
        (Command::PipeCommand { commands, background })@ == (CommandView::PipeCommand {
            commands: command_views(commands@),
            background,
        }),
{
    let pipe = Command::PipeCommand { commands, background };
    reveal_with_fuel(<Command as View>::view, 2);
    if let CommandView::PipeCommand { commands: inner, .. } = pipe@ {
        assert forall|i: int| 0 <= i < commands@.len() implies inner[i] == command_views(
            commands@,
        )[i] by {
            assert(command_views(commands@)[i] == commands@[i]@);
        }
        assert(inner =~= command_views(commands@));
    }
}

/// What `exeCmd::new` makes of a name, a path and arguments: nothing is redirected, and the
/// command runs in the foreground.
pub open spec fn plain_exec(
    name: Seq<char>,
    path: Option<Seq<char>>,
    args: Seq<Seq<char>>,
) -> ExecView {
    ExecView {
        name,
        path,
        args,
        stdout_file: None,
        stdout_append: false,
        stderr_file: None,
        stderr_append: false,
        background: false,
    }
}

impl exeCmd {
    /// The command with that name, path and arguments, in the foreground and with nothing
    /// redirected.
    pub fn new(name: &str, path: Option<String>, args: Vec<String>) -> (r: Self)
        ensures
            r@ == plain_exec(name@, text::opt_text(path), text::texts(args@)),
    {
        exeCmd {
            name: name.to_owned(),
            path,
            args,
            stdout_file: None,
            stdout_append: false,
            stderr_file: None,
            stderr_append: false,
            background: false,
        }
    }
}

/// A command that is made of a name, a path and arguments has these, runs in the foreground, and
/// sends nothing anywhere.
pub proof fn law_plain_commands(name: Seq<char>, path: Option<Seq<char>>, args: Seq<Seq<char>>)
    ensures
        plain_exec(name, path, args).name == name,
        plain_exec(name, path, args).path == path,
        plain_exec(name, path, args).args == args,
        plain_exec(name, path, args).stdout_file is None,
        plain_exec(name, path, args).stderr_file is None,
        !plain_exec(name, path, args).stdout_append,
        !plain_exec(name, path, args).stderr_append,
        !plain_exec(name, path, args).background,
{
}

} // verus!
