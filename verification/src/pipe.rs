//! Running the commands of a pipe, one after the other.
use vstd::prelude::*;

use crate::command;
use crate::command::{Command, CommandView};
use crate::dispatch;
use crate::dispatch::{Action, ActionView};
use crate::output;
use crate::output::{launch, ExecPlan, Output, PlanView, Sink};
use crate::shell::{Shell, ShellView};
use crate::text;
use crate::text::{join, push_text};

verus! {

/// What one command of a pipe hands to the next.
#[derive(Debug, PartialEq, Eq)]
pub enum PipeData {
    Text(String),
    Bytes(Vec<u8>),
}

/// What `PipeData` says.
pub enum DataView {
    Text(Seq<char>),
    Bytes(Seq<u8>),
}

impl View for PipeData {
    type V = DataView;

    open spec fn view(&self) -> DataView {
        match self {
            PipeData::Text(s) => DataView::Text(s@),
            PipeData::Bytes(b) => DataView::Bytes(b@),
        }
    }
}

/// What optional `PipeData` says.
pub open spec fn opt_data(data: Option<PipeData>) -> Option<DataView> {
    match data {
        Some(d) => Some(d@),
        None => None,
    }
}

/// A pipe that is being run.
#[derive(Debug, PartialEq, Eq)]
pub struct PipeRun {
    /// The commands that have not run yet.
    pub commands: Vec<Command>,
    /// Whether the shell does not wait for the pipe.
    pub background: bool,
    /// What the command before the next one has handed on.
    pub prev_output: Option<PipeData>,
}

/// What a `PipeRun` says.
#[verifier::ext_equal]
pub struct PipeView {
    pub commands: Seq<CommandView>,
    pub background: bool,
    pub prev_output: Option<DataView>,
}

impl View for PipeRun {
    type V = PipeView;

    open spec fn view(&self) -> PipeView {
        PipeView {
            commands: command::command_views(self.commands@),
            background: self.background,
            prev_output: opt_data(self.prev_output),
        }
    }
}

/// Where a program of a pipe reads from.
#[derive(Debug, Clone, Copy, PartialEq, Eq, Structural)]
pub enum Stdin {
    /// From what the commands before it have handed on.
    Handed,
    /// From where the shell reads.
    Inherit,
    /// From nothing.
    Null,
}

/// What is to be done next for a pipe.
#[derive(Debug, PartialEq, Eq)]
pub enum PipeAction {
    /// The pipe has been run.
    End,
    /// Do what is left to do for a command that the shell answers itself.
    Do(Action),
    /// Print the text as it is.
    Print(String),
    /// Run a program. Where its output is not redirected, what the last one prints goes where
    /// the output of the shell goes, and what any other prints is handed on.
    Spawn { plan: ExecPlan, stdin: Stdin, last: bool },
}

/// What a `PipeAction` says.
pub enum PipeActionView {
    End,
    Do(ActionView),
    Print(Seq<char>),
    Spawn { plan: PlanView, stdin: Stdin, last: bool },
}

impl View for PipeAction {
    type V = PipeActionView;

    open spec fn view(&self) -> PipeActionView {
        match self {
            PipeAction::End => PipeActionView::End,
            PipeAction::Do(action) => PipeActionView::Do(action@),
            PipeAction::Print(s) => PipeActionView::Print(s@),
            PipeAction::Spawn { plan, stdin, last } => PipeActionView::Spawn {
                plan: plan@,
                stdin: *stdin,
                last: *last,
            },
        }
    }
}

/// A pipe before its first command.
pub open spec fn pipe_start(commands: Seq<CommandView>, background: bool) -> PipeView {
    PipeView { commands, background, prev_output: None }
}

/// Whether the next command of a pipe is its last.
pub open spec fn at_last(pipe: PipeView) -> bool {
    pipe.commands.len() == 1
}

/// The text that an action prints on the terminal, if that is what it does.
pub open spec fn printed_text(action: ActionView) -> Option<Seq<char>> {
    match action {
        ActionView::Emit(output) => if output.sink is Terminal {
            Some(output.text + "\n"@)
        } else {
            None
        },
        _ => None,
    }
}

/// The pipe behind its next command, with what that hands on.
pub open spec fn behind(pipe: PipeView, handed: Option<DataView>) -> PipeView {
    PipeView { commands: pipe.commands.skip(1), prev_output: handed, ..pipe }
}

/// What comes next in a pipe, and what becomes of the shell.
///
/// A program waits to be run. A pipe or a chain within the pipe is passed over, and hands on
/// nothing. Any other command is answered by the shell: what that prints on the terminal is
/// printed by the last command and handed on by any other, and what else is left to do is done.
pub open spec fn piped(
    shell: ShellView,
    pipe: PipeView,
    line: Seq<char>,
    cwd: Seq<char>,
) -> (ShellView, PipeView, PipeActionView) {
    if pipe.commands.len() == 0 {
        (shell, pipe, PipeActionView::End)
    } else {
        match pipe.commands[0] {
            CommandView::ExecCommand { exec_name } => (
                shell,
                pipe,
                PipeActionView::Spawn {
                    plan: output::launched(exec_name),
                    stdin: if pipe.prev_output is Some {
                        Stdin::Handed
                    } else if pipe.background {
                        Stdin::Null
                    } else {
                        Stdin::Inherit
                    },
                    last: at_last(pipe),
                },
            ),
            CommandView::PipeCommand { .. } | CommandView::CommandChain { .. } => (
                shell,
                behind(pipe, None),
                PipeActionView::Do(ActionView::Nothing),
            ),
            command => {
                let (after, action) = dispatch::dispatched(shell, command, line, cwd);
                match printed_text(action) {
                    Some(printed) => if at_last(pipe) {
                        (after, behind(pipe, None), PipeActionView::Print(printed))
                    } else {
                        (
                            after,
                            behind(pipe, Some(DataView::Text(printed))),
                            PipeActionView::Do(ActionView::Nothing),
                        )
                    },
                    None => (
                        after,
                        behind(pipe, Some(DataView::Text(Seq::empty()))),
                        PipeActionView::Do(action),
                    ),
                }
            },
        }
    }
}

/// The pipe after its next program could not be run: what was to be handed to it stays.
pub open spec fn unspawned(pipe: PipeView) -> PipeView {
    behind(pipe, pipe.prev_output)
}

/// The pipe after its next program has run and has printed this.
pub open spec fn spawned(pipe: PipeView, printed: Seq<u8>) -> PipeView {
    behind(
        pipe,
        if at_last(pipe) {
            None
        } else {
            Some(DataView::Bytes(printed))
        },
    )
}

/// The name of a command within the name of the job that runs its pipe.
pub open spec fn stage_text(command: CommandView) -> Seq<char> {
    match command {
        CommandView::ExecCommand { exec_name } => exec_name.name,
        _ => "builtin"@,
    }
}

/// The name of the job that runs a pipe.
pub open spec fn pipe_text(commands: Seq<CommandView>) -> Seq<char> {
    text::joined(commands.map_values(|c: CommandView| stage_text(c)), " | "@)
}

/// The name of the job that runs a pipe.
pub fn pipe_job_text(commands: &Vec<Command>) -> (r: String)
    ensures
        r@ == pipe_text(command::command_views(commands@)),
{
    let ghost all = command::command_views(commands@);
    let ghost whole = all.map_values(|c: CommandView| stage_text(c));
    let mut parts: Vec<String> = Vec::new();
    let mut i: usize = 0;
    assert(text::texts(parts@) =~= whole.take(0));
    while i < commands.len()
        invariant
            i <= commands@.len(),
            all == command::command_views(commands@),
            whole == all.map_values(|c: CommandView| stage_text(c)),
            text::texts(parts@) == whole.take(i as int),
        decreases commands@.len() - i,
    {
        assert(all[i as int] == commands@[i as int]@);
        let part: String = match &commands[i] {
            Command::ExecCommand { exec_name } => exec_name.name.clone(),
            _ => "builtin".to_string(),
        };
        push_text(&mut parts, part);
        i += 1;
        assert(text::texts(parts@) =~= whole.take(i as int));
    }
    assert(whole.take(i as int) =~= whole);
    join(&parts, " | ")
}

impl PipeRun {
    /// A pipe before its first command.
    pub fn new(commands: Vec<Command>, background: bool) -> (r: PipeRun)
        ensures
            r@ == pipe_start(command::command_views(commands@), background),
    {
        PipeRun { commands, background, prev_output: None }
    }

    /// What comes next in the pipe.
    pub fn step(&mut self, shell: &mut Shell, line: &str, cwd: &str) -> (r: PipeAction)
        ensures
            (final(shell)@, final(self)@, r@) == piped(old(shell)@, old(self)@, line@, cwd@),
    {
        if self.commands.len() == 0 {
            return PipeAction::End;
        }
        let last: bool = self.commands.len() == 1;
        assert(self@.commands[0] == self.commands@[0]@);
        if let Command::ExecCommand { exec_name } = &self.commands[0] {
            let stdin = if self.prev_output.is_some() {
                Stdin::Handed
            } else if self.background {
                Stdin::Null
            } else {
                Stdin::Inherit
            };
            return PipeAction::Spawn { plan: launch(exec_name), stdin, last };
        }
        let ghost all = self@.commands;
        let command: Command = self.commands.remove(0);
        assert(command::command_views(self.commands@) =~= all.skip(1));
        let nested: bool = match &command {
            Command::PipeCommand { commands, background } => {
                proof {
                    command::lemma_pipe_view(*commands, *background);
                }
                true
            },
            Command::CommandChain { .. } => true,
            _ => false,
        };
        if nested {
            self.prev_output = None;
            return PipeAction::Do(Action::Nothing);
        }
        match shell.dispatch(command, line, cwd) {
            Action::Emit(Output { text, sink: Sink::Terminal }) => {
                let mut printed: String = text;
                printed.append("\n");
                if last {
                    self.prev_output = None;
                    PipeAction::Print(printed)
                } else {
                    self.prev_output = Some(PipeData::Text(printed));
                    PipeAction::Do(Action::Nothing)
                }
            },
            action => {
                let empty = String::new();
                assert(empty@ =~= Seq::empty());
                self.prev_output = Some(PipeData::Text(empty));
                PipeAction::Do(action)
            },
        }
    }

    /// Notes that the next program could not be run.
    pub fn spawn_failed(&mut self)
        requires
            old(self).commands@.len() > 0,
        ensures
            final(self)@ == unspawned(old(self)@),
    {
        let ghost all = self@.commands;
        self.commands.remove(0);
        assert(command::command_views(self.commands@) =~= all.skip(1));
    }

    /// Notes that the next program has run and has printed this.
    pub fn spawn_finished(&mut self, printed: Vec<u8>)
        requires
            old(self).commands@.len() > 0,
        ensures
            final(self)@ == spawned(old(self)@, printed@),
    {
        let ghost all = self@.commands;
        let last: bool = self.commands.len() == 1;
        self.commands.remove(0);
        assert(command::command_views(self.commands@) =~= all.skip(1));
        self.prev_output = if last {
            None
        } else {
            Some(PipeData::Bytes(printed))
        };
    }
}

/// A pipe moves on: a step does nothing only at the end and where a program is to be run, and
/// then the pipe moves on when that has been run or could not be. Each time one command less is
/// left, so the pipe ends.
pub proof fn law_pipe_moves_on(
    shell: ShellView,
    pipe: PipeView,
    line: Seq<char>,
    cwd: Seq<char>,
    printed: Seq<u8>,
)
    ensures
        ({
            let (after, next, action) = piped(shell, pipe, line, cwd);
            match action {
                PipeActionView::End => pipe.commands.len() == 0 && next == pipe && after == shell,
                PipeActionView::Spawn { .. } => pipe.commands.len() > 0 && next == pipe && after
                    == shell,
                _ => pipe.commands.len() > 0 && next.commands == pipe.commands.skip(1),
            }
        }),
        unspawned(pipe).commands == pipe.commands.skip(1),
        spawned(pipe, printed).commands == pipe.commands.skip(1),
{
}

/// Only the last command of a pipe prints; any other hands on what it prints, whether it is a
/// program or the shell answers it itself, and a program behind it reads that. A command that
/// prints nothing hands on an empty text.
pub proof fn law_output_is_handed_on(
    shell: ShellView,
    pipe: PipeView,
    line: Seq<char>,
    cwd: Seq<char>,
    printed: Seq<u8>,
)
    requires
        pipe.commands.len() > 1,
    ensures
        ({
            let command = pipe.commands[0];
            let (after, next, action) = piped(shell, pipe, line, cwd);
            let ran = spawned(pipe, printed);
            &&& !(action is Print)
            &&& action matches PipeActionView::Spawn { last, .. } ==> !last
            &&& ran.prev_output == Some(DataView::Bytes(printed))
            &&& !(command is ExecCommand) && !(command is PipeCommand) && !(
            command is CommandChain) ==> {
                let (done, answer) = dispatch::dispatched(shell, command, line, cwd);
                &&& after == done
                &&& next.prev_output == Some(
                    DataView::Text(
                        match printed_text(answer) {
                            Some(text) => text,
                            None => Seq::empty(),
                        },
                    ),
                )
                &&& piped(after, next, line, cwd).2 matches PipeActionView::Spawn { stdin, .. }
                    ==> stdin == Stdin::Handed
            }
            &&& piped(shell, ran, line, cwd).2 matches PipeActionView::Spawn { stdin, .. } ==> stdin
                == Stdin::Handed
        }),
{
}

/// Each program of a pipe is run by its file, or else by its name, with just the arguments of its
/// command: as many, and each in its place. Its streams go where its redirections say. It reads
/// what was handed on, if anything was, and else what the shell reads, or nothing in the
/// background.
pub proof fn law_programs_of_a_pipe(
    shell: ShellView,
    pipe: PipeView,
    cmd: command::ExecView,
    line: Seq<char>,
    cwd: Seq<char>,
)
    requires
        pipe.commands.len() > 0,
        pipe.commands[0] == (CommandView::ExecCommand { exec_name: cmd }),
    ensures
        match piped(shell, pipe, line, cwd).2 {
            PipeActionView::Spawn { plan, stdin, last } => {
                &&& plan.args.len() == cmd.args.len()
                &&& forall|i: int| 0 <= i < cmd.args.len() ==> plan.args[i] == cmd.args[i]
                &&& cmd.path is Some ==> cmd.path == Some(plan.program)
                &&& cmd.path is None ==> plan.program == cmd.name
                &&& plan.stdout is Inherit <==> cmd.stdout_file is None
                &&& plan.stdout matches output::TargetView::Append(path) ==> cmd.stdout_file == Some(path)
                    && cmd.stdout_append
                &&& plan.stdout matches output::TargetView::Create(path) ==> cmd.stdout_file == Some(path)
                    && !cmd.stdout_append
                &&& plan.stderr is Inherit <==> cmd.stderr_file is None
                &&& plan.stderr matches output::TargetView::Append(path) ==> cmd.stderr_file == Some(path)
                    && cmd.stderr_append
                &&& plan.stderr matches output::TargetView::Create(path) ==> cmd.stderr_file == Some(path)
                    && !cmd.stderr_append
                &&& stdin == Stdin::Handed <==> pipe.prev_output is Some
                &&& stdin == Stdin::Null <==> pipe.prev_output is None && pipe.background
                &&& last <==> pipe.commands.len() == 1
            },
            _ => false,
        },
{
    output::law_programs_get_their_arguments(cmd);
    output::law_streams_go_where_they_are_sent(cmd);
    if let Some(path) = cmd.path {
        output::law_programs_are_run_by_their_file(cmd, path);
    } else {
        output::law_programs_are_run_by_their_file(cmd, Seq::empty());
    }
}

/// A program that could not be run leaves what was handed to it for the next command, and one
/// that ran hands on what it printed, if there is a next command, and else nothing. The pipe
/// stays in the foreground or the background.
pub proof fn law_after_a_program(pipe: PipeView, printed: Seq<u8>)
    requires
        pipe.commands.len() > 0,
    ensures
        unspawned(pipe).prev_output == pipe.prev_output,
        pipe.commands.len() > 1 ==> spawned(pipe, printed).prev_output == Some(
            DataView::Bytes(printed),
        ),
        pipe.commands.len() == 1 ==> spawned(pipe, printed).prev_output is None,
        unspawned(pipe).background == pipe.background,
        spawned(pipe, printed).background == pipe.background,
{
}

/// A pipe begins with its first command and with nothing handed on.
pub proof fn law_start_of_a_pipe(commands: Seq<CommandView>, background: bool)
    ensures
        pipe_start(commands, background).commands == commands,
        pipe_start(commands, background).background == background,
        pipe_start(commands, background).prev_output is None,
{
}

/// What a command that the shell answers itself prints on the terminal is its text and a line
/// feed: the last command prints it, and any other hands it on. What goes into a file goes
/// there, and what else is left to do is done.
pub proof fn law_answers_of_the_shell(
    shell: ShellView,
    pipe: PipeView,
    line: Seq<char>,
    cwd: Seq<char>,
)
    requires
        pipe.commands.len() > 0,
        !(pipe.commands[0] is ExecCommand),
        !(pipe.commands[0] is PipeCommand),
        !(pipe.commands[0] is CommandChain),
    ensures
        ({
            let (after, next, action) = piped(shell, pipe, line, cwd);
            let (done, answer) = dispatch::dispatched(shell, pipe.commands[0], line, cwd);
            let on_terminal = answer is Emit && answer->Emit_0.sink is Terminal;
            &&& after == done
            &&& next.background == pipe.background
            &&& on_terminal && pipe.commands.len() == 1 ==> action == PipeActionView::Print(
                answer->Emit_0.text.push('\n'),
            )
            &&& on_terminal && pipe.commands.len() > 1 ==> next.prev_output == Some(
                DataView::Text(answer->Emit_0.text.push('\n')),
            ) && action == PipeActionView::Do(ActionView::Nothing)
            &&& !on_terminal ==> action == PipeActionView::Do(answer) && next.prev_output == Some(
                DataView::Text(Seq::empty()),
            )
        }),
{
    reveal_strlit("\n");
    let (done, answer) = dispatch::dispatched(shell, pipe.commands[0], line, cwd);
    if answer is Emit {
        let text = answer->Emit_0.text;
        assert(text + "\n"@ =~= text.push('\n'));
    }
}

/// A pipe or a chain within a pipe does nothing and hands on nothing.
pub proof fn law_nested_commands_are_passed_over(
    shell: ShellView,
    pipe: PipeView,
    line: Seq<char>,
    cwd: Seq<char>,
)
    requires
        pipe.commands.len() > 0,
        pipe.commands[0] is PipeCommand || pipe.commands[0] is CommandChain,
    ensures
        piped(shell, pipe, line, cwd).0 == shell,
        piped(shell, pipe, line, cwd).1.prev_output is None,
        piped(shell, pipe, line, cwd).2 == PipeActionView::Do(ActionView::Nothing),
{
}

/// The name of the job that runs a pipe is made of the names of its programs, one behind the
/// other, with ` | ` between each two; what the shell answers itself is called `builtin`.
pub proof fn law_name_of_a_pipe(first: Seq<CommandView>, second: Seq<CommandView>)
    requires
        first.len() > 0,
        second.len() > 0,
    ensures
        pipe_text(first + second) == pipe_text(first) + " | "@ + pipe_text(second),
        first.len() == 1 ==> pipe_text(first) == (match first[0] {
            CommandView::ExecCommand { exec_name } => exec_name.name,
            _ => "builtin"@,
        }),
{
    let show = |c: CommandView| stage_text(c);
    assert((first + second).map_values(show) =~= first.map_values(show) + second.map_values(show));
    text::law_joining(first.map_values(show), second.map_values(show), " | "@);
    if first.len() == 1 {
        assert(first.map_values(show)[0] == stage_text(first[0]));
    }
}

} // verus!
