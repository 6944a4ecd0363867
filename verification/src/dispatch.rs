//! What the shell does with a command.
use vstd::prelude::*;

use crate::command;
use crate::command::{
    exeCmd, ChainSegment, Command, CommandView, CompleteAction, CompleteView, DeclareAction,
    DeclareView, ExecView, SegmentView,
};
use crate::history;
use crate::history::history_text;
use crate::jobs;
use crate::output;
use crate::output::{
    choose_sink, describe_output, echo_output, print_directory, Output, OutputView, Sink, SinkView,
};
use crate::shell::{Shell, ShellView};
use crate::text;
use crate::text::trim;

verus! {

/// What is left to do for a command outside of the shell's memory.
#[derive(Debug, PartialEq, Eq)]
pub enum Action {
    /// Nothing.
    Nothing,
    /// Leave the shell.
    Exit,
    /// Print.
    Emit(Output),
    /// Print an error; on the terminal it goes where errors go.
    Complain(Output),
    /// Change the directory; an error goes to `errors`.
    ChangeDirectory { dir: String, errors: Sink },
    /// Read a file, and let the history be read from what it holds.
    ReadHistory(String),
    /// Append to a file, which is made if it is not there.
    AppendHistory { path: String, text: String },
    /// Run a program and wait for it.
    RunForeground(exeCmd),
    /// Run a program and do not wait for it.
    RunBackground(exeCmd),
    /// Run the parts of a chain.
    RunChain { segments: Vec<ChainSegment>, background: bool },
    /// Run the commands of a pipe.
    RunPipe { commands: Vec<Command>, background: bool },
}

/// What an `Action` says.
pub enum ActionView {
    Nothing,
    Exit,
    Emit(OutputView),
    Complain(OutputView),
    ChangeDirectory { dir: Seq<char>, errors: SinkView },
    ReadHistory(Seq<char>),
    AppendHistory { path: Seq<char>, text: Seq<char> },
    RunForeground(ExecView),
    RunBackground(ExecView),
    RunChain { segments: Seq<SegmentView>, background: bool },
    RunPipe { commands: Seq<CommandView>, background: bool },
}

impl View for Action {
    type V = ActionView;

    open spec fn view(&self) -> ActionView {
        match self {
            Action::Nothing => ActionView::Nothing,
            Action::Exit => ActionView::Exit,
            Action::Emit(output) => ActionView::Emit(output@),
            Action::Complain(output) => ActionView::Complain(output@),
            Action::ChangeDirectory { dir, errors } => ActionView::ChangeDirectory {
                dir: dir@,
                errors: errors@,
            },
            Action::ReadHistory(path) => ActionView::ReadHistory(path@),
            Action::AppendHistory { path, text } => ActionView::AppendHistory {
                path: path@,
                text: text@,
            },
            Action::RunForeground(cmd) => ActionView::RunForeground(cmd@),
            Action::RunBackground(cmd) => ActionView::RunBackground(cmd@),
            Action::RunChain { segments, background } => ActionView::RunChain {
                segments: command::segment_views(segments@),
                background: *background,
            },
            Action::RunPipe { commands, background } => ActionView::RunPipe {
                commands: command::command_views(commands@),
                background: *background,
            },
        }
    }
}

/// What `complete -p` prints of the script for a command.
pub open spec fn complete_text(
    completions: Map<Seq<char>, Seq<char>>,
    command: Seq<char>,
) -> Seq<char> {
    if completions.contains_key(command) {
        "complete -C '"@ + completions[command] + "' "@ + command
    } else {
        "complete : "@ + command + ": no complete specifications"@
    }
}

/// What `declare -p` prints of a variable.
pub open spec fn declare_text(vars: Map<Seq<char>, Seq<char>>, name: Seq<char>) -> Seq<char> {
    if vars.contains_key(name) {
        "declare -- "@ + name + "=\""@ + vars[name] + "\""@
    } else {
        "declare: "@ + name + ": not found"@
    }
}

/// Prints text unless it is empty and goes to the terminal.
pub open spec fn emit_unless_empty(shown: Seq<char>, sink: SinkView) -> ActionView {
    if sink is Terminal && shown.len() == 0 {
        ActionView::Nothing
    } else {
        ActionView::Emit(OutputView { text: shown, sink })
    }
}

/// What is said of a line that stands for no command.
pub open spec fn not_found(line: Seq<char>) -> OutputView {
    OutputView { text: text::trimmed(line) + " command not found!!"@, sink: SinkView::Terminal }
}

/// What `complete` does.
pub open spec fn complete_done(
    shell: ShellView,
    request: CompleteView,
    sink: SinkView,
    errors: SinkView,
) -> (ShellView, ActionView) {
    match request {
        CompleteView::Register { script, command } => (
            ShellView { completions: shell.completions.insert(command, script), ..shell },
            ActionView::Nothing,
        ),
        CompleteView::Print { command } => (
            shell,
            ActionView::Emit(
                OutputView { text: complete_text(shell.completions, command), sink },
            ),
        ),
        CompleteView::Remove { command } => (
            ShellView { completions: shell.completions.remove(command), ..shell },
            ActionView::Nothing,
        ),
        CompleteView::Error(message) => (
            shell,
            ActionView::Complain(OutputView { text: message, sink: errors }),
        ),
        CompleteView::Empty => (shell, ActionView::Nothing),
    }
}

/// What `declare` does.
pub open spec fn declare_done(
    shell: ShellView,
    request: DeclareView,
    sink: SinkView,
    errors: SinkView,
) -> (ShellView, ActionView) {
    match request {
        DeclareView::Print { name } => (
            shell,
            ActionView::Emit(OutputView { text: declare_text(shell.shell_vars, name), sink }),
        ),
        DeclareView::Assign { name, value } => (
            ShellView { shell_vars: shell.shell_vars.insert(name, value), ..shell },
            ActionView::Nothing,
        ),
        DeclareView::Error(message) => (
            shell,
            ActionView::Complain(OutputView { text: message, sink: errors }),
        ),
        DeclareView::Empty => (shell, ActionView::Nothing),
    }
}

/// What `history` does: the file to read counts before the one to write, and that before the
/// one to append to.
pub open spec fn history_done(
    shell: ShellView,
    sink: SinkView,
    count: Option<usize>,
    read_file: Option<Seq<char>>,
    write_file: Option<Seq<char>>,
    append_file: Option<Seq<char>>,
) -> (ShellView, ActionView) {
    if let Some(path) = read_file {
        (shell, ActionView::ReadHistory(path))
    } else if let Some(path) = write_file {
        (
            history::all_saved(shell),
            ActionView::Emit(
                OutputView {
                    text: history::file_text(shell.history),
                    sink: SinkView::Overwrite(path),
                },
            ),
        )
    } else if let Some(path) = append_file {
        (
            history::all_saved(shell),
            match history::to_append(shell.history, shell.history_written) {
                Some(added) => ActionView::AppendHistory { path, text: added },
                None => ActionView::Nothing,
            },
        )
    } else {
        (shell, emit_unless_empty(history::listing(shell.history, count), sink))
    }
}

/// What the shell does with the command that a line stands for, in the directory `cwd`.
pub open spec fn dispatched(
    shell: ShellView,
    command: CommandView,
    line: Seq<char>,
    cwd: Seq<char>,
) -> (ShellView, ActionView) {
    match command {
        CommandView::ExitCommand => (shell, ActionView::Exit),
        CommandView::PwdCommand { stdout_file, stdout_append } => (
            shell,
            ActionView::Emit(output::pwd_output(stdout_file, stdout_append, cwd)),
        ),
        CommandView::CdCommand { directory } => (
            shell,
            ActionView::ChangeDirectory {
                dir: directory.name,
                errors: output::sink_for(directory.stderr_file, directory.stderr_append),
            },
        ),
        CommandView::EchoCommand { display_string } => (
            shell,
            ActionView::Emit(output::echoed(display_string)),
        ),
        CommandView::TypeCommand { command_name } => (
            shell,
            ActionView::Emit(output::type_output(command_name)),
        ),
        CommandView::ExecCommand { exec_name } => (
            shell,
            if !exec_name.background {
                ActionView::RunForeground(exec_name)
            } else if exec_name.path is None {
                ActionView::Complain(
                    OutputView {
                        text: "No Executable found for '"@ + exec_name.name + "'"@,
                        sink: output::sink_for(exec_name.stderr_file, exec_name.stderr_append),
                    },
                )
            } else {
                ActionView::RunBackground(exec_name)
            },
        ),
        CommandView::CompleteCommand {
            subcommnad,
            stdout_file,
            stdout_append,
            stderr_file,
            stderr_append,
        } => complete_done(
            shell,
            subcommnad,
            output::sink_for(stdout_file, stdout_append),
            output::sink_for(stderr_file, stderr_append),
        ),
        CommandView::JobsCommand { stdout_file, stdout_append } => (
            ShellView { jobs: jobs::running(shell.jobs), ..shell },
            emit_unless_empty(
                jobs::jobs_text(shell.jobs),
                output::sink_for(stdout_file, stdout_append),
            ),
        ),
        CommandView::HistoryCommand {
            stdout_file,
            stdout_append,
            count,
            read_file,
            write_file,
            append_file,
        } => history_done(
            shell,
            output::sink_for(stdout_file, stdout_append),
            count,
            read_file,
            write_file,
            append_file,
        ),
        CommandView::DeclareCommand {
            subcommand,
            stdout_file,
            stdout_append,
            stderr_file,
            stderr_append,
        } => declare_done(
            shell,
            subcommand,
            output::sink_for(stdout_file, stdout_append),
            output::sink_for(stderr_file, stderr_append),
        ),
        CommandView::CommandChain { segments, background } => (
            shell,
            ActionView::RunChain { segments, background },
        ),
        CommandView::PipeCommand { commands, background } => (
            shell,
            ActionView::RunPipe { commands, background },
        ),
        CommandView::Noop => (shell, ActionView::Nothing),
        CommandView::CommandNotFound => (shell, ActionView::Emit(not_found(line))),
    }
}

/// Prints text unless it is empty and goes to the terminal.
fn emit_text(shown: String, sink: Sink) -> (r: Action)
    ensures
        r@ == emit_unless_empty(shown@, sink@),
{
    let to_terminal: bool = match &sink {
        Sink::Terminal => true,
        _ => false,
    };
    if to_terminal && shown.as_str().is_empty() {
        Action::Nothing
    } else {
        Action::Emit(Output { text: shown, sink })
    }
}

/// What is said of a line that stands for no command.
pub fn not_found_output(line: &str) -> (r: Output)
    ensures
        r@ == not_found(line@),
{
    let mut shown: String = trim(line);
    shown.append(" command not found!!");
    Output { text: shown, sink: Sink::Terminal }
}

impl Shell {
    /// What `complete` does.
    fn do_complete(&mut self, request: CompleteAction, sink: Sink, errors: Sink) -> (r: Action)
        ensures
            (final(self)@, r@) == complete_done(old(self)@, request@, sink@, errors@),
    {
        let ghost before = self@.completions;
        match request {
            CompleteAction::Register { script, command } => {
                let ghost added = before.insert(command@, script@);
                self.completions.insert(command, script);
                assert(self@.completions =~= added);
                Action::Nothing
            },
            CompleteAction::Print { command } => {
                let mut shown = String::new();
                match self.completions.get(command.as_str()) {
                    Some(script) => {
                        shown.append("complete -C '");
                        shown.append(script.as_str());
                        shown.append("' ");
                        shown.append(command.as_str());
                    },
                    None => {
                        shown.append("complete : ");
                        shown.append(command.as_str());
                        shown.append(": no complete specifications");
                    },
                }
                assert(shown@ =~= complete_text(before, command@));
                Action::Emit(Output { text: shown, sink })
            },
            CompleteAction::Remove { command } => {
                self.completions.remove(command.as_str());
                assert(self@.completions =~= before.remove(command@));
                Action::Nothing
            },
            CompleteAction::Error(message) => Action::Complain(
                Output { text: message, sink: errors },
            ),
            CompleteAction::Empty => Action::Nothing,
        }
    }

    /// What `declare` does.
    fn do_declare(&mut self, request: DeclareAction, sink: Sink, errors: Sink) -> (r: Action)
        ensures
            (final(self)@, r@) == declare_done(old(self)@, request@, sink@, errors@),
    {
        let ghost before = self@.shell_vars;
        match request {
            DeclareAction::Print { name } => {
                let mut shown = String::new();
                match self.shell_vars.get(name.as_str()) {
                    Some(value) => {
                        shown.append("declare -- ");
                        shown.append(name.as_str());
                        shown.append("=\"");
                        shown.append(value.as_str());
                        shown.append("\"");
                    },
                    None => {
                        shown.append("declare: ");
                        shown.append(name.as_str());
                        shown.append(": not found");
                    },
                }
                assert(shown@ =~= declare_text(before, name@));
                Action::Emit(Output { text: shown, sink })
            },
            DeclareAction::Assign { name, value } => {
                let ghost added = before.insert(name@, value@);
                self.shell_vars.insert(name, value);
                assert(self@.shell_vars =~= added);
                Action::Nothing
            },
            DeclareAction::Error(message) => Action::Complain(
                Output { text: message, sink: errors },
            ),
            DeclareAction::Empty => Action::Nothing,
        }
    }

    /// Does what the command that a line stands for does to the shell's memory, and gives what
    /// is left to do.
    pub fn dispatch(&mut self, command: Command, line: &str, cwd: &str) -> (r: Action)
        ensures
            (final(self)@, r@) == dispatched(old(self)@, command@, line@, cwd@),
    {
        match command {
            Command::ExitCommand => Action::Exit,
            Command::PwdCommand { stdout_file, stdout_append } => Action::Emit(
                print_directory(&stdout_file, stdout_append, cwd),
            ),
            Command::CdCommand { directory } => {
                let errors: Sink = choose_sink(&directory.stderr_file, directory.stderr_append);
                Action::ChangeDirectory { dir: directory.name, errors }
            },
            Command::EchoCommand { display_string } => Action::Emit(echo_output(&display_string)),
            Command::TypeCommand { command_name } => Action::Emit(describe_output(&command_name)),
            Command::ExecCommand { exec_name } => {
                if !exec_name.background {
                    Action::RunForeground(exec_name)
                } else if exec_name.path.is_none() {
                    let mut message: String = "No Executable found for '".to_string();
                    message.append(exec_name.name.as_str());
                    message.append("'");
                    let sink: Sink = choose_sink(&exec_name.stderr_file, exec_name.stderr_append);
                    Action::Complain(Output { text: message, sink })
                } else {
                    Action::RunBackground(exec_name)
                }
            },
            Command::CompleteCommand {
                subcommnad,
                stdout_file,
                stdout_append,
                stderr_file,
                stderr_append,
            } => self.do_complete(
                subcommnad,
                choose_sink(&stdout_file, stdout_append),
                choose_sink(&stderr_file, stderr_append),
            ),
            Command::JobsCommand { stdout_file, stdout_append } => {
                let shown: String = self.take_job_list();
                emit_text(shown, choose_sink(&stdout_file, stdout_append))
            },
            Command::HistoryCommand {
                stdout_file,
                stdout_append,
                count,
                read_file,
                write_file,
                append_file,
            } => {
                if let Some(path) = read_file {
                    Action::ReadHistory(path)
                } else if let Some(path) = write_file {
                    let whole: String = self.write_history();
                    Action::Emit(Output { text: whole, sink: Sink::Overwrite(path) })
                } else if let Some(path) = append_file {
                    match self.append_history() {
                        Some(added) => Action::AppendHistory { path, text: added },
                        None => Action::Nothing,
                    }
                } else {
                    let shown: String = history_text(&self.history, count);
                    emit_text(shown, choose_sink(&stdout_file, stdout_append))
                }
            },
            Command::DeclareCommand {
                subcommand,
                stdout_file,
                stdout_append,
                stderr_file,
                stderr_append,
            } => self.do_declare(
                subcommand,
                choose_sink(&stdout_file, stdout_append),
                choose_sink(&stderr_file, stderr_append),
            ),
            Command::CommandChain { segments, background } => Action::RunChain {
                segments,
                background,
            },
            Command::PipeCommand { commands, background } => {
                proof {
                    command::lemma_pipe_view(commands, background);
                }
                Action::RunPipe { commands, background }
            },
            Command::Noop => Action::Nothing,
            Command::CommandNotFound => Action::Emit(not_found_output(line)),
        }
    }
}

/// A registered script is the one that is printed for its command, and a removed one is
/// printed no more; nothing else changes for any other command.
pub proof fn law_registered_script_is_printed(
    shell: ShellView,
    script: Seq<char>,
    command: Seq<char>,
    other: Seq<char>,
    sink: SinkView,
    errors: SinkView,
)
    ensures
        ({
            let registered = complete_done(
                shell,
                CompleteView::Register { script, command },
                sink,
                errors,
            ).0;
            let removed = complete_done(
                registered,
                CompleteView::Remove { command },
                sink,
                errors,
            ).0;
            &&& complete_text(registered.completions, command) == "complete -C '"@ + script
                + "' "@ + command
            &&& complete_text(removed.completions, command) == "complete : "@ + command
                + ": no complete specifications"@
            &&& other != command ==> complete_text(registered.completions, other)
                == complete_text(shell.completions, other)
            &&& other != command ==> complete_text(removed.completions, other) == complete_text(
                shell.completions,
                other,
            )
        }),
{
}

/// A variable is printed with the value that it was given last; giving one a value changes no
/// other.
pub proof fn law_declared_variable_is_printed(
    shell: ShellView,
    name: Seq<char>,
    value: Seq<char>,
    other: Seq<char>,
    sink: SinkView,
    errors: SinkView,
)
    ensures
        ({
            let declared = declare_done(
                shell,
                DeclareView::Assign { name, value },
                sink,
                errors,
            ).0;
            &&& declare_text(declared.shell_vars, name) == "declare -- "@ + name + "=\""@ + value
                + "\""@
            &&& other != name ==> declare_text(declared.shell_vars, other) == declare_text(
                shell.shell_vars,
                other,
            )
        }),
{
}

/// Each command changes what it is for and nothing else: only `complete` the scripts, only
/// `declare` the variables, only `jobs` the jobs, and only `history` how much of the history is
/// in a file. None changes the lines of the history.
pub proof fn law_other_memory_is_kept(
    shell: ShellView,
    command: CommandView,
    line: Seq<char>,
    cwd: Seq<char>,
)
    ensures
        ({
            let after = dispatched(shell, command, line, cwd).0;
            &&& !(command is CompleteCommand) ==> after.completions == shell.completions
            &&& !(command is DeclareCommand) ==> after.shell_vars == shell.shell_vars
            &&& !(command is JobsCommand) ==> after.jobs == shell.jobs
            &&& !(command is HistoryCommand) ==> after.history_written == shell.history_written
            &&& after.history == shell.history
        }),
{
}

/// Whether what the shell remembers hangs together: no blank line in the history, no more of
/// it in a file than there is, the jobs in the order of their numbers, and none of them told of
/// that is still there.
pub open spec fn tidy(shell: ShellView) -> bool {
    &&& history::none_blank(shell.history)
    &&& shell.history_written <= shell.history.len()
    &&& jobs::in_order(shell.jobs)
    &&& forall|i: int| 0 <= i < shell.jobs.len() ==> !(#[trigger] shell.jobs[i]).notified
}

/// The shell that remembers nothing hangs together.
pub proof fn law_new_shell_is_tidy(shell: ShellView)
    requires
        shell.history.len() == 0,
        shell.history_written == 0,
        shell.jobs.len() == 0,
    ensures
        tidy(shell),
{
}

proof fn lemma_running_untold(shell: ShellView)
    requires
        tidy(shell),
    ensures
        tidy(ShellView { jobs: jobs::running(shell.jobs), ..shell }),
{
    let left = jobs::running(shell.jobs);
    jobs::law_jobs_stay_in_order(shell.jobs, 0, 0, Seq::empty(), 0);
    jobs::lemma_running_are_jobs(shell.jobs);
    assert forall|i: int| 0 <= i < left.len() implies !(#[trigger] left[i]).notified by {
        assert(shell.jobs.contains(left[i]));
        let k = choose|k: int| 0 <= k < shell.jobs.len() && shell.jobs[k] == left[i];
        assert(!shell.jobs[k].notified);
    }
}

/// What the shell remembers hangs together after any command, after a line was entered, after
/// history was read, and after a job was started, got its process, ended or was told of, if it
/// did before.
pub proof fn law_shell_stays_tidy(
    shell: ShellView,
    command: CommandView,
    line: Seq<char>,
    cwd: Seq<char>,
    contents: Option<Seq<char>>,
    number: usize,
    pid: u32,
    place: nat,
)
    requires
        tidy(shell),
        history::read_from(shell, contents).history.len() <= usize::MAX,
    ensures
        tidy(dispatched(shell, command, line, cwd).0),
        tidy(ShellView { history: history::remembered(shell.history, line), ..shell }),
        tidy(history::read_from(shell, contents)),
        tidy(history::all_saved(shell)),
        number == jobs::next_number(shell.jobs) ==> tidy(
            ShellView { jobs: shell.jobs.push(jobs::started(number, pid, line)), ..shell },
        ),
        tidy(ShellView { jobs: jobs::with_process(shell.jobs, number, pid), ..shell }),
        tidy(ShellView { jobs: jobs::ended_at(shell.jobs, place), ..shell }),
        tidy(ShellView { jobs: jobs::running(shell.jobs), ..shell }),
{
    lemma_running_untold(shell);
    jobs::law_jobs_stay_in_order(shell.jobs, number, pid, line, place);
    match contents {
        Some(s) => {
            history::law_history_grows(shell.history, crate::lines::lines(s));
        },
        None => {},
    }
    assert(shell.history.len() <= history::read_from(shell, contents).history.len());
    assert(history::all_saved(shell).history_written == shell.history.len());
}

/// What commands print goes where they send it: `echo` its text, `pwd` the directory and `type`
/// what it says of a name, each to its own file, or to the terminal.
pub proof fn law_printing_commands(
    shell: ShellView,
    cmd: ExecView,
    file: Option<Seq<char>>,
    append: bool,
    line: Seq<char>,
    cwd: Seq<char>,
)
    ensures
        dispatched(shell, CommandView::EchoCommand { display_string: cmd }, line, cwd) == (
            shell,
            ActionView::Emit(
                OutputView {
                    text: cmd.name,
                    sink: output::sink_for(cmd.stdout_file, cmd.stdout_append),
                },
            ),
        ),
        dispatched(shell, CommandView::TypeCommand { command_name: cmd }, line, cwd) == (
            shell,
            ActionView::Emit(
                OutputView {
                    text: output::described(cmd),
                    sink: output::sink_for(cmd.stdout_file, cmd.stdout_append),
                },
            ),
        ),
        dispatched(
            shell,
            CommandView::PwdCommand { stdout_file: file, stdout_append: append },
            line,
            cwd,
        ) == (
            shell,
            ActionView::Emit(OutputView { text: cwd, sink: output::sink_for(file, append) }),
        ),
{
}

/// `exit` leaves the shell, `cd` changes to the directory that it names, with errors where it
/// sends them, an empty line does nothing, and chains and pipes are run as they are.
pub proof fn law_commands_done_outside(
    shell: ShellView,
    cmd: ExecView,
    segments: Seq<SegmentView>,
    commands: Seq<CommandView>,
    background: bool,
    line: Seq<char>,
    cwd: Seq<char>,
)
    ensures
        dispatched(shell, CommandView::ExitCommand, line, cwd) == (shell, ActionView::Exit),
        dispatched(shell, CommandView::Noop, line, cwd) == (shell, ActionView::Nothing),
        dispatched(shell, CommandView::CdCommand { directory: cmd }, line, cwd) == (
            shell,
            ActionView::ChangeDirectory {
                dir: cmd.name,
                errors: output::sink_for(cmd.stderr_file, cmd.stderr_append),
            },
        ),
        dispatched(shell, CommandView::CommandChain { segments, background }, line, cwd) == (
            shell,
            ActionView::RunChain { segments, background },
        ),
        dispatched(shell, CommandView::PipeCommand { commands, background }, line, cwd) == (
            shell,
            ActionView::RunPipe { commands, background },
        ),
{
}

/// A program runs in the foreground or the background as its command says, with all that the
/// command says of it; in the background it needs a file, and that there is none is said where
/// the command sends its errors.
pub proof fn law_programs_are_run(
    shell: ShellView,
    cmd: ExecView,
    line: Seq<char>,
    cwd: Seq<char>,
)
    ensures
        ({
            let (after, action) = dispatched(
                shell,
                CommandView::ExecCommand { exec_name: cmd },
                line,
                cwd,
            );
            &&& after == shell
            &&& !cmd.background ==> action == ActionView::RunForeground(cmd)
            &&& cmd.background && cmd.path is Some ==> action == ActionView::RunBackground(cmd)
            &&& cmd.background && cmd.path is None ==> match action {
                ActionView::Complain(said) => {
                    &&& said.text == "No Executable found for '"@ + cmd.name + "'"@
                    &&& cmd.stderr_file is None ==> said.sink is Terminal
                    &&& cmd.stderr_file matches Some(file) ==> said.sink == (
                    if cmd.stderr_append {
                        SinkView::Append(file)
                    } else {
                        SinkView::Overwrite(file)
                    })
                },
                _ => false,
            }
        }),
{
}

/// What is said of a line that stands for no command begins with the line, without white space
/// at its ends, and goes to the terminal.
pub proof fn law_unknown_commands(shell: ShellView, line: Seq<char>, cwd: Seq<char>)
    ensures
        ({
            let (after, action) = dispatched(shell, CommandView::CommandNotFound, line, cwd);
            &&& after == shell
            &&& match action {
                ActionView::Emit(said) => {
                    &&& text::begins_with(said.text, text::trimmed(line))
                    &&& said.text.skip(text::trimmed(line).len() as int) == " command not found!!"@
                    &&& said.sink is Terminal
                },
                _ => false,
            }
        }),
{
    let start = text::trimmed(line);
    let said = start + " command not found!!"@;
    assert(said.take(start.len() as int) =~= start);
    assert(said.skip(start.len() as int) =~= " command not found!!"@);
}

/// What `complete` and `declare` print goes to the file for output, and their errors to the file
/// for errors, each as it is asked for; asking for nothing does nothing.
pub proof fn law_output_and_errors_are_apart(
    shell: ShellView,
    name: Seq<char>,
    out: Option<Seq<char>>,
    out_append: bool,
    err: Option<Seq<char>>,
    err_append: bool,
    line: Seq<char>,
    cwd: Seq<char>,
)
    ensures
        ({
            let ask = |request: CompleteView|
                dispatched(
                    shell,
                    CommandView::CompleteCommand {
                        subcommnad: request,
                        stdout_file: out,
                        stdout_append: out_append,
                        stderr_file: err,
                        stderr_append: err_append,
                    },
                    line,
                    cwd,
                );
            &&& ask(CompleteView::Print { command: name }) == (
                shell,
                ActionView::Emit(
                    OutputView {
                        text: complete_text(shell.completions, name),
                        sink: output::sink_for(out, out_append),
                    },
                ),
            )
            &&& ask(CompleteView::Error(name)) == (
                shell,
                ActionView::Complain(
                    OutputView { text: name, sink: output::sink_for(err, err_append) },
                ),
            )
            &&& ask(CompleteView::Empty) == (shell, ActionView::Nothing)
        }),
        ({
            let ask = |request: DeclareView|
                dispatched(
                    shell,
                    CommandView::DeclareCommand {
                        subcommand: request,
                        stdout_file: out,
                        stdout_append: out_append,
                        stderr_file: err,
                        stderr_append: err_append,
                    },
                    line,
                    cwd,
                );
            &&& ask(DeclareView::Print { name }) == (
                shell,
                ActionView::Emit(
                    OutputView {
                        text: declare_text(shell.shell_vars, name),
                        sink: output::sink_for(out, out_append),
                    },
                ),
            )
            &&& ask(DeclareView::Error(name)) == (
                shell,
                ActionView::Complain(
                    OutputView { text: name, sink: output::sink_for(err, err_append) },
                ),
            )
            &&& ask(DeclareView::Empty) == (shell, ActionView::Nothing)
        }),
{
}

/// Registering and removing a script, and giving a variable a value, print nothing and change
/// just that script or that variable.
pub proof fn law_silent_requests(
    shell: ShellView,
    name: Seq<char>,
    value: Seq<char>,
    other: Seq<char>,
    sink: output::SinkView,
    errors: output::SinkView,
)
    ensures
        ({
            let (after, action) = complete_done(
                shell,
                CompleteView::Register { script: value, command: name },
                sink,
                errors,
            );
            &&& action is Nothing
            &&& after.completions.contains_key(name) && after.completions[name] == value
            &&& other != name ==> (after.completions.contains_key(other)
                <==> shell.completions.contains_key(other)) && (shell.completions.contains_key(
                other,
            ) ==> after.completions[other] == shell.completions[other])
        }),
        ({
            let (after, action) = complete_done(
                shell,
                CompleteView::Remove { command: name },
                sink,
                errors,
            );
            &&& action is Nothing
            &&& !after.completions.contains_key(name)
            &&& other != name ==> (after.completions.contains_key(other)
                <==> shell.completions.contains_key(other)) && (shell.completions.contains_key(
                other,
            ) ==> after.completions[other] == shell.completions[other])
        }),
        ({
            let (after, action) = declare_done(
                shell,
                DeclareView::Assign { name, value },
                sink,
                errors,
            );
            &&& action is Nothing
            &&& after.shell_vars.contains_key(name) && after.shell_vars[name] == value
            &&& other != name ==> (after.shell_vars.contains_key(other)
                <==> shell.shell_vars.contains_key(other)) && (shell.shell_vars.contains_key(other)
                ==> after.shell_vars[other] == shell.shell_vars[other])
        }),
{
}

/// `history` reads a file if it is asked to, else writes the whole history to one in place of
/// what that holds, else appends to one what no file holds yet, and else shows its list, unless
/// that is empty and would go to the terminal.
pub proof fn law_what_history_does(
    shell: ShellView,
    out: Option<Seq<char>>,
    out_append: bool,
    count: Option<usize>,
    path: Seq<char>,
    other: Option<Seq<char>>,
    third: Option<Seq<char>>,
    line: Seq<char>,
    cwd: Seq<char>,
)
    ensures
        ({
            let ask = |read: Option<Seq<char>>, write: Option<Seq<char>>, append: Option<Seq<char>>|
                dispatched(
                    shell,
                    CommandView::HistoryCommand {
                        stdout_file: out,
                        stdout_append: out_append,
                        count,
                        read_file: read,
                        write_file: write,
                        append_file: append,
                    },
                    line,
                    cwd,
                );
            let listed = history::listing(shell.history, count);
            let sink = output::sink_for(out, out_append);
            &&& ask(Some(path), other, third) == (shell, ActionView::ReadHistory(path))
            &&& ask(None, Some(path), third).1 == ActionView::Emit(
                OutputView {
                    text: history::file_text(shell.history),
                    sink: output::SinkView::Overwrite(path),
                },
            )
            &&& ask(None, None, Some(path)).1 == (match history::to_append(
                shell.history,
                shell.history_written,
            ) {
                Some(new) => ActionView::AppendHistory { path, text: new },
                None => ActionView::Nothing,
            })
            &&& shell.history.len() <= usize::MAX ==> ask(None, Some(path), third).0.history_written
                == shell.history.len() && ask(None, None, Some(path)).0.history_written
                == shell.history.len()
            &&& ask(None, None, None).0 == shell
            &&& out is None && listed.len() == 0 ==> ask(None, None, None).1 is Nothing
            &&& out is Some || listed.len() > 0 ==> ask(None, None, None).1 == ActionView::Emit(
                OutputView { text: listed, sink },
            )
        }),
{
}

/// `jobs` shows the list of the jobs, unless that is empty and would go to the terminal, and then
/// forgets those that are done.
pub proof fn law_what_jobs_does(
    shell: ShellView,
    out: Option<Seq<char>>,
    out_append: bool,
    line: Seq<char>,
    cwd: Seq<char>,
)
    ensures
        ({
            let (after, action) = dispatched(
                shell,
                CommandView::JobsCommand { stdout_file: out, stdout_append: out_append },
                line,
                cwd,
            );
            let listed = jobs::jobs_text(shell.jobs);
            &&& after.jobs == jobs::running(shell.jobs)
            &&& out is None && listed.len() == 0 ==> action is Nothing
            &&& out is Some || listed.len() > 0 ==> action == ActionView::Emit(
                OutputView { text: listed, sink: output::sink_for(out, out_append) },
            )
        }),
{
}

/// `declare -p` says of a variable that is not declared that it is not found.
pub proof fn law_undeclared_variables(vars: Map<Seq<char>, Seq<char>>, name: Seq<char>)
    requires
        !vars.contains_key(name),
    ensures
        declare_text(vars, name) == "declare: "@ + name + ": not found"@,
{
}

} // verus!
