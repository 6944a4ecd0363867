//! What commands print, and where it goes.
use vstd::prelude::*;

use crate::command::{exeCmd, Command, ExecView, BUILT_IN_COMMANDS};
use crate::completion;
use crate::text;
use crate::text::{copy_texts, join, push_text, same_text};
use crate::tokens;

verus! {

/// Where output goes.
#[derive(Debug, PartialEq, Eq)]
pub enum Sink {
    /// To the terminal, as a line.
    Terminal,
    /// Into the file, in place of what it holds.
    Overwrite(String),
    /// To the end of the file.
    Append(String),
}

/// What a `Sink` says.
pub enum SinkView {
    Terminal,
    Overwrite(Seq<char>),
    Append(Seq<char>),
}

/// Text and where it goes.
#[derive(Debug, PartialEq, Eq)]
pub struct Output {
    pub text: String,
    pub sink: Sink,
}

/// What an `Output` says.
pub struct OutputView {
    pub text: Seq<char>,
    pub sink: SinkView,
}

impl View for Sink {
    type V = SinkView;

    open spec fn view(&self) -> SinkView {
        match self {
            Sink::Terminal => SinkView::Terminal,
            Sink::Overwrite(file) => SinkView::Overwrite(file@),
            Sink::Append(file) => SinkView::Append(file@),
        }
    }
}

impl View for Output {
    type V = OutputView;

    open spec fn view(&self) -> OutputView {
        OutputView { text: self.text@, sink: self.sink@ }
    }
}

/// Where output goes that is redirected to this file, if it is redirected.
pub open spec fn sink_for(file: Option<Seq<char>>, append: bool) -> SinkView {
    match file {
        None => SinkView::Terminal,
        Some(path) => if append {
            SinkView::Append(path)
        } else {
            SinkView::Overwrite(path)
        },
    }
}

/// What `echo` prints.
pub open spec fn echoed(cmd: ExecView) -> OutputView {
    OutputView { text: cmd.name, sink: sink_for(cmd.stdout_file, cmd.stdout_append) }
}

/// What `type` says of a command.
pub open spec fn described(cmd: ExecView) -> Seq<char> {
    if completion::builtin_names().contains(cmd.name) {
        cmd.name + " is a shell builtin"@
    } else {
        match cmd.path {
            Some(path) => cmd.name + " is "@ + path,
            None => cmd.name + " not found"@,
        }
    }
}

/// What `type` prints.
pub open spec fn type_output(cmd: ExecView) -> OutputView {
    OutputView { text: described(cmd), sink: sink_for(cmd.stdout_file, cmd.stdout_append) }
}

/// What `pwd` prints.
pub open spec fn pwd_output(
    stdout_file: Option<Seq<char>>,
    stdout_append: bool,
    cwd: Seq<char>,
) -> OutputView {
    OutputView { text: cwd, sink: sink_for(stdout_file, stdout_append) }
}

/// A command with its arguments, as a line.
pub open spec fn command_text(cmd: ExecView) -> Seq<char> {
    text::joined(seq![cmd.name] + cmd.args, " "@)
}

/// The program to run for a command: its file, or else its name.
pub open spec fn program_of(cmd: ExecView) -> Seq<char> {
    match cmd.path {
        Some(path) => path,
        None => cmd.name,
    }
}

/// Where a stream of a program goes.
#[derive(Debug, PartialEq, Eq)]
pub enum Target {
    /// Where that of the shell goes.
    Inherit,
    /// Into the file, which is made anew.
    Create(String),
    /// To the end of the file, which is made if it is not there.
    Append(String),
}

/// What a `Target` says.
pub enum TargetView {
    Inherit,
    Create(Seq<char>),
    Append(Seq<char>),
}

impl View for Target {
    type V = TargetView;

    open spec fn view(&self) -> TargetView {
        match self {
            Target::Inherit => TargetView::Inherit,
            Target::Create(file) => TargetView::Create(file@),
            Target::Append(file) => TargetView::Append(file@),
        }
    }
}

/// How to run a program.
#[derive(Debug, PartialEq, Eq)]
pub struct ExecPlan {
    pub program: String,
    pub args: Vec<String>,
    pub stdout: Target,
    pub stderr: Target,
}

/// What an `ExecPlan` says.
pub struct PlanView {
    pub program: Seq<char>,
    pub args: Seq<Seq<char>>,
    pub stdout: TargetView,
    pub stderr: TargetView,
}

impl View for ExecPlan {
    type V = PlanView;

    open spec fn view(&self) -> PlanView {
        PlanView {
            program: self.program@,
            args: text::texts(self.args@),
            stdout: self.stdout@,
            stderr: self.stderr@,
        }
    }
}

/// Where a stream goes that is redirected to this file, if it is redirected.
pub open spec fn target_for(file: Option<Seq<char>>, append: bool) -> TargetView {
    match file {
        None => TargetView::Inherit,
        Some(path) => if append {
            TargetView::Append(path)
        } else {
            TargetView::Create(path)
        },
    }
}

/// How to run a command, by its file or else by its name.
pub open spec fn launched(cmd: ExecView) -> PlanView {
    PlanView {
        program: program_of(cmd),
        args: cmd.args,
        stdout: target_for(cmd.stdout_file, cmd.stdout_append),
        stderr: target_for(cmd.stderr_file, cmd.stderr_append),
    }
}

/// How to run a command in the foreground, or why it cannot be run.
pub open spec fn planned(cmd: ExecView) -> Result<PlanView, Seq<char>> {
    match cmd.path {
        None => Err("No executable found for path '"@ + cmd.name + "'"@),
        Some(path) => Ok(
            PlanView {
                program: path,
                args: cmd.args,
                stdout: target_for(cmd.stdout_file, cmd.stdout_append),
                stderr: target_for(cmd.stderr_file, cmd.stderr_append),
            },
        ),
    }
}

/// Where output goes that is redirected to this file, if it is redirected.
pub fn choose_sink(file: &Option<String>, append: bool) -> (r: Sink)
    ensures
        r@ == sink_for(text::opt_text(*file), append),
{
    match file {
        None => Sink::Terminal,
        Some(path) => if append {
            Sink::Append(path.clone())
        } else {
            Sink::Overwrite(path.clone())
        },
    }
}

/// Where a stream goes that is redirected to this file, if it is redirected.
fn choose_target(file: &Option<String>, append: bool) -> (r: Target)
    ensures
        r@ == target_for(text::opt_text(*file), append),
{
    match file {
        None => Target::Inherit,
        Some(path) => if append {
            Target::Append(path.clone())
        } else {
            Target::Create(path.clone())
        },
    }
}

/// Whether the shell answers a name itself.
pub fn is_builtin(name: &str) -> (r: bool)
    ensures
        r == completion::builtin_names().contains(name@),
{
    let ghost names = completion::builtin_names();
    let mut i: usize = 0;
    while i < BUILT_IN_COMMANDS.len()
        invariant
            names == completion::builtin_names(),
            names.len() == 9,
            i <= 9,
            forall|j: int| 0 <= j < i ==> names[j] != name@,
        decreases 9 - i,
    {
        assert(names[i as int] == BUILT_IN_COMMANDS@[i as int]@);
        if same_text(BUILT_IN_COMMANDS[i], name) {
            assert(names.contains(name@));
            return true;
        }
        i += 1;
    }
    false
}

/// What `type` says of a command.
pub fn describe(cmd: &exeCmd) -> (r: String)
    ensures
        r@ == described(cmd@),
{
    let mut r: String = cmd.name.clone();
    if is_builtin(cmd.name.as_str()) {
        r.append(" is a shell builtin");
    } else if let Some(path) = &cmd.path {
        r.append(" is ");
        r.append(path.as_str());
    } else {
        r.append(" not found");
    }
    r
}

/// What `echo` prints.
pub fn echo_output(cmd: &exeCmd) -> (r: Output)
    ensures
        r@ == echoed(cmd@),
{
    Output { text: cmd.name.clone(), sink: choose_sink(&cmd.stdout_file, cmd.stdout_append) }
}

/// What `type` prints.
pub fn describe_output(cmd: &exeCmd) -> (r: Output)
    ensures
        r@ == type_output(cmd@),
{
    Output { text: describe(cmd), sink: choose_sink(&cmd.stdout_file, cmd.stdout_append) }
}

/// What `pwd` prints.
pub fn print_directory(stdout_file: &Option<String>, stdout_append: bool, cwd: &str) -> (r:
    Output)
    ensures
        r@ == pwd_output(text::opt_text(*stdout_file), stdout_append, cwd@),
{
    Output { text: cwd.to_owned(), sink: choose_sink(stdout_file, stdout_append) }
}

/// A command with its arguments, as a line.
pub fn command_line_text(cmd: &exeCmd) -> (r: String)
    ensures
        r@ == command_text(cmd@),
{
    let ghost whole = seq![cmd.name@] + text::texts(cmd.args@);
    let mut words: Vec<String> = Vec::new();
    push_text(&mut words, cmd.name.clone());
    let mut i: usize = 0;
    assert(text::texts(words@) =~= whole.take(1));
    while i < cmd.args.len()
        invariant
            i <= cmd.args@.len(),
            whole == seq![cmd.name@] + text::texts(cmd.args@),
            text::texts(words@) == whole.take(i + 1),
        decreases cmd.args@.len() - i,
    {
        push_text(&mut words, cmd.args[i].clone());
        i += 1;
        assert(text::texts(words@) =~= whole.take(i + 1));
    }
    assert(whole.take(i + 1) =~= whole);
    join(&words, " ")
}

/// The program to run for a command: its file, or else its name.
pub fn program(cmd: &exeCmd) -> (r: String)
    ensures
        r@ == program_of(cmd@),
{
    match &cmd.path {
        Some(path) => path.clone(),
        None => cmd.name.clone(),
    }
}

/// How to run a command, by its file or else by its name.
pub fn launch(cmd: &exeCmd) -> (r: ExecPlan)
    ensures
        r@ == launched(cmd@),
{
    ExecPlan {
        program: program(cmd),
        args: copy_texts(&cmd.args),
        stdout: choose_target(&cmd.stdout_file, cmd.stdout_append),
        stderr: choose_target(&cmd.stderr_file, cmd.stderr_append),
    }
}

impl Command {
    /// The current directory as it is shown, given its name, if it has one.
    pub fn pwd_direc(current_dir: Option<String>) -> (r: String)
        ensures
            r@ == (match current_dir {
                Some(path) => path@,
                None => "?/?"@,
            }),
    {
        match current_dir {
            Some(path) => path,
            None => "?/?".to_string(),
        }
    }

    /// The directory to change to: `~` stands for the home directory.
    pub fn change_directory(dir: String, home: Option<String>) -> (r: String)
        requires
            dir@ == "~"@ ==> home is Some,
        ensures
            r@ == (if dir@ == "~"@ {
                home->0@
            } else {
                dir@
            }),
    {
        if same_text(dir.as_str(), "~") {
            home.unwrap()
        } else {
            dir
        }
    }

    /// What is said when the directory cannot be changed to.
    pub fn change_directory_error(path: &str) -> (r: String)
        ensures
            r@ == "cd :"@ + path@ + " : no such file or directory"@,
    {
        let mut r: String = "cd :".to_string();
        r.append(path);
        r.append(" : no such file or directory");
        r
    }

    /// How to run a command in the foreground, or why it cannot be run.
    pub fn rn_exec(mdata: &exeCmd) -> (r: Result<ExecPlan, String>)
        ensures
            match (r, planned(mdata@)) {
                (Ok(plan), Ok(view)) => plan@ == view,
                (Err(message), Err(view)) => message@ == view,
                _ => false,
            },
    {
        match &mdata.path {
            None => {
                let mut message: String = "No executable found for path '".to_string();
                message.append(mdata.name.as_str());
                message.append("'");
                Err(message)
            },
            Some(path) => Ok(
                ExecPlan {
                    program: path.clone(),
                    args: copy_texts(&mdata.args),
                    stdout: choose_target(&mdata.stdout_file, mdata.stdout_append),
                    stderr: choose_target(&mdata.stderr_file, mdata.stderr_append),
                },
            ),
        }
    }
}

/// Output that is not redirected goes to the terminal; output that is goes to its file, at the
/// end of it where it is to be appended, and else in place of what the file holds.
pub proof fn law_output_goes_where_it_is_sent(path: Seq<char>, append: bool)
    ensures
        sink_for(None, append) is Terminal,
        append ==> sink_for(Some(path), append) == SinkView::Append(path),
        !append ==> sink_for(Some(path), append) == SinkView::Overwrite(path),
{
}

/// A program is run with just the arguments of its command: as many, and each in its place.
pub proof fn law_programs_get_their_arguments(cmd: ExecView)
    ensures
        launched(cmd).args.len() == cmd.args.len(),
        forall|i: int| 0 <= i < cmd.args.len() ==> launched(cmd).args[i] == cmd.args[i],
        planned(cmd) matches Ok(plan) ==> plan.args.len() == cmd.args.len() && forall|i: int|
            0 <= i < cmd.args.len() ==> plan.args[i] == cmd.args[i],
{
}

/// A program is run by its file. In the foreground there has to be one; elsewhere the name of the
/// command serves where there is none.
pub proof fn law_programs_are_run_by_their_file(cmd: ExecView, path: Seq<char>)
    ensures
        cmd.path == Some(path) ==> launched(cmd).program == path,
        cmd.path == Some(path) ==> (planned(cmd) matches Ok(plan) && plan.program == path),
        cmd.path is None ==> launched(cmd).program == cmd.name,
        cmd.path is None ==> (planned(cmd) matches Err(message) && message
            == "No executable found for path '"@ + cmd.name + "'"@),
{
}

/// Each of the two streams of a program goes where its own redirection says, by its own flag: to
/// where that of the shell goes without one, and else to its file, which is appended to if and
/// only if that was asked for.
pub proof fn law_streams_go_where_they_are_sent(cmd: ExecView)
    ensures
        launched(cmd).stdout is Inherit <==> cmd.stdout_file is None,
        launched(cmd).stdout matches TargetView::Append(path) ==> cmd.stdout_file == Some(path)
            && cmd.stdout_append,
        launched(cmd).stdout matches TargetView::Create(path) ==> cmd.stdout_file == Some(path)
            && !cmd.stdout_append,
        launched(cmd).stderr is Inherit <==> cmd.stderr_file is None,
        launched(cmd).stderr matches TargetView::Append(path) ==> cmd.stderr_file == Some(path)
            && cmd.stderr_append,
        launched(cmd).stderr matches TargetView::Create(path) ==> cmd.stderr_file == Some(path)
            && !cmd.stderr_append,
        planned(cmd) matches Ok(plan) ==> {
            &&& plan.stdout is Inherit <==> cmd.stdout_file is None
            &&& plan.stdout matches TargetView::Append(path) ==> cmd.stdout_file == Some(path)
                && cmd.stdout_append
            &&& plan.stdout matches TargetView::Create(path) ==> cmd.stdout_file == Some(path)
                && !cmd.stdout_append
            &&& plan.stderr is Inherit <==> cmd.stderr_file is None
            &&& plan.stderr matches TargetView::Append(path) ==> cmd.stderr_file == Some(path)
                && cmd.stderr_append
            &&& plan.stderr matches TargetView::Create(path) ==> cmd.stderr_file == Some(path)
                && !cmd.stderr_append
        },
{
}

/// `echo` prints its text and `pwd` the directory, each where its redirection says.
pub proof fn law_printed_text(cmd: ExecView, file: Option<Seq<char>>, append: bool, cwd: Seq<char>)
    ensures
        echoed(cmd).text == cmd.name,
        echoed(cmd).sink == sink_for(cmd.stdout_file, cmd.stdout_append),
        type_output(cmd).text == described(cmd),
        type_output(cmd).sink == sink_for(cmd.stdout_file, cmd.stdout_append),
        pwd_output(file, append, cwd).text == cwd,
        pwd_output(file, append, cwd).sink == sink_for(file, append),
{
}

/// The names that the shell answers itself are these.
pub proof fn law_builtin_names(name: Seq<char>)
    ensures
        completion::builtin_names().contains(name) <==> name == "echo"@ || name == "type"@ || name
            == "exit"@ || name == "pwd"@ || name == "cd"@ || name == "complete"@ || name == "jobs"@
            || name == "history"@ || name == "declare"@,
{
    let names = completion::builtin_names();
    assert(names.len() == 9);
    assert(names[0] == "echo"@ && names[1] == "type"@ && names[2] == "exit"@);
    assert(names[3] == "pwd"@ && names[4] == "cd"@ && names[5] == "complete"@);
    assert(names[6] == "jobs"@ && names[7] == "history"@ && names[8] == "declare"@);
}

/// `type` says of each name whether the shell answers it itself, which counts before a file of
/// that name, which file it is, or that there is none.
pub proof fn law_type_tells_what_a_name_is(cmd: ExecView, path: Seq<char>)
    ensures
        text::begins_with(described(cmd), cmd.name),
        cmd.name == "echo"@ || cmd.name == "type"@ || cmd.name == "exit"@ || cmd.name == "pwd"@
            || cmd.name == "cd"@ || cmd.name == "complete"@ || cmd.name == "jobs"@ || cmd.name
            == "history"@ || cmd.name == "declare"@ ==> described(cmd).skip(cmd.name.len() as int)
            == " is a shell builtin"@,
        !completion::builtin_names().contains(cmd.name) && cmd.path == Some(path) ==> described(
            cmd,
        ).skip(cmd.name.len() as int) == " is "@ + path,
        !completion::builtin_names().contains(cmd.name) && cmd.path is None ==> described(
            cmd,
        ).skip(cmd.name.len() as int) == " not found"@,
{
    law_builtin_names(cmd.name);
    let n = cmd.name.len() as int;
    let said = described(cmd);
    assert(said.take(n) =~= cmd.name);
    if completion::builtin_names().contains(cmd.name) {
        assert(said.skip(n) =~= " is a shell builtin"@);
    } else if let Some(file) = cmd.path {
        assert(said.skip(n) =~= " is "@ + file);
    } else {
        assert(said.skip(n) =~= " not found"@);
    }
}

/// The name of the job that runs a program is the command as it would be written: reading it
/// gives the name and the arguments.
pub proof fn law_command_text_is_read_back(cmd: ExecView)
    requires
        tokens::is_plain(cmd.name),
        forall|i: int| 0 <= i < cmd.args.len() ==> tokens::is_plain(#[trigger] cmd.args[i]),
    ensures
        tokens::tokens(command_text(cmd)) == seq![cmd.name] + cmd.args,
{
    let words = seq![cmd.name] + cmd.args;
    assert forall|i: int| 0 <= i < words.len() implies tokens::is_plain(#[trigger] words[i]) by {
        if i > 0 {
            assert(words[i] == cmd.args[i - 1]);
        }
    }
    tokens::law_plain_words_are_read_back(words);
}

} // verus!
