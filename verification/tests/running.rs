//! Running programs, chains and pipes.
use shell_rs::chain::{chain_job_text, ChainAction, ChainRun};
use shell_rs::command::{exeCmd, ChainOp, ChainSegment, Command};
use shell_rs::dispatch::Action;
use shell_rs::output::{command_line_text, launch, program, ExecPlan, Output, Sink, Target};
use shell_rs::pipe::{pipe_job_text, PipeAction, PipeData, PipeRun, Stdin};
use shell_rs::shell::Shell;

fn list(items: &[&str]) -> Vec<String> {
    items.iter().map(|s| s.to_string()).collect()
}

fn exec(name: &str, args: &[&str]) -> exeCmd {
    exeCmd::new(name, Some(format!("/bin/{}", name)), list(args))
}

fn run(name: &str, args: &[&str]) -> Command {
    Command::ExecCommand { exec_name: exec(name, args) }
}

fn echo(text: &str) -> Command {
    Command::EchoCommand { display_string: exeCmd::new(text, None, vec![]) }
}

fn plain(program: &str, args: Vec<String>) -> ExecPlan {
    ExecPlan {
        program: program.to_string(),
        args,
        stdout: Target::Inherit,
        stderr: Target::Inherit,
    }
}

fn jobs() -> Command {
    Command::JobsCommand { stdout_file: None, stdout_append: false }
}

fn segment(words: &[&str], operator: ChainOp) -> ChainSegment {
    ChainSegment { tokens: list(words), operator }
}

fn chain(operator: ChainOp) -> ChainRun {
    ChainRun::new(vec![segment(&["a", "x"], operator), segment(&["b"], ChainOp::End)])
}

#[test]
fn programs_and_their_names() {
    assert_eq!(program(&exec("ls", &[])), "/bin/ls");
    assert_eq!(program(&exeCmd::new("ls", None, vec![])), "ls");
    assert_eq!(command_line_text(&exec("sleep", &["3"])), "sleep 3");
    assert_eq!(command_line_text(&exec("ls", &[])), "ls");
    assert_eq!(launch(&exec("ls", &["-l"])), plain("/bin/ls", list(&["-l"])));
    let mut cmd = exeCmd::new("ls", None, vec![]);
    cmd.stdout_file = Some("f".to_string());
    assert_eq!(
        launch(&cmd),
        ExecPlan { stdout: Target::Create("f".to_string()), ..plain("ls", vec![]) }
    );
}

#[test]
fn plans_for_programs() {
    let mut cmd = exec("ls", &["-l"]);
    let plan = |stdout, stderr| {
        Ok(ExecPlan { program: "/bin/ls".to_string(), args: list(&["-l"]), stdout, stderr })
    };
    assert_eq!(Command::rn_exec(&cmd), plan(Target::Inherit, Target::Inherit));
    cmd.stdout_file = Some("o".to_string());
    cmd.stderr_file = Some("e".to_string());
    cmd.stderr_append = true;
    assert_eq!(
        Command::rn_exec(&cmd),
        plan(Target::Create("o".to_string()), Target::Append("e".to_string()))
    );
    assert_eq!(
        Command::rn_exec(&exeCmd::new("ls", None, vec![])),
        Err("No executable found for path 'ls'".to_string())
    );
}

#[test]
fn directories() {
    assert_eq!(Command::pwd_direc(Some("/a".to_string())), "/a");
    assert_eq!(Command::pwd_direc(None), "?/?");
    let home = || Some("/home/you".to_string());
    assert_eq!(Command::change_directory("~".to_string(), home()), "/home/you");
    assert_eq!(Command::change_directory("~/x".to_string(), home()), "~/x");
    assert_eq!(Command::change_directory("/a".to_string(), None), "/a");
    assert_eq!(
        Command::change_directory_error("/a"),
        "cd :/a : no such file or directory"
    );
}

#[test]
fn and_goes_on_after_success() {
    let mut both = chain(ChainOp::And);
    assert_eq!(both.next_line(), Some("a x".to_string()));
    both.advance(true);
    assert_eq!(both.next_line(), Some("b".to_string()));
    both.advance(true);
    assert_eq!(both.next_line(), None);
    let mut one = chain(ChainOp::And);
    one.advance(false);
    assert_eq!(one.next_line(), None);
    assert!(!one.last_status);
}

#[test]
fn or_goes_on_after_failure() {
    let mut one = chain(ChainOp::Or);
    one.advance(true);
    assert_eq!(one.next_line(), None);
    let mut both = chain(ChainOp::Or);
    both.advance(false);
    assert_eq!(both.next_line(), Some("b".to_string()));
    both.stop();
    assert_eq!(both.next_line(), None);
    both.advance(true);
    assert_eq!(both.next_line(), None);
}

#[test]
fn parts_of_chains() {
    let act = |command| ChainRun::part_action(command, false, " the line ", "/d");
    assert_eq!(act(run("ls", &[])), ChainAction::Run(exec("ls", &[])));
    assert_eq!(
        act(echo("hi")),
        ChainAction::Emit(Output { text: "hi".to_string(), sink: Sink::Terminal })
    );
    assert_eq!(
        act(Command::PwdCommand { stdout_file: Some("f".to_string()), stdout_append: true }),
        ChainAction::Emit(Output {
            text: "/d".to_string(),
            sink: Sink::Append("f".to_string())
        })
    );
    assert_eq!(
        act(Command::TypeCommand { command_name: exeCmd::new("echo", None, vec![]) }),
        ChainAction::Emit(Output {
            text: "echo is a shell builtin".to_string(),
            sink: Sink::Terminal
        })
    );
    assert_eq!(
        act(Command::CdCommand { directory: exeCmd::new("/", None, vec![]) }),
        ChainAction::ChangeDirectory { dir: "/".to_string(), errors: Sink::Terminal }
    );
    assert_eq!(act(Command::ExitCommand), ChainAction::Stop);
    assert_eq!(
        act(Command::CommandNotFound),
        ChainAction::Fail(Output {
            text: "the line command not found!!".to_string(),
            sink: Sink::Terminal
        })
    );
    assert_eq!(act(Command::Noop), ChainAction::Dispatch(Command::Noop));
    assert_eq!(act(jobs()), ChainAction::Dispatch(jobs()));
    assert_eq!(
        chain_job_text(&vec![segment(&["a", "x"], ChainOp::Or), segment(&["b"], ChainOp::End)]),
        "a x && b"
    );
}

#[test]
fn exit_is_passed_over_in_the_background() {
    assert_eq!(
        ChainRun::part_action(Command::ExitCommand, true, "exit", "/"),
        ChainAction::Pass
    );
    let mut parts = ChainRun::new(vec![
        segment(&["x"], ChainOp::Or),
        segment(&["exit"], ChainOp::Or),
        segment(&["y"], ChainOp::End),
    ]);
    parts.advance(false);
    assert_eq!(parts.next_line(), Some("exit".to_string()));
    parts.pass();
    assert_eq!(parts.next_line(), Some("y".to_string()));
    let mut parts = chain(ChainOp::Or);
    parts.pass();
    assert_eq!(parts.next_line(), None);
}

#[test]
fn programs_of_a_pipe_hand_on_what_they_print() {
    let mut shell = Shell::new();
    let mut pipe = PipeRun::new(vec![run("ls", &[]), run("wc", &["-l"])], false);
    assert_eq!(
        pipe.step(&mut shell, "", "/"),
        PipeAction::Spawn {
            plan: plain("/bin/ls", vec![]),
            stdin: Stdin::Inherit,
            last: false,
        }
    );
    pipe.spawn_finished(vec![1, 2]);
    assert_eq!(pipe.prev_output, Some(PipeData::Bytes(vec![1, 2])));
    assert_eq!(
        pipe.step(&mut shell, "", "/"),
        PipeAction::Spawn {
            plan: plain("/bin/wc", list(&["-l"])),
            stdin: Stdin::Handed,
            last: true,
        }
    );
    pipe.spawn_finished(vec![]);
    assert_eq!(pipe.prev_output, None);
    assert_eq!(pipe.step(&mut shell, "", "/"), PipeAction::End);
    assert_eq!(pipe.step(&mut shell, "", "/"), PipeAction::End);
}

#[test]
fn builtins_of_a_pipe_hand_on_their_lines() {
    let mut shell = Shell::new();
    let pwd = Command::PwdCommand { stdout_file: None, stdout_append: false };
    let mut pipe = PipeRun::new(vec![echo("a b"), pwd, echo("c")], false);
    assert_eq!(pipe.step(&mut shell, "", "/d"), PipeAction::Do(Action::Nothing));
    assert_eq!(pipe.prev_output, Some(PipeData::Text("a b\n".to_string())));
    assert_eq!(pipe.step(&mut shell, "", "/d"), PipeAction::Do(Action::Nothing));
    assert_eq!(pipe.prev_output, Some(PipeData::Text("/d\n".to_string())));
    assert_eq!(pipe.step(&mut shell, "", "/d"), PipeAction::Print("c\n".to_string()));
    assert_eq!(pipe.step(&mut shell, "", "/d"), PipeAction::End);
    let described = Command::TypeCommand { command_name: exec("ls", &[]) };
    let mut last = PipeRun::new(vec![described], false);
    assert_eq!(
        last.step(&mut shell, "", "/"),
        PipeAction::Print("ls is /bin/ls\n".to_string())
    );
}

#[test]
fn every_builtin_of_a_pipe_hands_on_what_it_prints() {
    let mut shell = Shell::new();
    Command::add_history(&mut shell, "one");
    shell.start_job(7, "x".to_string());
    let history = Command::HistoryCommand {
        stdout_file: None,
        stdout_append: false,
        count: None,
        read_file: None,
        write_file: None,
        append_file: None,
    };
    let mut pipe = PipeRun::new(vec![history, jobs(), run("cat", &[])], false);
    assert_eq!(pipe.step(&mut shell, "", "/"), PipeAction::Do(Action::Nothing));
    assert_eq!(pipe.prev_output, Some(PipeData::Text("    1  one\n".to_string())));
    assert_eq!(pipe.step(&mut shell, "", "/"), PipeAction::Do(Action::Nothing));
    assert_eq!(
        pipe.prev_output,
        Some(PipeData::Text("[1]<+> Running          x &\n".to_string()))
    );
    assert_eq!(
        pipe.step(&mut shell, "", "/"),
        PipeAction::Spawn {
            plan: plain("/bin/cat", vec![]),
            stdin: Stdin::Handed,
            last: true,
        }
    );
}

#[test]
fn commands_of_a_pipe_that_print_nothing_hand_on_an_empty_text() {
    let mut shell = Shell::new();
    let cd = Command::CdCommand { directory: exeCmd::new("/x", None, vec![]) };
    let mut to_file = exeCmd::new("b", None, vec![]);
    to_file.stdout_file = Some("f".to_string());
    let written = Command::EchoCommand { display_string: to_file };
    let mut pipe = PipeRun::new(vec![echo("a"), jobs(), cd, written, run("cat", &[])], true);
    pipe.step(&mut shell, "", "/");
    assert_eq!(pipe.step(&mut shell, "", "/"), PipeAction::Do(Action::Nothing));
    let empty = Some(PipeData::Text(String::new()));
    assert_eq!(pipe.prev_output, empty);
    assert_eq!(
        pipe.step(&mut shell, "", "/"),
        PipeAction::Do(Action::ChangeDirectory {
            dir: "/x".to_string(),
            errors: Sink::Terminal
        })
    );
    assert_eq!(pipe.prev_output, empty);
    assert_eq!(
        pipe.step(&mut shell, "", "/"),
        PipeAction::Do(Action::Emit(Output {
            text: "b".to_string(),
            sink: Sink::Overwrite("f".to_string())
        }))
    );
    assert_eq!(pipe.prev_output, empty);
    let mut first = PipeRun::new(vec![run("cat", &[])], true);
    assert_eq!(
        first.step(&mut shell, "", "/"),
        PipeAction::Spawn {
            plan: plain("/bin/cat", vec![]),
            stdin: Stdin::Null,
            last: true,
        }
    );
}

#[test]
fn a_pipe_or_a_chain_within_a_pipe_is_passed_over() {
    let mut shell = Shell::new();
    let inner = Command::PipeCommand {
        commands: vec![echo("b"), run("cat", &[])],
        background: false,
    };
    let other = Command::CommandChain { segments: vec![], background: false };
    let mut pipe = PipeRun::new(vec![echo("a"), inner, echo("b"), other, run("cat", &[])], false);
    pipe.step(&mut shell, "", "/");
    assert_eq!(pipe.step(&mut shell, "", "/"), PipeAction::Do(Action::Nothing));
    assert_eq!(pipe.prev_output, None);
    pipe.step(&mut shell, "", "/");
    assert_eq!(pipe.step(&mut shell, "", "/"), PipeAction::Do(Action::Nothing));
    assert_eq!(pipe.prev_output, None);
    assert_eq!(
        pipe.step(&mut shell, "", "/"),
        PipeAction::Spawn {
            plan: plain("/bin/cat", vec![]),
            stdin: Stdin::Inherit,
            last: true,
        }
    );
}

#[test]
fn a_program_that_cannot_be_run_is_passed_over() {
    let mut shell = Shell::new();
    let mut pipe = PipeRun::new(vec![echo("a"), run("x", &[]), run("cat", &[])], false);
    pipe.step(&mut shell, "", "/");
    pipe.step(&mut shell, "", "/");
    pipe.spawn_failed();
    assert_eq!(pipe.prev_output, Some(PipeData::Text("a\n".to_string())));
    assert_eq!(
        pipe.step(&mut shell, "", "/"),
        PipeAction::Spawn {
            plan: plain("/bin/cat", vec![]),
            stdin: Stdin::Handed,
            last: true,
        }
    );
}

#[test]
fn names_of_pipes() {
    assert_eq!(
        pipe_job_text(&vec![run("ls", &["-l"]), echo("a"), run("wc", &[])]),
        "ls | builtin | wc"
    );
}
