//! History, jobs, scripts and variables.
use shell_rs::command::{exeCmd, Command, CompleteAction, DeclareAction, Job, JobStatus};
use shell_rs::dispatch::Action;
use shell_rs::history::history_text;
use shell_rs::jobs::{list_jobs, start_line};
use shell_rs::output::{Output, Sink};
use shell_rs::shell::Shell;

fn list(items: &[&str]) -> Vec<String> {
    items.iter().map(|s| s.to_string()).collect()
}

fn with_history(items: &[&str]) -> Shell {
    let mut shell = Shell::new();
    for item in items {
        Command::add_history(&mut shell, item);
    }
    shell
}

fn terminal(text: &str) -> Action {
    Action::Emit(Output { text: text.to_string(), sink: Sink::Terminal })
}

fn complaint(text: &str) -> Action {
    Action::Complain(Output { text: text.to_string(), sink: Sink::Terminal })
}

fn append(text: &str, file: &str) -> Action {
    Action::Emit(Output { text: text.to_string(), sink: Sink::Append(file.to_string()) })
}

fn overwrite(text: &str, file: &str) -> Action {
    Action::Emit(Output { text: text.to_string(), sink: Sink::Overwrite(file.to_string()) })
}

fn history(
    count: Option<usize>,
    stdout_file: Option<&str>,
    read: Option<&str>,
    write: Option<&str>,
    append: Option<&str>,
) -> Command {
    let own = |s: Option<&str>| s.map(|s| s.to_string());
    Command::HistoryCommand {
        stdout_file: own(stdout_file),
        stdout_append: false,
        count,
        read_file: own(read),
        write_file: own(write),
        append_file: own(append),
    }
}

fn complete(request: CompleteAction) -> Command {
    Command::CompleteCommand {
        subcommnad: request,
        stdout_file: None,
        stdout_append: false,
        stderr_file: None,
        stderr_append: false,
    }
}

fn declare(request: DeclareAction) -> Command {
    Command::DeclareCommand {
        subcommand: request,
        stdout_file: None,
        stdout_append: false,
        stderr_file: None,
        stderr_append: false,
    }
}

#[test]
fn blank_lines_are_not_remembered() {
    let shell = with_history(&["a", "", "  ", "b "]);
    assert_eq!(shell.history, list(&["a", "b "]));
    assert_eq!(shell.history_written, 0);
}

#[test]
fn history_is_listed_with_numbers() {
    let lines = list(&["echo \"hello world\"", "declare Item=widget"]);
    assert_eq!(
        history_text(&lines, None),
        "    1  echo \"hello world\"\n    2  declare Item=widget"
    );
    assert_eq!(history_text(&lines, Some(1)), "    2  declare Item=widget");
    assert_eq!(history_text(&lines, Some(0)), "");
    assert_eq!(history_text(&lines, Some(9)), history_text(&lines, None));
    let many: Vec<String> = (0..100001).map(|_| "x".to_string()).collect();
    assert_eq!(history_text(&many, Some(2)), "100000  x\n100001  x");
}

#[test]
fn listing_goes_to_the_terminal_or_a_file() {
    let mut shell = with_history(&["a"]);
    assert_eq!(
        shell.dispatch(history(None, None, None, None, None), "history", "/"),
        terminal("    1  a")
    );
    assert_eq!(
        shell.dispatch(history(Some(0), None, None, None, None), "history 0", "/"),
        Action::Nothing
    );
    assert_eq!(
        shell.dispatch(history(Some(0), Some("f"), None, None, None), "history 0", "/"),
        overwrite("", "f")
    );
}

#[test]
fn written_history_is_read_back() {
    let mut first = with_history(&["one", "two words"]);
    let written = first.write_history();
    assert_eq!(written, "one\ntwo words\n");
    assert_eq!(first.history_written, 2);
    let mut second = with_history(&["zero"]);
    second.read_history(Some(&written));
    assert_eq!(second.history, list(&["zero", "one", "two words"]));
    assert_eq!(second.history_written, 3);
    let mut empty = Shell::new();
    let nothing = empty.write_history();
    assert_eq!(nothing, "\n");
    second.read_history(Some(&nothing));
    assert_eq!(second.history.len(), 3);
}

#[test]
fn a_file_that_cannot_be_read_adds_nothing() {
    let mut shell = with_history(&["a"]);
    shell.read_history(None);
    assert_eq!(shell.history, list(&["a"]));
    assert_eq!(shell.history_written, 1);
}

#[test]
fn sessions_append_what_was_entered_in_them() {
    let mut file = "old\n".to_string();
    let mut shell = Shell::new();
    Command::load_hist_from_env(&mut shell, Some(Some(&file)));
    Command::add_history(&mut shell, "new");
    Command::add_history(&mut shell, "newer");
    let added = Command::save_to_histfile(&mut shell, true);
    assert_eq!(added, Some("new\nnewer\n".to_string()));
    assert_eq!(Command::save_to_histfile(&mut shell, true), None);
    file.push_str(&added.unwrap());
    let mut next = Shell::new();
    Command::load_hist_from_env(&mut next, Some(Some(&file)));
    assert_eq!(next.history, shell.history);
}

#[test]
fn without_a_history_file_nothing_is_loaded_or_saved() {
    let mut shell = with_history(&["a"]);
    Command::load_hist_from_env(&mut shell, None);
    assert_eq!(shell.history_written, 0);
    assert_eq!(Command::save_to_histfile(&mut shell, false), None);
    assert_eq!(shell.history_written, 0);
    Command::load_hist_from_env(&mut shell, Some(None));
    assert_eq!(shell.history_written, 1);
}

#[test]
fn history_commands_name_what_is_left_to_do() {
    let mut shell = with_history(&["a", "b"]);
    assert_eq!(
        shell.dispatch(history(None, None, Some("r"), Some("w"), Some("p")), "", "/"),
        Action::ReadHistory("r".to_string())
    );
    assert_eq!(
        shell.dispatch(history(None, None, None, None, Some("p")), "", "/"),
        Action::AppendHistory { path: "p".to_string(), text: "a\nb\n".to_string() }
    );
    assert_eq!(
        shell.dispatch(history(None, None, None, None, Some("p")), "", "/"),
        Action::Nothing
    );
    assert_eq!(
        shell.dispatch(history(None, None, None, Some("w"), Some("p")), "", "/"),
        overwrite("a\nb\n", "w")
    );
}

#[test]
fn a_cursor_behind_the_history_appends_nothing() {
    let mut shell = with_history(&["a"]);
    *Command::history_written(&mut shell) = 5;
    assert_eq!(shell.append_history(), None);
    assert_eq!(shell.history_written, 1);
}

#[test]
fn the_parts_of_the_memory_can_be_changed() {
    let mut shell = Shell::new();
    Command::history_list(&mut shell).push("a".to_string());
    Command::completions(&mut shell).insert("c".to_string(), "s".to_string());
    Command::shell_vars(&mut shell).insert("v".to_string(), "1".to_string());
    Command::jobs_list(&mut shell).push(Job {
        job_number: 4,
        pid: 5,
        command: "x".to_string(),
        status: JobStatus::Running,
        notified: false,
    });
    assert_eq!(shell.history, list(&["a"]));
    assert_eq!(shell.completions.get("c"), Some(&"s".to_string()));
    assert_eq!(shell.shell_vars.get("v"), Some(&"1".to_string()));
    assert_eq!(shell.next_job_number(), Some(5));
}

#[test]
fn a_running_job_is_listed() {
    let mut shell = Shell::new();
    assert_eq!(shell.next_job_number(), Some(1));
    assert_eq!(shell.start_job(2345, "sleep 3".to_string()), 1);
    assert_eq!(start_line(1, 2345), "[1] 2345");
    assert_eq!(list_jobs(&shell.jobs), "[1]<+> Running          sleep 3 &");
    assert_eq!(
        shell.dispatch(Command::JobsCommand { stdout_file: None, stdout_append: false }, "jobs", "/"),
        terminal("[1]<+> Running          sleep 3 &")
    );
}

#[test]
fn the_last_two_jobs_are_marked() {
    let mut shell = Shell::new();
    for (pid, name) in [(10, "a"), (11, "b"), (12, "c")] {
        shell.start_job(pid, name.to_string());
    }
    shell.finish_process(11);
    assert_eq!(
        list_jobs(&shell.jobs),
        "[1]< > Running          a &\n[2]-  Done                    b\n[3]<+> Running          c &"
    );
}

#[test]
fn ended_jobs_are_told_of_once() {
    let mut shell = Shell::new();
    shell.start_job(10, "a".to_string());
    shell.start_job(11, "b".to_string());
    assert_eq!(Command::print_job_noti(&mut shell), Vec::<String>::new());
    shell.finish_job(1);
    assert_eq!(
        Command::print_job_noti(&mut shell),
        list(&["[1]- Done            a"])
    );
    assert_eq!(Command::print_job_noti(&mut shell), Vec::<String>::new());
    assert_eq!(shell.jobs.len(), 1);
    shell.finish_job(2);
    assert_eq!(shell.take_job_list(), "[2]+  Done                    b");
    assert_eq!(Command::print_job_noti(&mut shell), Vec::<String>::new());
    assert_eq!(shell.take_job_list(), "");
    assert_eq!(shell.start_job(12, "c".to_string()), 1);
}

#[test]
fn numbers_go_on_from_the_highest() {
    let mut shell = Shell::new();
    assert_eq!(shell.start_job(1, "a".to_string()), 1);
    assert_eq!(shell.start_job(2, "b".to_string()), 2);
    shell.finish_job(1);
    Command::print_job_noti(&mut shell);
    assert_eq!(shell.start_job(3, "c".to_string()), 3);
    shell.set_job_pid(3, 77);
    shell.set_job_pid(9, 88);
    let pids: Vec<u32> = shell.jobs.iter().map(|j| j.pid).collect();
    assert_eq!(pids, vec![2, 77]);
    shell.finish_process(1000);
    shell.finish_job(1000);
    assert!(shell.jobs.iter().all(|j| j.status == JobStatus::Running));
}

#[test]
fn no_number_is_left_behind_the_highest() {
    let mut shell = Shell::new();
    shell.start_job(1, "a".to_string());
    Command::jobs_list(&mut shell)[0].job_number = usize::MAX;
    assert_eq!(shell.next_job_number(), None);
}

#[test]
fn scripts_are_registered_printed_and_removed() {
    let mut shell = Shell::new();
    let print = || complete(CompleteAction::Print { command: "git".to_string() });
    assert_eq!(
        shell.dispatch(print(), "", "/"),
        terminal("complete : git: no complete specifications")
    );
    let register = CompleteAction::Register { script: "/s".to_string(), command: "git".to_string() };
    assert_eq!(shell.dispatch(complete(register), "", "/"), Action::Nothing);
    assert_eq!(shell.dispatch(print(), "", "/"), terminal("complete -C '/s' git"));
    let other = complete(CompleteAction::Print { command: "go".to_string() });
    assert_eq!(
        shell.dispatch(other, "", "/"),
        terminal("complete : go: no complete specifications")
    );
    let remove = complete(CompleteAction::Remove { command: "git".to_string() });
    assert_eq!(shell.dispatch(remove, "", "/"), Action::Nothing);
    assert_eq!(
        shell.dispatch(print(), "", "/"),
        terminal("complete : git: no complete specifications")
    );
    assert_eq!(
        shell.dispatch(complete(CompleteAction::Error("e".to_string())), "", "/"),
        complaint("e")
    );
    assert_eq!(shell.dispatch(complete(CompleteAction::Empty), "", "/"), Action::Nothing);
}

#[test]
fn variables_are_declared_and_printed() {
    let mut shell = Shell::new();
    let print = || declare(DeclareAction::Print { name: "a".to_string() });
    assert_eq!(shell.dispatch(print(), "", "/"), terminal("declare: a: not found"));
    for value in ["1", "two"] {
        let assign =
            DeclareAction::Assign { name: "a".to_string(), value: value.to_string() };
        assert_eq!(shell.dispatch(declare(assign), "", "/"), Action::Nothing);
        assert_eq!(
            shell.dispatch(print(), "", "/"),
            terminal(&format!("declare -- a=\"{}\"", value))
        );
    }
    let other = declare(DeclareAction::Print { name: "b".to_string() });
    assert_eq!(shell.dispatch(other, "", "/"), terminal("declare: b: not found"));
    assert_eq!(
        shell.dispatch(declare(DeclareAction::Error("e".to_string())), "", "/"),
        complaint("e")
    );
    assert_eq!(shell.dispatch(declare(DeclareAction::Empty), "", "/"), Action::Nothing);
}

#[test]
fn output_of_builtins_goes_where_it_is_sent() {
    let mut shell = Shell::new();
    assert_eq!(
        shell.dispatch(Command::PwdCommand { stdout_file: None, stdout_append: false }, "pwd", "/home/you"),
        terminal("/home/you")
    );
    assert_eq!(
        shell.dispatch(
            Command::PwdCommand { stdout_file: Some("f".to_string()), stdout_append: false },
            "",
            "/x"
        ),
        overwrite("/x", "f")
    );
    let mut said = exeCmd::new("hello", None, vec![]);
    said.stdout_file = Some("f".to_string());
    said.stdout_append = true;
    assert_eq!(
        shell.dispatch(Command::EchoCommand { display_string: said }, "", "/"),
        Action::Emit(Output { text: "hello".to_string(), sink: Sink::Append("f".to_string()) })
    );
    let described = |shell: &mut Shell, name: &str, path: Option<&str>| {
        let cmd = exeCmd::new(name, path.map(|p| p.to_string()), vec![]);
        shell.dispatch(Command::TypeCommand { command_name: cmd }, "", "/")
    };
    assert_eq!(
        described(&mut shell, "cd", Some("/bin/cd")),
        terminal("cd is a shell builtin")
    );
    assert_eq!(described(&mut shell, "ls", Some("/bin/ls")), terminal("ls is /bin/ls"));
    assert_eq!(described(&mut shell, "nope", None), terminal("nope not found"));
}

#[test]
fn builtins_append_and_send_errors_to_files() {
    let file = || Some("f".to_string());
    let mut shell = with_history(&["a"]);
    shell.start_job(1, "x".to_string());
    assert_eq!(
        shell.dispatch(
            Command::PwdCommand { stdout_file: file(), stdout_append: true },
            "",
            "/d"
        ),
        append("/d", "f")
    );
    assert_eq!(
        shell.dispatch(
            Command::JobsCommand { stdout_file: file(), stdout_append: true },
            "",
            "/"
        ),
        append("[1]<+> Running          x &", "f")
    );
    assert_eq!(
        shell.dispatch(
            Command::HistoryCommand {
                stdout_file: file(),
                stdout_append: true,
                count: None,
                read_file: None,
                write_file: None,
                append_file: None,
            },
            "",
            "/"
        ),
        append("    1  a", "f")
    );
    let declare = |subcommand| Command::DeclareCommand {
        subcommand,
        stdout_file: file(),
        stdout_append: true,
        stderr_file: Some("e".to_string()),
        stderr_append: true,
    };
    assert_eq!(
        shell.dispatch(declare(DeclareAction::Print { name: "v".to_string() }), "", "/"),
        append("declare: v: not found", "f")
    );
    assert_eq!(
        shell.dispatch(declare(DeclareAction::Error("bad".to_string())), "", "/"),
        Action::Complain(Output { text: "bad".to_string(), sink: Sink::Append("e".to_string()) })
    );
    let complete = |subcommnad| Command::CompleteCommand {
        subcommnad,
        stdout_file: file(),
        stdout_append: true,
        stderr_file: Some("e".to_string()),
        stderr_append: false,
    };
    assert_eq!(
        shell.dispatch(complete(CompleteAction::Print { command: "c".to_string() }), "", "/"),
        append("complete : c: no complete specifications", "f")
    );
    assert_eq!(
        shell.dispatch(complete(CompleteAction::Error("bad".to_string())), "", "/"),
        Action::Complain(Output {
            text: "bad".to_string(),
            sink: Sink::Overwrite("e".to_string())
        })
    );
    let mut described = exeCmd::new("echo", None, vec![]);
    described.stdout_file = file();
    assert_eq!(
        shell.dispatch(Command::TypeCommand { command_name: described }, "", "/"),
        overwrite("echo is a shell builtin", "f")
    );
    let mut dir = exeCmd::new("/x", None, vec![]);
    dir.stderr_file = file();
    assert_eq!(
        shell.dispatch(Command::CdCommand { directory: dir }, "", "/"),
        Action::ChangeDirectory {
            dir: "/x".to_string(),
            errors: Sink::Overwrite("f".to_string())
        }
    );
}

#[test]
fn commands_for_outside_are_handed_on() {
    let mut shell = Shell::new();
    assert_eq!(shell.dispatch(Command::ExitCommand, "exit", "/"), Action::Exit);
    assert_eq!(shell.dispatch(Command::Noop, "", "/"), Action::Nothing);
    assert_eq!(
        shell.dispatch(Command::CommandNotFound, "  nope x ", "/"),
        terminal("nope x command not found!!")
    );
    assert_eq!(
        shell.dispatch(
            Command::CdCommand { directory: exeCmd::new("/tmp", None, vec![]) },
            "cd /tmp",
            "/"
        ),
        Action::ChangeDirectory { dir: "/tmp".to_string(), errors: Sink::Terminal }
    );
    let cmd = || exeCmd::new("ls", Some("/bin/ls".to_string()), vec![]);
    assert_eq!(
        shell.dispatch(Command::ExecCommand { exec_name: cmd() }, "ls", "/"),
        Action::RunForeground(cmd())
    );
    let mut back = cmd();
    back.background = true;
    let mut again = cmd();
    again.background = true;
    assert_eq!(
        shell.dispatch(Command::ExecCommand { exec_name: back }, "ls &", "/"),
        Action::RunBackground(again)
    );
    let mut lost = exeCmd::new("ls", None, vec![]);
    lost.background = true;
    assert_eq!(
        shell.dispatch(Command::ExecCommand { exec_name: lost }, "ls &", "/"),
        complaint("No Executable found for 'ls'")
    );
    assert_eq!(
        shell.dispatch(
            Command::CommandChain { segments: vec![], background: true },
            "",
            "/"
        ),
        Action::RunChain { segments: vec![], background: true }
    );
    assert_eq!(
        shell.dispatch(
            Command::PipeCommand { commands: vec![Command::Noop], background: false },
            "",
            "/"
        ),
        Action::RunPipe { commands: vec![Command::Noop], background: false }
    );
}

#[test]
fn commands_leave_the_rest_of_the_memory_alone() {
    let mut shell = with_history(&["a"]);
    shell.start_job(1, "x".to_string());
    let assign = DeclareAction::Assign { name: "v".to_string(), value: "1".to_string() };
    shell.dispatch(declare(assign), "", "/");
    assert_eq!(shell.history, list(&["a"]));
    assert_eq!(shell.history_written, 0);
    assert_eq!(shell.jobs.len(), 1);
    shell.dispatch(history(None, None, None, Some("f"), None), "", "/");
    assert_eq!(shell.history_written, 1);
    assert_eq!(shell.shell_vars.get("v"), Some(&"1".to_string()));
}
