//! From a line to the command that it stands for.
use shell_rs::command::{
    exeCmd, ChainOp, ChainSegment, Command, CompleteAction, DeclareAction,
};
use shell_rs::lookup::{LookupError, PathTable};
use shell_rs::parse::Parse;
use shell_rs::store::TextMap;

fn vars(pairs: &[(&str, &str)]) -> TextMap<String> {
    let mut map = TextMap::new();
    for (name, value) in pairs {
        map.insert(name.to_string(), value.to_string());
    }
    map
}

fn paths(found: &[&str], missing: &[&str]) -> PathTable {
    let mut table = TextMap::new();
    for name in found {
        table.insert(name.to_string(), Ok(format!("/bin/{}", name)));
    }
    for name in missing {
        table.insert(name.to_string(), Err(LookupError::PathNotFound));
    }
    table
}

fn read(line: &str) -> Parse {
    Command::from_input(
        line,
        &vars(&[]),
        &paths(&["ls", "wc", "cat", "sleep", "true"], &["nope", "/tmp"]),
        8,
    )
}

fn exec(name: &str, args: &[&str]) -> exeCmd {
    exeCmd::new(
        name,
        Some(format!("/bin/{}", name)),
        args.iter().map(|s| s.to_string()).collect(),
    )
}

fn echo(text: &str) -> Command {
    Command::EchoCommand { display_string: exeCmd::new(text, None, vec![]) }
}

fn run(name: &str, args: &[&str]) -> Command {
    Command::ExecCommand { exec_name: exec(name, args) }
}

fn segment(words: &[&str], operator: ChainOp) -> ChainSegment {
    ChainSegment { tokens: words.iter().map(|s| s.to_string()).collect(), operator }
}

#[test]
fn blank_lines_are_nothing() {
    assert_eq!(read(""), Parse::Done(Command::Noop));
    assert_eq!(read(" \t "), Parse::Done(Command::Noop));
    assert_eq!(read("''"), Parse::Done(Command::Noop));
    assert_eq!(read("&"), Parse::Done(Command::Noop));
    assert_eq!(read("> file"), Parse::Done(Command::Noop));
}

#[test]
fn echo_prints_its_words() {
    assert_eq!(read("echo \"hello world\""), Parse::Done(echo("hello world")));
    assert_eq!(read("echo  a   b"), Parse::Done(echo("a b")));
    assert_eq!(read("echo"), Parse::Done(echo("")));
}

#[test]
fn simple_builtins() {
    assert_eq!(read("exit"), Parse::Done(Command::ExitCommand));
    assert_eq!(read("exit now"), Parse::Done(Command::ExitCommand));
    assert_eq!(read("pwd"), Parse::Done(Command::PwdCommand { stdout_file: None, stdout_append: false }));
    assert_eq!(
        read("pwd > out"),
        Parse::Done(Command::PwdCommand {
            stdout_file: Some("out".to_string()),
            stdout_append: false,
        })
    );
    assert_eq!(
        read("jobs >> out"),
        Parse::Done(Command::JobsCommand {
            stdout_file: Some("out".to_string()),
            stdout_append: true,
        })
    );
}

#[test]
fn programs_are_run_with_their_arguments() {
    assert_eq!(read("ls -la"), Parse::Done(run("ls", &["-la"])));
    assert_eq!(read("nope -x"), Parse::Done(Command::CommandNotFound));
    assert_eq!(read("unknown -x"), Parse::Lookup("unknown".to_string()));
}

#[test]
fn words_of_programs_are_read_twice() {
    assert_eq!(read("ls 'a b'"), Parse::Done(run("ls", &["a", "b"])));
}

#[test]
fn the_background_sign_is_the_last_word() {
    let mut cmd = exec("sleep", &["3"]);
    cmd.background = true;
    assert_eq!(read("sleep 3 &"), Parse::Done(Command::ExecCommand { exec_name: cmd }));
    assert_eq!(read("sleep & 3"), Parse::Done(run("sleep", &["&", "3"])));
    let mut said = exeCmd::new("a", None, vec![]);
    said.background = true;
    assert_eq!(read("echo a &"), Parse::Done(Command::EchoCommand { display_string: said }));
}

#[test]
fn redirections_name_files() {
    let mut cmd = exec("ls", &["-l"]);
    cmd.stdout_file = Some("out".to_string());
    cmd.stderr_file = Some("err".to_string());
    cmd.stderr_append = true;
    assert_eq!(
        read("ls > out -l 2>> err"),
        Parse::Done(Command::ExecCommand { exec_name: cmd })
    );
    for (operator, append) in [(">", false), ("1>", false), (">>", true)] {
        let mut said = exeCmd::new("a", None, vec![]);
        said.stdout_file = Some("f".to_string());
        said.stdout_append = append;
        assert_eq!(
            read(&format!("echo a {} f", operator)),
            Parse::Done(Command::EchoCommand { display_string: said })
        );
    }
    let mut cmd = exec("ls", &[]);
    cmd.stderr_file = Some("f".to_string());
    assert_eq!(read("ls 2> f"), Parse::Done(Command::ExecCommand { exec_name: cmd }));
}

#[test]
fn builtins_keep_their_redirections() {
    let out = Some("out.txt".to_string());
    let err = Some("err".to_string());
    for (answers, path) in [(paths(&["echo"], &[]), Some("/bin/echo".to_string())), (paths(&[], &["echo"]), None)] {
        let mut cmd = exeCmd::new("echo", path, vec![]);
        cmd.stdout_file = out.clone();
        assert_eq!(
            Command::from_input("type echo > out.txt", &vars(&[]), &answers, 1),
            Parse::Done(Command::TypeCommand { command_name: cmd })
        );
    }
    let mut dir = exeCmd::new("/tmp", None, vec![]);
    dir.stderr_file = err.clone();
    dir.stderr_append = true;
    assert_eq!(read("cd /tmp 2>> err"), Parse::Done(Command::CdCommand { directory: dir }));
    assert_eq!(
        read("pwd >> out.txt"),
        Parse::Done(Command::PwdCommand { stdout_file: out.clone(), stdout_append: true })
    );
    assert_eq!(
        read("declare -p a >> out.txt 2> err"),
        Parse::Done(Command::DeclareCommand {
            subcommand: DeclareAction::Print { name: "a".to_string() },
            stdout_file: out.clone(),
            stdout_append: true,
            stderr_file: err.clone(),
            stderr_append: false,
        })
    );
    assert_eq!(
        read("complete -p a > out.txt 2>> err"),
        Parse::Done(Command::CompleteCommand {
            subcommnad: CompleteAction::Print { command: "a".to_string() },
            stdout_file: out.clone(),
            stdout_append: false,
            stderr_file: err,
            stderr_append: true,
        })
    );
    match read("history 3 >> out.txt") {
        Parse::Done(Command::HistoryCommand { stdout_file, stdout_append, count, .. }) => {
            assert_eq!((stdout_file, stdout_append, count), (out, true, Some(3)));
        }
        other => panic!("{:?}", other),
    }
}

#[test]
fn an_operator_without_a_file_is_a_word() {
    assert_eq!(read("echo a >"), Parse::Done(echo("a >")));
    assert_eq!(read("echo >"), Parse::Done(echo(">")));
}

#[test]
fn the_last_redirection_counts_and_appending_stays() {
    let mut said = exeCmd::new("a", None, vec![]);
    said.stdout_file = Some("g".to_string());
    said.stdout_append = true;
    assert_eq!(
        read("echo a >> f > g"),
        Parse::Done(Command::EchoCommand { display_string: said })
    );
}

#[test]
fn pipes_hold_a_command_for_each_part() {
    assert_eq!(
        read("ls | wc -l"),
        Parse::Done(Command::PipeCommand {
            commands: vec![run("ls", &[]), run("wc", &["-l"])],
            background: false,
        })
    );
    assert_eq!(
        read("echo a | cat | wc &"),
        Parse::Done(Command::PipeCommand {
            commands: vec![echo("a"), run("cat", &[]), run("wc", &[])],
            background: true,
        })
    );
}

#[test]
fn redirections_stay_with_their_part() {
    let mut errors = exec("ls", &["-l"]);
    errors.stderr_file = Some("err".to_string());
    let mut counted = exec("wc", &[]);
    counted.stdout_file = Some("out".to_string());
    counted.stdout_append = true;
    assert_eq!(
        read("ls 2> err -l | wc >> out"),
        Parse::Done(Command::PipeCommand {
            commands: vec![
                Command::ExecCommand { exec_name: errors },
                Command::ExecCommand { exec_name: counted },
            ],
            background: false,
        })
    );
    assert_eq!(
        read("echo a > f && wc > 'my $file'"),
        Parse::Done(Command::CommandChain {
            segments: vec![
                segment(&["echo", "a", "> f"], ChainOp::And),
                segment(&["wc", "> \\m\\y\\ \\$\\f\\i\\l\\e"], ChainOp::End),
            ],
            background: false,
        })
    );
    let mut counted = exec("wc", &[]);
    counted.stdout_file = Some("my $file".to_string());
    assert_eq!(
        read("wc > \\m\\y\\ \\$\\f\\i\\l\\e"),
        Parse::Done(Command::ExecCommand { exec_name: counted })
    );
    let mut said = exeCmd::new("a", None, vec![]);
    said.stdout_file = Some("|".to_string());
    assert_eq!(
        read("echo a > '|' | wc"),
        Parse::Done(Command::PipeCommand {
            commands: vec![Command::EchoCommand { display_string: said }, run("wc", &[])],
            background: false,
        })
    );
}

#[test]
fn the_background_sign_is_taken_out_before_a_redirection() {
    assert_eq!(
        read("ls && wc & > f"),
        Parse::Done(Command::CommandChain {
            segments: vec![segment(&["ls"], ChainOp::And), segment(&["wc", "> f"], ChainOp::End)],
            background: true,
        })
    );
    let mut counted = exec("wc", &[]);
    counted.stdout_file = Some("f".to_string());
    counted.stderr_file = Some("e".to_string());
    assert_eq!(
        read("ls | wc > f & 2> e"),
        Parse::Done(Command::PipeCommand {
            commands: vec![run("ls", &[]), Command::ExecCommand { exec_name: counted }],
            background: true,
        })
    );
}

#[test]
fn pipes_with_an_invalid_part_are_not_found() {
    for line in ["| ls", "ls |", "ls | | wc", "ls | exit", "ls | nope", "ls | wc && cat", "a || b | c"] {
        assert_eq!(read(line), Parse::Done(Command::CommandNotFound), "{}", line);
    }
}

#[test]
fn pipes_ask_for_the_names_that_are_not_known() {
    assert_eq!(read("ls | who"), Parse::Lookup("who".to_string()));
    assert_eq!(read("nope | who"), Parse::Done(Command::CommandNotFound));
}

#[test]
fn chains_hold_words_and_operators() {
    assert_eq!(
        read("ls -l && echo a b || wc"),
        Parse::Done(Command::CommandChain {
            segments: vec![
                segment(&["ls", "-l"], ChainOp::And),
                segment(&["echo", "a", "b"], ChainOp::Or),
                segment(&["wc"], ChainOp::End),
            ],
            background: false,
        })
    );
    assert_eq!(
        read("sleep 1 && &"),
        Parse::Done(Command::CommandChain {
            segments: vec![segment(&["sleep", "1"], ChainOp::And)],
            background: true,
        })
    );
    assert_eq!(
        read("&& ls"),
        Parse::Done(Command::CommandChain {
            segments: vec![segment(&[], ChainOp::And), segment(&["ls"], ChainOp::End)],
            background: false,
        })
    );
}

#[test]
fn complete_requests() {
    let ask = |line: &str| match read(line) {
        Parse::Done(Command::CompleteCommand { subcommnad, .. }) => subcommnad,
        other => panic!("{:?}", other),
    };
    assert_eq!(
        ask("complete -C script git"),
        CompleteAction::Register { script: "script".to_string(), command: "git".to_string() }
    );
    assert_eq!(ask("complete -p git"), CompleteAction::Print { command: "git".to_string() });
    assert_eq!(ask("complete -r git"), CompleteAction::Remove { command: "git".to_string() });
    assert_eq!(ask("complete"), CompleteAction::Empty);
    assert_eq!(
        ask("complete -x git"),
        CompleteAction::Error("complete: unrecognised flag".to_string())
    );
    assert_eq!(
        ask("complete -p"),
        CompleteAction::Error("complete: unrecognised flag".to_string())
    );
}

#[test]
fn declare_requests() {
    let ask = |line: &str| match read(line) {
        Parse::Done(Command::DeclareCommand { subcommand, .. }) => subcommand,
        other => panic!("{:?}", other),
    };
    let assign = |name: &str, value: &str| DeclareAction::Assign {
        name: name.to_string(),
        value: value.to_string(),
    };
    assert_eq!(ask("declare Item=widget"), assign("Item", "widget"));
    assert_eq!(ask("declare a=b=c"), assign("a", "b=c"));
    assert_eq!(ask("declare a"), assign("a", ""));
    assert_eq!(ask("declare a="), assign("a", ""));
    assert_eq!(ask("declare -p a"), DeclareAction::Print { name: "a".to_string() });
    assert_eq!(ask("declare"), DeclareAction::Empty);
    assert_eq!(
        ask("declare 1a=b"),
        DeclareAction::Error("declare : `1a=b': not valid indentifier".to_string())
    );
    assert_eq!(
        ask("declare =b"),
        DeclareAction::Error("declare : `=b': not valid indentifier".to_string())
    );
    let flag = DeclareAction::Error("declare: unrecognised flag".to_string());
    assert_eq!(ask("declare -x"), flag);
    assert_eq!(ask("declare a=1 b=2"), flag);
}

#[test]
fn history_requests() {
    let ask = |line: &str| match read(line) {
        Parse::Done(Command::HistoryCommand { count, read_file, write_file, append_file, .. }) => {
            (count, read_file, write_file, append_file)
        }
        other => panic!("{:?}", other),
    };
    let file = Some("f".to_string());
    assert_eq!(ask("history"), (None, None, None, None));
    assert_eq!(ask("history 5"), (Some(5), None, None, None));
    assert_eq!(ask("history x"), (None, None, None, None));
    assert_eq!(ask("history -r f"), (None, file.clone(), None, None));
    assert_eq!(ask("history -w f"), (None, None, file.clone(), None));
    assert_eq!(ask("history -a f"), (None, None, None, file));
    assert_eq!(ask("history -x f"), (None, None, None, None));
}

#[test]
fn type_and_cd_take_what_was_found() {
    assert_eq!(
        read("type ls"),
        Parse::Done(Command::TypeCommand { command_name: exec("ls", &[]) })
    );
    assert_eq!(
        read("type nope x"),
        Parse::Done(Command::TypeCommand { command_name: exeCmd::new("nope x", None, vec![]) })
    );
    assert_eq!(
        read("type"),
        Parse::Done(Command::TypeCommand { command_name: exeCmd::new("", None, vec![]) })
    );
    assert_eq!(
        read("cd /tmp"),
        Parse::Done(Command::CdCommand { directory: exeCmd::new("/tmp", None, vec![]) })
    );
    assert_eq!(read("cd /var"), Parse::Lookup("/var".to_string()));
}

#[test]
fn variables_are_expanded_before_signs_are_looked_for() {
    let v = vars(&[("P", "|"), ("C", "&&"), ("B", "&"), ("X", "ls -l"), ("N", "ls")]);
    let table = paths(&["ls", "wc"], &[]);
    let read = |line: &str| Command::from_input(line, &v, &table, 8);
    assert_eq!(
        read("ls $P wc"),
        Parse::Done(Command::PipeCommand {
            commands: vec![run("ls", &[]), run("wc", &[])],
            background: false,
        })
    );
    assert_eq!(
        read("ls $C wc"),
        Parse::Done(Command::CommandChain {
            segments: vec![segment(&["ls"], ChainOp::And), segment(&["wc"], ChainOp::End)],
            background: false,
        })
    );
    let mut cmd = exec("ls", &[]);
    cmd.background = true;
    assert_eq!(read("ls $B"), Parse::Done(Command::ExecCommand { exec_name: cmd }));
    assert_eq!(read("$X"), Parse::Done(run("ls", &["-l"])));
    assert_eq!(read("echo '$N'"), Parse::Done(echo("ls")));
    assert_eq!(
        read("echo a > $N"),
        Parse::Done(Command::EchoCommand {
            display_string: {
                let mut said = exeCmd::new("a", None, vec![]);
                said.stdout_file = Some("$N".to_string());
                said
            },
        })
    );
}

#[test]
fn pipes_within_pipes_go_only_so_deep() {
    let v = vars(&[("X", "$X | $X")]);
    let table = paths(&["a", "b"], &[]);
    assert_eq!(Command::from_input("a $X | b", &v, &table, 0), Parse::TooDeep);
    assert_eq!(Command::from_input("a $X | b", &v, &table, 20), Parse::TooDeep);
    assert_eq!(Command::from_input("a | b", &v, &table, 0), Parse::TooDeep);
    let plain = Command::from_input("a | b", &v, &table, 1);
    assert_eq!(
        plain,
        Parse::Done(Command::PipeCommand {
            commands: vec![run("a", &[]), run("b", &[])],
            background: false,
        })
    );
    assert_eq!(Command::from_input("a | b", &v, &table, 9), plain);
}

#[test]
fn nested_pipes_come_from_values() {
    let v = vars(&[("X", "a | b")]);
    let table = paths(&["a", "b", "c"], &[]);
    assert_eq!(
        Command::from_input("c | $X", &v, &table, 8),
        Parse::Done(Command::PipeCommand {
            commands: vec![
                run("c", &[]),
                Command::PipeCommand {
                    commands: vec![run("a", &[]), run("b", &[])],
                    background: false,
                },
            ],
            background: false,
        })
    );
}

#[test]
fn further_answers_change_nothing_once_nothing_is_asked() {
    let few = paths(&["ls", "wc"], &[]);
    let more = paths(&["ls", "wc", "cat"], &["nope"]);
    for line in ["ls -l | wc", "echo a", "ls && cat", ""] {
        let first = Command::from_input(line, &vars(&[]), &few, 4);
        assert!(!matches!(first, Parse::Lookup(_)));
        assert_eq!(Command::from_input(line, &vars(&[]), &more, 4), first);
    }
}

#[test]
fn a_declared_value_is_echoed() {
    let table = paths(&[], &[]);
    let mut v = vars(&[]);
    match Command::from_input("declare Item=widget", &v, &table, 1) {
        Parse::Done(Command::DeclareCommand {
            subcommand: DeclareAction::Assign { name, value },
            ..
        }) => v.insert(name, value),
        other => panic!("{:?}", other),
    }
    assert_eq!(
        Command::from_input("echo stock_${Item}_id", &v, &table, 1),
        Parse::Done(echo("stock_widget_id"))
    );
    assert_eq!(Command::from_input("echo $Item", &v, &table, 1), Parse::Done(echo("widget")));
}
