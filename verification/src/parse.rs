//! From a line of input to the command that it stands for.
use vstd::prelude::*;

use crate::command;
use crate::command::{
    exeCmd, ChainOp, ChainSegment, Command, CommandView, CompleteAction, CompleteView,
    DeclareAction, DeclareView, ExecView, SegmentView,
};
use crate::expand;
use crate::lookup;
use crate::lookup::{Answer, ParseError, ParseErrorView, PathTable};
use crate::numbers;
use crate::numbers::parse_count;
use crate::store;
use crate::store::TextMap;
use crate::text;
use crate::text::{
    chars_of, contains_text, find_from, find_text, join, push_text, same_text, text_between,
    texts_between, texts_from, trim,
};
use crate::tokens;

verus! {

/// What came of reading a line.
#[derive(Debug, PartialEq, Eq)]
pub enum Parse {
    /// The line stands for this command.
    Done(Command),
    /// Which command it stands for depends on the file that this name stands for.
    Lookup(String),
    /// The line holds pipes within pipes beyond the depth allowed for.
    TooDeep,
}

/// What a `Parse` says.
pub enum ParseView {
    Done(CommandView),
    Lookup(Seq<char>),
    TooDeep,
}

impl View for Parse {
    type V = ParseView;

    open spec fn view(&self) -> ParseView {
        match self {
            Parse::Done(command) => ParseView::Done(command@),
            Parse::Lookup(name) => ParseView::Lookup(name@),
            Parse::TooDeep => ParseView::TooDeep,
        }
    }
}

/// The words of a line without its redirections, and where those redirections go.
pub struct Line {
    pub words: Vec<String>,
    pub stdout_file: Option<String>,
    pub stdout_append: bool,
    pub stderr_file: Option<String>,
    pub stderr_append: bool,
}

/// What a `Line` says.
#[verifier::ext_equal]
pub struct LineView {
    pub words: Seq<Seq<char>>,
    pub stdout_file: Option<Seq<char>>,
    pub stdout_append: bool,
    pub stderr_file: Option<Seq<char>>,
    pub stderr_append: bool,
}

impl View for Line {
    type V = LineView;

    open spec fn view(&self) -> LineView {
        LineView {
            words: text::texts(self.words@),
            stdout_file: text::opt_text(self.stdout_file),
            stdout_append: self.stdout_append,
            stderr_file: text::opt_text(self.stderr_file),
            stderr_append: self.stderr_append,
        }
    }
}

/// The line with neither words nor redirections.
pub open spec fn empty_line() -> LineView {
    LineView {
        words: Seq::empty(),
        stdout_file: None,
        stdout_append: false,
        stderr_file: None,
        stderr_append: false,
    }
}

/// `line` continued by `words`: an operator with a word behind it redirects to the file of
/// that name, and any other word is one of the command. The last redirection of a stream
/// names its file, and one that appends makes the stream append.
pub open spec fn redirected(words: Seq<Seq<char>>, line: LineView) -> LineView
    decreases words.len(),
{
    if words.len() == 0 {
        line
    } else if words.len() >= 2 && words[0] == ">>"@ {
        redirected(
            words.skip(2),
            LineView { stdout_file: Some(words[1]), stdout_append: true, ..line },
        )
    } else if words.len() >= 2 && words[0] == "2>>"@ {
        redirected(
            words.skip(2),
            LineView { stderr_file: Some(words[1]), stderr_append: true, ..line },
        )
    } else if words.len() >= 2 && (words[0] == ">"@ || words[0] == "1>"@) {
        redirected(words.skip(2), LineView { stdout_file: Some(words[1]), ..line })
    } else if words.len() >= 2 && words[0] == "2>"@ {
        redirected(words.skip(2), LineView { stderr_file: Some(words[1]), ..line })
    } else {
        redirected(words.skip(1), LineView { words: line.words.push(words[0]), ..line })
    }
}

/// Whether a word is an operator that redirects output.
pub open spec fn is_redirection(word: Seq<char>) -> bool {
    word == ">>"@ || word == "2>>"@ || word == ">"@ || word == "1>"@ || word == "2>"@
}

/// A text such that it is read as the word that it stands for: as it is, or else with a
/// backslash before each character.
pub open spec fn quoted(word: Seq<char>) -> Seq<char> {
    if tokens::is_plain(word) {
        word
    } else {
        tokens::escaped(word)
    }
}

/// The words of a line with their variables expanded, and each redirection, which is not, as
/// one word in its place.
pub open spec fn kept(
    words: Seq<Seq<char>>,
    vars: Map<Seq<char>, Seq<char>>,
) -> Seq<Seq<char>>
    decreases words.len(),
{
    if words.len() == 0 {
        Seq::empty()
    } else if words.len() >= 2 && is_redirection(words[0]) {
        seq![words[0] + " "@ + quoted(words[1])] + kept(words.skip(2), vars)
    } else {
        seq![expand::expanded(words[0], vars)] + kept(words.skip(1), vars)
    }
}

/// The place among the kept words of the last one that is no redirection, if there is one.
pub open spec fn last_kept_word(words: Seq<Seq<char>>) -> Option<nat>
    decreases words.len(),
{
    if words.len() == 0 {
        None
    } else if words.len() >= 2 && is_redirection(words[0]) {
        match last_kept_word(words.skip(2)) {
            Some(place) => Some(place + 1),
            None => None,
        }
    } else {
        match last_kept_word(words.skip(1)) {
            Some(place) => Some(place + 1),
            None => Some(0),
        }
    }
}

/// Each word with its variables expanded.
pub open spec fn expanded_words(
    words: Seq<Seq<char>>,
    vars: Map<Seq<char>, Seq<char>>,
) -> Seq<Seq<char>> {
    words.map_values(|w: Seq<char>| expand::expanded(w, vars))
}

/// Whether the words ask for the background: the last one is `&`.
pub open spec fn in_background(words: Seq<Seq<char>>) -> bool {
    words.len() > 0 && words.last() == "&"@
}

/// The words that stand between the words `sep`.
pub open spec fn split(words: Seq<Seq<char>>, sep: Seq<char>) -> Seq<Seq<Seq<char>>>
    decreases words.len(),
{
    let k = text::find(words, sep);
    if k < words.len() {
        seq![words.take(k as int)] + split(words.skip(k as int + 1), sep)
    } else {
        seq![words]
    }
}

/// Whether a word joins the parts of a chain.
pub open spec fn is_chain_word(word: Seq<char>) -> bool {
    word == "&&"@ || word == "||"@
}

/// Whether one of the words joins the parts of a chain.
pub open spec fn has_chain(words: Seq<Seq<char>>) -> bool {
    words.contains("&&"@) || words.contains("||"@)
}

/// The parts of a pipe, unless one of them is empty or the pipe holds a chain.
pub open spec fn pipe_parts(words: Seq<Seq<char>>) -> Option<Seq<Seq<Seq<char>>>> {
    let parts = split(words, "|"@);
    if has_chain(words) || parts.contains(Seq::empty()) {
        None
    } else {
        Some(parts)
    }
}

/// The place of the first word that joins the parts of a chain, or the number of words.
pub open spec fn first_chain_word(words: Seq<Seq<char>>) -> nat
    decreases words.len(),
{
    if words.len() == 0 || is_chain_word(words[0]) {
        0
    } else {
        1 + first_chain_word(words.skip(1))
    }
}

/// The operator that a word of a chain is.
pub open spec fn chain_op(word: Seq<char>) -> ChainOp {
    if word == "&&"@ {
        ChainOp::And
    } else {
        ChainOp::Or
    }
}

/// The parts of a chain, each with the operator behind it. Nothing behind the last operator
/// is no part.
pub open spec fn chained(words: Seq<Seq<char>>) -> Seq<SegmentView>
    decreases words.len(),
{
    let k = first_chain_word(words);
    if k < words.len() {
        seq![
            SegmentView { tokens: words.take(k as int), operator: chain_op(words[k as int]) },
        ] + chained(words.skip(k as int + 1))
    } else if words.len() > 0 {
        seq![SegmentView { tokens: words, operator: ChainOp::End }]
    } else {
        Seq::empty()
    }
}

/// What the arguments of `complete` ask for.
pub open spec fn complete_request(words: Seq<Seq<char>>) -> CompleteView {
    if words.len() == 3 && words[0] == "-C"@ {
        CompleteView::Register { script: words[1], command: words[2] }
    } else if words.len() == 2 && words[0] == "-p"@ {
        CompleteView::Print { command: words[1] }
    } else if words.len() == 2 && words[0] == "-r"@ {
        CompleteView::Remove { command: words[1] }
    } else if words.len() == 0 {
        CompleteView::Empty
    } else {
        CompleteView::Error("complete: unrecognised flag"@)
    }
}

/// What stands before the first `=`, and what behind it.
pub open spec fn assignment_parts(assignment: Seq<char>) -> (Seq<char>, Seq<char>) {
    let k = text::find(assignment, '=');
    if k < assignment.len() {
        (assignment.take(k as int), assignment.skip(k as int + 1))
    } else {
        (assignment, Seq::empty())
    }
}

/// What the arguments of `declare` ask for.
pub open spec fn declare_request(words: Seq<Seq<char>>) -> DeclareView {
    if words.len() == 2 && words[0] == "-p"@ {
        DeclareView::Print { name: words[1] }
    } else if words.len() == 1 {
        let (name, value) = assignment_parts(words[0]);
        if words[0].len() > 0 && words[0][0] == '-' {
            DeclareView::Error("declare: unrecognised flag"@)
        } else if expand::is_identifier(name) {
            DeclareView::Assign { name, value }
        } else {
            DeclareView::Error("declare : `"@ + words[0] + "': not valid indentifier"@)
        }
    } else if words.len() == 0 {
        DeclareView::Empty
    } else {
        DeclareView::Error("declare: unrecognised flag"@)
    }
}

/// The file that `history` is asked to use with `flag`, if it is.
pub open spec fn flag_file(words: Seq<Seq<char>>, flag: Seq<char>) -> Option<Seq<char>> {
    if words.len() == 2 && words[0] == flag {
        Some(words[1])
    } else {
        None
    }
}

/// What `history` with the arguments `args` stands for.
pub open spec fn history_request(
    args: Seq<char>,
    stdout_file: Option<Seq<char>>,
    stdout_append: bool,
) -> CommandView {
    let words = tokens::tokens(args);
    let read_file = flag_file(words, "-r"@);
    let write_file = flag_file(words, "-w"@);
    let append_file = flag_file(words, "-a"@);
    CommandView::HistoryCommand {
        stdout_file,
        stdout_append,
        count: if read_file is None && write_file is None && append_file is None {
            numbers::counted(text::trimmed(args))
        } else {
            None
        },
        read_file,
        write_file,
        append_file,
    }
}

/// `args` as a command with arguments, or, where that cannot be, as a name alone; an error
/// when the name has to be looked up first.
pub open spec fn named(args: Seq<char>, paths: Map<Seq<char>, Answer>) -> Result<
    ExecView,
    Seq<char>,
> {
    match lookup::command_line(args, paths) {
        Ok(cmd) => Ok(cmd),
        Err(ParseErrorView::Unresolved(name)) => Err(name),
        Err(_) => Ok(command::plain_exec(args, None, Seq::empty())),
    }
}

/// A command with the redirections of a line, in the background or not.
pub open spec fn with_redirections(cmd: ExecView, line: LineView, background: bool) -> ExecView {
    ExecView {
        stdout_file: line.stdout_file,
        stdout_append: line.stdout_append,
        stderr_file: line.stderr_file,
        stderr_append: line.stderr_append,
        background,
        ..cmd
    }
}

/// What the words of a line without pipes and chains stand for.
pub open spec fn simple(
    words: Seq<Seq<char>>,
    line: LineView,
    background: bool,
    paths: Map<Seq<char>, Answer>,
) -> ParseView {
    let args = text::joined(words.skip(1), " "@);
    if words[0] == "exit"@ {
        ParseView::Done(CommandView::ExitCommand)
    } else if words[0] == "echo"@ {
        ParseView::Done(
            CommandView::EchoCommand {
                display_string: ExecView {
                    stdout_file: line.stdout_file,
                    stdout_append: line.stdout_append,
                    background,
                    ..command::plain_exec(args, None, Seq::empty())
                },
            },
        )
    } else if words[0] == "type"@ {
        match named(args, paths) {
            Ok(cmd) => ParseView::Done(
                CommandView::TypeCommand {
                    command_name: with_redirections(cmd, line, background),
                },
            ),
            Err(name) => ParseView::Lookup(name),
        }
    } else if words[0] == "pwd"@ {
        ParseView::Done(
            CommandView::PwdCommand {
                stdout_file: line.stdout_file,
                stdout_append: line.stdout_append,
            },
        )
    } else if words[0] == "cd"@ {
        match named(args, paths) {
            Ok(cmd) => ParseView::Done(
                CommandView::CdCommand { directory: with_redirections(cmd, line, background) },
            ),
            Err(name) => ParseView::Lookup(name),
        }
    } else if words[0] == "complete"@ {
        ParseView::Done(
            CommandView::CompleteCommand {
                subcommnad: complete_request(tokens::tokens(args)),
                stdout_file: line.stdout_file,
                stdout_append: line.stdout_append,
                stderr_file: line.stderr_file,
                stderr_append: line.stderr_append,
            },
        )
    } else if words[0] == "jobs"@ {
        ParseView::Done(
            CommandView::JobsCommand {
                stdout_file: line.stdout_file,
                stdout_append: line.stdout_append,
            },
        )
    } else if words[0] == "history"@ {
        ParseView::Done(history_request(args, line.stdout_file, line.stdout_append))
    } else if words[0] == "declare"@ {
        ParseView::Done(
            CommandView::DeclareCommand {
                subcommand: declare_request(tokens::tokens(args)),
                stdout_file: line.stdout_file,
                stdout_append: line.stdout_append,
                stderr_file: line.stderr_file,
                stderr_append: line.stderr_append,
            },
        )
    } else {
        match lookup::command_line(text::joined(words, " "@), paths) {
            Ok(cmd) => ParseView::Done(
                CommandView::ExecCommand { exec_name: with_redirections(cmd, line, background) },
            ),
            Err(ParseErrorView::Unresolved(name)) => ParseView::Lookup(name),
            Err(_) => ParseView::Done(CommandView::CommandNotFound),
        }
    }
}

/// Whether a command cannot be part of a pipe.
pub open spec fn refused_in_pipe(command: CommandView) -> bool {
    command is Noop || command is CommandNotFound || command is ExitCommand
}

/// The words of a line with redirections taken out and variables expanded.
pub open spec fn line_of(input: Seq<char>, vars: Map<Seq<char>, Seq<char>>) -> LineView {
    let line = redirected(tokens::tokens(text::trimmed(input)), empty_line());
    LineView { words: expanded_words(line.words, vars), ..line }
}

/// The words of a line up to the sign that asks for the background.
pub open spec fn foreground_words(words: Seq<Seq<char>>) -> Seq<Seq<char>> {
    if in_background(words) {
        words.drop_last()
    } else {
        words
    }
}

/// The words of a line between which `|`, `&&` and `||` are looked for: its redirections stay
/// where they are, with the part that they belong to, and the sign that asks for the background
/// is taken out.
pub open spec fn line_parts(
    input: Seq<char>,
    vars: Map<Seq<char>, Seq<char>>,
) -> Seq<Seq<char>> {
    let words = tokens::tokens(text::trimmed(input));
    match last_kept_word(words) {
        Some(place) if in_background(line_of(input, vars).words) => kept(words, vars).remove(
            place as int,
        ),
        _ => kept(words, vars),
    }
}

/// What a line of input stands for, with these variables, and with these answers to the
/// lookups of names.
///
/// Redirections are taken out before variables are expanded, and both before `&`, `|`, `&&`
/// and `||` are looked for. The parts of a pipe are read as lines of their own, `depth`
/// levels deep, each with its redirections.
pub open spec fn understood(
    depth: nat,
    input: Seq<char>,
    vars: Map<Seq<char>, Seq<char>>,
    paths: Map<Seq<char>, Answer>,
) -> ParseView
    decreases depth, 0nat,
{
    let line = line_of(input, vars);
    let background = in_background(line.words);
    let words = foreground_words(line.words);
    let parts = line_parts(input, vars);
    if text::is_blank(input) {
        ParseView::Done(CommandView::Noop)
    } else if parts.contains("|"@) {
        match pipe_parts(parts) {
            None => ParseView::Done(CommandView::CommandNotFound),
            Some(parts) => if depth == 0 {
                ParseView::TooDeep
            } else {
                understood_parts(
                    (depth - 1) as nat,
                    parts,
                    Seq::empty(),
                    background,
                    vars,
                    paths,
                )
            },
        }
    } else if has_chain(parts) {
        ParseView::Done(CommandView::CommandChain { segments: chained(parts), background })
    } else if words.len() == 0 {
        ParseView::Done(CommandView::Noop)
    } else {
        simple(words, line, background, paths)
    }
}

/// What a pipe stands for of which `done` has been read and `parts` is left.
pub open spec fn understood_parts(
    depth: nat,
    parts: Seq<Seq<Seq<char>>>,
    done: Seq<CommandView>,
    background: bool,
    vars: Map<Seq<char>, Seq<char>>,
    paths: Map<Seq<char>, Answer>,
) -> ParseView
    decreases depth, 1 + parts.len(),
{
    if parts.len() == 0 {
        ParseView::Done(CommandView::PipeCommand { commands: done, background })
    } else {
        match understood(depth, text::joined(parts[0], " "@), vars, paths) {
            ParseView::Done(command) => if refused_in_pipe(command) {
                ParseView::Done(CommandView::CommandNotFound)
            } else {
                understood_parts(depth, parts.skip(1), done.push(command), background, vars, paths)
            },
            other => other,
        }
    }
}

/// The last word that is no redirection is one of the kept words.
pub proof fn lemma_last_kept_word(words: Seq<Seq<char>>, vars: Map<Seq<char>, Seq<char>>)
    ensures
        last_kept_word(words) matches Some(place) ==> place < kept(words, vars).len(),
    decreases words.len(),
{
    if words.len() >= 2 && is_redirection(words[0]) {
        lemma_last_kept_word(words.skip(2), vars);
    } else if words.len() > 0 {
        lemma_last_kept_word(words.skip(1), vars);
    }
}

/// The words of each list of a list.
pub open spec fn word_lists(lists: Seq<Vec<String>>) -> Seq<Seq<Seq<char>>> {
    lists.map_values(|l: Vec<String>| text::texts(l@))
}

/// The words of a line without its redirections, and where those redirections go.
fn strip_redirections(words: &Vec<String>) -> (r: Line)
    ensures
        r@ == redirected(text::texts(words@), empty_line()),
{
    let mut line = Line {
        words: Vec::new(),
        stdout_file: None,
        stdout_append: false,
        stderr_file: None,
        stderr_append: false,
    };
    let ghost all = text::texts(words@);
    let mut i: usize = 0;
    proof {
        assert(all.skip(0) =~= all);
        assert(line@ =~= empty_line());
    }
    while i < words.len()
        invariant
            i <= words@.len(),
            all == text::texts(words@),
            redirected(all, empty_line()) == redirected(all.skip(i as int), line@),
        decreases words@.len() - i,
    {
        let ghost rest = all.skip(i as int);
        proof {
            assert(rest[0] == words@[i as int]@);
            assert(rest.skip(1) =~= all.skip(i + 1));
            if i + 1 < words@.len() {
                assert(rest[1] == words@[i + 1]@);
                assert(rest.skip(2) =~= all.skip(i + 2));
            }
        }
        let word: &str = words[i].as_str();
        let more: bool = i + 1 < words.len();
        if more && same_text(word, ">>") {
            line.stdout_file = Some(words[i + 1].clone());
            line.stdout_append = true;
            i += 2;
        } else if more && same_text(word, "2>>") {
            line.stderr_file = Some(words[i + 1].clone());
            line.stderr_append = true;
            i += 2;
        } else if more && (same_text(word, ">") || same_text(word, "1>")) {
            line.stdout_file = Some(words[i + 1].clone());
            i += 2;
        } else if more && same_text(word, "2>") {
            line.stderr_file = Some(words[i + 1].clone());
            i += 2;
        } else {
            push_text(&mut line.words, words[i].clone());
            i += 1;
        }
    }
    assert(all.skip(i as int).len() == 0);
    line
}

/// Each word with its variables expanded.
fn expand_words(words: &Vec<String>, vars: &TextMap<String>) -> (r: Vec<String>)
    ensures
        text::texts(r@) == expanded_words(text::texts(words@), store::text_values(vars@)),
{
    let mut r: Vec<String> = Vec::new();
    let ghost all = expanded_words(text::texts(words@), store::text_values(vars@));
    let mut i: usize = 0;
    assert(text::texts(r@) =~= all.take(0));
    while i < words.len()
        invariant
            i <= words@.len(),
            all == expanded_words(text::texts(words@), store::text_values(vars@)),
            text::texts(r@) == all.take(i as int),
        decreases words@.len() - i,
    {
        push_text(&mut r, Command::expand_param(words[i].as_str(), vars));
        i += 1;
        assert(text::texts(r@) =~= all.take(i as int));
    }
    assert(all.take(i as int) =~= all);
    r
}

/// Whether a word is an operator that redirects output.
fn redirects(word: &str) -> (r: bool)
    ensures
        r == is_redirection(word@),
{
    same_text(word, ">>") || same_text(word, "2>>") || same_text(word, ">") || same_text(
        word,
        "1>",
    ) || same_text(word, "2>")
}

/// A text that is read as the word that it stands for.
fn quote(word: &str) -> (r: String)
    ensures
        r@ == quoted(word@),
{
    let chars: Vec<char> = chars_of(word);
    let mut plain: bool = chars.len() > 0;
    let mut k: usize = 0;
    while k < chars.len()
        invariant
            k <= chars@.len(),
            chars@ == word@,
            plain <==> chars@.len() > 0 && forall|j: int|
                0 <= j < k ==> tokens::is_plain_char(#[trigger] chars@[j]),
        decreases chars@.len() - k,
    {
        let c: char = chars[k];
        if c == ' ' || c == '\'' || c == '"' || c == '\\' {
            assert(!tokens::is_plain_char(chars@[k as int]));
            plain = false;
        }
        k += 1;
    }
    if plain {
        return word.to_owned();
    }
    let mut r = String::new();
    let mut n: usize = 0;
    assert(chars@.take(0) =~= Seq::empty());
    assert(r@ =~= tokens::escaped(chars@.take(0)));
    while n < chars.len()
        invariant
            n <= chars@.len(),
            r@ == tokens::escaped(chars@.take(n as int)),
        decreases chars@.len() - n,
    {
        proof {
            tokens::lemma_escaped_push(chars@.take(n as int), chars@[n as int]);
            assert(chars@.take(n + 1) =~= chars@.take(n as int).push(chars@[n as int]));
        }
        r.push('\\');
        r.push(chars[n]);
        n += 1;
        assert(r@ =~= tokens::escaped(chars@.take(n as int)));
    }
    assert(chars@.take(n as int) =~= word@);
    r
}

/// The words of a line with their variables expanded, and each redirection as one word in its
/// place; and the place of the last word that is no redirection.
fn keep_words(words: &Vec<String>, vars: &TextMap<String>) -> (r: (Vec<String>, Option<usize>))
    ensures
        text::texts(r.0@) == kept(text::texts(words@), store::text_values(vars@)),
        match (r.1, last_kept_word(text::texts(words@))) {
            (Some(place), Some(view)) => place == view && place < r.0@.len(),
            (None, None) => true,
            _ => false,
        },
{
    let ghost all = text::texts(words@);
    let ghost values = store::text_values(vars@);
    let mut r: Vec<String> = Vec::new();
    let mut last: Option<usize> = None;
    let mut i: usize = 0;
    proof {
        assert(all.skip(0) =~= all);
        assert(text::texts(r@) + kept(all, values) =~= kept(all, values));
    }
    while i < words.len()
        invariant
            i <= words@.len(),
            all == text::texts(words@),
            values == store::text_values(vars@),
            kept(all, values) == text::texts(r@) + kept(all.skip(i as int), values),
            last matches Some(place) ==> place < r@.len(),
            last_kept_word(all) == (match (last_kept_word(all.skip(i as int)), last) {
                (Some(place), _) => Some(r@.len() + place),
                (None, Some(place)) => Some(place as nat),
                (None, None) => None,
            }),
        decreases words@.len() - i,
    {
        let ghost rest = all.skip(i as int);
        let ghost before = text::texts(r@);
        proof {
            assert(rest[0] == words@[i as int]@);
            assert(rest.skip(1) =~= all.skip(i + 1));
        }
        if words.len() - i >= 2 && redirects(words[i].as_str()) {
            let mut whole: String = words[i].clone();
            whole.append(" ");
            whole.append(quote(words[i + 1].as_str()).as_str());
            proof {
                assert(rest[1] == words@[i + 1]@);
                assert(rest.skip(2) =~= all.skip(i + 2));
                let later = kept(rest.skip(2), values);
                assert(before + (seq![whole@] + later) =~= before.push(whole@) + later);
            }
            push_text(&mut r, whole);
            i += 2;
        } else {
            let word: String = Command::expand_param(words[i].as_str(), vars);
            proof {
                let later = kept(rest.skip(1), values);
                assert(before + (seq![word@] + later) =~= before.push(word@) + later);
            }
            last = Some(r.len());
            push_text(&mut r, word);
            i += 1;
        }
        assert(text::texts(r@).len() == r@.len());
    }
    proof {
        assert(all.skip(i as int) =~= Seq::empty());
        assert(text::texts(r@) + Seq::<Seq<char>>::empty() =~= text::texts(r@));
    }
    (r, last)
}

/// The parts of a pipe, unless one of them is empty or the pipe holds a chain.
fn split_pipe(words: &Vec<String>) -> (r: Option<Vec<Vec<String>>>)
    ensures
        r is Some <==> pipe_parts(text::texts(words@)) is Some,
        r matches Some(parts) ==> pipe_parts(text::texts(words@)) == Some(word_lists(parts@)),
{
    if contains_text(words, "&&") || contains_text(words, "||") {
        return None;
    }
    let ghost all = text::texts(words@);
    let ghost whole = split(all, "|"@);
    let mut parts: Vec<Vec<String>> = Vec::new();
    let mut i: usize = 0;
    proof {
        assert(all.skip(0) =~= all);
        assert(word_lists(parts@) + whole =~= whole);
    }
    loop
        invariant
            i <= words@.len(),
            all == text::texts(words@),
            whole == split(all, "|"@),
            !has_chain(all),
            whole == word_lists(parts@) + split(all.skip(i as int), "|"@),
            forall|j: int| 0 <= j < parts@.len() ==> (#[trigger] word_lists(parts@)[j]).len() > 0,
        decreases words@.len() - i,
    {
        let ghost rest = all.skip(i as int);
        let k: usize = find_text(words, i, "|");
        let part: Vec<String> = texts_between(words, i, k);
        let ghost lists = word_lists(parts@);
        proof {
            text::lemma_find(rest, "|"@);
            if k < words@.len() {
                assert(text::texts(part@) =~= rest.take(k - i));
                assert(rest.skip(k - i + 1) =~= all.skip(k + 1));
                let later = split(all.skip(k + 1), "|"@);
                assert(whole =~= lists.push(text::texts(part@)) + later);
            } else {
                assert(text::texts(part@) =~= rest);
                assert(whole =~= lists.push(text::texts(part@)));
            }
        }
        if part.len() == 0 {
            proof {
                assert(text::texts(part@) =~= Seq::empty());
                assert(whole[lists.len() as int] == Seq::<Seq<char>>::empty());
            }
            return None;
        }
        parts.push(part);
        assert(word_lists(parts@) =~= lists.push(text::texts(part@)));
        if k == words.len() {
            return Some(parts);
        }
        i = k + 1;
    }
}

/// The place of the first word of `words[from..]` that joins the parts of a chain.
fn find_chain_word(words: &Vec<String>, from: usize) -> (r: usize)
    requires
        from <= words@.len(),
    ensures
        from <= r <= words@.len(),
        r == from + first_chain_word(text::texts(words@).skip(from as int)),
    decreases words@.len() - from,
{
    let ghost rest = text::texts(words@).skip(from as int);
    if from == words.len() {
        return from;
    }
    assert(rest[0] == words@[from as int]@);
    let word: &str = words[from].as_str();
    if same_text(word, "&&") || same_text(word, "||") {
        return from;
    }
    assert(rest.skip(1) =~= text::texts(words@).skip(from + 1));
    find_chain_word(words, from + 1)
}

/// The parts of a chain, each with the operator behind it.
fn split_chain(words: &Vec<String>) -> (r: Vec<ChainSegment>)
    ensures
        command::segment_views(r@) == chained(text::texts(words@)),
{
    let ghost all = text::texts(words@);
    let ghost whole = chained(all);
    let mut segments: Vec<ChainSegment> = Vec::new();
    let mut i: usize = 0;
    proof {
        assert(all.skip(0) =~= all);
        assert(command::segment_views(segments@) + whole =~= whole);
    }
    loop
        invariant
            i <= words@.len(),
            all == text::texts(words@),
            whole == chained(all),
            whole == command::segment_views(segments@) + chained(all.skip(i as int)),
        decreases words@.len() - i,
    {
        let ghost rest = all.skip(i as int);
        let ghost before = command::segment_views(segments@);
        let k: usize = find_chain_word(words, i);
        let part: Vec<String> = texts_between(words, i, k);
        if k < words.len() {
            let operator = if same_text(words[k].as_str(), "&&") {
                ChainOp::And
            } else {
                ChainOp::Or
            };
            segments.push(ChainSegment { tokens: part, operator });
            proof {
                let segment = SegmentView { tokens: text::texts(part@), operator };
                assert(text::texts(part@) =~= rest.take(k - i));
                assert(rest[k - i] == words@[k as int]@);
                assert(rest.skip(k - i + 1) =~= all.skip(k + 1));
                assert(command::segment_views(segments@) =~= before.push(segment));
                let later = chained(all.skip(k + 1));
                assert(before + (seq![segment] + later) =~= before.push(segment) + later);
            }
            i = k + 1;
        } else {
            if part.len() > 0 {
                segments.push(ChainSegment { tokens: part, operator: ChainOp::End });
                proof {
                    let segment = SegmentView { tokens: text::texts(part@), operator: ChainOp::End };
                    assert(text::texts(part@) =~= rest);
                    assert(command::segment_views(segments@) =~= before.push(segment));
                    assert(before + seq![segment] =~= before.push(segment));
                }
            } else {
                assert(before + Seq::<SegmentView>::empty() =~= before);
            }
            return segments;
        }
    }
}

/// `args` as a command with arguments, or as a name alone; an error with the name that has
/// to be looked up first.
fn name_command(args: &str, paths: &PathTable) -> (r: Result<exeCmd, String>)
    ensures
        match (r, named(args@, lookup::answers(paths@))) {
            (Ok(cmd), Ok(view)) => cmd@ == view,
            (Err(name), Err(view)) => name@ == view,
            _ => false,
        },
{
    match Command::parse_input(args, paths) {
        Ok(cmd) => Ok(cmd),
        Err(ParseError::Unresolved(name)) => Err(name),
        Err(_) => {
            let none: Vec<String> = Vec::new();
            assert(text::texts(none@) =~= Seq::empty());
            Ok(exeCmd::new(args, None, none))
        },
    }
}

/// What the arguments of `complete` ask for.
fn complete_action(words: &Vec<String>) -> (r: CompleteAction)
    ensures
        r@ == complete_request(text::texts(words@)),
{
    let ghost all = text::texts(words@);
    assert(forall|i: int| 0 <= i < words@.len() ==> #[trigger] all[i] == words@[i]@);
    if words.len() == 3 && same_text(words[0].as_str(), "-C") {
        CompleteAction::Register { script: words[1].clone(), command: words[2].clone() }
    } else if words.len() == 2 && same_text(words[0].as_str(), "-p") {
        CompleteAction::Print { command: words[1].clone() }
    } else if words.len() == 2 && same_text(words[0].as_str(), "-r") {
        CompleteAction::Remove { command: words[1].clone() }
    } else if words.len() == 0 {
        CompleteAction::Empty
    } else {
        CompleteAction::Error("complete: unrecognised flag".to_string())
    }
}

/// What the arguments of `declare` ask for.
fn declare_action(words: &Vec<String>) -> (r: DeclareAction)
    ensures
        r@ == declare_request(text::texts(words@)),
{
    let ghost all = text::texts(words@);
    assert(forall|i: int| 0 <= i < words@.len() ==> #[trigger] all[i] == words@[i]@);
    if words.len() == 2 && same_text(words[0].as_str(), "-p") {
        return DeclareAction::Print { name: words[1].clone() };
    }
    if words.len() == 1 {
        let assignment: &str = words[0].as_str();
        let chars: Vec<char> = chars_of(assignment);
        if chars.len() > 0 && chars[0] == '-' {
            return DeclareAction::Error("declare: unrecognised flag".to_string());
        }
        let k: usize = find_from(&chars, 0, '=');
        assert(chars@.skip(0) =~= assignment@);
        let name: String = text_between(&chars, 0, k);
        let value: String = if k < chars.len() {
            text_between(&chars, k + 1, chars.len())
        } else {
            String::new()
        };
        proof {
            assert(name@ =~= assignment_parts(assignment@).0);
            assert(value@ =~= assignment_parts(assignment@).1);
        }
        if Command::valid_identifier(name.as_str()) {
            return DeclareAction::Assign { name, value };
        }
        let mut message = "declare : `".to_string();
        message.append(assignment);
        message.append("': not valid indentifier");
        return DeclareAction::Error(message);
    }
    if words.len() == 0 {
        DeclareAction::Empty
    } else {
        DeclareAction::Error("declare: unrecognised flag".to_string())
    }
}

/// The file that `history` is asked to use with `flag`, if it is.
fn history_file(words: &Vec<String>, flag: &str) -> (r: Option<String>)
    ensures
        text::opt_text(r) == flag_file(text::texts(words@), flag@),
{
    if words.len() == 2 && same_text(words[0].as_str(), flag) {
        Some(words[1].clone())
    } else {
        None
    }
}

/// What `history` with the arguments `args` stands for.
fn history_command(args: &str, stdout_file: Option<String>, stdout_append: bool) -> (r: Command)
    ensures
        r@ == history_request(args@, text::opt_text(stdout_file), stdout_append),
{
    let words: Vec<String> = Command::tokenize(args);
    let read_file: Option<String> = history_file(&words, "-r");
    let write_file: Option<String> = history_file(&words, "-w");
    let append_file: Option<String> = history_file(&words, "-a");
    let count: Option<usize> = if read_file.is_none() && write_file.is_none()
        && append_file.is_none() {
        let count_text: String = trim(args);
        parse_count(count_text.as_str())
    } else {
        None
    };
    Command::HistoryCommand {
        stdout_file,
        stdout_append,
        count,
        read_file,
        write_file,
        append_file,
    }
}

/// A command with the redirections of a line, in the background or not.
fn redirect(cmd: exeCmd, line: Line, background: bool) -> (r: exeCmd)
    ensures
        r@ == with_redirections(cmd@, line@, background),
{
    exeCmd {
        name: cmd.name,
        path: cmd.path,
        args: cmd.args,
        stdout_file: line.stdout_file,
        stdout_append: line.stdout_append,
        stderr_file: line.stderr_file,
        stderr_append: line.stderr_append,
        background,
    }
}

/// What the words of a line without pipes and chains stand for.
fn simple_command(words: &Vec<String>, line: Line, background: bool, paths: &PathTable) -> (r:
    Parse)
    requires
        words@.len() > 0,
    ensures
        r@ == simple(text::texts(words@), line@, background, lookup::answers(paths@)),
{
    let ghost all = text::texts(words@);
    assert(all[0] == words@[0]@);
    let cmd: &str = words[0].as_str();
    let arg_words: Vec<String> = texts_from(words, 1);
    let args: String = join(&arg_words, " ");
    if same_text(cmd, "exit") {
        Parse::Done(Command::ExitCommand)
    } else if same_text(cmd, "echo") {
        let mut display_string = exeCmd::new(args.as_str(), None, Vec::new());
        assert(text::texts(display_string.args@) =~= Seq::empty());
        display_string.stdout_file = line.stdout_file;
        display_string.stdout_append = line.stdout_append;
        display_string.background = background;
        Parse::Done(Command::EchoCommand { display_string })
    } else if same_text(cmd, "type") {
        match name_command(args.as_str(), paths) {
            Ok(cmd) => Parse::Done(
                Command::TypeCommand { command_name: redirect(cmd, line, background) },
            ),
            Err(name) => Parse::Lookup(name),
        }
    } else if same_text(cmd, "pwd") {
        Parse::Done(
            Command::PwdCommand {
                stdout_file: line.stdout_file,
                stdout_append: line.stdout_append,
            },
        )
    } else if same_text(cmd, "cd") {
        match name_command(args.as_str(), paths) {
            Ok(cmd) => Parse::Done(
                Command::CdCommand { directory: redirect(cmd, line, background) },
            ),
            Err(name) => Parse::Lookup(name),
        }
    } else if same_text(cmd, "complete") {
        let request: Vec<String> = Command::tokenize(args.as_str());
        Parse::Done(
            Command::CompleteCommand {
                subcommnad: complete_action(&request),
                stdout_file: line.stdout_file,
                stdout_append: line.stdout_append,
                stderr_file: line.stderr_file,
                stderr_append: line.stderr_append,
            },
        )
    } else if same_text(cmd, "jobs") {
        Parse::Done(
            Command::JobsCommand {
                stdout_file: line.stdout_file,
                stdout_append: line.stdout_append,
            },
        )
    } else if same_text(cmd, "history") {
        Parse::Done(history_command(args.as_str(), line.stdout_file, line.stdout_append))
    } else if same_text(cmd, "declare") {
        let request: Vec<String> = Command::tokenize(args.as_str());
        Parse::Done(
            Command::DeclareCommand {
                subcommand: declare_action(&request),
                stdout_file: line.stdout_file,
                stdout_append: line.stdout_append,
                stderr_file: line.stderr_file,
                stderr_append: line.stderr_append,
            },
        )
    } else {
        let clean: String = join(words, " ");
        match Command::parse_input(clean.as_str(), paths) {
            Ok(data) => Parse::Done(
                Command::ExecCommand { exec_name: redirect(data, line, background) },
            ),
            Err(ParseError::Unresolved(name)) => Parse::Lookup(name),
            Err(_) => Parse::Done(Command::CommandNotFound),
        }
    }
}

impl Command {
    /// What a line of input stands for, with these variables, and with these answers to the
    /// lookups of names; pipes are read `depth` levels deep.
    pub fn from_input(input: &str, vars: &TextMap<String>, paths: &PathTable, depth: usize) -> (r:
        Parse)
        ensures
            r@ == understood(
                depth as nat,
                input@,
                store::text_values(vars@),
                lookup::answers(paths@),
            ),
        decreases depth,
    {
        let ghost values = store::text_values(vars@);
        let ghost table = lookup::answers(paths@);
        let input_line: String = trim(input);
        if input_line.as_str().is_empty() {
            return Parse::Done(Command::Noop);
        }
        let input_words: Vec<String> = Self::tokenize(input_line.as_str());
        let line: Line = strip_redirections(&input_words);
        let mut words: Vec<String> = expand_words(&line.words, vars);
        let ghost full = line_of(input@, values);
        assert(text::texts(words@) == full.words);
        let background: bool = words.len() > 0 && same_text(words[words.len() - 1].as_str(), "&");
        if background {
            words.pop();
        }
        assert(text::texts(words@) =~= foreground_words(full.words));
        let (mut kept_words, last_word) = keep_words(&input_words, vars);
        if let Some(place) = last_word {
            if background {
                kept_words.remove(place);
            }
        }
        assert(text::texts(kept_words@) =~= line_parts(input@, values));
        if contains_text(&kept_words, "|") {
            let parts: Vec<Vec<String>> = match split_pipe(&kept_words) {
                Some(parts) => parts,
                None => {
                    return Parse::Done(Command::CommandNotFound);
                },
            };
            if depth == 0 {
                return Parse::TooDeep;
            }
            let mut commands: Vec<Command> = Vec::new();
            let ghost lists = word_lists(parts@);
            let mut i: usize = 0;
            proof {
                assert(lists.skip(0) =~= lists);
                assert(command::command_views(commands@) =~= Seq::empty());
            }
            while i < parts.len()
                invariant
                    i <= parts@.len(),
                    depth > 0,
                    values == store::text_values(vars@),
                    table == lookup::answers(paths@),
                    lists == word_lists(parts@),
                    understood(depth as nat, input@, values, table) == understood_parts(
                        (depth - 1) as nat,
                        lists.skip(i as int),
                        command::command_views(commands@),
                        background,
                        values,
                        table,
                    ),
                decreases parts@.len() - i,
            {
                let part: String = join(&parts[i], " ");
                proof {
                    assert(lists.skip(i as int)[0] == text::texts(parts@[i as int]@));
                    assert(lists.skip(i as int).skip(1) =~= lists.skip(i + 1));
                }
                match Self::from_input(part.as_str(), vars, paths, depth - 1) {
                    Parse::Done(command) => {
                        match command {
                            Command::Noop | Command::CommandNotFound | Command::ExitCommand => {
                                return Parse::Done(Command::CommandNotFound);
                            },
                            _ => {},
                        }
                        let ghost before = command::command_views(commands@);
                        commands.push(command);
                        assert(command::command_views(commands@) =~= before.push(command@));
                    },
                    other => {
                        return other;
                    },
                }
                i += 1;
            }
            proof {
                assert(lists.skip(i as int).len() == 0);
                command::lemma_pipe_view(commands, background);
            }
            return Parse::Done(Command::PipeCommand { commands, background });
        }
        if contains_text(&kept_words, "&&") || contains_text(&kept_words, "||") {
            return Parse::Done(
                Command::CommandChain { segments: split_chain(&kept_words), background },
            );
        }
        if words.len() == 0 {
            return Parse::Done(Command::Noop);
        }
        simple_command(&words, line, background, paths)
    }
}

} // verus!
