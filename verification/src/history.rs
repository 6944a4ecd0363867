//! The lines entered: remembering, listing, and keeping them in a file.
use vstd::prelude::*;

use crate::command::Command;
use crate::lines;
use crate::lines::split_lines;
use crate::numbers;
use crate::numbers::push_decimal;
use crate::shell::{Shell, ShellView};
use crate::text;
use crate::text::{join, push_text, texts_from, trim};

verus! {

/// The history after a line was entered: a blank one is not remembered.
pub open spec fn remembered(history: Seq<Seq<char>>, line: Seq<char>) -> Seq<Seq<char>> {
    if text::is_blank(line) {
        history
    } else {
        history.push(line)
    }
}

/// The history after several lines were entered.
pub open spec fn all_remembered(history: Seq<Seq<char>>, added: Seq<Seq<char>>) -> Seq<Seq<char>>
    decreases added.len(),
{
    if added.len() == 0 {
        history
    } else {
        all_remembered(remembered(history, added[0]), added.skip(1))
    }
}

/// The lines of the history that no file holds yet, one after the other.
pub open spec fn unsaved(history: Seq<Seq<char>>, written: usize) -> Seq<char> {
    text::joined(
        history.skip(
            if written < history.len() {
                written as int
            } else {
                history.len() as int
            },
        ),
        "\n"@,
    )
}

/// What is to be appended to the file of the history, if anything is.
pub open spec fn to_append(history: Seq<Seq<char>>, written: usize) -> Option<Seq<char>> {
    let lines = unsaved(history, written);
    if lines.len() == 0 {
        None
    } else {
        Some(lines + "\n"@)
    }
}

/// The whole history, as a file holds it.
pub open spec fn file_text(history: Seq<Seq<char>>) -> Seq<char> {
    text::joined(history, "\n"@) + "\n"@
}

/// `n` spaces.
pub open spec fn spaces(n: nat) -> Seq<char> {
    Seq::new(n, |i: int| ' ')
}

/// `s` with as many spaces before it as make it `width` characters long, if it is shorter.
pub open spec fn right_aligned(s: Seq<char>, width: nat) -> Seq<char> {
    if s.len() < width {
        spaces((width - s.len()) as nat) + s
    } else {
        s
    }
}

/// A line of the history with its number.
pub open spec fn numbered(number: nat, line: Seq<char>) -> Seq<char> {
    right_aligned(numbers::decimal(number), 5) + "  "@ + line
}

/// The place of the first line that a list of the last `count` lines shows.
pub open spec fn list_start(len: nat, count: Option<usize>) -> nat {
    match count {
        Some(n) => if n < len {
            (len - n) as nat
        } else {
            0
        },
        None => 0,
    }
}

/// The lines of the history from `start` on, each with its number.
pub open spec fn numbered_from(history: Seq<Seq<char>>, start: nat) -> Seq<Seq<char>> {
    Seq::new(
        (history.len() - start) as nat,
        |i: int| numbered((start + i + 1) as nat, history[start + i]),
    )
}

/// The list of the last `count` lines of the history, or of all of them.
pub open spec fn listing(history: Seq<Seq<char>>, count: Option<usize>) -> Seq<char> {
    text::joined(numbered_from(history, list_start(history.len(), count)), "\n"@)
}

/// A line of the history with its number.
fn numbered_line(number: usize, line: &str) -> (r: String)
    ensures
        r@ == numbered(number as nat, line@),
{
    let mut digits = String::new();
    push_decimal(&mut digits, number);
    assert(digits@ =~= numbers::decimal(number as nat));
    let len: usize = digits.as_str().unicode_len();
    let mut r = String::new();
    let mut i: usize = len;
    assert(r@ =~= spaces(0));
    while i < 5
        invariant
            len <= i,
            i <= 5 || i == len,
            r@ == spaces((i - len) as nat),
        decreases 5 - i,
    {
        r.push(' ');
        i += 1;
        assert(r@ =~= spaces((i - len) as nat));
    }
    r.append(digits.as_str());
    assert(r@ =~= right_aligned(numbers::decimal(number as nat), 5));
    r.append("  ");
    r.append(line);
    r
}

/// The list of the last `count` lines of the history, or of all of them.
pub fn history_text(history: &Vec<String>, count: Option<usize>) -> (r: String)
    ensures
        r@ == listing(text::texts(history@), count),
{
    let ghost all = text::texts(history@);
    let start: usize = match count {
        Some(n) => history.len().saturating_sub(n),
        None => 0,
    };
    let ghost whole = numbered_from(all, start as nat);
    let mut shown: Vec<String> = Vec::new();
    let mut i: usize = start;
    assert(text::texts(shown@) =~= whole.take(0));
    while i < history.len()
        invariant
            start <= i <= history@.len(),
            all == text::texts(history@),
            whole == numbered_from(all, start as nat),
            text::texts(shown@) == whole.take(i - start),
        decreases history@.len() - i,
    {
        push_text(&mut shown, numbered_line(i + 1, history[i].as_str()));
        i += 1;
        assert(text::texts(shown@) =~= whole.take(i - start));
    }
    assert(whole.take(i - start) =~= whole);
    join(&shown, "\n")
}

impl Shell {
    /// Remembers the lines of a file, if it could be read, and takes all of the history to be
    /// in the file.
    pub fn read_history(&mut self, contents: Option<&str>)
        ensures
            final(self)@ == read_from(
                old(self)@,
                match contents {
                    Some(s) => Some(s@),
                    None => None,
                },
            ),
    {
        if let Some(s) = contents {
            let added: Vec<String> = split_lines(s);
            let ghost all = text::texts(added@);
            let ghost before = text::texts(self.history@);
            let mut i: usize = 0;
            assert(all.skip(0) =~= all);
            while i < added.len()
                invariant
                    i <= added@.len(),
                    all == text::texts(added@),
                    all_remembered(before, all) == all_remembered(
                        text::texts(self.history@),
                        all.skip(i as int),
                    ),
                    self@ == (ShellView { history: text::texts(self.history@), ..old(self)@ }),
                decreases added@.len() - i,
            {
                proof {
                    assert(all.skip(i as int)[0] == added@[i as int]@);
                    assert(all.skip(i as int).skip(1) =~= all.skip(i + 1));
                }
                Command::add_history(self, added[i].as_str());
                i += 1;
            }
        }
        self.history_written = self.history.len();
    }

    /// What is to be appended to the file of the history, if anything is; it is then taken to
    /// be in the file.
    pub fn append_history(&mut self) -> (r: Option<String>)
        ensures
            text::opt_text(r) == to_append(old(self)@.history, old(self)@.history_written),
            final(self)@ == all_saved(old(self)@),
    {
        let start: usize = if self.history_written < self.history.len() {
            self.history_written
        } else {
            self.history.len()
        };
        let rest: Vec<String> = texts_from(&self.history, start);
        let mut added: String = join(&rest, "\n");
        self.history_written = self.history.len();
        if added.as_str().is_empty() {
            None
        } else {
            added.append("\n");
            Some(added)
        }
    }

    /// The whole history, as a file holds it; it is then taken to be in the file.
    pub fn write_history(&mut self) -> (r: String)
        ensures
            r@ == file_text(old(self)@.history),
            final(self)@ == all_saved(old(self)@),
    {
        let mut whole: String = join(&self.history, "\n");
        whole.append("\n");
        self.history_written = self.history.len();
        whole
    }
}

/// The shell when a file holds all of its history.
pub open spec fn all_saved(shell: ShellView) -> ShellView {
    ShellView { history_written: shell.history.len() as usize, ..shell }
}

/// The shell after reading history from a file, if it could be read.
pub open spec fn read_from(shell: ShellView, contents: Option<Seq<char>>) -> ShellView {
    all_saved(
        match contents {
            Some(s) => ShellView {
                history: all_remembered(shell.history, lines::lines(s)),
                ..shell
            },
            None => shell,
        },
    )
}

impl Command {
    /// Remembers a line, unless it is blank.
    pub fn add_history(shell: &mut Shell, cmd: &str)
        ensures
            final(shell)@ == (ShellView {
                history: remembered(old(shell)@.history, cmd@),
                ..old(shell)@
            }),
    {
        let line: String = trim(cmd);
        if !line.as_str().is_empty() {
            push_text(&mut shell.history, cmd.to_owned());
        }
    }

    /// Reads the history at the start, given what is in the file that `HISTFILE` names:
    /// nothing when it names none, and nothing in turn when the file cannot be read.
    pub fn load_hist_from_env(shell: &mut Shell, histfile: Option<Option<&str>>)
        ensures
            final(shell)@ == (match histfile {
                None => old(shell)@,
                Some(None) => read_from(old(shell)@, None),
                Some(Some(s)) => read_from(old(shell)@, Some(s@)),
            }),
    {
        if let Some(contents) = histfile {
            shell.read_history(contents);
        }
    }

    /// What is to be appended at the end to the file that `HISTFILE` names, if it names one
    /// and anything is.
    pub fn save_to_histfile(shell: &mut Shell, has_histfile: bool) -> (r: Option<String>)
        ensures
            text::opt_text(r) == (if has_histfile {
                to_append(old(shell)@.history, old(shell)@.history_written)
            } else {
                None
            }),
            final(shell)@ == (if has_histfile {
                all_saved(old(shell)@)
            } else {
                old(shell)@
            }),
    {
        if has_histfile {
            shell.append_history()
        } else {
            None
        }
    }
}

/// Whether none of the lines is blank.
pub open spec fn none_blank(history: Seq<Seq<char>>) -> bool {
    forall|i: int| 0 <= i < history.len() ==> !text::is_blank(#[trigger] history[i])
}

/// Whether each of the lines is one line of text, and none is blank.
pub open spec fn are_lines(history: Seq<Seq<char>>) -> bool {
    none_blank(history) && forall|i: int|
        0 <= i < history.len() ==> lines::is_line(#[trigger] history[i])
}

/// Remembering adds to the history behind what is there, and adds no blank line.
pub proof fn law_history_grows(history: Seq<Seq<char>>, added: Seq<Seq<char>>)
    ensures
        history.is_prefix_of(all_remembered(history, added)),
        none_blank(history) ==> none_blank(all_remembered(history, added)),
    decreases added.len(),
{
    if added.len() > 0 {
        law_history_grows(remembered(history, added[0]), added.skip(1));
    }
}

/// Lines none of which is blank are all remembered.
pub proof fn law_all_is_remembered(history: Seq<Seq<char>>, added: Seq<Seq<char>>)
    requires
        none_blank(added),
    ensures
        all_remembered(history, added) == history + added,
    decreases added.len(),
{
    if added.len() == 0 {
        assert(history + added =~= history);
    } else {
        let rest = added.skip(1);
        assert(!text::is_blank(added[0]));
        assert forall|i: int| 0 <= i < rest.len() implies !text::is_blank(#[trigger] rest[i]) by {
            assert(rest[i] == added[i + 1]);
        }
        law_all_is_remembered(history.push(added[0]), rest);
        assert(history.push(added[0]) + rest =~= history + added);
    }
}

proof fn lemma_remembered_in_turn(
    history: Seq<Seq<char>>,
    first: Seq<Seq<char>>,
    second: Seq<Seq<char>>,
)
    ensures
        all_remembered(history, first + second) == all_remembered(
            all_remembered(history, first),
            second,
        ),
    decreases first.len(),
{
    if first.len() == 0 {
        assert(first + second =~= second);
    } else {
        assert((first + second).skip(1) =~= first.skip(1) + second);
        lemma_remembered_in_turn(remembered(history, first[0]), first.skip(1), second);
    }
}

/// Reading a file that a history was written to gives that history back, behind the lines
/// that are remembered already.
pub proof fn law_written_history_is_read_back(shell: ShellView, written: ShellView)
    requires
        are_lines(written.history),
    ensures
        read_from(shell, Some(file_text(written.history))).history == shell.history
            + written.history,
{
    let history = written.history;
    let none = Seq::<char>::empty();
    reveal_strlit("\n");
    assert("\n"@ =~= seq!['\n']);
    if history.len() > 0 {
        lines::lemma_lines_of_joined(history, none);
        assert(file_text(history) =~= text::joined(history, seq!['\n']) + seq!['\n'] + none);
        assert(lines::lines(none) =~= Seq::empty());
        assert(history + Seq::<Seq<char>>::empty() =~= history);
        law_all_is_remembered(shell.history, history);
    } else {
        lines::lemma_line_first(none, none);
        assert(file_text(history) =~= none + seq!['\n'] + none);
        assert(lines::lines(none) =~= Seq::empty());
        let read = lines::lines(file_text(history));
        assert(read =~= seq![none]);
        assert(text::is_blank(none));
        assert(read.skip(1) =~= Seq::empty());
        assert(all_remembered(shell.history, read.skip(1)) == shell.history);
        assert(shell.history + history =~= shell.history);
    }
}

/// A session appends to the file just the lines that were entered in it: a session that reads
/// the file, and appends to it after some lines were entered, leaves a file from which the next
/// session reads the history that this one had.
pub proof fn law_sessions_add_up(shell: ShellView, contents: Seq<char>, added: Seq<Seq<char>>)
    requires
        contents.len() > 0 ==> contents.last() == '\n',
        are_lines(added),
        read_from(shell, Some(contents)).history.len() + added.len() <= usize::MAX,
    ensures
        ({
            let start = read_from(shell, Some(contents));
            let history = all_remembered(start.history, added);
            let file = match to_append(history, start.history_written) {
                Some(new) => contents + new,
                None => contents,
            };
            &&& history == start.history + added
            &&& read_from(shell, Some(file)).history == history
        }),
{
    let start = read_from(shell, Some(contents));
    let history = all_remembered(start.history, added);
    law_all_is_remembered(start.history, added);
    assert(history.skip(start.history.len() as int) =~= added);
    reveal_strlit("\n");
    assert("\n"@ =~= seq!['\n']);
    let new = text::joined(added, "\n"@);
    if added.len() == 0 {
        assert(new =~= Seq::empty());
        assert(history =~= start.history);
    } else {
        assert(!text::is_blank(added[0]));
        assert(added[0].len() > 0) by {
            if added[0].len() == 0 {
                assert(text::trimmed(added[0]).len() == 0);
            }
        }
        assert(new.len() > 0);
        let none = Seq::<char>::empty();
        let rest = new + seq!['\n'];
        lines::lemma_lines_of_joined(added, none);
        assert(new + seq!['\n'] + none =~= rest);
        assert(lines::lines(none) =~= Seq::empty());
        assert(lines::lines(rest) =~= added);
        lines::law_lines_add_up(contents, rest);
        lemma_remembered_in_turn(shell.history, lines::lines(contents), added);
    }
}

/// What has been written or appended is not appended again.
pub proof fn law_nothing_is_appended_twice(shell: ShellView)
    requires
        shell.history.len() <= usize::MAX,
    ensures
        to_append(all_saved(shell).history, all_saved(shell).history_written) is None,
{
    let history = shell.history;
    assert(history.skip(history.len() as int) =~= Seq::empty());
    assert(text::joined(Seq::empty(), "\n"@).len() == 0);
}

/// A list of the last `count` lines has as many lines as that, or as there are, and the last of
/// them is the last of the history, with its number.
pub proof fn law_list_shows_the_last_lines(history: Seq<Seq<char>>, count: usize)
    ensures
        numbered_from(history, list_start(history.len(), Some(count))).len() == if count
            < history.len() {
            count as nat
        } else {
            history.len()
        },
        history.len() > 0 && count > 0 ==> numbered_from(
            history,
            list_start(history.len(), Some(count)),
        ).last() == numbered(history.len(), history.last()),
{
}

/// A line of nothing but white space is not remembered; any other is remembered as it was
/// entered, behind all that is remembered already.
pub proof fn law_what_is_remembered(history: Seq<Seq<char>>, line: Seq<char>)
    ensures
        (forall|i: int| 0 <= i < line.len() ==> text::is_white(#[trigger] line[i])) ==> remembered(
            history,
            line,
        ) == history,
        (exists|i: int| 0 <= i < line.len() && !text::is_white(#[trigger] line[i]))
            ==> remembered(history, line) == history.push(line),
{
    text::law_trimming(line);
    let trimmed = text::trimmed(line);
    let (before, behind) = choose|before: Seq<char>, behind: Seq<char>|
        #![trigger before + trimmed + behind]
        line == before + trimmed + behind && (forall|i: int|
            0 <= i < before.len() ==> text::is_white(#[trigger] before[i])) && (forall|i: int|
            0 <= i < behind.len() ==> text::is_white(#[trigger] behind[i]));
    if trimmed.len() > 0 {
        assert(line[before.len() as int] == trimmed[0]);
    } else {
        assert forall|i: int| 0 <= i < line.len() implies text::is_white(#[trigger] line[i]) by {
            if i < before.len() {
                assert(line[i] == before[i]);
            } else {
                assert(line[i] == behind[i - before.len()]);
            }
        }
    }
}

/// Just what no file holds yet is appended, each line once: reading it gives the lines of the
/// history from the cursor on, and there is nothing to append if the cursor is at the end, or
/// behind it.
pub proof fn law_what_is_appended(history: Seq<Seq<char>>, written: usize)
    requires
        are_lines(history),
    ensures
        written < history.len() ==> (to_append(history, written) matches Some(new) && lines::lines(
            new,
        ) == history.skip(written as int)),
        written >= history.len() ==> to_append(history, written) is None,
{
    reveal_strlit("\n");
    assert("\n"@ =~= seq!['\n']);
    if written < history.len() {
        let rest = history.skip(written as int);
        assert forall|i: int| 0 <= i < rest.len() implies lines::is_line(#[trigger] rest[i]) by {
            assert(rest[i] == history[written + i]);
        }
        assert(rest[0] == history[written as int]);
        assert(!text::is_blank(history[written as int]));
        assert(rest[0].len() > 0) by {
            if rest[0].len() == 0 {
                assert(text::trimmed(rest[0]).len() == 0);
            }
        }
        let new = text::joined(rest, "\n"@);
        assert(new.len() > 0);
        let none = Seq::<char>::empty();
        lines::lemma_lines_of_joined(rest, none);
        assert(new + seq!['\n'] + none =~= new + "\n"@);
        assert(lines::lines(none) =~= Seq::empty());
        assert(rest + Seq::<Seq<char>>::empty() =~= rest);
    } else {
        assert(history.skip(history.len() as int) =~= Seq::empty());
        assert(text::joined(Seq::empty(), "\n"@).len() == 0);
    }
}

/// Reading a file that cannot be read adds nothing; either way all of the history then counts as
/// being in a file, and nothing else of the shell changes.
pub proof fn law_reading_history(shell: ShellView, contents: Option<Seq<char>>)
    requires
        read_from(shell, contents).history.len() <= usize::MAX,
    ensures
        contents is None ==> read_from(shell, contents).history == shell.history,
        read_from(shell, contents).history_written == read_from(shell, contents).history.len(),
        read_from(shell, contents).completions == shell.completions,
        read_from(shell, contents).jobs == shell.jobs,
        read_from(shell, contents).shell_vars == shell.shell_vars,
        contents matches Some(s) ==> shell.history.is_prefix_of(
            read_from(shell, contents).history,
        ),
{
    if let Some(s) = contents {
        law_history_grows(shell.history, lines::lines(s));
    }
}

/// A line of the history has its number before it, with spaces before the number up to a width
/// of five, and two spaces behind it.
pub proof fn law_numbered_lines(number: nat, line: Seq<char>)
    ensures
        ({
            let digits = numbers::decimal(number);
            let shown = numbered(number, line);
            let width = if digits.len() < 5 {
                5
            } else {
                digits.len() as int
            };
            &&& shown.len() == width + 2 + line.len()
            &&& forall|i: int| 0 <= i < width - digits.len() ==> shown[i] == ' '
            &&& shown.subrange(width - digits.len(), width) == digits
            &&& shown[width] == ' '
            &&& shown[width + 1] == ' '
            &&& shown.skip(width + 2) == line
        }),
{
    reveal_strlit("  ");
    let digits = numbers::decimal(number);
    let shown = numbered(number, line);
    let width = if digits.len() < 5 {
        5
    } else {
        digits.len() as int
    };
    assert(shown.subrange(width - digits.len(), width) =~= digits);
    assert(shown.skip(width + 2) =~= line);
}

/// The list of the last `count` lines shows as many lines as that, or as there are, in their
/// order, each with the number of its place in the whole history.
pub proof fn law_list_of_the_history(history: Seq<Seq<char>>, count: Option<usize>)
    ensures
        exists|shown: Seq<Seq<char>>|
            #![trigger text::joined(shown, "\n"@)]
            listing(history, count) == text::joined(shown, "\n"@) && shown.len() == (match count {
                Some(n) => if n < history.len() {
                    n as nat
                } else {
                    history.len()
                },
                None => history.len(),
            }) && forall|i: int|
                0 <= i < shown.len() ==> #[trigger] shown[i] == numbered(
                    (history.len() - shown.len() + i + 1) as nat,
                    history[history.len() - shown.len() + i],
                ),
{
    let shown = numbered_from(history, list_start(history.len(), count));
    assert(listing(history, count) == text::joined(shown, "\n"@));
}

/// A file that a history is written to holds each line of it and a line feed behind each.
pub proof fn law_file_of_the_history(history: Seq<Seq<char>>, line: Seq<char>)
    ensures
        history.len() > 0 ==> file_text(history.push(line)) == file_text(history) + line.push(
            '\n',
        ),
        file_text(seq![line]) == line.push('\n'),
{
    reveal_strlit("\n");
    assert("\n"@ =~= seq!['\n']);
    if history.len() > 0 {
        text::lemma_joined_push(history, line, "\n"@);
        assert(file_text(history.push(line)) =~= file_text(history) + line.push('\n'));
    }
    assert(file_text(seq![line]) =~= line.push('\n'));
}

/// Several lines are remembered one by one, in their order.
pub proof fn law_lines_are_remembered_one_by_one(
    history: Seq<Seq<char>>,
    added: Seq<Seq<char>>,
    line: Seq<char>,
)
    ensures
        all_remembered(history, Seq::empty()) == history,
        all_remembered(history, added.push(line)) == remembered(
            all_remembered(history, added),
            line,
        ),
    decreases added.len(),
{
    let more = added.push(line);
    if added.len() == 0 {
        assert(more.skip(1) =~= Seq::empty());
        assert(all_remembered(remembered(history, line), more.skip(1)) == remembered(
            history,
            line,
        ));
    } else {
        assert(more.skip(1) =~= added.skip(1).push(line));
        law_lines_are_remembered_one_by_one(
            remembered(history, added[0]),
            added.skip(1),
            line,
        );
    }
}

} // verus!
