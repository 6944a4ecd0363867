//! Editing a line, key by key.
use vstd::prelude::*;

use crate::completion;
use crate::completion::{TabCompletion, TabView};
use crate::text;
use crate::text::{chars_of, join, same_text, text_between};

verus! {

/// A key.
#[derive(Debug, Clone, Copy, PartialEq, Eq, Structural)]
pub enum Key {
    Char(char),
    Backspace,
    Up,
    Down,
    Ctrl(char),
    Other,
}

/// What follows a key.
#[derive(Debug, Clone, Copy, PartialEq, Eq, Structural)]
pub enum Outcome {
    /// The next key is read.
    Continue,
    /// The word at the end of the line is to be completed.
    Complete,
    /// The line is finished.
    Finished,
}

/// A line that is being edited.
#[derive(Debug, PartialEq, Eq)]
pub struct LineEditor {
    /// The line as it stands.
    pub buffer: String,
    /// The line for which more than one completion came up, until they have been shown.
    pub prev_tab_buffer: Option<String>,
    /// The line that was left for the history.
    pub saved_buffer: Option<String>,
    /// The place in the history that the line was taken from.
    pub hist_pos: Option<usize>,
}

/// What a `LineEditor` says.
#[verifier::ext_equal]
pub struct EditorView {
    pub buffer: Seq<char>,
    pub prev_tab_buffer: Option<Seq<char>>,
    pub saved_buffer: Option<Seq<char>>,
    pub hist_pos: Option<usize>,
}

impl View for LineEditor {
    type V = EditorView;

    open spec fn view(&self) -> EditorView {
        EditorView {
            buffer: self.buffer@,
            prev_tab_buffer: text::opt_text(self.prev_tab_buffer),
            saved_buffer: text::opt_text(self.saved_buffer),
            hist_pos: self.hist_pos,
        }
    }
}

/// The line that is being edited, what is written to the terminal, and what follows.
#[verifier::ext_equal]
pub struct Edited {
    pub editor: EditorView,
    pub output: Seq<char>,
    pub outcome: Outcome,
}

/// The prompt and the line.
pub open spec fn shown(cwd: Seq<char>, line: Seq<char>) -> Seq<char> {
    cwd + " $ "@ + line
}

/// What writes the prompt and the line over what stands there.
pub open spec fn redrawn(cwd: Seq<char>, line: Seq<char>) -> Seq<char> {
    "\r\x1b[K"@ + shown(cwd, line)
}

/// The empty line.
pub open spec fn fresh_editor() -> EditorView {
    EditorView {
        buffer: Seq::empty(),
        prev_tab_buffer: None,
        saved_buffer: None,
        hist_pos: None,
    }
}

/// Whether the place in the history is one of its lines.
pub open spec fn in_history(editor: EditorView, history: Seq<Seq<char>>) -> bool {
    editor.hist_pos matches Some(i) ==> i < history.len()
}

/// The line when the history is gone back in: the line before the present one, if there is
/// one; what was written is kept when the history is entered.
pub open spec fn recalled(editor: EditorView, history: Seq<Seq<char>>) -> EditorView {
    let pos = match editor.hist_pos {
        Some(i) => if i > 0 {
            (i - 1) as usize
        } else {
            0
        },
        None => (history.len() - 1) as usize,
    };
    EditorView {
        buffer: history[pos as int],
        prev_tab_buffer: None,
        saved_buffer: if editor.hist_pos is None {
            Some(editor.buffer)
        } else {
            editor.saved_buffer
        },
        hist_pos: Some(pos),
    }
}

/// The line when the history is gone forward in from the line at `pos`: the next one, or what
/// was kept when the history was entered.
pub open spec fn returned(
    editor: EditorView,
    pos: usize,
    history: Seq<Seq<char>>,
) -> EditorView {
    if pos + 1 < history.len() {
        EditorView {
            buffer: history[pos + 1],
            prev_tab_buffer: None,
            hist_pos: Some((pos + 1) as usize),
            ..editor
        }
    } else {
        EditorView {
            buffer: match editor.saved_buffer {
                Some(line) => line,
                None => Seq::empty(),
            },
            prev_tab_buffer: None,
            saved_buffer: None,
            hist_pos: None,
        }
    }
}

/// What a key does to the line.
pub open spec fn pressed(
    editor: EditorView,
    key: Key,
    history: Seq<Seq<char>>,
    cwd: Seq<char>,
) -> Edited {
    match key {
        Key::Char(c) => if c == '\n' || c == '\r' {
            Edited { editor, output: "\r\n"@, outcome: Outcome::Finished }
        } else if c == '\t' {
            Edited { editor, output: Seq::empty(), outcome: Outcome::Complete }
        } else {
            Edited {
                editor: EditorView { buffer: editor.buffer.push(c), ..editor },
                output: seq![c],
                outcome: Outcome::Continue,
            }
        },
        Key::Backspace if editor.buffer.len() > 0 => {
            let line = editor.buffer.drop_last();
            Edited {
                editor: EditorView { buffer: line, ..editor },
                output: redrawn(cwd, line),
                outcome: Outcome::Continue,
            }
        },
        Key::Up if history.len() > 0 => {
            let after = recalled(editor, history);
            Edited {
                editor: after,
                output: redrawn(cwd, after.buffer),
                outcome: Outcome::Continue,
            }
        },
        Key::Down if editor.hist_pos is Some => {
            let after = returned(editor, editor.hist_pos->0, history);
            Edited {
                editor: after,
                output: redrawn(cwd, after.buffer),
                outcome: Outcome::Continue,
            }
        },
        Key::Ctrl('c') => Edited {
            editor: EditorView { buffer: "exit"@, ..editor },
            output: "^C\r\n"@,
            outcome: Outcome::Finished,
        },
        _ => Edited { editor, output: Seq::empty(), outcome: Outcome::Continue },
    }
}

/// What a completion does to the line. One word takes the place of the last one. Several are
/// shown when they come up for the same line the second time; before that, and where there is
/// none, the bell rings.
pub open spec fn completed(editor: EditorView, completion: TabView, cwd: Seq<char>) -> Edited {
    match completion {
        TabView::Single(word) => {
            let line = editor.buffer.take(completion::after_last(editor.buffer, ' ') as int)
                + word;
            Edited {
                editor: EditorView { buffer: line, prev_tab_buffer: None, ..editor },
                output: redrawn(cwd, line),
                outcome: Outcome::Continue,
            }
        },
        TabView::Multiple(words) if words.len() > 0 => if editor.prev_tab_buffer == Some(
            editor.buffer,
        ) {
            Edited {
                editor: EditorView { prev_tab_buffer: None, ..editor },
                output: "\r\n"@ + text::joined(words, "        "@) + "\r\n"@ + shown(
                    cwd,
                    editor.buffer,
                ),
                outcome: Outcome::Continue,
            }
        } else {
            Edited {
                editor: EditorView { prev_tab_buffer: Some(editor.buffer), ..editor },
                output: "\x07"@,
                outcome: Outcome::Continue,
            }
        },
        _ => Edited {
            editor: EditorView { prev_tab_buffer: None, ..editor },
            output: "\x07"@,
            outcome: Outcome::Continue,
        },
    }
}

/// The prompt and the line.
pub fn prompt(cwd: &str, line: &str) -> (r: String)
    ensures
        r@ == shown(cwd@, line@),
{
    let mut r: String = cwd.to_owned();
    r.append(" $ ");
    r.append(line);
    r
}

/// What writes the prompt and the line over what stands there.
fn redraw(cwd: &str, line: &str) -> (r: String)
    ensures
        r@ == redrawn(cwd@, line@),
{
    let mut r: String = "\r\x1b[K".to_string();
    let line_shown: String = prompt(cwd, line);
    r.append(line_shown.as_str());
    r
}

impl LineEditor {
    /// The empty line.
    pub fn new() -> (r: LineEditor)
        ensures
            r@ == fresh_editor(),
    {
        LineEditor {
            buffer: String::new(),
            prev_tab_buffer: None,
            saved_buffer: None,
            hist_pos: None,
        }
    }

    /// Lets a key do to the line what it does; gives what is to be written to the terminal and
    /// what follows.
    pub fn press(&mut self, key: Key, history: &Vec<String>, cwd: &str) -> (r: (String, Outcome))
        requires
            in_history(old(self)@, text::texts(history@)),
        ensures
            pressed(old(self)@, key, text::texts(history@), cwd@) == (Edited {
                editor: final(self)@,
                output: r.0@,
                outcome: r.1,
            }),
            in_history(final(self)@, text::texts(history@)),
    {
        let ghost all = text::texts(history@);
        match key {
            Key::Char(c) => {
                if c == '\n' || c == '\r' {
                    return ("\r\n".to_string(), Outcome::Finished);
                }
                if c == '\t' {
                    return (String::new(), Outcome::Complete);
                }
                self.buffer.push(c);
                let mut output = String::new();
                output.push(c);
                assert(output@ =~= seq![c]);
                (output, Outcome::Continue)
            },
            Key::Backspace => {
                let chars: Vec<char> = chars_of(self.buffer.as_str());
                if chars.len() == 0 {
                    return (String::new(), Outcome::Continue);
                }
                self.buffer = text_between(&chars, 0, chars.len() - 1);
                assert(self.buffer@ =~= old(self).buffer@.drop_last());
                (redraw(cwd, self.buffer.as_str()), Outcome::Continue)
            },
            Key::Up => {
                if history.len() == 0 {
                    return (String::new(), Outcome::Continue);
                }
                let pos: usize = match self.hist_pos {
                    Some(i) => i.saturating_sub(1),
                    None => history.len() - 1,
                };
                if self.hist_pos.is_none() {
                    self.saved_buffer = Some(self.buffer.clone());
                }
                self.hist_pos = Some(pos);
                self.buffer = history[pos].clone();
                self.prev_tab_buffer = None;
                assert(all[pos as int] == history@[pos as int]@);
                (redraw(cwd, self.buffer.as_str()), Outcome::Continue)
            },
            Key::Down => match self.hist_pos {
                None => (String::new(), Outcome::Continue),
                Some(i) => {
                    assert(all.len() == history@.len());
                    if history.len() - i > 1 {
                        self.hist_pos = Some(i + 1);
                        self.buffer = history[i + 1].clone();
                        assert(all[i + 1] == history@[i + 1]@);
                    } else {
                        self.hist_pos = None;
                        self.buffer = match self.saved_buffer.take() {
                            Some(line) => line,
                            None => String::new(),
                        };
                    }
                    self.prev_tab_buffer = None;
                    (redraw(cwd, self.buffer.as_str()), Outcome::Continue)
                },
            },
            Key::Ctrl(c) => {
                if c == 'c' {
                    self.buffer = "exit".to_string();
                    ("^C\r\n".to_string(), Outcome::Finished)
                } else {
                    (String::new(), Outcome::Continue)
                }
            },
            Key::Other => (String::new(), Outcome::Continue),
        }
    }

    /// Lets a completion do to the line what it does; gives what is to be written to the
    /// terminal.
    pub fn complete(&mut self, completion: TabCompletion, cwd: &str) -> (r: String)
        ensures
            completed(old(self)@, completion@, cwd@) == (Edited {
                editor: final(self)@,
                output: r@,
                outcome: Outcome::Continue,
            }),
    {
        match completion {
            TabCompletion::Single(word) => {
                let chars: Vec<char> = chars_of(self.buffer.as_str());
                let start: usize = completion::find_after_last(&chars, ' ');
                let mut line: String = text_between(&chars, 0, start);
                assert(line@ =~= old(self).buffer@.take(start as int));
                line.append(word.as_str());
                self.buffer = line;
                self.prev_tab_buffer = None;
                redraw(cwd, self.buffer.as_str())
            },
            TabCompletion::Multiple(words) => {
                if words.len() == 0 {
                    self.prev_tab_buffer = None;
                    return "\x07".to_string();
                }
                let again: bool = match &self.prev_tab_buffer {
                    Some(line) => same_text(line.as_str(), self.buffer.as_str()),
                    None => false,
                };
                if again {
                    let mut output: String = "\r\n".to_string();
                    let list: String = join(&words, "        ");
                    output.append(list.as_str());
                    output.append("\r\n");
                    let line_shown: String = prompt(cwd, self.buffer.as_str());
                    output.append(line_shown.as_str());
                    self.prev_tab_buffer = None;
                    output
                } else {
                    self.prev_tab_buffer = Some(self.buffer.clone());
                    "\x07".to_string()
                }
            },
            TabCompletion::Nothing => {
                self.prev_tab_buffer = None;
                "\x07".to_string()
            },
        }
    }
}

/// A character that is typed and taken back leaves the line as it was.
pub proof fn law_backspace_takes_back(
    editor: EditorView,
    c: char,
    history: Seq<Seq<char>>,
    cwd: Seq<char>,
)
    requires
        c != '\n',
        c != '\r',
        c != '\t',
    ensures
        pressed(
            pressed(editor, Key::Char(c), history, cwd).editor,
            Key::Backspace,
            history,
            cwd,
        ).editor == editor,
{
    assert(editor.buffer.push(c).drop_last() =~= editor.buffer);
}

/// The line after the characters of a text were typed.
pub open spec fn typed(
    editor: EditorView,
    chars: Seq<char>,
    history: Seq<Seq<char>>,
    cwd: Seq<char>,
) -> EditorView
    decreases chars.len(),
{
    if chars.len() == 0 {
        editor
    } else {
        pressed(
            typed(editor, chars.drop_last(), history, cwd),
            Key::Char(chars.last()),
            history,
            cwd,
        ).editor
    }
}

/// What is typed is behind what stood there, and is the line that the return key finishes.
pub proof fn law_typed_text_is_the_line(
    editor: EditorView,
    chars: Seq<char>,
    history: Seq<Seq<char>>,
    cwd: Seq<char>,
)
    requires
        !chars.contains('\n'),
        !chars.contains('\r'),
        !chars.contains('\t'),
    ensures
        typed(editor, chars, history, cwd) == (EditorView {
            buffer: editor.buffer + chars,
            ..editor
        }),
        pressed(typed(editor, chars, history, cwd), Key::Char('\n'), history, cwd) == (Edited {
            editor: EditorView { buffer: editor.buffer + chars, ..editor },
            output: "\r\n"@,
            outcome: Outcome::Finished,
        }),
    decreases chars.len(),
{
    if chars.len() == 0 {
        assert(editor.buffer + chars =~= editor.buffer);
    } else {
        let before = chars.drop_last();
        assert forall|i: int| 0 <= i < before.len() implies before[i] != '\n' && before[i] != '\r'
            && before[i] != '\t' by {
            assert(before[i] == chars[i]);
            assert(chars.contains(chars[i]));
        }
        law_typed_text_is_the_line(editor, before, history, cwd);
        assert(chars.contains(chars[chars.len() - 1]));
        assert((editor.buffer + before).push(chars.last()) =~= editor.buffer + chars);
    }
}

/// The line after going back in the history `n` times.
pub open spec fn gone_back(
    editor: EditorView,
    n: nat,
    history: Seq<Seq<char>>,
    cwd: Seq<char>,
) -> EditorView
    decreases n,
{
    if n == 0 {
        editor
    } else {
        pressed(
            gone_back(editor, (n - 1) as nat, history, cwd),
            Key::Up,
            history,
            cwd,
        ).editor
    }
}

/// The line after going forward in the history `n` times.
pub open spec fn gone_forward(
    editor: EditorView,
    n: nat,
    history: Seq<Seq<char>>,
    cwd: Seq<char>,
) -> EditorView
    decreases n,
{
    if n == 0 {
        editor
    } else {
        pressed(
            gone_forward(editor, (n - 1) as nat, history, cwd),
            Key::Down,
            history,
            cwd,
        ).editor
    }
}

/// Going back `n` times shows the line that was entered `n` lines ago, or the oldest, and keeps
/// what was written.
pub proof fn law_going_back(
    editor: EditorView,
    n: nat,
    history: Seq<Seq<char>>,
    cwd: Seq<char>,
)
    requires
        editor.hist_pos is None,
        0 < n,
        0 < history.len() <= usize::MAX,
    ensures
        ({
            let pos = if n < history.len() {
                history.len() - n
            } else {
                0
            };
            gone_back(editor, n, history, cwd) == EditorView {
                buffer: history[pos],
                prev_tab_buffer: None,
                saved_buffer: Some(editor.buffer),
                hist_pos: Some(pos as usize),
            }
        }),
    decreases n,
{
    if n > 1 {
        law_going_back(editor, (n - 1) as nat, history, cwd);
    } else {
        assert(gone_back(editor, 0, history, cwd) == editor);
    }
}

proof fn lemma_going_forward(
    editor: EditorView,
    from: nat,
    n: nat,
    history: Seq<Seq<char>>,
    cwd: Seq<char>,
)
    requires
        history.len() <= usize::MAX,
        editor.hist_pos == Some(from as usize),
        0 < n,
        from + n < history.len(),
    ensures
        gone_forward(editor, n, history, cwd) == (EditorView {
            buffer: history[(from + n) as int],
            prev_tab_buffer: None,
            hist_pos: Some((from + n) as usize),
            ..editor
        }),
    decreases n,
{
    if n > 1 {
        lemma_going_forward(editor, from, (n - 1) as nat, history, cwd);
    } else {
        assert(gone_forward(editor, 0, history, cwd) == editor);
    }
}

/// Going back in the history and forward again as often brings back what was written.
pub proof fn law_there_and_back(
    editor: EditorView,
    n: nat,
    history: Seq<Seq<char>>,
    cwd: Seq<char>,
)
    requires
        editor.hist_pos is None,
        0 < n <= history.len(),
        history.len() <= usize::MAX,
    ensures
        ({
            let there = gone_back(editor, n, history, cwd);
            gone_forward(there, n, history, cwd) == EditorView {
                prev_tab_buffer: None,
                saved_buffer: None,
                ..editor
            }
        }),
{
    law_going_back(editor, n, history, cwd);
    let there = gone_back(editor, n, history, cwd);
    let from = (history.len() - n) as nat;
    if n > 1 {
        lemma_going_forward(there, from, (n - 1) as nat, history, cwd);
    } else {
        assert(gone_forward(there, 0, history, cwd) == there);
    }
}

/// The place in the history stays one of its lines whatever is pressed and completed.
pub proof fn law_place_stays_in_history(
    editor: EditorView,
    key: Key,
    completion: TabView,
    history: Seq<Seq<char>>,
    cwd: Seq<char>,
)
    requires
        in_history(editor, history),
        history.len() <= usize::MAX,
    ensures
        in_history(fresh_editor(), history),
        in_history(pressed(editor, key, history, cwd).editor, history),
        in_history(completed(editor, completion, cwd).editor, history),
        pressed(editor, key, history, cwd).editor.hist_pos matches Some(i) ==> i < history.len(),
        completed(editor, completion, cwd).editor.hist_pos matches Some(i) ==> i < history.len(),
{
}

proof fn lemma_after_last(s: Seq<char>, c: char)
    ensures
        completion::after_last(s, c) <= s.len(),
    decreases s.len(),
{
    if s.len() > 0 && s.last() != c {
        lemma_after_last(s.drop_last(), c);
    }
}

/// A completion that begins with the word at the end of the line takes nothing away from the
/// line: the new line begins with the old one.
pub proof fn law_completion_extends_the_line(
    editor: EditorView,
    word: Seq<char>,
    cwd: Seq<char>,
)
    requires
        text::begins_with(word, completion::last_word(editor.buffer)),
    ensures
        text::begins_with(
            completed(editor, TabView::Single(word), cwd).editor.buffer,
            editor.buffer,
        ),
{
    let line = editor.buffer;
    lemma_after_last(line, ' ');
    let start = completion::after_last(line, ' ') as int;
    let last = completion::last_word(line);
    let after = line.take(start) + word;
    assert(after.take(line.len() as int) =~= line.take(start) + word.take(last.len() as int));
    assert(line.take(start) + last =~= line);
}

/// Several completions for one line are shown by the second request in a row, and the line
/// stays as it is.
pub proof fn law_second_request_shows_the_completions(
    editor: EditorView,
    words: Seq<Seq<char>>,
    cwd: Seq<char>,
)
    requires
        words.len() > 0,
        editor.prev_tab_buffer != Some(editor.buffer),
    ensures
        ({
            let first = completed(editor, TabView::Multiple(words), cwd);
            let second = completed(first.editor, TabView::Multiple(words), cwd);
            &&& first.output == "\x07"@
            &&& first.editor.buffer == editor.buffer
            &&& second.output == "\r\n"@ + text::joined(words, "        "@) + "\r\n"@ + shown(
                cwd,
                editor.buffer,
            )
            &&& second.editor == EditorView { prev_tab_buffer: None, ..editor }
        }),
{
}

/// What the line of the terminal shows after this was written to it: what begins with a return
/// and the sign that clears the line takes its place, a bell leaves it, and any other text comes
/// behind it.
pub open spec fn on_screen(screen: Seq<char>, written: Seq<char>) -> Seq<char> {
    if text::begins_with(written, seq!['\r', '\u{1b}', '[', 'K']) {
        written.skip(4)
    } else if written == seq!['\u{7}'] {
        screen
    } else {
        screen + written
    }
}

/// The terminal always shows the directory, ` $ ` and the line: if it did before a key that does
/// not finish the line, it does after it, and so after a completion that changes the line.
pub proof fn law_terminal_shows_the_line(
    editor: EditorView,
    key: Key,
    word: Seq<char>,
    history: Seq<Seq<char>>,
    cwd: Seq<char>,
)
    requires
        key != Key::Char('\u{7}'),
    ensures
        ({
            let prompt = cwd + seq![' ', '$', ' '];
            let pressing = pressed(editor, key, history, cwd);
            let completing = completed(editor, TabView::Single(word), cwd);
            &&& shown(cwd, editor.buffer) == prompt + editor.buffer
            &&& pressing.outcome != Outcome::Finished ==> on_screen(
                prompt + editor.buffer,
                pressing.output,
            ) == prompt + pressing.editor.buffer
            &&& on_screen(prompt + editor.buffer, completing.output) == prompt
                + completing.editor.buffer
        }),
{
    reveal_strlit(" $ ");
    reveal_strlit("\r\x1b[K");
    let prompt = cwd + seq![' ', '$', ' '];
    let clear = seq!['\r', '\u{1b}', '[', 'K'];
    assert(" $ "@ =~= seq![' ', '$', ' ']);
    assert("\r\x1b[K"@ =~= clear);
    let pressing = pressed(editor, key, history, cwd);
    let completing = completed(editor, TabView::Single(word), cwd);
    assert(shown(cwd, editor.buffer) =~= prompt + editor.buffer);
    assert forall|line: Seq<char>| on_screen(
        prompt + editor.buffer,
        #[trigger] redrawn(cwd, line),
    ) == prompt + line by {
        let written = redrawn(cwd, line);
        assert(written.take(4) =~= clear);
        assert(written.skip(4) =~= prompt + line);
    }
    match key {
        Key::Char(c) => {
            if c == '\t' {
                assert(prompt + editor.buffer + pressing.output =~= prompt + editor.buffer);
            } else if c != '\n' && c != '\r' {
                assert(pressing.output[0] == c);
                assert(pressing.output != seq!['\u{7}']) by {
                    assert(seq!['\u{7}'][0] == '\u{7}');
                }
                assert(prompt + editor.buffer + seq![c] =~= prompt + editor.buffer.push(c));
            }
        },
        _ => {
            if pressing.output.len() == 0 {
                assert(prompt + editor.buffer + pressing.output =~= prompt + editor.buffer);
            }
        },
    }
}

/// The return key finishes the line as it is, the tabulator asks for a completion, the interrupt
/// key finishes with `exit` in place of the line, and every other key lets the next be read.
pub proof fn law_what_keys_do(
    editor: EditorView,
    key: Key,
    history: Seq<Seq<char>>,
    cwd: Seq<char>,
)
    ensures
        ({
            let after = pressed(editor, key, history, cwd);
            &&& after.outcome == Outcome::Finished <==> key == Key::Char('\n') || key == Key::Char(
                '\r',
            ) || key == Key::Ctrl('c')
            &&& after.outcome == Outcome::Complete <==> key == Key::Char('\t')
            &&& key == Key::Char('\n') || key == Key::Char('\r') || key == Key::Char('\t')
                ==> after.editor == editor
            &&& key == Key::Ctrl('c') ==> after.editor.buffer == "exit"@ && after.output == seq![
                '^',
                'C',
                '\r',
                '\n',
            ]
            &&& key == Key::Char('\t') ==> after.output.len() == 0
            &&& key == Key::Char('\n') || key == Key::Char('\r') ==> after.output == seq![
                '\r',
                '\n',
            ]
        }),
{
    reveal_strlit("\r\n");
    reveal_strlit("^C\r\n");
    assert("\r\n"@ =~= seq!['\r', '\n']);
    assert("^C\r\n"@ =~= seq!['^', 'C', '\r', '\n']);
}

/// Keys that have nothing to work on do nothing: taking back from an empty line, going back
/// without a history, going forward outside of it, and keys without a meaning.
pub proof fn law_idle_keys(
    editor: EditorView,
    c: char,
    history: Seq<Seq<char>>,
    cwd: Seq<char>,
)
    ensures
        ({
            let idle = Edited {
                editor,
                output: Seq::empty(),
                outcome: Outcome::Continue,
            };
            &&& editor.buffer.len() == 0 ==> pressed(editor, Key::Backspace, history, cwd) == idle
            &&& history.len() == 0 ==> pressed(editor, Key::Up, history, cwd) == idle
            &&& editor.hist_pos is None ==> pressed(editor, Key::Down, history, cwd) == idle
            &&& pressed(editor, Key::Other, history, cwd) == idle
            &&& c != 'c' ==> pressed(editor, Key::Ctrl(c), history, cwd) == idle
        }),
{
}

proof fn lemma_last_space(before: Seq<char>, word: Seq<char>)
    requires
        !word.contains(' '),
        before.len() > 0 ==> before.last() == ' ',
    ensures
        completion::after_last(before + word, ' ') == before.len(),
    decreases word.len(),
{
    let whole = before + word;
    if word.len() == 0 {
        assert(whole =~= before);
    } else {
        let rest = word.drop_last();
        assert(word[word.len() - 1] != ' ');
        assert(whole.last() == word.last());
        assert(whole.drop_last() =~= before + rest);
        assert forall|i: int| 0 <= i < rest.len() implies rest[i] != ' ' by {
            assert(rest[i] == word[i]);
        }
        lemma_last_space(before, rest);
    }
}

/// A completion takes the place of the word behind the last space, and nothing before it
/// changes.
pub proof fn law_completion_replaces_the_last_word(
    editor: EditorView,
    before: Seq<char>,
    word: Seq<char>,
    completion: Seq<char>,
    cwd: Seq<char>,
)
    requires
        editor.buffer == before + word,
        !word.contains(' '),
        before.len() > 0 ==> before.last() == ' ',
    ensures
        completed(editor, TabView::Single(completion), cwd).editor == (EditorView {
            buffer: before + completion,
            prev_tab_buffer: None,
            ..editor
        }),
{
    lemma_last_space(before, word);
    assert((before + word).take(before.len() as int) =~= before);
}

/// Where there is nothing to complete to, the bell rings and the line stays.
pub proof fn law_bell_rings(editor: EditorView, cwd: Seq<char>)
    ensures
        completed(editor, TabView::Nothing, cwd).output == seq!['\u{7}'],
        completed(editor, TabView::Multiple(Seq::empty()), cwd).output == seq!['\u{7}'],
        completed(editor, TabView::Nothing, cwd).editor == (EditorView {
            prev_tab_buffer: None,
            ..editor
        }),
        completed(editor, TabView::Multiple(Seq::empty()), cwd).editor == (EditorView {
            prev_tab_buffer: None,
            ..editor
        }),
{
    reveal_strlit("\x07");
    assert("\x07"@ =~= seq!['\u{7}']);
}

/// Editing begins with an empty line, outside of the history, and with no completion shown.
pub proof fn law_fresh_line()
    ensures
        fresh_editor().buffer.len() == 0,
        fresh_editor().hist_pos is None,
        fresh_editor().saved_buffer is None,
        fresh_editor().prev_tab_buffer is None,
{
}

} // verus!
