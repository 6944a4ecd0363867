//! Splitting a line into words: quotes, backslashes and spaces.
use vstd::prelude::*;

use crate::command::Command;
use crate::text;
use crate::text::{chars_of, push_text};

verus! {

/// Which quotes a character stands in.
#[derive(Clone, Copy, PartialEq, Eq, Structural)]
pub enum Quote {
    Outside,
    Single,
    Double,
}

/// The word, unless it is empty.
pub open spec fn flushed(word: Seq<char>) -> Seq<Seq<char>> {
    if word.len() == 0 {
        Seq::empty()
    } else {
        seq![word]
    }
}

/// What a backslash and `c` stand for between double quotes.
pub open spec fn escaped_in_double(c: char) -> Seq<char> {
    if c == '"' || c == '\\' || c == '$' || c == '`' {
        seq![c]
    } else if c == '\n' {
        Seq::empty()
    } else {
        seq!['\\', c]
    }
}

/// The words of `s`, where `word` is what has been read of the first one and `quote` says
/// which quotes are open.
///
/// Outside quotes a backslash takes the next character as it is, and spaces end words.
/// Between single quotes every character stands for itself. Between double quotes a
/// backslash escapes as `escaped_in_double` says. A backslash with nothing behind it is
/// dropped, and so are words without a character.
pub open spec fn lexed(s: Seq<char>, quote: Quote, word: Seq<char>) -> Seq<Seq<char>>
    decreases s.len(),
{
    if s.len() == 0 {
        flushed(word)
    } else {
        let c = s[0];
        let rest = s.skip(1);
        match quote {
            Quote::Single => if c == '\'' {
                lexed(rest, Quote::Outside, word)
            } else {
                lexed(rest, Quote::Single, word.push(c))
            },
            Quote::Double => if c == '"' {
                lexed(rest, Quote::Outside, word)
            } else if c != '\\' {
                lexed(rest, Quote::Double, word.push(c))
            } else if rest.len() == 0 {
                flushed(word)
            } else {
                lexed(rest.skip(1), Quote::Double, word + escaped_in_double(rest[0]))
            },
            Quote::Outside => if c == '\'' {
                lexed(rest, Quote::Single, word)
            } else if c == '"' {
                lexed(rest, Quote::Double, word)
            } else if c == ' ' {
                flushed(word) + lexed(rest, Quote::Outside, Seq::empty())
            } else if c != '\\' {
                lexed(rest, Quote::Outside, word.push(c))
            } else if rest.len() == 0 {
                flushed(word)
            } else {
                lexed(rest.skip(1), Quote::Outside, word.push(rest[0]))
            },
        }
    }
}

/// The words of a line.
pub open spec fn tokens(line: Seq<char>) -> Seq<Seq<char>> {
    lexed(line, Quote::Outside, Seq::empty())
}

impl Command {
    /// The words of a line.
    pub fn tokenize(input: &str) -> (r: Vec<String>)
        ensures
            text::texts(r@) == tokens(input@),
    {
        let chars: Vec<char> = chars_of(input);
        let mut words: Vec<String> = Vec::new();
        let mut current = String::new();
        let mut quote = Quote::Outside;
        let mut i: usize = 0;
        proof {
            assert(chars@.skip(0) =~= input@);
            assert(text::texts(words@) =~= Seq::empty());
            assert(text::texts(words@) + tokens(input@) =~= tokens(input@));
        }
        while i < chars.len()
            invariant
                i <= chars@.len(),
                chars@ == input@,
                tokens(input@) == text::texts(words@) + lexed(chars@.skip(i as int), quote, current@),
            decreases chars@.len() - i,
        {
            let c: char = chars[i];
            let ghost rest = chars@.skip(i as int);
            proof {
                assert(rest[0] == c);
                assert(rest.skip(1) =~= chars@.skip(i + 1));
                if i + 1 < chars@.len() {
                    assert(rest.skip(1)[0] == chars@[i + 1]);
                    assert(rest.skip(1).skip(1) =~= chars@.skip(i + 2));
                }
            }
            i += 1;
            if c == '\\' && quote != Quote::Single {
                if i == chars.len() {
                    assert(chars@.skip(i as int).len() == 0);
                    assert(lexed(chars@.skip(i as int), quote, current@) == flushed(current@));
                } else {
                    let next: char = chars[i];
                    i += 1;
                    if quote == Quote::Outside || next == '"' || next == '\\' || next == '$' || next
                        == '`' {
                        proof {
                            assert(current@ + seq![next] =~= current@.push(next));
                        }
                        current.push(next);
                    } else if next == '\n' {
                        assert(current@ + Seq::<char>::empty() =~= current@);
                    } else {
                        proof {
                            assert(current@ + seq!['\\', next] =~= current@.push('\\').push(next));
                        }
                        current.push('\\');
                        current.push(next);
                    }
                }
            } else if c == '\'' && quote == Quote::Single {
                quote = Quote::Outside;
            } else if c == '"' && quote == Quote::Double {
                quote = Quote::Outside;
            } else if c == '\'' && quote == Quote::Outside {
                quote = Quote::Single;
            } else if c == '"' && quote == Quote::Outside {
                quote = Quote::Double;
            } else if c == ' ' && quote == Quote::Outside {
                let ghost before = text::texts(words@);
                let ghost later = lexed(chars@.skip(i as int), Quote::Outside, Seq::empty());
                if !current.as_str().is_empty() {
                    let ghost word = current@;
                    push_text(&mut words, current);
                    current = String::new();
                    assert(before + (seq![word] + later) =~= before.push(word) + later);
                } else {
                    assert(current@ =~= Seq::empty());
                    assert(before + (Seq::<Seq<char>>::empty() + later) =~= before + later);
                }
            } else {
                current.push(c);
            }
        }
        proof {
            assert(lexed(chars@.skip(i as int), quote, current@) == flushed(current@));
        }
        if !current.as_str().is_empty() {
            let ghost before = text::texts(words@);
            let ghost word = current@;
            push_text(&mut words, current);
            assert(before + seq![word] =~= before.push(word));
        } else {
            assert(text::texts(words@) + Seq::<Seq<char>>::empty() =~= text::texts(words@));
        }
        words
    }
}

/// Whether no quote is open at the end of `s`, and no backslash stands there alone, if `quote`
/// is open at its beginning.
pub open spec fn closes(s: Seq<char>, quote: Quote) -> bool
    decreases s.len(),
{
    if s.len() == 0 {
        quote == Quote::Outside
    } else {
        let c = s[0];
        let rest = s.skip(1);
        match quote {
            Quote::Single => closes(rest, if c == '\'' { Quote::Outside } else { quote }),
            Quote::Double => if c == '\\' {
                rest.len() > 0 && closes(rest.skip(1), quote)
            } else {
                closes(rest, if c == '"' { Quote::Outside } else { quote })
            },
            Quote::Outside => if c == '\\' {
                rest.len() > 0 && closes(rest.skip(1), quote)
            } else if c == '\'' {
                closes(rest, Quote::Single)
            } else if c == '"' {
                closes(rest, Quote::Double)
            } else {
                closes(rest, quote)
            },
        }
    }
}

proof fn lemma_lexed_space(a: Seq<char>, b: Seq<char>, quote: Quote, word: Seq<char>)
    requires
        closes(a, quote),
    ensures
        lexed(a + seq![' '] + b, quote, word) == lexed(a, quote, word) + tokens(b),
    decreases a.len(),
{
    let whole = a + seq![' '] + b;
    if a.len() == 0 {
        assert(whole.skip(1) =~= b);
    } else {
        let c = a[0];
        let rest = a.skip(1);
        assert(whole[0] == c);
        assert(whole.skip(1) =~= rest + seq![' '] + b);
        let escapes = c == '\\' && quote != Quote::Single;
        if escapes {
            let later = rest.skip(1);
            assert(whole.skip(1)[0] == rest[0]);
            assert(whole.skip(1).skip(1) =~= later + seq![' '] + b);
            if quote == Quote::Double {
                lemma_lexed_space(later, b, quote, word + escaped_in_double(rest[0]));
            } else {
                lemma_lexed_space(later, b, quote, word.push(rest[0]));
            }
        } else if quote == Quote::Single {
            if c == '\'' {
                lemma_lexed_space(rest, b, Quote::Outside, word);
            } else {
                lemma_lexed_space(rest, b, quote, word.push(c));
            }
        } else if quote == Quote::Double {
            if c == '"' {
                lemma_lexed_space(rest, b, Quote::Outside, word);
            } else {
                lemma_lexed_space(rest, b, quote, word.push(c));
            }
        } else if c == '\'' {
            lemma_lexed_space(rest, b, Quote::Single, word);
        } else if c == '"' {
            lemma_lexed_space(rest, b, Quote::Double, word);
        } else if c == ' ' {
            lemma_lexed_space(rest, b, quote, Seq::empty());
            let later = lexed(rest, quote, Seq::empty());
            assert(flushed(word) + (later + tokens(b)) =~= (flushed(word) + later) + tokens(b));
        } else {
            lemma_lexed_space(rest, b, quote, word.push(c));
        }
    }
}

/// A space outside quotes separates: the words of two texts with a space between them are the
/// words of the first and those of the second, if the first closes its quotes.
pub proof fn law_space_separates(a: Seq<char>, b: Seq<char>)
    requires
        closes(a, Quote::Outside),
    ensures
        tokens(a + seq![' '] + b) == tokens(a) + tokens(b),
{
    lemma_lexed_space(a, b, Quote::Outside, Seq::empty());
}

/// Whether every word of a list has a character.
pub open spec fn none_empty(words: Seq<Seq<char>>) -> bool {
    forall|i: int| 0 <= i < words.len() ==> (#[trigger] words[i]).len() > 0
}

proof fn lemma_lexed_none_empty(s: Seq<char>, quote: Quote, word: Seq<char>)
    ensures
        none_empty(lexed(s, quote, word)),
    decreases s.len(),
{
    if s.len() > 0 {
        let c = s[0];
        let rest = s.skip(1);
        if c == '\\' && quote != Quote::Single {
            if rest.len() > 0 {
                lemma_lexed_none_empty(rest.skip(1), quote, word + escaped_in_double(rest[0]));
                lemma_lexed_none_empty(rest.skip(1), quote, word.push(rest[0]));
            }
        } else if c == ' ' && quote == Quote::Outside {
            let later = lexed(rest, quote, Seq::empty());
            lemma_lexed_none_empty(rest, quote, Seq::empty());
            assert forall|i: int| 0 <= i < (flushed(word) + later).len() implies (#[trigger] (
            flushed(word) + later)[i]).len() > 0 by {
                if i >= flushed(word).len() {
                    assert((flushed(word) + later)[i] == later[i - flushed(word).len()]);
                }
            }
        } else {
            lemma_lexed_none_empty(rest, quote, word.push(c));
            lemma_lexed_none_empty(rest, Quote::Outside, word);
            lemma_lexed_none_empty(rest, Quote::Single, word);
            lemma_lexed_none_empty(rest, Quote::Double, word);
        }
    }
}

/// No word of a line is empty.
pub proof fn law_no_empty_token(line: Seq<char>)
    ensures
        none_empty(tokens(line)),
{
    lemma_lexed_none_empty(line, Quote::Outside, Seq::empty());
}

/// Whether a character stands for itself outside quotes.
pub open spec fn is_plain_char(c: char) -> bool {
    c != ' ' && c != '\'' && c != '"' && c != '\\'
}

/// Whether a text consists of characters that stand for themselves, and has at least one.
pub open spec fn is_plain(word: Seq<char>) -> bool {
    word.len() > 0 && forall|i: int| 0 <= i < word.len() ==> is_plain_char(#[trigger] word[i])
}

/// Plain text is read as it is, and closes its quotes.
pub proof fn lemma_lexed_plain(s: Seq<char>, word: Seq<char>)
    requires
        forall|i: int| 0 <= i < s.len() ==> is_plain_char(#[trigger] s[i]),
    ensures
        lexed(s, Quote::Outside, word) == flushed(word + s),
        closes(s, Quote::Outside),
    decreases s.len(),
{
    if s.len() == 0 {
        assert(word + s =~= word);
    } else {
        let rest = s.skip(1);
        assert(is_plain_char(s[0]));
        assert forall|i: int| 0 <= i < rest.len() implies is_plain_char(#[trigger] rest[i]) by {
            assert(rest[i] == s[i + 1]);
        }
        lemma_lexed_plain(rest, word.push(s[0]));
        assert(word.push(s[0]) + rest =~= word + s);
    }
}

/// Plain words that are joined by spaces are read back as they were.
pub proof fn law_plain_words_are_read_back(words: Seq<Seq<char>>)
    requires
        forall|i: int| 0 <= i < words.len() ==> is_plain(#[trigger] words[i]),
    ensures
        tokens(text::joined(words, " "@)) == words,
    decreases words.len(),
{
    reveal_strlit(" ");
    assert(" "@ =~= seq![' ']);
    if words.len() == 0 {
        assert(tokens(Seq::empty()) =~= words);
    } else {
        let word = words[0];
        lemma_lexed_plain(word, Seq::empty());
        assert(Seq::<char>::empty() + word =~= word);
        if words.len() == 1 {
            assert(words =~= seq![word]);
        } else {
            let rest = words.skip(1);
            assert forall|i: int| 0 <= i < rest.len() implies is_plain(#[trigger] rest[i]) by {
                assert(rest[i] == words[i + 1]);
            }
            law_plain_words_are_read_back(rest);
            law_space_separates(word, text::joined(rest, " "@));
            assert(seq![word] + rest =~= words);
        }
    }
}

proof fn lemma_lexed_single(s: Seq<char>, word: Seq<char>)
    requires
        !s.contains('\''),
    ensures
        lexed(s + seq!['\''], Quote::Single, word) == flushed(word + s),
    decreases s.len(),
{
    let whole = s + seq!['\''];
    if s.len() == 0 {
        assert(whole.skip(1) =~= Seq::empty());
        assert(lexed(whole.skip(1), Quote::Outside, word) == flushed(word));
        assert(word + s =~= word);
    } else {
        let rest = s.skip(1);
        assert(s[0] != '\'');
        assert(whole.skip(1) =~= rest + seq!['\'']);
        assert forall|i: int| 0 <= i < rest.len() implies rest[i] != '\'' by {
            assert(rest[i] == s[i + 1]);
        }
        lemma_lexed_single(rest, word.push(s[0]));
        assert(word.push(s[0]) + rest =~= word + s);
    }
}

/// Between single quotes every character but the single quote stands for itself.
pub proof fn law_single_quotes(word: Seq<char>)
    requires
        word.len() > 0,
        !word.contains('\''),
    ensures
        tokens(seq!['\''] + word + seq!['\'']) == seq![word],
{
    let whole = seq!['\''] + word + seq!['\''];
    assert(whole.skip(1) =~= word + seq!['\'']);
    lemma_lexed_single(word, Seq::empty());
    assert(Seq::<char>::empty() + word =~= word);
}

proof fn lemma_lexed_double(s: Seq<char>, word: Seq<char>)
    requires
        !s.contains('"'),
        !s.contains('\\'),
    ensures
        lexed(s + seq!['"'], Quote::Double, word) == flushed(word + s),
    decreases s.len(),
{
    let whole = s + seq!['"'];
    if s.len() == 0 {
        assert(whole.skip(1) =~= Seq::empty());
        assert(lexed(whole.skip(1), Quote::Outside, word) == flushed(word));
        assert(word + s =~= word);
    } else {
        let rest = s.skip(1);
        assert(s[0] != '"' && s[0] != '\\');
        assert(whole.skip(1) =~= rest + seq!['"']);
        assert forall|i: int| 0 <= i < rest.len() implies rest[i] != '"' && rest[i] != '\\' by {
            assert(rest[i] == s[i + 1]);
        }
        lemma_lexed_double(rest, word.push(s[0]));
        assert(word.push(s[0]) + rest =~= word + s);
    }
}

/// Between double quotes every character but the double quote and the backslash stands for
/// itself.
pub proof fn law_double_quotes(word: Seq<char>)
    requires
        word.len() > 0,
        !word.contains('"'),
        !word.contains('\\'),
    ensures
        tokens(seq!['"'] + word + seq!['"']) == seq![word],
{
    let whole = seq!['"'] + word + seq!['"'];
    assert(whole.skip(1) =~= word + seq!['"']);
    lemma_lexed_double(word, Seq::empty());
    assert(Seq::<char>::empty() + word =~= word);
}

/// A text with a backslash before each of its characters.
pub open spec fn escaped(word: Seq<char>) -> Seq<char>
    decreases word.len(),
{
    if word.len() == 0 {
        Seq::empty()
    } else {
        seq!['\\', word[0]] + escaped(word.skip(1))
    }
}

proof fn lemma_lexed_escaped(s: Seq<char>, word: Seq<char>)
    ensures
        lexed(escaped(s), Quote::Outside, word) == flushed(word + s),
    decreases s.len(),
{
    if s.len() == 0 {
        assert(word + s =~= word);
    } else {
        let rest = s.skip(1);
        let whole = escaped(s);
        assert(whole[0] == '\\');
        assert(whole.skip(1)[0] == s[0]);
        assert(whole.skip(1).skip(1) =~= escaped(rest));
        lemma_lexed_escaped(rest, word.push(s[0]));
        assert(word.push(s[0]) + rest =~= word + s);
    }
}

/// Any word can be written: outside quotes a backslash takes away the meaning of the character
/// behind it.
pub proof fn law_backslash(word: Seq<char>)
    requires
        word.len() > 0,
    ensures
        tokens(escaped(word)) == seq![word],
{
    lemma_lexed_escaped(word, Seq::empty());
    assert(Seq::<char>::empty() + word =~= word);
}

/// A backslash and a character more.
pub proof fn lemma_escaped_push(word: Seq<char>, c: char)
    ensures
        escaped(word.push(c)) == escaped(word) + seq!['\\', c],
    decreases word.len(),
{
    let whole = word.push(c);
    if word.len() == 0 {
        assert(whole.skip(1) =~= Seq::empty());
        assert(escaped(whole.skip(1)) =~= Seq::empty());
        assert(escaped(whole) =~= escaped(word) + seq!['\\', c]);
    } else {
        assert(whole.skip(1) =~= word.skip(1).push(c));
        lemma_escaped_push(word.skip(1), c);
        assert(escaped(whole) =~= escaped(word) + seq!['\\', c]);
    }
}

proof fn lemma_plain_run(s: Seq<char>, rest: Seq<char>, word: Seq<char>)
    requires
        forall|i: int| 0 <= i < s.len() ==> is_plain_char(#[trigger] s[i]),
    ensures
        lexed(s + rest, Quote::Outside, word) == lexed(rest, Quote::Outside, word + s),
    decreases s.len(),
{
    let whole = s + rest;
    if s.len() == 0 {
        assert(whole =~= rest);
        assert(word + s =~= word);
    } else {
        let later = s.skip(1);
        assert(is_plain_char(s[0]));
        assert(whole[0] == s[0]);
        assert forall|i: int| 0 <= i < later.len() implies is_plain_char(#[trigger] later[i]) by {
            assert(later[i] == s[i + 1]);
        }
        assert(whole.skip(1) =~= later + rest);
        lemma_plain_run(later, rest, word.push(s[0]));
        assert(word.push(s[0]) + later =~= word + s);
    }
}

proof fn lemma_single_run(s: Seq<char>, rest: Seq<char>, word: Seq<char>)
    requires
        !s.contains('\''),
    ensures
        lexed(s + rest, Quote::Single, word) == lexed(rest, Quote::Single, word + s),
    decreases s.len(),
{
    let whole = s + rest;
    if s.len() == 0 {
        assert(whole =~= rest);
        assert(word + s =~= word);
    } else {
        let later = s.skip(1);
        assert(s[0] != '\'');
        assert(whole[0] == s[0]);
        assert forall|i: int| 0 <= i < later.len() implies later[i] != '\'' by {
            assert(later[i] == s[i + 1]);
        }
        assert(whole.skip(1) =~= later + rest);
        lemma_single_run(later, rest, word.push(s[0]));
        assert(word.push(s[0]) + later =~= word + s);
    }
}

proof fn lemma_double_run(s: Seq<char>, rest: Seq<char>, word: Seq<char>)
    requires
        !s.contains('"'),
        !s.contains('\\'),
    ensures
        lexed(s + rest, Quote::Double, word) == lexed(rest, Quote::Double, word + s),
    decreases s.len(),
{
    let whole = s + rest;
    if s.len() == 0 {
        assert(whole =~= rest);
        assert(word + s =~= word);
    } else {
        let later = s.skip(1);
        assert(s[0] != '"' && s[0] != '\\');
        assert(whole[0] == s[0]);
        assert forall|i: int| 0 <= i < later.len() implies later[i] != '"' && later[i] != '\\' by {
            assert(later[i] == s[i + 1]);
        }
        assert(whole.skip(1) =~= later + rest);
        lemma_double_run(later, rest, word.push(s[0]));
        assert(word.push(s[0]) + later =~= word + s);
    }
}

/// A text as it is written between double quotes: with a backslash before each double quote,
/// backslash, dollar sign and backtick.
pub open spec fn written_in_double(text: Seq<char>) -> Seq<char>
    decreases text.len(),
{
    if text.len() == 0 {
        Seq::empty()
    } else {
        let c = text[0];
        (if c == '"' || c == '\\' || c == '$' || c == '`' {
            seq!['\\', c]
        } else {
            seq![c]
        }) + written_in_double(text.skip(1))
    }
}

proof fn lemma_written_in_double(s: Seq<char>, rest: Seq<char>, word: Seq<char>)
    ensures
        lexed(written_in_double(s) + rest, Quote::Double, word) == lexed(
            rest,
            Quote::Double,
            word + s,
        ),
    decreases s.len(),
{
    let whole = written_in_double(s) + rest;
    if s.len() == 0 {
        assert(whole =~= rest);
        assert(word + s =~= word);
    } else {
        let c = s[0];
        let later = s.skip(1);
        let tail = written_in_double(later) + rest;
        lemma_written_in_double(later, rest, word.push(c));
        assert(word.push(c) + later =~= word + s);
        if c == '"' || c == '\\' || c == '$' || c == '`' {
            assert(whole[0] == '\\');
            assert(whole.skip(1)[0] == c);
            assert(whole.skip(1).skip(1) =~= tail);
            assert(word + seq![c] =~= word.push(c));
        } else {
            assert(whole[0] == c);
            assert(whole.skip(1) =~= tail);
        }
    }
}

/// Between double quotes, a backslash before a double quote, a backslash, a dollar sign or a
/// backtick stands for that character alone: any text that is written so is one word.
pub proof fn law_escapes_in_double_quotes(text: Seq<char>)
    requires
        text.len() > 0,
    ensures
        tokens(seq!['"'] + written_in_double(text) + seq!['"']) == seq![text],
{
    let none = Seq::<char>::empty();
    let close = seq!['"'];
    let whole = seq!['"'] + written_in_double(text) + close;
    assert(whole.skip(1) =~= written_in_double(text) + close);
    lemma_written_in_double(text, close, none);
    assert(none + text =~= text);
    assert(close.skip(1) =~= none);
    assert(lexed(close.skip(1), Quote::Outside, text) == flushed(text));
}

/// Between double quotes, a backslash before any other character stands for itself, and so does
/// that character; only a line feed goes away with the backslash before it.
pub proof fn law_other_backslashes_in_double_quotes(
    before: Seq<char>,
    c: char,
    behind: Seq<char>,
)
    requires
        !before.contains('"'),
        !before.contains('\\'),
        !behind.contains('"'),
        !behind.contains('\\'),
        c != '"',
        c != '\\',
        c != '$',
        c != '`',
    ensures
        c != '\n' ==> tokens(seq!['"'] + before + seq!['\\', c] + behind + seq!['"']) == seq![
            before + seq!['\\', c] + behind,
        ],
        c == '\n' && before.len() + behind.len() > 0 ==> tokens(
            seq!['"'] + before + seq!['\\', c] + behind + seq!['"'],
        ) == seq![before + behind],
{
    let none = Seq::<char>::empty();
    let close = seq!['"'];
    let whole = seq!['"'] + before + seq!['\\', c] + behind + close;
    let inner = seq!['\\', c] + behind + close;
    assert(whole.skip(1) =~= before + inner);
    lemma_double_run(before, inner, none);
    assert(none + before =~= before);
    assert(inner[0] == '\\');
    assert(inner.skip(1)[0] == c);
    assert(inner.skip(1).skip(1) =~= behind + close);
    let read = before + (if c == '\n' {
        none
    } else {
        seq!['\\', c]
    });
    assert(lexed(inner, Quote::Double, before) == lexed(behind + close, Quote::Double, read));
    lemma_double_run(behind, close, read);
    assert(close.skip(1) =~= none);
    assert(lexed(close.skip(1), Quote::Outside, read + behind) == flushed(read + behind));
    if c == '\n' {
        assert(read =~= before);
    }
}

/// Plain text, text between single quotes and text between double quotes are one word if no
/// space stands between them, and quotes may be left out by being empty.
pub proof fn law_pieces_are_one_word(plain: Seq<char>, single: Seq<char>, double: Seq<char>)
    requires
        forall|i: int| 0 <= i < plain.len() ==> is_plain_char(#[trigger] plain[i]),
        !single.contains('\''),
        !double.contains('"'),
        !double.contains('\\'),
        plain.len() + single.len() + double.len() > 0,
    ensures
        tokens(plain + seq!['\''] + single + seq!['\'', '"'] + double + seq!['"']) == seq![
            plain + single + double,
        ],
        tokens(seq!['"'] + double + seq!['"', '\''] + single + seq!['\''] + plain) == seq![
            double + single + plain,
        ],
{
    let none = Seq::<char>::empty();
    let one = plain + seq!['\''] + single + seq!['\'', '"'] + double + seq!['"'];
    let a = seq!['\''] + single + seq!['\'', '"'] + double + seq!['"'];
    let b = seq!['\'', '"'] + double + seq!['"'];
    assert(one =~= plain + a);
    lemma_plain_run(plain, a, none);
    assert(none + plain =~= plain);
    assert(a.skip(1) =~= single + b);
    lemma_single_run(single, b, plain);
    let read = plain + single;
    assert(b.skip(1) =~= seq!['"'] + double + seq!['"']);
    assert(b.skip(1).skip(1) =~= double + seq!['"']);
    assert(lexed(b, Quote::Single, read) == lexed(b.skip(1), Quote::Outside, read));
    assert(lexed(b.skip(1), Quote::Outside, read) == lexed(
        b.skip(1).skip(1),
        Quote::Double,
        read,
    ));
    lemma_double_run(double, seq!['"'], read);
    assert(seq!['"'].skip(1) =~= none);
    assert(lexed(seq!['"'].skip(1), Quote::Outside, read + double) == flushed(read + double));

    let other = seq!['"'] + double + seq!['"', '\''] + single + seq!['\''] + plain;
    let c = seq!['"', '\''] + single + seq!['\''] + plain;
    let d = seq!['\''] + plain;
    assert(other.skip(1) =~= double + c);
    lemma_double_run(double, c, none);
    assert(none + double =~= double);
    assert(c.skip(1) =~= seq!['\''] + single + seq!['\''] + plain);
    assert(c.skip(1).skip(1) =~= single + d);
    assert(lexed(c, Quote::Double, double) == lexed(c.skip(1), Quote::Outside, double));
    assert(lexed(c.skip(1), Quote::Outside, double) == lexed(
        c.skip(1).skip(1),
        Quote::Single,
        double,
    ));
    lemma_single_run(single, d, double);
    assert(d.skip(1) =~= plain);
    lemma_lexed_plain(plain, double + single);
}

/// A quote that is left open ends with the line, and a backslash that the line ends with is
/// dropped.
pub proof fn law_line_ends_what_is_open(text: Seq<char>)
    requires
        text.len() > 0,
    ensures
        !text.contains('\'') ==> tokens(seq!['\''] + text) == seq![text],
        !text.contains('"') && !text.contains('\\') ==> tokens(seq!['"'] + text) == seq![text],
        !text.contains('"') && !text.contains('\\') ==> tokens(seq!['"'] + text + seq!['\\'])
            == seq![text],
        is_plain(text) ==> tokens(text + seq!['\\']) == seq![text],
{
    let none = Seq::<char>::empty();
    assert(none + text =~= text);
    assert(text + none =~= text);
    assert(seq!['\''] + text =~= seq!['\''] + text + none);
    let slash = seq!['\\'];
    assert(slash.skip(1) =~= none);
    if !text.contains('\'') {
        assert((seq!['\''] + text).skip(1) =~= text);
        lemma_single_run(text, none, none);
        assert(lexed(none, Quote::Single, text) == flushed(text));
    }
    if !text.contains('"') && !text.contains('\\') {
        assert((seq!['"'] + text).skip(1) =~= text);
        lemma_double_run(text, none, none);
        assert(lexed(none, Quote::Double, text) == flushed(text));
        assert((seq!['"'] + text + slash).skip(1) =~= text + slash);
        lemma_double_run(text, slash, none);
        assert(lexed(slash, Quote::Double, text) == flushed(text));
    }
    if is_plain(text) {
        lemma_plain_run(text, slash, none);
        assert(lexed(slash, Quote::Outside, text) == flushed(text));
    }
}

/// A space and nothing else ends a word outside quotes: every other character but the two
/// quotes and the backslash is part of a word.
pub proof fn law_only_spaces_separate(c: char)
    requires
        c != ' ',
        c != '\'',
        c != '"',
        c != '\\',
    ensures
        forall|before: Seq<char>, behind: Seq<char>|
            is_plain(before) && is_plain(behind) ==> tokens(
                #[trigger] (before + seq![c] + behind),
            ) == seq![before + seq![c] + behind],
        forall|before: Seq<char>, behind: Seq<char>|
            is_plain(before) && is_plain(behind) ==> tokens(
                #[trigger] (before + seq![' '] + behind),
            ) == seq![before, behind],
{
    assert forall|before: Seq<char>, behind: Seq<char>|
        is_plain(before) && is_plain(behind) implies tokens(
        #[trigger] (before + seq![c] + behind),
    ) == seq![before + seq![c] + behind] by {
        let word = before + seq![c] + behind;
        assert forall|i: int| 0 <= i < word.len() implies is_plain_char(#[trigger] word[i]) by {
            if i < before.len() {
                assert(word[i] == before[i]);
            } else if i > before.len() {
                assert(word[i] == behind[i - before.len() - 1]);
            }
        }
        lemma_lexed_plain(word, Seq::empty());
        assert(Seq::<char>::empty() + word =~= word);
    }
    assert forall|before: Seq<char>, behind: Seq<char>|
        is_plain(before) && is_plain(behind) implies tokens(
        #[trigger] (before + seq![' '] + behind),
    ) == seq![before, behind] by {
        lemma_lexed_plain(before, Seq::empty());
        lemma_lexed_plain(behind, Seq::empty());
        assert(Seq::<char>::empty() + before =~= before);
        assert(Seq::<char>::empty() + behind =~= behind);
        law_space_separates(before, behind);
        assert(seq![before] + seq![behind] =~= seq![before, behind]);
    }
}

} // verus!
