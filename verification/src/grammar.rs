//! What the words of a line add up to.
use vstd::prelude::*;

use crate::command;
use crate::command::{ChainOp, CommandView, CompleteView, DeclareView, SegmentView};
use crate::completion;
use crate::dispatch;
use crate::dispatch::ActionView;
use crate::expand;
use crate::lookup::Answer;
use crate::numbers;
use crate::output;
use crate::output::{OutputView, SinkView};
use crate::parse;
use crate::parse::{LineView, ParseView};
use crate::shell::ShellView;
use crate::text;
use crate::tokens;

verus! {

/// The lists one behind the other, with a word `sep` between each two.
pub open spec fn rejoined(lists: Seq<Seq<Seq<char>>>, sep: Seq<char>) -> Seq<Seq<char>>
    decreases lists.len(),
{
    if lists.len() == 0 {
        Seq::empty()
    } else if lists.len() == 1 {
        lists[0]
    } else {
        lists[0].push(sep) + rejoined(lists.skip(1), sep)
    }
}

/// The parts between separators are all that there is between them: put together again they
/// give the words, and no part holds the separator. There is one part more than separators,
/// so at least two where there is one.
pub proof fn law_split_is_undone(words: Seq<Seq<char>>, sep: Seq<char>)
    ensures
        rejoined(parse::split(words, sep), sep) == words,
        forall|i: int|
            0 <= i < parse::split(words, sep).len() ==> !(#[trigger] parse::split(
                words,
                sep,
            )[i]).contains(sep),
        words.contains(sep) <==> parse::split(words, sep).len() >= 2,
        parse::split(words, sep).len() >= 1,
    decreases words.len(),
{
    let k = text::find(words, sep);
    text::lemma_find(words, sep);
    let parts = parse::split(words, sep);
    if k < words.len() {
        let first = words.take(k as int);
        let rest = words.skip(k as int + 1);
        law_split_is_undone(rest, sep);
        let later = parse::split(rest, sep);
        assert(parts == seq![first] + later);
        assert(parts.skip(1) =~= later);
        assert(first.push(sep) + rest =~= words);
        assert(words[k as int] == sep);
        assert forall|i: int| 0 <= i < parts.len() implies !(#[trigger] parts[i]).contains(
            sep,
        ) by {
            if i > 0 {
                assert(parts[i] == later[i - 1]);
            }
        }
    } else {
        assert(parts == seq![words]);
    }
}

/// The word of an operator, where there is one.
pub open spec fn operator_word(op: ChainOp) -> Seq<Seq<char>> {
    match op {
        ChainOp::And => seq!["&&"@],
        ChainOp::Or => seq!["||"@],
        ChainOp::End => Seq::empty(),
    }
}

/// The words of a chain's parts and operators, one behind the other.
pub open spec fn unchained(segments: Seq<SegmentView>) -> Seq<Seq<char>>
    decreases segments.len(),
{
    if segments.len() == 0 {
        Seq::empty()
    } else {
        segments[0].tokens + operator_word(segments[0].operator) + unchained(segments.skip(1))
    }
}

proof fn lemma_first_chain_word(words: Seq<Seq<char>>)
    ensures
        parse::first_chain_word(words) <= words.len(),
        parse::first_chain_word(words) < words.len() ==> parse::is_chain_word(
            words[parse::first_chain_word(words) as int],
        ),
        forall|i: int|
            0 <= i < parse::first_chain_word(words) ==> !parse::is_chain_word(#[trigger] words[i]),
    decreases words.len(),
{
    if words.len() > 0 && !parse::is_chain_word(words[0]) {
        let rest = words.skip(1);
        lemma_first_chain_word(rest);
        let k = parse::first_chain_word(rest);
        assert forall|i: int| 0 <= i < 1 + k implies !parse::is_chain_word(#[trigger] words[i]) by {
            if i > 0 {
                assert(words[i] == rest[i - 1]);
            }
        }
    }
}

/// The parts of a chain and the operators behind them give the words again, no part holds an
/// operator, and only the last part can have none behind it.
pub proof fn law_chain_is_undone(words: Seq<Seq<char>>)
    ensures
        unchained(parse::chained(words)) == words,
        forall|i: int, j: int|
            0 <= i < parse::chained(words).len() && 0 <= j < parse::chained(words)[i].tokens.len()
                ==> !parse::is_chain_word(#[trigger] parse::chained(words)[i].tokens[j]),
        forall|i: int|
            0 <= i < parse::chained(words).len() - 1 ==> (#[trigger] parse::chained(
                words,
            )[i]).operator != ChainOp::End,
    decreases words.len(),
{
    let k = parse::first_chain_word(words);
    lemma_first_chain_word(words);
    let segments = parse::chained(words);
    if k < words.len() {
        let op = parse::chain_op(words[k as int]);
        let rest = words.skip(k as int + 1);
        law_chain_is_undone(rest);
        let later = parse::chained(rest);
        assert(segments.skip(1) =~= later);
        assert(operator_word(op) =~= seq![words[k as int]]);
        assert(words.take(k as int) + seq![words[k as int]] + rest =~= words);
        assert forall|i: int, j: int|
            0 <= i < segments.len() && 0 <= j
                < segments[i].tokens.len() implies !parse::is_chain_word(
            #[trigger] segments[i].tokens[j],
        ) by {
            if i > 0 {
                assert(segments[i] == later[i - 1]);
            } else {
                assert(segments[i].tokens[j] == words[j]);
            }
        }
        assert forall|i: int| 0 <= i < segments.len() - 1 implies (
        #[trigger] segments[i]).operator != ChainOp::End by {
            if i > 0 {
                assert(segments[i] == later[i - 1]);
            }
        }
    } else if words.len() > 0 {
        assert(segments.skip(1) =~= Seq::empty());
        assert(unchained(segments.skip(1)) =~= Seq::empty());
        assert(words + Seq::<Seq<char>>::empty() + Seq::<Seq<char>>::empty() =~= words);
    }
}

proof fn lemma_pipe_commands(
    depth: nat,
    parts: Seq<Seq<Seq<char>>>,
    done: Seq<CommandView>,
    background: bool,
    vars: Map<Seq<char>, Seq<char>>,
    paths: Map<Seq<char>, Answer>,
)
    requires
        forall|i: int| 0 <= i < done.len() ==> !parse::refused_in_pipe(#[trigger] done[i]),
    ensures
        match parse::understood_parts(depth, parts, done, background, vars, paths) {
            ParseView::Done(CommandView::PipeCommand { commands, background: b }) => {
                &&& commands.len() == done.len() + parts.len()
                &&& b == background
                &&& forall|i: int|
                    0 <= i < commands.len() ==> !parse::refused_in_pipe(#[trigger] commands[i])
            },
            ParseView::Done(command) => command is CommandNotFound,
            _ => true,
        },
    decreases parts.len(),
{
    if parts.len() > 0 {
        match parse::understood(depth, text::joined(parts[0], " "@), vars, paths) {
            ParseView::Done(command) => {
                if !parse::refused_in_pipe(command) {
                    lemma_pipe_commands(
                        depth,
                        parts.skip(1),
                        done.push(command),
                        background,
                        vars,
                        paths,
                    );
                }
            },
            _ => {},
        }
    }
}

/// A line that stands for a pipe has at least two commands in it, one for each part between
/// the pipe signs, and none of them is `exit`, is empty or was not found.
pub proof fn law_pipe_has_commands(
    depth: nat,
    input: Seq<char>,
    vars: Map<Seq<char>, Seq<char>>,
    paths: Map<Seq<char>, Answer>,
)
    ensures
        parse::understood(depth, input, vars, paths) matches ParseView::Done(
            CommandView::PipeCommand { commands, background },
        ) ==> {
            &&& commands.len() == parse::split(parse::line_parts(input, vars), "|"@).len()
            &&& commands.len() >= 2
            &&& background == parse::in_background(parse::line_of(input, vars).words)
            &&& forall|i: int|
                0 <= i < commands.len() ==> !parse::refused_in_pipe(#[trigger] commands[i])
        },
{
    let line = parse::line_of(input, vars);
    let words = parse::line_parts(input, vars);
    law_split_is_undone(words, "|"@);
    if !text::is_blank(input) && words.contains("|"@) && depth > 0 {
        if let Some(parts) = parse::pipe_parts(words) {
            lemma_pipe_commands(
                (depth - 1) as nat,
                parts,
                Seq::empty(),
                parse::in_background(line.words),
                vars,
                paths,
            );
        }
    }
}

proof fn lemma_not_redirected(words: Seq<Seq<char>>, rest: Seq<Seq<char>>, line: LineView)
    requires
        forall|i: int| 0 <= i < words.len() ==> !parse::is_redirection(#[trigger] words[i]),
    ensures
        parse::redirected(words + rest, line) == parse::redirected(
            rest,
            LineView { words: line.words + words, ..line },
        ),
    decreases words.len(),
{
    let whole = words + rest;
    if words.len() == 0 {
        assert(whole =~= rest);
        assert(line.words + words =~= line.words);
    } else {
        let later = words.skip(1);
        assert(!parse::is_redirection(words[0]));
        assert(whole[0] == words[0]);
        assert forall|i: int| 0 <= i < later.len() implies !parse::is_redirection(
            #[trigger] later[i],
        ) by {
            assert(later[i] == words[i + 1]);
        }
        assert(whole.skip(1) =~= later + rest);
        let next = LineView { words: line.words.push(words[0]), ..line };
        lemma_not_redirected(later, rest, next);
        assert(next.words + later =~= line.words + words);
    }
}

/// Words none of which redirects output are all words of the command.
pub proof fn law_words_stay(words: Seq<Seq<char>>)
    requires
        forall|i: int| 0 <= i < words.len() ==> !parse::is_redirection(#[trigger] words[i]),
    ensures
        parse::redirected(words, parse::empty_line()) == (LineView {
            words,
            ..parse::empty_line()
        }),
{
    lemma_not_redirected(words, Seq::empty(), parse::empty_line());
    assert(words + Seq::<Seq<char>>::empty() =~= words);
    assert(parse::empty_line().words + words =~= words);
}

/// An operator and the word behind it are no words of the command: they name the file that the
/// stream goes to, and whether it appends. An operator with nothing behind it is a word.
pub proof fn law_redirection(words: Seq<Seq<char>>, operator: Seq<char>, file: Seq<char>)
    requires
        forall|i: int| 0 <= i < words.len() ==> !parse::is_redirection(#[trigger] words[i]),
        parse::is_redirection(operator),
    ensures
        parse::redirected(words.push(operator).push(file), parse::empty_line()) == (if operator
            == "2>"@ || operator == "2>>"@ {
            LineView {
                words,
                stderr_file: Some(file),
                stderr_append: operator == "2>>"@,
                ..parse::empty_line()
            }
        } else {
            LineView {
                words,
                stdout_file: Some(file),
                stdout_append: operator == ">>"@,
                ..parse::empty_line()
            }
        }),
        parse::redirected(words.push(operator), parse::empty_line()) == (LineView {
            words: words.push(operator),
            ..parse::empty_line()
        }),
{
    let none = parse::empty_line();
    let pair = seq![operator, file];
    let alone = seq![operator];
    lemma_not_redirected(words, pair, none);
    lemma_not_redirected(words, alone, none);
    assert(words + pair =~= words.push(operator).push(file));
    assert(words + alone =~= words.push(operator));
    assert(none.words + words =~= words);
    let line = LineView { words, ..none };
    assert(pair.skip(2) =~= Seq::empty());
    assert(alone.skip(1) =~= Seq::empty());
    reveal_strlit(">>");
    reveal_strlit("2>>");
    reveal_strlit(">");
    reveal_strlit("1>");
    reveal_strlit("2>");
    assert(">>"@.len() == 2 && "2>>"@.len() == 3 && ">"@.len() == 1);
    assert("1>"@[0] == '1' && "2>"@[0] == '2' && ">>"@[0] == '>');
    reveal_with_fuel(parse::redirected, 2);
}

/// Whether a word stands for itself in a line: it holds no blank, no quote, no backslash and no
/// `$`.
pub open spec fn is_literal(word: Seq<char>) -> bool {
    &&& tokens::is_plain(word)
    &&& !word.contains('$')
    &&& forall|i: int| 0 <= i < word.len() ==> !text::is_white(#[trigger] word[i])
}

/// Whether a word has a meaning of its own once variables have been expanded.
pub open spec fn is_sign(word: Seq<char>) -> bool {
    word == "|"@ || word == "&&"@ || word == "||"@ || word == "&"@
}

/// Whether a word is nothing but a word of a command.
pub open spec fn is_ordinary(word: Seq<char>) -> bool {
    is_literal(word) && !is_sign(word) && !parse::is_redirection(word)
}

proof fn lemma_joined_ends(words: Seq<Seq<char>>)
    requires
        words.len() > 0,
        words[0].len() > 0,
        words.last().len() > 0,
    ensures
        text::joined(words, " "@).len() > 0,
        text::joined(words, " "@)[0] == words[0][0],
        text::joined(words, " "@).last() == words.last().last(),
{
    lemma_joined_last(words);
    if words.len() > 1 {
        assert(text::joined(words, " "@) == words[0] + " "@ + text::joined(words.skip(1), " "@));
    }
}

proof fn lemma_joined_last(words: Seq<Seq<char>>)
    requires
        words.len() > 0,
        words.last().len() > 0,
    ensures
        text::joined(words, " "@).len() > 0,
        text::joined(words, " "@).last() == words.last().last(),
    decreases words.len(),
{
    if words.len() > 1 {
        let rest = words.skip(1);
        assert(rest.last() == words.last());
        lemma_joined_last(rest);
        assert(text::joined(words, " "@) == words[0] + " "@ + text::joined(rest, " "@));
    }
}

/// Words that hold no blank, no quote and no backslash are read as they are.
proof fn lemma_line_words(words: Seq<Seq<char>>)
    requires
        words.len() > 0,
        forall|i: int| 0 <= i < words.len() ==> tokens::is_plain(#[trigger] words[i]),
        !text::is_white(words[0][0]),
        !text::is_white(words.last().last()),
    ensures
        !text::is_blank(text::joined(words, " "@)),
        tokens::tokens(text::trimmed(text::joined(words, " "@))) == words,
{
    let line = text::joined(words, " "@);
    assert(tokens::is_plain(words[0]));
    assert(tokens::is_plain(words[words.len() - 1]));
    lemma_joined_ends(words);
    assert(text::trimmed_start(line) == line);
    assert(text::trimmed_end(line) == line);
    tokens::law_plain_words_are_read_back(words);
}

proof fn lemma_literals_stay(words: Seq<Seq<char>>, vars: Map<Seq<char>, Seq<char>>)
    requires
        forall|i: int| 0 <= i < words.len() ==> is_literal(#[trigger] words[i]),
    ensures
        parse::expanded_words(words, vars) == words,
{
    let after = parse::expanded_words(words, vars);
    assert forall|i: int| 0 <= i < words.len() implies after[i] == words[i] by {
        assert(is_literal(words[i]));
        expand::law_no_reference(words[i], vars);
    }
    assert(after =~= words);
}

/// A line with no sign in it stands for the command that its words are.
proof fn lemma_signless(
    depth: nat,
    input: Seq<char>,
    words: Seq<Seq<char>>,
    vars: Map<Seq<char>, Seq<char>>,
    paths: Map<Seq<char>, Answer>,
)
    requires
        words.len() > 0,
        forall|i: int|
            0 <= i < parse::line_parts(input, vars).len() ==> !is_sign(
                #[trigger] parse::line_parts(input, vars)[i],
            ),
        !text::is_blank(input),
        parse::foreground_words(parse::line_of(input, vars).words) == words,
    ensures
        parse::understood(depth, input, vars, paths) == parse::simple(
            words,
            parse::line_of(input, vars),
            parse::in_background(parse::line_of(input, vars).words),
            paths,
        ),
{
    let parts = parse::line_parts(input, vars);
    assert(!parts.contains("|"@) && !parts.contains("&&"@) && !parts.contains("||"@)) by {
        if parts.contains("|"@) {
            let i = choose|i: int| 0 <= i < parts.len() && parts[i] == "|"@;
            assert(is_sign(parts[i]));
        }
        if parts.contains("&&"@) {
            let i = choose|i: int| 0 <= i < parts.len() && parts[i] == "&&"@;
            assert(is_sign(parts[i]));
        }
        if parts.contains("||"@) {
            let i = choose|i: int| 0 <= i < parts.len() && parts[i] == "||"@;
            assert(is_sign(parts[i]));
        }
    }
}

proof fn lemma_kept_words(
    words: Seq<Seq<char>>,
    rest: Seq<Seq<char>>,
    vars: Map<Seq<char>, Seq<char>>,
)
    requires
        forall|i: int| 0 <= i < words.len() ==> !parse::is_redirection(#[trigger] words[i]),
    ensures
        parse::kept(words + rest, vars) == parse::expanded_words(words, vars) + parse::kept(
            rest,
            vars,
        ),
    decreases words.len(),
{
    let whole = words + rest;
    let after = parse::expanded_words(words, vars);
    if words.len() == 0 {
        assert(whole =~= rest);
        assert(after + parse::kept(rest, vars) =~= parse::kept(rest, vars));
    } else {
        let later = words.skip(1);
        assert(!parse::is_redirection(words[0]));
        assert(whole[0] == words[0]);
        assert forall|i: int| 0 <= i < later.len() implies !parse::is_redirection(
            #[trigger] later[i],
        ) by {
            assert(later[i] == words[i + 1]);
        }
        assert(whole.skip(1) =~= later + rest);
        lemma_kept_words(later, rest, vars);
        let word = seq![expand::expanded(words[0], vars)];
        assert(after =~= word + parse::expanded_words(later, vars));
        assert(word + (parse::expanded_words(later, vars) + parse::kept(rest, vars)) =~= after
            + parse::kept(rest, vars));
    }
}

/// Words none of which redirects output are kept, with their variables expanded.
proof fn lemma_all_kept(words: Seq<Seq<char>>, vars: Map<Seq<char>, Seq<char>>)
    requires
        forall|i: int| 0 <= i < words.len() ==> !parse::is_redirection(#[trigger] words[i]),
    ensures
        parse::kept(words, vars) == parse::expanded_words(words, vars),
{
    let none = Seq::<Seq<char>>::empty();
    lemma_kept_words(words, none, vars);
    assert(words + none =~= words);
    assert(parse::expanded_words(words, vars) + parse::kept(none, vars) =~= parse::expanded_words(
        words,
        vars,
    ));
}

/// A redirection behind words none of which redirects output is kept as one word.
proof fn lemma_kept_redirection(
    words: Seq<Seq<char>>,
    operator: Seq<char>,
    file: Seq<char>,
    vars: Map<Seq<char>, Seq<char>>,
)
    requires
        forall|i: int| 0 <= i < words.len() ==> !parse::is_redirection(#[trigger] words[i]),
        parse::is_redirection(operator),
    ensures
        parse::kept(words.push(operator).push(file), vars) == parse::expanded_words(
            words,
            vars,
        ).push(operator + " "@ + parse::quoted(file)),
{
    let pair = seq![operator, file];
    let whole = operator + " "@ + parse::quoted(file);
    lemma_kept_words(words, pair, vars);
    assert(words + pair =~= words.push(operator).push(file));
    assert(pair.skip(2) =~= Seq::empty());
    assert(parse::kept(pair.skip(2), vars) =~= Seq::empty());
    assert(parse::kept(pair, vars) =~= seq![whole]);
}

/// Where redirections follow the last word that is none, that word is found among the kept ones.
proof fn lemma_last_word(words: Seq<Seq<char>>, last: Seq<char>, rest: Seq<Seq<char>>)
    requires
        forall|i: int| 0 <= i < words.len() ==> !parse::is_redirection(#[trigger] words[i]),
        !parse::is_redirection(last),
        parse::last_kept_word(rest) is None,
    ensures
        parse::last_kept_word(words.push(last) + rest) == Some(words.len()),
    decreases words.len(),
{
    let whole = words.push(last) + rest;
    if words.len() == 0 {
        assert(whole[0] == last);
        assert(whole.skip(1) =~= rest);
    } else {
        let later = words.skip(1);
        assert(!parse::is_redirection(words[0]));
        assert(whole[0] == words[0]);
        assert forall|i: int| 0 <= i < later.len() implies !parse::is_redirection(
            #[trigger] later[i],
        ) by {
            assert(later[i] == words[i + 1]);
        }
        assert(whole.skip(1) =~= later.push(last) + rest);
        lemma_last_word(later, last, rest);
    }
}

/// A redirection as one word is no sign.
proof fn lemma_redirection_is_no_sign(operator: Seq<char>, file: Seq<char>)
    requires
        parse::is_redirection(operator),
    ensures
        !is_sign(operator + " "@ + parse::quoted(file)),
{
    let whole = operator + " "@ + parse::quoted(file);
    reveal_strlit(" ");
    reveal_strlit(">>");
    reveal_strlit("2>>");
    reveal_strlit(">");
    reveal_strlit("1>");
    reveal_strlit("2>");
    reveal_strlit("|");
    reveal_strlit("&&");
    reveal_strlit("||");
    reveal_strlit("&");
    assert(whole[0] == operator[0]);
    assert("|"@[0] == '|' && "&&"@[0] == '&' && "||"@[0] == '|' && "&"@[0] == '&');
}

/// A line of ordinary words stands for the command that these words are, whatever the
/// variables.
pub proof fn law_ordinary_line(
    depth: nat,
    words: Seq<Seq<char>>,
    vars: Map<Seq<char>, Seq<char>>,
    paths: Map<Seq<char>, Answer>,
)
    requires
        words.len() > 0,
        forall|i: int| 0 <= i < words.len() ==> is_ordinary(#[trigger] words[i]),
    ensures
        parse::understood(depth, text::joined(words, " "@), vars, paths) == parse::simple(
            words,
            parse::empty_line(),
            false,
            paths,
        ),
{
    let input = text::joined(words, " "@);
    assert(is_ordinary(words[0]) && is_ordinary(words[words.len() - 1]));
    assert forall|i: int| 0 <= i < words.len() implies tokens::is_plain(#[trigger] words[i]) by {
        assert(is_ordinary(words[i]));
    }
    assert forall|i: int| 0 <= i < words.len() implies is_literal(#[trigger] words[i]) by {
        assert(is_ordinary(words[i]));
    }
    assert forall|i: int| 0 <= i < words.len() implies !parse::is_redirection(#[trigger] words[i]) by {
        assert(is_ordinary(words[i]));
    }
    assert forall|i: int| 0 <= i < words.len() implies !is_sign(#[trigger] words[i]) by {
        assert(is_ordinary(words[i]));
    }
    lemma_line_words(words);
    law_words_stay(words);
    lemma_all_kept(words, vars);
    lemma_literals_stay(words, vars);
    lemma_signless(depth, input, words, vars, paths);
}

/// A line of ordinary words with a `&` behind them stands for the same command in the
/// background.
pub proof fn law_background_line(
    depth: nat,
    words: Seq<Seq<char>>,
    vars: Map<Seq<char>, Seq<char>>,
    paths: Map<Seq<char>, Answer>,
)
    requires
        words.len() > 0,
        forall|i: int| 0 <= i < words.len() ==> is_ordinary(#[trigger] words[i]),
    ensures
        parse::understood(depth, text::joined(words.push("&"@), " "@), vars, paths)
            == parse::simple(words, parse::empty_line(), true, paths),
{
    let all = words.push("&"@);
    let input = text::joined(all, " "@);
    assert(is_ordinary(words[0]));
    reveal_strlit("&");
    reveal_strlit(">>");
    reveal_strlit("2>>");
    reveal_strlit(">");
    reveal_strlit("1>");
    reveal_strlit("2>");
    assert("&"@.len() == 1 && "&"@[0] == '&' && ">"@[0] == '>');
    assert(">>"@.len() == 2 && "2>>"@.len() == 3 && "1>"@.len() == 2 && "2>"@.len() == 2);
    assert(is_literal("&"@));
    assert forall|i: int| 0 <= i < all.len() implies tokens::is_plain(#[trigger] all[i]) by {
        if i < words.len() {
            assert(is_ordinary(words[i]));
        }
    }
    assert forall|i: int| 0 <= i < all.len() implies is_literal(#[trigger] all[i]) by {
        if i < words.len() {
            assert(is_ordinary(words[i]));
        }
    }
    assert forall|i: int| 0 <= i < all.len() implies !parse::is_redirection(#[trigger] all[i]) by {
        if i < words.len() {
            assert(is_ordinary(words[i]));
        }
    }
    assert forall|i: int| 0 <= i < words.len() implies !is_sign(#[trigger] words[i]) by {
        assert(is_ordinary(words[i]));
    }
    lemma_line_words(all);
    law_words_stay(all);
    lemma_all_kept(all, vars);
    lemma_last_word(words, "&"@, Seq::empty());
    assert(words.push("&"@) + Seq::<Seq<char>>::empty() =~= all);
    assert(all.remove(words.len() as int) =~= words);
    lemma_literals_stay(all, vars);
    assert(all.drop_last() =~= words);
    lemma_signless(depth, input, words, vars, paths);
}

/// A line of ordinary words with an operator and the name of a file behind them stands for
/// the same command with its output, or its errors, in that file.
pub proof fn law_redirected_line(
    depth: nat,
    words: Seq<Seq<char>>,
    operator: Seq<char>,
    file: Seq<char>,
    vars: Map<Seq<char>, Seq<char>>,
    paths: Map<Seq<char>, Answer>,
)
    requires
        words.len() > 0,
        forall|i: int| 0 <= i < words.len() ==> is_ordinary(#[trigger] words[i]),
        parse::is_redirection(operator),
        is_literal(file),
    ensures
        parse::understood(
            depth,
            text::joined(words.push(operator).push(file), " "@),
            vars,
            paths,
        ) == parse::simple(
            words,
            parse::redirected(seq![operator, file], parse::empty_line()),
            false,
            paths,
        ),
{
    let all = words.push(operator).push(file);
    let input = text::joined(all, " "@);
    let none = Seq::<Seq<char>>::empty();
    assert(is_ordinary(words[0]));
    assert(tokens::is_plain(operator)) by {
        reveal_strlit(">>");
        reveal_strlit("2>>");
        reveal_strlit(">");
        reveal_strlit("1>");
        reveal_strlit("2>");
    }
    assert forall|i: int| 0 <= i < all.len() implies tokens::is_plain(#[trigger] all[i]) by {
        if i < words.len() {
            assert(is_ordinary(words[i]));
        }
    }
    assert forall|i: int| 0 <= i < words.len() implies is_literal(#[trigger] words[i]) by {
        assert(is_ordinary(words[i]));
    }
    assert forall|i: int| 0 <= i < words.len() implies !parse::is_redirection(#[trigger] words[i]) by {
        assert(is_ordinary(words[i]));
    }
    assert forall|i: int| 0 <= i < words.len() implies !is_sign(#[trigger] words[i]) by {
        assert(is_ordinary(words[i]));
    }
    lemma_line_words(all);
    law_redirection(words, operator, file);
    law_redirection(none, operator, file);
    assert(none.push(operator).push(file) =~= seq![operator, file]);
    lemma_literals_stay(words, vars);
    assert(is_ordinary(words[words.len() - 1]));
    let whole = operator + " "@ + parse::quoted(file);
    let parts = words.push(whole);
    lemma_kept_redirection(words, operator, file, vars);
    lemma_redirection_is_no_sign(operator, file);
    assert(parts.last() == whole);
    assert forall|i: int| 0 <= i < parts.len() implies !is_sign(#[trigger] parts[i]) by {
        if i < words.len() {
            assert(!is_sign(words[i]));
        }
    }
    assert(parse::line_parts(input, vars) == parts);
    lemma_signless(depth, input, words, vars, paths);
}

/// `declare NAME=VALUE` asks for the variable to be given the value, and `echo $NAME` after it
/// prints the value.
pub proof fn law_declared_value_is_echoed(
    depth: nat,
    name: Seq<char>,
    value: Seq<char>,
    vars: Map<Seq<char>, Seq<char>>,
    paths: Map<Seq<char>, Answer>,
)
    requires
        expand::is_identifier(name),
        value.len() == 0 || is_literal(value),
        !is_sign(value),
    ensures
        parse::understood(depth, "declare "@ + name + seq!['='] + value, vars, paths)
            == ParseView::Done(
            CommandView::DeclareCommand {
                subcommand: DeclareView::Assign { name, value },
                stdout_file: None,
                stdout_append: false,
                stderr_file: None,
                stderr_append: false,
            },
        ),
        parse::understood(depth, "echo $"@ + name, vars.insert(name, value), paths)
            == ParseView::Done(
            CommandView::EchoCommand {
                display_string: command::plain_exec(value, None, Seq::empty()),
            },
        ),
{
    lemma_declaration_is_read(depth, name, value, vars, paths);
    lemma_reference_is_read(depth, name, value, vars, paths);
}

proof fn lemma_identifier_is_literal(name: Seq<char>)
    requires
        expand::is_identifier(name),
    ensures
        is_literal(name),
        !name.contains('='),
        name[0] != '-',
{
    assert forall|i: int| 0 <= i < name.len() implies expand::is_name_char(
        #[trigger] name[i],
    ) by {}
    assert(forall|c: char| #[trigger]
        expand::is_name_char(c) ==> tokens::is_plain_char(c) && !text::is_white(c) && c != '$' && c
            != '=' && c != '-');
    assert(expand::is_name_char(name[0]));
}

proof fn lemma_declaration_is_read(
    depth: nat,
    name: Seq<char>,
    value: Seq<char>,
    vars: Map<Seq<char>, Seq<char>>,
    paths: Map<Seq<char>, Answer>,
)
    requires
        expand::is_identifier(name),
        value.len() == 0 || is_literal(value),
    ensures
        parse::understood(depth, "declare "@ + name + seq!['='] + value, vars, paths)
            == ParseView::Done(
            CommandView::DeclareCommand {
                subcommand: DeclareView::Assign { name, value },
                stdout_file: None,
                stdout_append: false,
                stderr_file: None,
                stderr_append: false,
            },
        ),
{
    let word = name + seq!['='] + value;
    let words = seq!["declare"@, word];
    lemma_identifier_is_literal(name);
    lemma_no_sign_has_equals(word, name.len() as int);
    assert(is_literal(word)) by {
        assert forall|i: int| 0 <= i < word.len() implies tokens::is_plain_char(#[trigger] word[i])
            && !text::is_white(word[i]) && word[i] != '$' by {
            if i < name.len() {
                assert(word[i] == name[i]);
            } else if i > name.len() {
                assert(word[i] == value[i - name.len() - 1]);
            }
        }
    }
    lemma_names_are_ordinary();
    assert forall|i: int| 0 <= i < words.len() implies is_ordinary(#[trigger] words[i]) by {}
    law_ordinary_line(depth, words, vars, paths);
    lemma_two_words("declare"@, word);
    reveal_strlit("declare ");
    reveal_strlit("declare");
    reveal_strlit(" ");
    assert("declare "@ =~= "declare"@ + " "@);
    assert("declare "@ + name + seq!['='] + value =~= "declare"@ + " "@ + word);
    let args = text::joined(words.skip(1), " "@);
    assert(words.skip(1) =~= seq![word]);
    tokens::law_plain_words_are_read_back(seq![word]);
    assert(tokens::tokens(args) == seq![word]);
    text::lemma_find_is(word, '=', name.len() as int);
    assert(word.take(name.len() as int) =~= name);
    assert(word.skip(name.len() as int + 1) =~= value);
    assert(word[0] == name[0]);
    lemma_names_differ();
}

/// `echo` with one word prints what the word is expanded to.
proof fn lemma_echoed_word(
    depth: nat,
    word: Seq<char>,
    said: Seq<char>,
    vars: Map<Seq<char>, Seq<char>>,
    paths: Map<Seq<char>, Answer>,
)
    requires
        tokens::is_plain(word),
        !text::is_white(word.last()),
        word.contains('$'),
        expand::expanded(word, vars) == said,
        !is_sign(said),
    ensures
        parse::understood(depth, "echo"@ + " "@ + word, vars, paths) == ParseView::Done(
            CommandView::EchoCommand {
                display_string: command::plain_exec(said, None, Seq::empty()),
            },
        ),
{
    let input = "echo"@ + " "@ + word;
    let words = seq!["echo"@, word];
    let read = seq!["echo"@, said];
    lemma_names_are_ordinary();
    lemma_two_words("echo"@, word);
    assert forall|i: int| 0 <= i < words.len() implies tokens::is_plain(#[trigger] words[i]) by {}
    assert(!text::is_white(words[0][0])) by {
        assert(is_ordinary("echo"@));
    }
    lemma_line_words(words);
    lemma_no_redirection_has_dollar(word);
    assert forall|i: int| 0 <= i < words.len() implies !parse::is_redirection(#[trigger] words[i]) by {}
    law_words_stay(words);
    lemma_all_kept(words, vars);
    expand::law_no_reference("echo"@, vars);
    assert(parse::expanded_words(words, vars) =~= read);
    assert forall|i: int| 0 <= i < read.len() implies !is_sign(#[trigger] read[i]) by {}
    lemma_signless(depth, input, read, vars, paths);
    assert(read.skip(1) =~= seq![said]);
    assert(text::joined(read.skip(1), " "@) == said);
    lemma_names_differ();
}

proof fn lemma_no_redirection_has_dollar(word: Seq<char>)
    requires
        word.contains('$'),
    ensures
        !parse::is_redirection(word),
{
    let at = choose|i: int| 0 <= i < word.len() && word[i] == '$';
    assert(word[at] == '$');
    reveal_strlit(">>");
    reveal_strlit("2>>");
    reveal_strlit(">");
    reveal_strlit("1>");
    reveal_strlit("2>");
}

proof fn lemma_reference_is_read(
    depth: nat,
    name: Seq<char>,
    value: Seq<char>,
    vars: Map<Seq<char>, Seq<char>>,
    paths: Map<Seq<char>, Answer>,
)
    requires
        expand::is_identifier(name),
        !is_sign(value),
    ensures
        parse::understood(depth, "echo $"@ + name, vars.insert(name, value), paths)
            == ParseView::Done(
            CommandView::EchoCommand {
                display_string: command::plain_exec(value, None, Seq::empty()),
            },
        ),
{
    let word = seq!['$'] + name;
    lemma_identifier_is_literal(name);
    assert(tokens::is_plain(word)) by {
        assert forall|i: int| 0 <= i < word.len() implies tokens::is_plain_char(
            #[trigger] word[i],
        ) by {
            if i > 0 {
                assert(word[i] == name[i - 1]);
            }
        }
    }
    assert(word[0] == '$');
    assert(word.last() == name.last());
    expand::law_assigned_value_is_expanded(vars, name, value);
    lemma_echoed_word(depth, word, value, vars.insert(name, value), paths);
    assert("echo $"@ + name =~= "echo"@ + " "@ + word) by {
        reveal_strlit("echo $");
        reveal_strlit("echo");
        reveal_strlit(" ");
    }
}

proof fn lemma_two_words(first: Seq<char>, second: Seq<char>)
    ensures
        text::joined(seq![first, second], " "@) == first + " "@ + second,
{
    let words = seq![first, second];
    assert(words.skip(1) =~= seq![second]);
    assert(text::joined(words.skip(1), " "@) == second);
}

proof fn lemma_no_sign_has_equals(word: Seq<char>, at: int)
    requires
        0 <= at < word.len(),
        word[at] == '=',
    ensures
        !is_sign(word),
        !parse::is_redirection(word),
{
    reveal_strlit("|");
    reveal_strlit("&&");
    reveal_strlit("||");
    reveal_strlit("&");
    reveal_strlit(">>");
    reveal_strlit("2>>");
    reveal_strlit(">");
    reveal_strlit("1>");
    reveal_strlit("2>");
}

proof fn lemma_names_are_ordinary()
    ensures
        is_ordinary("declare"@),
        is_ordinary("echo"@),
{
    reveal_strlit("declare");
    reveal_strlit("echo");
    reveal_strlit("|");
    reveal_strlit("&&");
    reveal_strlit("||");
    reveal_strlit("&");
    reveal_strlit(">>");
    reveal_strlit("2>>");
    reveal_strlit(">");
    reveal_strlit("1>");
    reveal_strlit("2>");
}

proof fn lemma_names_differ()
    ensures
        "declare"@ != "exit"@,
        "declare"@ != "echo"@,
        "declare"@ != "type"@,
        "declare"@ != "pwd"@,
        "declare"@ != "cd"@,
        "declare"@ != "complete"@,
        "declare"@ != "jobs"@,
        "declare"@ != "history"@,
        "echo"@ != "exit"@,
{
    reveal_strlit("declare");
    reveal_strlit("exit");
    reveal_strlit("echo");
    reveal_strlit("type");
    reveal_strlit("pwd");
    reveal_strlit("cd");
    reveal_strlit("complete");
    reveal_strlit("jobs");
    reveal_strlit("history");
    assert("declare"@.len() == 7 && "complete"@.len() == 8);
    assert("declare"@[0] == 'd' && "history"@[0] == 'h');
    assert("echo"@[1] == 'c' && "exit"@[1] == 'x');
}

/// A line of ordinary words whose first is no name that the shell answers itself runs the file
/// that this word stands for, with the other words as its arguments. The word has to be looked
/// up first, and there is no such command if it stands for no file.
pub proof fn law_program_line(
    depth: nat,
    words: Seq<Seq<char>>,
    vars: Map<Seq<char>, Seq<char>>,
    paths: Map<Seq<char>, Answer>,
)
    requires
        words.len() > 0,
        forall|i: int| 0 <= i < words.len() ==> is_ordinary(#[trigger] words[i]),
        !completion::builtin_names().contains(words[0]),
    ensures
        parse::understood(depth, text::joined(words, " "@), vars, paths) == (
        if !paths.contains_key(words[0]) {
            ParseView::Lookup(words[0])
        } else {
            match paths[words[0]] {
                Ok(path) => ParseView::Done(
                    CommandView::ExecCommand {
                        exec_name: command::plain_exec(words[0], Some(path), words.skip(1)),
                    },
                ),
                Err(_) => ParseView::Done(CommandView::CommandNotFound),
            }
        }),
{
    law_ordinary_line(depth, words, vars, paths);
    assert forall|i: int| 0 <= i < words.len() implies tokens::is_plain(#[trigger] words[i]) by {
        assert(is_ordinary(words[i]));
    }
    tokens::law_plain_words_are_read_back(words);
    let names = completion::builtin_names();
    assert(names[0] == "echo"@ && names[1] == "type"@ && names[2] == "exit"@);
    assert(names[3] == "pwd"@ && names[4] == "cd"@ && names[5] == "complete"@);
    assert(names[6] == "jobs"@ && names[7] == "history"@ && names[8] == "declare"@);
}

/// `echo` with ordinary words prints them with one space between each two.
pub proof fn law_echo_line(
    depth: nat,
    words: Seq<Seq<char>>,
    vars: Map<Seq<char>, Seq<char>>,
    paths: Map<Seq<char>, Answer>,
)
    requires
        forall|i: int| 0 <= i < words.len() ==> is_ordinary(#[trigger] words[i]),
    ensures
        parse::understood(depth, text::joined(seq!["echo"@] + words, " "@), vars, paths)
            == ParseView::Done(
            CommandView::EchoCommand {
                display_string: command::plain_exec(
                    text::joined(words, " "@),
                    None,
                    Seq::empty(),
                ),
            },
        ),
{
    let all = seq!["echo"@] + words;
    lemma_names_are_ordinary();
    assert forall|i: int| 0 <= i < all.len() implies is_ordinary(#[trigger] all[i]) by {
        if i > 0 {
            assert(all[i] == words[i - 1]);
        }
    }
    law_ordinary_line(depth, all, vars, paths);
    assert(all.skip(1) =~= words);
    lemma_names_differ();
}

/// A pipe with nothing on one side of a pipe sign, or with `&&` or `||` in it, is no command.
pub proof fn law_pipe_holds_only_commands(
    depth: nat,
    input: Seq<char>,
    vars: Map<Seq<char>, Seq<char>>,
    paths: Map<Seq<char>, Answer>,
)
    requires
        !text::is_blank(input),
        ({
            let words = parse::line_parts(input, vars);
            &&& words.contains("|"@)
            &&& parse::has_chain(words) || parse::split(words, "|"@).contains(Seq::empty())
        }),
    ensures
        parse::understood(depth, input, vars, paths) == ParseView::Done(
            CommandView::CommandNotFound,
        ),
{
}

proof fn lemma_invalid_part(
    depth: nat,
    parts: Seq<Seq<Seq<char>>>,
    at: int,
    done: Seq<CommandView>,
    background: bool,
    vars: Map<Seq<char>, Seq<char>>,
    paths: Map<Seq<char>, Answer>,
)
    requires
        0 <= at < parts.len(),
        forall|i: int|
            0 <= i <= at ==> parse::understood(
                depth,
                text::joined(#[trigger] parts[i], " "@),
                vars,
                paths,
            ) is Done,
        parse::refused_in_pipe(
            parse::understood(depth, text::joined(parts[at], " "@), vars, paths)->Done_0,
        ),
    ensures
        parse::understood_parts(depth, parts, done, background, vars, paths) == ParseView::Done(
            CommandView::CommandNotFound,
        ),
    decreases at,
{
    let command = parse::understood(depth, text::joined(parts[0], " "@), vars, paths)->Done_0;
    assert(parse::understood(depth, text::joined(parts[0], " "@), vars, paths) is Done);
    if !parse::refused_in_pipe(command) {
        let rest = parts.skip(1);
        assert forall|i: int| 0 <= i <= at - 1 implies parse::understood(
            depth,
            text::joined(#[trigger] rest[i], " "@),
            vars,
            paths,
        ) is Done by {
            assert(rest[i] == parts[i + 1]);
        }
        lemma_invalid_part(depth, rest, at - 1, done.push(command), background, vars, paths);
    }
}

/// A pipe is no command if one of its parts is `exit`, is empty or is no command.
pub proof fn law_pipe_needs_every_part(
    depth: nat,
    input: Seq<char>,
    at: int,
    vars: Map<Seq<char>, Seq<char>>,
    paths: Map<Seq<char>, Answer>,
)
    requires
        !text::is_blank(input),
        ({
            let words = parse::line_parts(input, vars);
            let parts = parse::split(words, "|"@);
            &&& words.contains("|"@)
            &&& 0 <= at < parts.len()
            &&& forall|i: int|
                0 <= i <= at ==> parse::understood(
                    depth,
                    text::joined(#[trigger] parts[i], " "@),
                    vars,
                    paths,
                ) is Done
            &&& parse::refused_in_pipe(
                parse::understood(depth, text::joined(parts[at], " "@), vars, paths)->Done_0,
            )
        }),
    ensures
        parse::understood(depth + 1, input, vars, paths) == ParseView::Done(
            CommandView::CommandNotFound,
        ),
{
    let line = parse::line_of(input, vars);
    let words = parse::line_parts(input, vars);
    if let Some(parts) = parse::pipe_parts(words) {
        lemma_invalid_part(
            depth,
            parts,
            at,
            Seq::empty(),
            parse::in_background(line.words),
            vars,
            paths,
        );
    }
}

/// Whether a text can stand beside a reference in a word: it is empty or stands for itself.
pub open spec fn is_beside(s: Seq<char>) -> bool {
    s.len() == 0 || is_literal(s)
}

/// `echo` prints a word with `${NAME}` in it with the value of the variable in its place.
pub proof fn law_value_is_echoed_within_a_word(
    depth: nat,
    before: Seq<char>,
    name: Seq<char>,
    behind: Seq<char>,
    value: Seq<char>,
    vars: Map<Seq<char>, Seq<char>>,
    paths: Map<Seq<char>, Answer>,
)
    requires
        expand::is_identifier(name),
        is_beside(before),
        is_beside(behind),
        vars.contains_key(name),
        vars[name] == value,
        !is_sign(before + value + behind),
    ensures
        parse::understood(
            depth,
            "echo "@ + before + seq!['$', '{'] + name + seq!['}'] + behind,
            vars,
            paths,
        ) == ParseView::Done(
            CommandView::EchoCommand {
                display_string: command::plain_exec(
                    before + value + behind,
                    None,
                    Seq::empty(),
                ),
            },
        ),
{
    let word = before + (seq!['$', '{'] + name + seq!['}']) + behind;
    lemma_braced_word(before, name, behind);
    lemma_braced_expansion(before, name, behind, vars);
    lemma_echo_input(before, name, behind);
    lemma_echoed_word(depth, word, before + value + behind, vars, paths);
}

proof fn lemma_braced_expansion(
    before: Seq<char>,
    name: Seq<char>,
    behind: Seq<char>,
    vars: Map<Seq<char>, Seq<char>>,
)
    requires
        vars.contains_key(name),
        !name.contains('}'),
        !before.contains('$'),
        !behind.contains('$'),
    ensures
        expand::expanded(before + (seq!['$', '{'] + name + seq!['}']) + behind, vars) == before
            + vars[name] + behind,
{
    let reference = seq!['$', '{'] + name + seq!['}'];
    let word = before + reference + behind;
    expand::law_text_before_stays(before, reference + behind, vars);
    expand::law_braced_reference(name, behind, vars);
    expand::law_no_reference(behind, vars);
    assert(word =~= before + (reference + behind));
    assert(before + (vars[name] + behind) =~= before + vars[name] + behind);
}

proof fn lemma_echo_input(before: Seq<char>, name: Seq<char>, behind: Seq<char>)
    ensures
        "echo "@ + before + seq!['$', '{'] + name + seq!['}'] + behind == "echo"@ + " "@ + (before
            + (seq!['$', '{'] + name + seq!['}']) + behind),
{
    reveal_strlit("echo ");
    reveal_strlit("echo");
    reveal_strlit(" ");
    assert("echo "@ =~= "echo"@ + " "@);
    assert("echo "@ + before + seq!['$', '{'] + name + seq!['}'] + behind =~= "echo"@ + " "@ + (
    before + (seq!['$', '{'] + name + seq!['}']) + behind));
}

proof fn lemma_braced_word(before: Seq<char>, name: Seq<char>, behind: Seq<char>)
    requires
        expand::is_identifier(name),
        is_beside(before),
        is_beside(behind),
    ensures
        ({
            let word = before + (seq!['$', '{'] + name + seq!['}']) + behind;
            &&& tokens::is_plain(word)
            &&& !text::is_white(word.last())
            &&& word.contains('$')
        }),
        !name.contains('}'),
        !before.contains('$'),
        !behind.contains('$'),
{
    let reference = seq!['$', '{'] + name + seq!['}'];
    let word = before + reference + behind;
    lemma_identifier_is_literal(name);
    assert forall|i: int| 0 <= i < word.len() implies tokens::is_plain_char(#[trigger] word[i])
        && !text::is_white(word[i]) by {
        let j = i - before.len();
        if j < 0 {
            assert(word[i] == before[i]);
        } else if j < reference.len() {
            assert(word[i] == reference[j]);
            if 2 <= j < reference.len() - 1 {
                assert(reference[j] == name[j - 2]);
            }
        } else {
            assert(word[i] == behind[j - reference.len()]);
        }
    }
    assert(word[before.len() as int] == '$');
    assert(word.last() == word[word.len() - 1]);
    if name.contains('}') {
        let i = choose|i: int| 0 <= i < name.len() && name[i] == '}';
        assert(expand::is_name_char(name[i]));
    }
}

/// A variable that a line declares is printed by the line that echoes it: the two lines, read
/// and done one after the other, print the value on the terminal.
pub proof fn law_declare_and_echo(
    depth: nat,
    name: Seq<char>,
    value: Seq<char>,
    shell: ShellView,
    paths: Map<Seq<char>, Answer>,
    cwd: Seq<char>,
)
    requires
        expand::is_identifier(name),
        value.len() == 0 || is_literal(value),
        !is_sign(value),
    ensures
        ({
            let first = "declare "@ + name + seq!['='] + value;
            let second = "echo $"@ + name;
            let declared = parse::understood(depth, first, shell.shell_vars, paths);
            let after = dispatch::dispatched(shell, declared->Done_0, first, cwd).0;
            let echoed = parse::understood(depth, second, after.shell_vars, paths);
            &&& declared is Done
            &&& echoed is Done
            &&& dispatch::dispatched(after, echoed->Done_0, second, cwd).1 == ActionView::Emit(
                OutputView { text: value, sink: SinkView::Terminal },
            )
        }),
{
    law_declared_value_is_echoed(depth, name, value, shell.shell_vars, paths);
}

/// A redirection that is kept as one word is read again as the operator and the file, whatever
/// the name of the file.
pub proof fn law_kept_redirection_is_read_back(operator: Seq<char>, file: Seq<char>)
    requires
        parse::is_redirection(operator),
        file.len() > 0,
    ensures
        tokens::tokens(operator + " "@ + parse::quoted(file)) == seq![operator, file],
{
    reveal_strlit(" ");
    assert(" "@ =~= seq![' ']);
    assert(tokens::is_plain(operator)) by {
        reveal_strlit(">>");
        reveal_strlit("2>>");
        reveal_strlit(">");
        reveal_strlit("1>");
        reveal_strlit("2>");
    }
    let one = seq![operator];
    let other = seq![file];
    assert(text::joined(one, " "@) == operator);
    assert(text::joined(other, " "@) == file);
    tokens::law_plain_words_are_read_back(one);
    if tokens::is_plain(file) {
        tokens::law_plain_words_are_read_back(other);
    } else {
        tokens::law_backslash(file);
    }
    tokens::lemma_lexed_plain(operator, Seq::empty());
    tokens::law_space_separates(operator, parse::quoted(file));
    assert(operator + " "@ + parse::quoted(file) =~= operator + seq![' '] + parse::quoted(file));
    assert(one + other =~= seq![operator, file]);
}

/// A redirection behind a pipe belongs to the last command of the pipe: that is read as the line
/// that it would be without the rest.
pub proof fn law_redirection_stays_with_its_part(
    depth: nat,
    first: Seq<Seq<char>>,
    second: Seq<Seq<char>>,
    operator: Seq<char>,
    file: Seq<char>,
    vars: Map<Seq<char>, Seq<char>>,
    paths: Map<Seq<char>, Answer>,
)
    requires
        first.len() > 0,
        second.len() > 0,
        forall|i: int| 0 <= i < first.len() ==> is_ordinary(#[trigger] first[i]),
        forall|i: int| 0 <= i < second.len() ==> is_ordinary(#[trigger] second[i]),
        parse::is_redirection(operator),
        is_literal(file),
    ensures
        ({
            let line = (first.push("|"@) + second).push(operator).push(file);
            let left = parse::understood(depth, text::joined(first, " "@), vars, paths);
            let right = parse::understood(
                depth,
                text::joined(second.push(operator).push(file), " "@),
                vars,
                paths,
            );
            left is Done && right is Done && !parse::refused_in_pipe(left->Done_0)
                && !parse::refused_in_pipe(right->Done_0) ==> parse::understood(
                depth + 1,
                text::joined(line, " "@),
                vars,
                paths,
            ) == ParseView::Done(
                CommandView::PipeCommand {
                    commands: seq![left->Done_0, right->Done_0],
                    background: false,
                },
            )
        }),
{
    let front = first.push("|"@) + second;
    let line = front.push(operator).push(file);
    let input = text::joined(line, " "@);
    let whole = operator + " "@ + file;
    let parts = front.push(whole);
    let last = second.push(whole);
    lemma_pipe_line(first, second, operator, file);
    lemma_line_words(line);
    lemma_literals_stay(front, vars);
    lemma_kept_redirection(front, operator, file, vars);
    lemma_redirection_is_no_sign(operator, file);
    law_redirection(front, operator, file);
    assert(parts.last() == whole);
    assert(parse::line_parts(input, vars) == parts);
    assert(is_ordinary(second[second.len() - 1]));
    assert(front.last() == second[second.len() - 1]);
    lemma_pipe_parts(first, last);
    assert(first.push("|"@) + last =~= parts);
    assert(text::joined(last, " "@) == text::joined(second.push(operator).push(file), " "@)) by {
        text::lemma_joined_push(second, whole, " "@);
        text::lemma_joined_push(second, operator, " "@);
        text::lemma_joined_push(second.push(operator), file, " "@);
        let start = text::joined(second, " "@);
        assert(start + " "@ + whole =~= start + " "@ + operator + " "@ + file);
    }
    let both = seq![first, last];
    assert(parse::pipe_parts(parts) == Some(both));
    assert(parts[first.len() as int] == "|"@);
    assert(parts.contains("|"@));
    assert(!parse::in_background(parse::line_of(input, vars).words));
    lemma_two_commands(depth, first, last, vars, paths);
}

/// A pipe of two parts that can stand in one has their two commands.
proof fn lemma_two_commands(
    depth: nat,
    first: Seq<Seq<char>>,
    last: Seq<Seq<char>>,
    vars: Map<Seq<char>, Seq<char>>,
    paths: Map<Seq<char>, Answer>,
)
    ensures
        ({
            let left = parse::understood(depth, text::joined(first, " "@), vars, paths);
            let right = parse::understood(depth, text::joined(last, " "@), vars, paths);
            left is Done && right is Done && !parse::refused_in_pipe(left->Done_0)
                && !parse::refused_in_pipe(right->Done_0) ==> parse::understood_parts(
                depth,
                seq![first, last],
                Seq::empty(),
                false,
                vars,
                paths,
            ) == ParseView::Done(
                CommandView::PipeCommand {
                    commands: seq![left->Done_0, right->Done_0],
                    background: false,
                },
            )
        }),
{
    let both = seq![first, last];
    let none = Seq::<CommandView>::empty();
    let left = parse::understood(depth, text::joined(first, " "@), vars, paths);
    let right = parse::understood(depth, text::joined(last, " "@), vars, paths);
    if left is Done && right is Done && !parse::refused_in_pipe(left->Done_0)
        && !parse::refused_in_pipe(right->Done_0) {
        let one = none.push(left->Done_0);
        let two = one.push(right->Done_0);
        assert(both.skip(1) =~= seq![last]);
        assert(both.skip(1).skip(1) =~= Seq::empty());
        assert(both.skip(1)[0] == last);
        assert(two =~= seq![left->Done_0, right->Done_0]);
        assert(parse::understood_parts(depth, Seq::empty(), two, false, vars, paths)
            == ParseView::Done(CommandView::PipeCommand { commands: two, background: false }));
        assert(parse::understood_parts(depth, both.skip(1), one, false, vars, paths)
            == parse::understood_parts(depth, both.skip(1).skip(1), two, false, vars, paths));
        assert(parse::understood_parts(depth, both, none, false, vars, paths)
            == parse::understood_parts(depth, both.skip(1), one, false, vars, paths));
    }
}

/// The words of two commands with a pipe sign between them, and a redirection behind.
proof fn lemma_pipe_line(
    first: Seq<Seq<char>>,
    second: Seq<Seq<char>>,
    operator: Seq<char>,
    file: Seq<char>,
)
    requires
        first.len() > 0,
        second.len() > 0,
        forall|i: int| 0 <= i < first.len() ==> is_ordinary(#[trigger] first[i]),
        forall|i: int| 0 <= i < second.len() ==> is_ordinary(#[trigger] second[i]),
        parse::is_redirection(operator),
        is_literal(file),
    ensures
        ({
            let front = first.push("|"@) + second;
            let line = front.push(operator).push(file);
            &&& forall|i: int| 0 <= i < front.len() ==> is_literal(#[trigger] front[i])
            &&& forall|i: int|
                0 <= i < front.len() ==> !parse::is_redirection(#[trigger] front[i])
            &&& forall|i: int| 0 <= i < line.len() ==> tokens::is_plain(#[trigger] line[i])
            &&& !text::is_white(line[0][0])
            &&& !text::is_white(line.last().last())
        }),
{
    let front = first.push("|"@) + second;
    let line = front.push(operator).push(file);
    reveal_strlit("|");
    reveal_strlit(">>");
    reveal_strlit("2>>");
    reveal_strlit(">");
    reveal_strlit("1>");
    reveal_strlit("2>");
    assert("|"@.len() == 1 && "|"@[0] == '|' && ">"@[0] == '>');
    assert(">>"@.len() == 2 && "2>>"@.len() == 3 && "1>"@.len() == 2 && "2>"@.len() == 2);
    assert(is_literal("|"@));
    assert(tokens::is_plain(operator));
    assert forall|i: int| 0 <= i < front.len() implies is_literal(#[trigger] front[i])
        && !parse::is_redirection(front[i]) by {
        if i < first.len() {
            assert(front[i] == first[i]);
            assert(is_ordinary(first[i]));
        } else if i > first.len() {
            assert(front[i] == second[i - first.len() - 1]);
            assert(is_ordinary(second[i - first.len() - 1]));
        }
    }
    assert forall|i: int| 0 <= i < line.len() implies tokens::is_plain(#[trigger] line[i]) by {
        if i < front.len() {
            assert(line[i] == front[i]);
            assert(is_literal(front[i]));
        }
    }
    assert(line[0] == first[0]);
    assert(is_ordinary(first[0]));
    assert(line.last() == file);
}

/// Words with one pipe sign between them are the two parts of a pipe.
proof fn lemma_pipe_parts(first: Seq<Seq<char>>, last: Seq<Seq<char>>)
    requires
        first.len() > 0,
        last.len() > 0,
        forall|i: int| 0 <= i < first.len() ==> !is_sign(#[trigger] first[i]),
        forall|i: int| 0 <= i < last.len() ==> !is_sign(#[trigger] last[i]),
    ensures
        parse::pipe_parts(first.push("|"@) + last) == Some(seq![first, last]),
{
    let words = first.push("|"@) + last;
    let sep = "|"@;
    reveal_strlit("|");
    reveal_strlit("&&");
    reveal_strlit("||");
    assert("|"@.len() == 1 && "&&"@.len() == 2 && "||"@.len() == 2);
    assert forall|i: int| 0 <= i < first.len() implies words[i] != sep by {
        assert(words[i] == first[i]);
        assert(!is_sign(first[i]));
    }
    assert(words[first.len() as int] == sep);
    text::lemma_find_is(words, sep, first.len() as int);
    assert(words.take(first.len() as int) =~= first);
    assert(words.skip(first.len() as int + 1) =~= last);
    assert forall|i: int| 0 <= i < last.len() implies last[i] != sep by {
        assert(!is_sign(last[i]));
    }
    text::lemma_find_is(last, sep, last.len() as int);
    assert(parse::split(last, sep) == seq![last]);
    assert(parse::split(words, sep) =~= seq![first, last]);
    assert(!words.contains("&&"@) && !words.contains("||"@)) by {
        assert forall|i: int| 0 <= i < words.len() implies words[i] != "&&"@ && words[i]
            != "||"@ by {
            if i < first.len() {
                assert(words[i] == first[i]);
                assert(!is_sign(first[i]));
            } else if i > first.len() {
                assert(words[i] == last[i - first.len() - 1]);
                assert(!is_sign(last[i - first.len() - 1]));
            }
        }
    }
    let both = seq![first, last];
    assert(!both.contains(Seq::empty())) by {
        if both.contains(Seq::empty()) {
            let i = choose|i: int| 0 <= i < both.len() && both[i] == Seq::<Seq<char>>::empty();
            assert(both[i].len() == 0);
        }
    }
}

/// The sign that asks for the background is taken out also where a redirection stands behind
/// it: what is left are the words before it and the redirection.
pub proof fn law_background_sign_is_taken_out(
    words: Seq<Seq<char>>,
    operator: Seq<char>,
    file: Seq<char>,
    vars: Map<Seq<char>, Seq<char>>,
)
    requires
        words.len() > 0,
        forall|i: int|
            0 <= i < words.len() ==> is_literal(#[trigger] words[i]) && !parse::is_redirection(
                words[i],
            ),
        parse::is_redirection(operator),
        is_literal(file),
    ensures
        ({
            let line = words.push("&"@).push(operator).push(file);
            let input = text::joined(line, " "@);
            &&& parse::in_background(parse::line_of(input, vars).words)
            &&& parse::foreground_words(parse::line_of(input, vars).words) == words
            &&& parse::line_parts(input, vars) == words.push(operator + " "@ + file)
        }),
{
    let all = words.push("&"@);
    let line = all.push(operator).push(file);
    let input = text::joined(line, " "@);
    let pair = seq![operator, file];
    lemma_signed_line(words, operator, file);
    lemma_line_words(line);
    lemma_literals_stay(all, vars);
    lemma_kept_redirection(all, operator, file, vars);
    law_redirection(all, operator, file);
    assert(pair.skip(2) =~= Seq::empty());
    assert(parse::last_kept_word(pair.skip(2)) is None);
    assert(parse::last_kept_word(pair) is None);
    lemma_last_word(words, "&"@, pair);
    assert(all + pair =~= line);
    assert(all.drop_last() =~= words);
    let whole = operator + " "@ + file;
    assert(all.push(whole).remove(words.len() as int) =~= words.push(whole));
}

/// The words of a command with a `&` and a redirection behind them.
proof fn lemma_signed_line(words: Seq<Seq<char>>, operator: Seq<char>, file: Seq<char>)
    requires
        words.len() > 0,
        forall|i: int|
            0 <= i < words.len() ==> is_literal(#[trigger] words[i]) && !parse::is_redirection(
                words[i],
            ),
        parse::is_redirection(operator),
        is_literal(file),
    ensures
        ({
            let all = words.push("&"@);
            let line = all.push(operator).push(file);
            &&& forall|i: int| 0 <= i < all.len() ==> is_literal(#[trigger] all[i])
            &&& forall|i: int| 0 <= i < all.len() ==> !parse::is_redirection(#[trigger] all[i])
            &&& forall|i: int| 0 <= i < line.len() ==> tokens::is_plain(#[trigger] line[i])
            &&& !text::is_white(line[0][0])
            &&& !text::is_white(line.last().last())
            &&& !parse::is_redirection("&"@)
        }),
{
    let all = words.push("&"@);
    let line = all.push(operator).push(file);
    reveal_strlit("&");
    reveal_strlit(">>");
    reveal_strlit("2>>");
    reveal_strlit(">");
    reveal_strlit("1>");
    reveal_strlit("2>");
    assert("&"@.len() == 1 && "&"@[0] == '&' && ">"@[0] == '>');
    assert(">>"@.len() == 2 && "2>>"@.len() == 3 && "1>"@.len() == 2 && "2>"@.len() == 2);
    assert(is_literal("&"@));
    assert(tokens::is_plain(operator));
    assert forall|i: int| 0 <= i < line.len() implies tokens::is_plain(#[trigger] line[i]) by {
        if i < words.len() {
            assert(line[i] == words[i]);
            assert(is_literal(words[i]));
        }
    }
    assert(line[0] == words[0]);
    assert(is_literal(words[0]));
    assert(line.last() == file);
}

/// The names that the shell answers itself differ from each other.
proof fn lemma_builtins_differ()
    ensures
        "exit"@ != "echo"@,
        "exit"@ != "type"@,
        "exit"@ != "pwd"@,
        "exit"@ != "cd"@,
        "exit"@ != "complete"@,
        "exit"@ != "jobs"@,
        "exit"@ != "history"@,
        "exit"@ != "declare"@,
        "echo"@ != "type"@,
        "echo"@ != "pwd"@,
        "echo"@ != "cd"@,
        "echo"@ != "complete"@,
        "echo"@ != "jobs"@,
        "echo"@ != "history"@,
        "echo"@ != "declare"@,
        "type"@ != "pwd"@,
        "type"@ != "cd"@,
        "type"@ != "complete"@,
        "type"@ != "jobs"@,
        "type"@ != "history"@,
        "type"@ != "declare"@,
        "pwd"@ != "cd"@,
        "pwd"@ != "complete"@,
        "pwd"@ != "jobs"@,
        "pwd"@ != "history"@,
        "pwd"@ != "declare"@,
        "cd"@ != "complete"@,
        "cd"@ != "jobs"@,
        "cd"@ != "history"@,
        "cd"@ != "declare"@,
        "complete"@ != "jobs"@,
        "complete"@ != "history"@,
        "complete"@ != "declare"@,
        "jobs"@ != "history"@,
        "jobs"@ != "declare"@,
        "history"@ != "declare"@,
{
    reveal_strlit("exit");
    reveal_strlit("echo");
    reveal_strlit("type");
    reveal_strlit("pwd");
    reveal_strlit("cd");
    reveal_strlit("complete");
    reveal_strlit("jobs");
    reveal_strlit("history");
    reveal_strlit("declare");
    assert("exit"@.len() == 4 && "exit"@[0] == 'e' && "exit"@[1] == 'x');
    assert("echo"@.len() == 4 && "echo"@[0] == 'e' && "echo"@[1] == 'c');
    assert("type"@.len() == 4 && "type"@[0] == 't' && "type"@[1] == 'y');
    assert("pwd"@.len() == 3 && "pwd"@[0] == 'p' && "pwd"@[1] == 'w');
    assert("cd"@.len() == 2 && "cd"@[0] == 'c' && "cd"@[1] == 'd');
    assert("complete"@.len() == 8 && "complete"@[0] == 'c' && "complete"@[1] == 'o');
    assert("jobs"@.len() == 4 && "jobs"@[0] == 'j' && "jobs"@[1] == 'o');
    assert("history"@.len() == 7 && "history"@[0] == 'h' && "history"@[1] == 'i');
    assert("declare"@.len() == 7 && "declare"@[0] == 'd' && "declare"@[1] == 'e');
}

proof fn lemma_arguments(words: Seq<Seq<char>>)
    requires
        words.len() > 0,
        forall|i: int| 0 <= i < words.len() ==> tokens::is_plain(#[trigger] words[i]),
    ensures
        tokens::tokens(text::joined(words.skip(1), " "@)) == words.skip(1),
{
    let rest = words.skip(1);
    assert forall|i: int| 0 <= i < rest.len() implies tokens::is_plain(#[trigger] rest[i]) by {
        assert(rest[i] == words[i + 1]);
    }
    tokens::law_plain_words_are_read_back(rest);
}

/// `exit` is `exit`, `pwd` and `jobs` print where the line sends them, and `echo` prints its other
/// words, with a space between each two, where the line sends it.
pub proof fn law_short_builtins(
    words: Seq<Seq<char>>,
    line: LineView,
    background: bool,
    paths: Map<Seq<char>, Answer>,
)
    requires
        words.len() > 0,
    ensures
        words[0] == "exit"@ ==> parse::simple(words, line, background, paths) == ParseView::Done(
            CommandView::ExitCommand,
        ),
        words[0] == "pwd"@ ==> parse::simple(words, line, background, paths) == ParseView::Done(
            CommandView::PwdCommand {
                stdout_file: line.stdout_file,
                stdout_append: line.stdout_append,
            },
        ),
        words[0] == "jobs"@ ==> parse::simple(words, line, background, paths) == ParseView::Done(
            CommandView::JobsCommand {
                stdout_file: line.stdout_file,
                stdout_append: line.stdout_append,
            },
        ),
        words[0] == "echo"@ ==> match parse::simple(words, line, background, paths) {
            ParseView::Done(CommandView::EchoCommand { display_string }) => {
                &&& display_string.name == text::joined(words.skip(1), " "@)
                &&& display_string.stdout_file == line.stdout_file
                &&& display_string.stdout_append == line.stdout_append
                &&& display_string.background == background
            },
            _ => false,
        },
{
    lemma_builtins_differ();
}

/// What the words that are read behind `complete` ask for: a script to be registered for a
/// command, to be printed or to be removed; anything else but nothing is an error, which names
/// an unrecognised flag.
pub proof fn law_requests_of_complete(
    words: Seq<Seq<char>>,
    asked: Seq<Seq<char>>,
    line: LineView,
    background: bool,
    paths: Map<Seq<char>, Answer>,
)
    requires
        words.len() > 0,
        words[0] == "complete"@,
        asked == tokens::tokens(text::joined(words.skip(1), " "@)),
    ensures
        match parse::simple(words, line, background, paths) {
            ParseView::Done(
                CommandView::CompleteCommand {
                    subcommnad,
                    stdout_file,
                    stdout_append,
                    stderr_file,
                    stderr_append,
                },
            ) => {
                &&& stdout_file == line.stdout_file
                &&& stdout_append == line.stdout_append
                &&& stderr_file == line.stderr_file
                &&& stderr_append == line.stderr_append
                &&& match subcommnad {
                    CompleteView::Register { script, command } => asked.len() == 3 && asked[0]
                        == "-C"@ && asked[1] == script && asked[2] == command,
                    CompleteView::Print { command } => asked.len() == 2 && asked[0] == "-p"@
                        && asked[1] == command,
                    CompleteView::Remove { command } => asked.len() == 2 && asked[0] == "-r"@
                        && asked[1] == command,
                    CompleteView::Empty => asked.len() == 0,
                    CompleteView::Error(message) => {
                        &&& message == "complete: unrecognised flag"@
                        &&& asked.len() > 0
                        &&& !(asked.len() == 3 && asked[0] == "-C"@)
                        &&& !(asked.len() == 2 && asked[0] == "-p"@)
                        &&& !(asked.len() == 2 && asked[0] == "-r"@)
                    },
                }
            },
            _ => false,
        },
{
    lemma_builtins_differ();
}

/// What the words that are read behind `declare` ask for: a variable to be printed, or one to be
/// given the value behind the first `=`, or an empty one; a name that can name no variable, a flag
/// that is not known and more words than one are errors, and the message quotes a word that is
/// no name.
pub proof fn law_requests_of_declare(
    words: Seq<Seq<char>>,
    asked: Seq<Seq<char>>,
    line: LineView,
    background: bool,
    paths: Map<Seq<char>, Answer>,
)
    requires
        words.len() > 0,
        words[0] == "declare"@,
        asked == tokens::tokens(text::joined(words.skip(1), " "@)),
    ensures
        match parse::simple(words, line, background, paths) {
            ParseView::Done(
                CommandView::DeclareCommand {
                    subcommand,
                    stdout_file,
                    stdout_append,
                    stderr_file,
                    stderr_append,
                },
            ) => {
                &&& stdout_file == line.stdout_file
                &&& stdout_append == line.stdout_append
                &&& stderr_file == line.stderr_file
                &&& stderr_append == line.stderr_append
                &&& match subcommand {
                    DeclareView::Print { name } => asked.len() == 2 && asked[0] == "-p"@
                        && asked[1] == name,
                    DeclareView::Assign { name, value } => {
                        &&& asked.len() == 1
                        &&& expand::is_identifier(name)
                        &&& !asked[0].contains('=') ==> asked[0] == name && value.len() == 0
                        &&& asked[0].contains('=') ==> asked[0] == name.push('=') + value
                            && !name.contains('=')
                    },
                    DeclareView::Empty => asked.len() == 0,
                    DeclareView::Error(message) => {
                        &&& asked.len() > 0
                        &&& !(asked.len() == 2 && asked[0] == "-p"@)
                        &&& asked.len() > 1 || text::begins_with(asked[0], seq!['-']) ==> message
                            == "declare: unrecognised flag"@
                        &&& asked.len() == 1 && !text::begins_with(asked[0], seq!['-']) ==> message
                            == "declare : `"@ + asked[0] + "': not valid indentifier"@
                        &&& asked.len() == 1 ==> forall|name: Seq<char>, value: Seq<char>|
                            #![trigger name.push('=') + value]
                            expand::is_identifier(name) ==> asked[0] != name && asked[0]
                                != name.push('=') + value
                    },
                }
            },
            _ => false,
        },
{
    lemma_builtins_differ();
    if asked.len() == 1 {
        let word = asked[0];
        let dash = seq!['-'];
        if word.len() > 0 && word[0] == '-' {
            assert(word.take(1) =~= dash);
        }
        if text::begins_with(word, dash) {
            assert(dash[0] == '-');
            assert(word.take(1)[0] == word[0]);
        }
        let (name, value) = parse::assignment_parts(word);
        let k = text::find(word, '=');
        text::lemma_find(word, '=');
        if word.contains('=') {
            assert(word =~= name.push('=') + value);
            assert forall|i: int| 0 <= i < name.len() implies name[i] != '=' by {
                assert(name[i] == word[i]);
            }
        }
        assert forall|other: Seq<char>, given: Seq<char>|
            #![trigger other.push('=') + given]
            expand::is_identifier(other) && (word == other || word == other.push('=')
                + given) implies expand::is_identifier(name) && word[0] != '-' by {
            lemma_identifier_is_literal(other);
            if word == other {
                assert(!word.contains('='));
            } else {
                text::lemma_find_is(word, '=', other.len() as int);
                assert(name =~= other);
                assert(word[0] == other[0]);
            }
        }
        if expand::is_identifier(word) {
            let none = Seq::<char>::empty();
            assert(word.push('=') + none =~= word.push('='));
        }
        if parse::declare_request(asked) is Error {
            assert forall|other: Seq<char>, given: Seq<char>|
                #![trigger other.push('=') + given]
                expand::is_identifier(other) implies word != other && word != other.push('=')
                + given by {
                if word == other || word == other.push('=') + given {
                    assert(expand::is_identifier(name) && word[0] != '-');
                }
            }
        }
    }
}

/// What the words of `history` ask for: a file to be read, written or appended to, a number of
/// lines, or all of them.
pub proof fn law_requests_of_history(
    words: Seq<Seq<char>>,
    line: LineView,
    background: bool,
    paths: Map<Seq<char>, Answer>,
)
    requires
        words.len() > 0,
        words[0] == "history"@,
        forall|i: int| 0 <= i < words.len() ==> is_literal(#[trigger] words[i]),
    ensures
        match parse::simple(words, line, background, paths) {
            ParseView::Done(
                CommandView::HistoryCommand {
                    stdout_file,
                    stdout_append,
                    count,
                    read_file,
                    write_file,
                    append_file,
                },
            ) => {
                &&& stdout_file == line.stdout_file
                &&& stdout_append == line.stdout_append
                &&& read_file == (if words.len() == 3 && words[1] == "-r"@ {
                    Some(words[2])
                } else {
                    None
                })
                &&& write_file == (if words.len() == 3 && words[1] == "-w"@ {
                    Some(words[2])
                } else {
                    None
                })
                &&& append_file == (if words.len() == 3 && words[1] == "-a"@ {
                    Some(words[2])
                } else {
                    None
                })
                &&& words.len() == 2 ==> count == numbers::counted(words[1])
                &&& words.len() == 1 ==> count is None
                &&& read_file is Some || write_file is Some || append_file is Some ==> count is None
            },
            _ => false,
        },
{
    lemma_builtins_differ();
    assert forall|i: int| 0 <= i < words.len() implies tokens::is_plain(#[trigger] words[i]) by {
        assert(is_literal(words[i]));
    }
    lemma_arguments(words);
    let rest = words.skip(1);
    assert(forall|i: int| 0 <= i < rest.len() ==> rest[i] == words[i + 1]);
    if words.len() == 2 {
        let word = words[1];
        assert(is_literal(word));
        assert(rest =~= seq![word]);
        assert(text::joined(rest, " "@) == word);
        assert(text::trimmed_start(word) == word);
        assert(text::trimmed_end(word) == word);
    }
    if words.len() == 1 {
        assert(rest =~= Seq::empty());
        numbers::law_counts(Seq::empty(), '0');
        assert(text::trimmed(text::joined(rest, " "@)) =~= Seq::empty());
    }
}

/// `type` and `cd` with one word behind them are about that word, which is looked up first: with
/// the file that it stands for, or none. They carry the redirections of the line.
pub proof fn law_builtins_about_a_name(
    words: Seq<Seq<char>>,
    line: LineView,
    background: bool,
    paths: Map<Seq<char>, Answer>,
)
    requires
        words.len() == 2,
        words[0] == "type"@ || words[0] == "cd"@,
        tokens::is_plain(words[1]),
    ensures
        match parse::simple(words, line, background, paths) {
            ParseView::Lookup(name) => name == words[1] && !paths.contains_key(name),
            ParseView::Done(command) => {
                let cmd = if words[0] == "type"@ {
                    command->command_name
                } else {
                    command->directory
                };
                &&& words[0] == "type"@ <==> command is TypeCommand
                &&& words[0] == "cd"@ <==> command is CdCommand
                &&& paths.contains_key(words[1])
                &&& cmd.name == words[1]
                &&& cmd.args.len() == 0
                &&& cmd.stdout_file == line.stdout_file
                &&& cmd.stdout_append == line.stdout_append
                &&& cmd.stderr_file == line.stderr_file
                &&& cmd.stderr_append == line.stderr_append
                &&& cmd.background == background
                &&& match paths[words[1]] {
                    Ok(path) => cmd.path == Some(path),
                    Err(_) => cmd.path is None,
                }
            },
            ParseView::TooDeep => false,
        },
{
    lemma_builtins_differ();
    let rest = words.skip(1);
    assert(rest =~= seq![words[1]]);
    assert(text::joined(rest, " "@) == words[1]);
    tokens::law_plain_words_are_read_back(rest);
    assert(rest.skip(1) =~= Seq::empty());
}

/// A line that the shell does not answer itself is read again as one text: its first word is
/// looked up, and the program that it stands for is run with the other words as its arguments,
/// each in its place, and with the redirections of the line.
pub proof fn law_programs_of_a_line(
    words: Seq<Seq<char>>,
    asked: Seq<Seq<char>>,
    line: LineView,
    background: bool,
    paths: Map<Seq<char>, Answer>,
)
    requires
        words.len() > 0,
        !completion::builtin_names().contains(words[0]),
        asked == tokens::tokens(text::joined(words, " "@)),
    ensures
        match parse::simple(words, line, background, paths) {
            ParseView::Lookup(name) => asked.len() > 0 && name == asked[0]
                && !paths.contains_key(name),
            ParseView::Done(CommandView::ExecCommand { exec_name }) => {
                &&& asked.len() > 0
                &&& paths.contains_key(asked[0])
                &&& paths[asked[0]] is Ok
                &&& exec_name.path == Some(paths[asked[0]]->Ok_0)
                &&& exec_name.name == asked[0]
                &&& exec_name.args.len() == asked.len() - 1
                &&& forall|i: int|
                    0 <= i < exec_name.args.len() ==> exec_name.args[i] == asked[i + 1]
                &&& exec_name.stdout_file == line.stdout_file
                &&& exec_name.stdout_append == line.stdout_append
                &&& exec_name.stderr_file == line.stderr_file
                &&& exec_name.stderr_append == line.stderr_append
                &&& exec_name.background == background
            },
            ParseView::Done(command) => command is CommandNotFound && (asked.len() == 0 || (
            paths.contains_key(asked[0]) && paths[asked[0]] is Err)),
            ParseView::TooDeep => false,
        },
{
    output::law_builtin_names(words[0]);
}

/// A line of two commands with `&&` or `||` between them is a chain of the two, in this order,
/// with that operator behind the first and none behind the second.
pub proof fn law_chain_line(
    depth: nat,
    first: Seq<Seq<char>>,
    second: Seq<Seq<char>>,
    operator: ChainOp,
    vars: Map<Seq<char>, Seq<char>>,
    paths: Map<Seq<char>, Answer>,
)
    requires
        first.len() > 0,
        second.len() > 0,
        operator != ChainOp::End,
        forall|i: int| 0 <= i < first.len() ==> is_ordinary(#[trigger] first[i]),
        forall|i: int| 0 <= i < second.len() ==> is_ordinary(#[trigger] second[i]),
    ensures
        ({
            let word = if operator == ChainOp::And {
                "&&"@
            } else {
                "||"@
            };
            parse::understood(
                depth,
                text::joined(first.push(word) + second, " "@),
                vars,
                paths,
            ) == ParseView::Done(
                CommandView::CommandChain {
                    segments: seq![
                        SegmentView { tokens: first, operator },
                        SegmentView { tokens: second, operator: ChainOp::End },
                    ],
                    background: false,
                },
            )
        }),
{
    let word = if operator == ChainOp::And {
        "&&"@
    } else {
        "||"@
    };
    let all = first.push(word) + second;
    let input = text::joined(all, " "@);
    lemma_sign_between(first, word, second);
    lemma_line_words(all);
    law_words_stay(all);
    lemma_all_kept(all, vars);
    lemma_literals_stay(all, vars);
    assert(is_ordinary(second[second.len() - 1]));
    assert(all.last() == second[second.len() - 1]);
    assert(parse::line_parts(input, vars) == all);
    lemma_two_parts(first, word, second);
    assert(parse::chain_op(word) == operator) by {
        reveal_strlit("&&");
        reveal_strlit("||");
        assert("&&"@[0] == '&' && "||"@[0] == '|');
    }
    assert(!all.contains("|"@)) by {
        if all.contains("|"@) {
            let i = choose|i: int| 0 <= i < all.len() && all[i] == "|"@;
            reveal_strlit("|");
            reveal_strlit("&&");
            reveal_strlit("||");
            if i < first.len() {
                assert(all[i] == first[i]);
                assert(is_ordinary(first[i]));
            } else if i > first.len() {
                assert(all[i] == second[i - first.len() - 1]);
                assert(is_ordinary(second[i - first.len() - 1]));
            }
        }
    }
    assert(all[first.len() as int] == word);
    assert(all.contains(word));
}

/// The words of two commands with a sign between them.
proof fn lemma_sign_between(first: Seq<Seq<char>>, sign: Seq<char>, second: Seq<Seq<char>>)
    requires
        first.len() > 0,
        second.len() > 0,
        is_sign(sign),
        forall|i: int| 0 <= i < first.len() ==> is_ordinary(#[trigger] first[i]),
        forall|i: int| 0 <= i < second.len() ==> is_ordinary(#[trigger] second[i]),
    ensures
        ({
            let all = first.push(sign) + second;
            &&& forall|i: int| 0 <= i < all.len() ==> is_literal(#[trigger] all[i])
            &&& forall|i: int| 0 <= i < all.len() ==> !parse::is_redirection(#[trigger] all[i])
            &&& forall|i: int| 0 <= i < all.len() ==> tokens::is_plain(#[trigger] all[i])
            &&& !text::is_white(all[0][0])
            &&& !text::is_white(all.last().last())
        }),
{
    let all = first.push(sign) + second;
    reveal_strlit("|");
    reveal_strlit("&&");
    reveal_strlit("||");
    reveal_strlit("&");
    reveal_strlit(">>");
    reveal_strlit("2>>");
    reveal_strlit(">");
    reveal_strlit("1>");
    reveal_strlit("2>");
    assert(">"@[0] == '>' && ">>"@[0] == '>' && "2>>"@[0] == '2');
    assert("1>"@[0] == '1' && "2>"@[0] == '2');
    assert(sign.len() > 0 && (sign[0] == '|' || sign[0] == '&'));
    assert(is_literal(sign));
    assert(!parse::is_redirection(sign));
    assert forall|i: int| 0 <= i < all.len() implies is_literal(#[trigger] all[i])
        && !parse::is_redirection(all[i]) && tokens::is_plain(all[i]) by {
        if i < first.len() {
            assert(all[i] == first[i]);
            assert(is_ordinary(first[i]));
        } else if i > first.len() {
            assert(all[i] == second[i - first.len() - 1]);
            assert(is_ordinary(second[i - first.len() - 1]));
        }
    }
    assert(all[0] == first[0]);
    assert(is_ordinary(first[0]));
    assert(all.last() == second[second.len() - 1]);
    assert(is_ordinary(second[second.len() - 1]));
}

/// The parts of a chain of two commands.
proof fn lemma_two_parts(first: Seq<Seq<char>>, word: Seq<char>, second: Seq<Seq<char>>)
    requires
        second.len() > 0,
        parse::is_chain_word(word),
        forall|i: int| 0 <= i < first.len() ==> is_ordinary(#[trigger] first[i]),
        forall|i: int| 0 <= i < second.len() ==> is_ordinary(#[trigger] second[i]),
    ensures
        parse::chained(first.push(word) + second) == seq![
            SegmentView { tokens: first, operator: parse::chain_op(word) },
            SegmentView { tokens: second, operator: ChainOp::End },
        ],
{
    let all = first.push(word) + second;
    let k = parse::first_chain_word(all);
    lemma_first_chain_word(all);
    assert(all[first.len() as int] == word);
    if k < first.len() {
        assert(all[k as int] == first[k as int]);
        assert(is_ordinary(first[k as int]));
    }
    assert(k == first.len());
    assert(all.take(k as int) =~= first);
    assert(all.skip(k as int + 1) =~= second);
    let m = parse::first_chain_word(second);
    lemma_first_chain_word(second);
    if m < second.len() {
        assert(is_ordinary(second[m as int]));
    }
    assert(parse::chained(second) =~= seq![
        SegmentView { tokens: second, operator: ChainOp::End },
    ]);
    assert(parse::chained(all) =~= seq![
        SegmentView { tokens: first, operator: parse::chain_op(word) },
        SegmentView { tokens: second, operator: ChainOp::End },
    ]);
}

/// A part of a chain with nothing behind it is not empty, and what joins it to the next is the
/// operator that is written there.
pub proof fn law_parts_of_a_chain(words: Seq<Seq<char>>, i: int)
    requires
        0 <= i < parse::chained(words).len(),
    ensures
        parse::chained(words)[i].operator == ChainOp::End ==> parse::chained(
            words,
        )[i].tokens.len() > 0,
    decreases words.len(),
{
    let k = parse::first_chain_word(words);
    lemma_first_chain_word(words);
    if k < words.len() && i > 0 {
        let rest = words.skip(k as int + 1);
        law_parts_of_a_chain(rest, i - 1);
        assert(parse::chained(words)[i] == parse::chained(rest)[i - 1]);
    }
}

proof fn lemma_commands_of_parts(
    depth: nat,
    parts: Seq<Seq<Seq<char>>>,
    done: Seq<CommandView>,
    background: bool,
    vars: Map<Seq<char>, Seq<char>>,
    paths: Map<Seq<char>, Answer>,
)
    ensures
        parse::understood_parts(depth, parts, done, background, vars, paths) matches ParseView::Done(
            CommandView::PipeCommand { commands, .. },
        ) ==> commands.len() == done.len() + parts.len() && (forall|i: int|
            0 <= i < done.len() ==> commands[i] == done[i]) && forall|i: int|
            0 <= i < parts.len() ==> parse::understood(
                depth,
                text::joined(#[trigger] parts[i], " "@),
                vars,
                paths,
            ) == ParseView::Done(commands[done.len() + i]),
    decreases parts.len(),
{
    if parts.len() > 0 {
        if let ParseView::Done(command) = parse::understood(
            depth,
            text::joined(parts[0], " "@),
            vars,
            paths,
        ) {
            if !parse::refused_in_pipe(command) {
                let rest = parts.skip(1);
                let more = done.push(command);
                lemma_commands_of_parts(depth, rest, more, background, vars, paths);
                if let ParseView::Done(CommandView::PipeCommand { commands, .. }) =
                    parse::understood_parts(depth, parts, done, background, vars, paths) {
                    assert forall|i: int| 0 <= i < done.len() implies commands[i] == done[i] by {
                        assert(commands[i] == more[i]);
                    }
                    assert forall|i: int| 0 <= i < parts.len() implies parse::understood(
                        depth,
                        text::joined(#[trigger] parts[i], " "@),
                        vars,
                        paths,
                    ) == ParseView::Done(commands[done.len() + i]) by {
                        if i == 0 {
                            assert(commands[done.len() as int] == more[done.len() as int]);
                        } else {
                            assert(rest[i - 1] == parts[i]);
                        }
                    }
                }
            }
        }
    }
}

/// Each command of a pipe is the one that its part stands for as a line of its own, in the order
/// of the parts.
pub proof fn law_pipe_reads_its_parts(
    depth: nat,
    input: Seq<char>,
    vars: Map<Seq<char>, Seq<char>>,
    paths: Map<Seq<char>, Answer>,
)
    requires
        depth > 0,
    ensures
        parse::understood(depth, input, vars, paths) matches ParseView::Done(
            CommandView::PipeCommand { commands, .. },
        ) ==> {
            let parts = parse::split(parse::line_parts(input, vars), "|"@);
            &&& commands.len() == parts.len()
            &&& forall|i: int|
                0 <= i < parts.len() ==> parse::understood(
                    (depth - 1) as nat,
                    text::joined(#[trigger] parts[i], " "@),
                    vars,
                    paths,
                ) == ParseView::Done(commands[i])
        },
{
    let words = parse::line_parts(input, vars);
    if !text::is_blank(input) && words.contains("|"@) {
        if let Some(parts) = parse::pipe_parts(words) {
            lemma_commands_of_parts(
                (depth - 1) as nat,
                parts,
                Seq::empty(),
                parse::in_background(parse::line_of(input, vars).words),
                vars,
                paths,
            );
        }
    }
}

/// Of several redirections of one stream the last names the file, and the stream appends if one
/// of them does; the two streams are redirected apart from each other.
pub proof fn law_several_redirections(
    words: Seq<Seq<char>>,
    one: Seq<char>,
    first: Seq<char>,
    other: Seq<char>,
    second: Seq<char>,
)
    requires
        forall|i: int| 0 <= i < words.len() ==> !parse::is_redirection(#[trigger] words[i]),
        one == ">"@ || one == "1>"@ || one == ">>"@,
        parse::is_redirection(other),
    ensures
        ({
            let line = parse::redirected(
                words.push(one).push(first).push(other).push(second),
                parse::empty_line(),
            );
            let errors = other == "2>"@ || other == "2>>"@;
            &&& line.words == words
            &&& errors ==> line.stdout_file == Some(first) && line.stdout_append == (one == ">>"@)
            &&& errors ==> line.stderr_file == Some(second) && line.stderr_append == (other
                == "2>>"@)
            &&& !errors ==> line.stdout_file == Some(second) && line.stdout_append == (one == ">>"@
                || other == ">>"@)
            &&& !errors ==> line.stderr_file is None && !line.stderr_append
        }),
{
    let none = parse::empty_line();
    let four = seq![one, first, other, second];
    lemma_not_redirected(words, four, none);
    assert(words + four =~= words.push(one).push(first).push(other).push(second));
    assert(none.words + words =~= words);
    let pair = four.skip(2);
    assert(pair =~= seq![other, second]);
    assert(pair.skip(2) =~= Seq::empty());
    reveal_strlit(">>");
    reveal_strlit("2>>");
    reveal_strlit(">");
    reveal_strlit("1>");
    reveal_strlit("2>");
    assert(">>"@.len() == 2 && "2>>"@.len() == 3 && ">"@.len() == 1);
    assert("1>"@[0] == '1' && "2>"@[0] == '2' && ">>"@[0] == '>');
    reveal_with_fuel(parse::redirected, 3);
}

/// The sign for the background is a `&` that is the last word, and only that.
pub proof fn law_background_sign(words: Seq<Seq<char>>, last: Seq<char>)
    ensures
        !parse::in_background(Seq::empty()),
        parse::in_background(words.push(last)) <==> last == seq!['&'],
        last == seq!['&'] ==> parse::foreground_words(words.push(last)) == words,
        last != seq!['&'] ==> parse::foreground_words(words.push(last)) == words.push(last),
{
    reveal_strlit("&");
    assert("&"@ =~= seq!['&']);
    assert(words.push(last).drop_last() =~= words);
}

/// `exit`, an empty line and a command that is not found cannot be part of a pipe, and every
/// other command can.
pub proof fn law_parts_of_a_pipe(command: CommandView)
    ensures
        parse::refused_in_pipe(command) <==> command == CommandView::ExitCommand || command
            == CommandView::Noop || command == CommandView::CommandNotFound,
{
}

/// A line of nothing but white space is an empty line, whatever the variables.
pub proof fn law_blank_line(
    depth: nat,
    input: Seq<char>,
    vars: Map<Seq<char>, Seq<char>>,
    paths: Map<Seq<char>, Answer>,
)
    requires
        forall|i: int| 0 <= i < input.len() ==> text::is_white(#[trigger] input[i]),
    ensures
        parse::understood(depth, input, vars, paths) == ParseView::Done(CommandView::Noop),
{
    crate::history::law_what_is_remembered(Seq::empty(), input);
    let none = Seq::<Seq<char>>::empty();
    assert(none.push(input).len() == 1);
}

/// Each word of a line is expanded on its own, in its place.
pub proof fn law_each_word_is_expanded(
    words: Seq<Seq<char>>,
    vars: Map<Seq<char>, Seq<char>>,
)
    ensures
        parse::expanded_words(words, vars).len() == words.len(),
        forall|i: int|
            0 <= i < words.len() ==> #[trigger] parse::expanded_words(words, vars)[i]
                == expand::expanded(words[i], vars),
{
}

/// A redirection stays between the words that it stands between, and the words around it are
/// read as if it were not there.
pub proof fn law_redirection_stays_in_its_place(
    before: Seq<Seq<char>>,
    operator: Seq<char>,
    file: Seq<char>,
    behind: Seq<Seq<char>>,
    vars: Map<Seq<char>, Seq<char>>,
)
    requires
        forall|i: int| 0 <= i < before.len() ==> !parse::is_redirection(#[trigger] before[i]),
        parse::is_redirection(operator),
    ensures
        parse::kept(before.push(operator).push(file) + behind, vars) == parse::kept(
            before,
            vars,
        ).push(operator + " "@ + parse::quoted(file)) + parse::kept(behind, vars),
{
    let pair = seq![operator, file];
    let rest = pair + behind;
    let whole = operator + " "@ + parse::quoted(file);
    lemma_kept_words(before, rest, vars);
    lemma_all_kept(before, vars);
    assert(before + rest =~= before.push(operator).push(file) + behind);
    assert(rest[0] == operator && rest[1] == file);
    assert(rest.skip(2) =~= behind);
    assert(parse::expanded_words(before, vars) + (seq![whole] + parse::kept(behind, vars))
        =~= parse::kept(before, vars).push(whole) + parse::kept(behind, vars));
}

/// The names of the files that a line redirects to are taken as they are written, with a `$` in
/// them or without.
pub proof fn law_file_names_are_not_expanded(
    words: Seq<Seq<char>>,
    operator: Seq<char>,
    file: Seq<char>,
    vars: Map<Seq<char>, Seq<char>>,
)
    requires
        words.len() > 0,
        forall|i: int| 0 <= i < words.len() ==> is_ordinary(#[trigger] words[i]),
        parse::is_redirection(operator),
        tokens::is_plain(file),
        !text::is_white(file.last()),
    ensures
        ({
            let line = parse::line_of(
                text::joined(words.push(operator).push(file), " "@),
                vars,
            );
            let errors = operator == "2>"@ || operator == "2>>"@;
            &&& line.words == words
            &&& errors ==> line.stderr_file == Some(file) && line.stdout_file is None
            &&& !errors ==> line.stdout_file == Some(file) && line.stderr_file is None
        }),
{
    let all = words.push(operator).push(file);
    assert(is_ordinary(words[0]));
    assert(tokens::is_plain(operator)) by {
        reveal_strlit(">>");
        reveal_strlit("2>>");
        reveal_strlit(">");
        reveal_strlit("1>");
        reveal_strlit("2>");
    }
    assert forall|i: int| 0 <= i < all.len() implies tokens::is_plain(#[trigger] all[i]) by {
        if i < words.len() {
            assert(is_ordinary(words[i]));
        }
    }
    assert forall|i: int| 0 <= i < words.len() implies is_literal(#[trigger] words[i]) by {
        assert(is_ordinary(words[i]));
    }
    assert forall|i: int| 0 <= i < words.len() implies !parse::is_redirection(
        #[trigger] words[i],
    ) by {
        assert(is_ordinary(words[i]));
    }
    lemma_line_words(all);
    law_redirection(words, operator, file);
    lemma_literals_stay(words, vars);
}

/// Signs are looked for among the expanded words, so that one can come from a variable: without
/// redirections, the words of a line and the words between which signs are looked for are its
/// words with their variables expanded, up to a `&` at the end.
pub proof fn law_signs_come_after_expansion(
    words: Seq<Seq<char>>,
    vars: Map<Seq<char>, Seq<char>>,
)
    requires
        words.len() > 0,
        forall|i: int|
            0 <= i < words.len() ==> tokens::is_plain(#[trigger] words[i])
                && !parse::is_redirection(words[i]),
        !text::is_white(words[0][0]),
        !text::is_white(words.last().last()),
    ensures
        ({
            let input = text::joined(words, " "@);
            let read = parse::expanded_words(words, vars);
            &&& parse::line_of(input, vars).words == read
            &&& parse::line_of(input, vars).stdout_file is None
            &&& parse::line_of(input, vars).stderr_file is None
            &&& parse::line_parts(input, vars) == (if read.last() == "&"@ {
                read.drop_last()
            } else {
                read
            })
        }),
{
    let read = parse::expanded_words(words, vars);
    let before = words.drop_last();
    assert forall|i: int| 0 <= i < words.len() implies tokens::is_plain(#[trigger] words[i]) by {}
    assert forall|i: int| 0 <= i < words.len() implies !parse::is_redirection(
        #[trigger] words[i],
    ) by {}
    assert forall|i: int| 0 <= i < before.len() implies !parse::is_redirection(
        #[trigger] before[i],
    ) by {
        assert(before[i] == words[i]);
    }
    lemma_line_words(words);
    law_words_stay(words);
    lemma_all_kept(words, vars);
    let none = Seq::<Seq<char>>::empty();
    assert(!parse::is_redirection(words[words.len() - 1]));
    lemma_last_word(before, words.last(), none);
    assert(before.push(words.last()) + none =~= words);
    assert(read.remove(before.len() as int) =~= read.drop_last());
}

/// A chain holds all the words of its line in their order, and is in the background if and only
/// if the line is.
pub proof fn law_chain_keeps_the_words(
    depth: nat,
    input: Seq<char>,
    vars: Map<Seq<char>, Seq<char>>,
    paths: Map<Seq<char>, Answer>,
)
    ensures
        parse::understood(depth, input, vars, paths) matches ParseView::Done(
            CommandView::CommandChain { segments, background },
        ) ==> {
            &&& unchained(segments) == parse::line_parts(input, vars)
            &&& background == parse::in_background(parse::line_of(input, vars).words)
            &&& segments.len() > 0
        },
{
    let words = parse::line_parts(input, vars);
    law_chain_is_undone(words);
    let line = parse::line_of(input, vars);
    if let ParseView::Done(command) = parse::understood(depth, input, vars, paths) {
        if words.contains("|"@) && depth > 0 {
            if let Some(parts) = parse::pipe_parts(words) {
                lemma_pipe_commands(
                    (depth - 1) as nat,
                    parts,
                    Seq::empty(),
                    parse::in_background(line.words),
                    vars,
                    paths,
                );
            }
        } else if parse::has_chain(words) {
            assert(words.len() > 0);
            if parse::chained(words).len() == 0 {
                assert(unchained(parse::chained(words)).len() == 0);
            }
        }
    }
}

/// A line of two ordinary commands with a `|` between them is a pipe of what the two stand for.
pub proof fn law_pipe_line(
    depth: nat,
    first: Seq<Seq<char>>,
    second: Seq<Seq<char>>,
    vars: Map<Seq<char>, Seq<char>>,
    paths: Map<Seq<char>, Answer>,
)
    requires
        first.len() > 0,
        second.len() > 0,
        forall|i: int| 0 <= i < first.len() ==> is_ordinary(#[trigger] first[i]),
        forall|i: int| 0 <= i < second.len() ==> is_ordinary(#[trigger] second[i]),
    ensures
        ({
            let left = parse::understood(depth, text::joined(first, " "@), vars, paths);
            let right = parse::understood(depth, text::joined(second, " "@), vars, paths);
            left is Done && right is Done && !parse::refused_in_pipe(left->Done_0)
                && !parse::refused_in_pipe(right->Done_0) ==> parse::understood(
                depth + 1,
                text::joined(first.push("|"@) + second, " "@),
                vars,
                paths,
            ) == ParseView::Done(
                CommandView::PipeCommand {
                    commands: seq![left->Done_0, right->Done_0],
                    background: false,
                },
            )
        }),
{
    let all = first.push("|"@) + second;
    let input = text::joined(all, " "@);
    lemma_sign_between(first, "|"@, second);
    lemma_line_words(all);
    law_words_stay(all);
    lemma_all_kept(all, vars);
    lemma_literals_stay(all, vars);
    assert(is_ordinary(second[second.len() - 1]));
    assert(all.last() == second[second.len() - 1]);
    assert(parse::line_parts(input, vars) == all);
    assert forall|i: int| 0 <= i < first.len() implies !is_sign(#[trigger] first[i]) by {
        assert(is_ordinary(first[i]));
    }
    assert forall|i: int| 0 <= i < second.len() implies !is_sign(#[trigger] second[i]) by {
        assert(is_ordinary(second[i]));
    }
    lemma_pipe_parts(first, second);
    assert(all[first.len() as int] == "|"@);
    assert(all.contains("|"@));
    lemma_two_commands(depth, first, second, vars, paths);
}

/// White space around a line changes nothing.
pub proof fn law_white_space_around_a_line(
    depth: nat,
    before: Seq<char>,
    line: Seq<char>,
    behind: Seq<char>,
    vars: Map<Seq<char>, Seq<char>>,
    paths: Map<Seq<char>, Answer>,
)
    requires
        forall|i: int| 0 <= i < before.len() ==> text::is_white(#[trigger] before[i]),
        forall|i: int| 0 <= i < behind.len() ==> text::is_white(#[trigger] behind[i]),
    ensures
        parse::understood(depth, before + line + behind, vars, paths) == parse::understood(
            depth,
            line,
            vars,
            paths,
        ),
{
    text::law_white_space_around(before, line, behind);
}

} // verus!
