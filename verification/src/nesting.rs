//! How deep pipes within pipes go, and what further answers to lookups change.
use vstd::prelude::*;

use crate::expand;
use crate::lookup::Answer;
use crate::parse;
use crate::parse::ParseView;
use crate::text;
use crate::tokens;
use crate::tokens::Quote;

verus! {

proof fn lemma_parts_deeper(
    low: nat,
    high: nat,
    parts: Seq<Seq<Seq<char>>>,
    done: Seq<crate::command::CommandView>,
    background: bool,
    vars: Map<Seq<char>, Seq<char>>,
    paths: Map<Seq<char>, Answer>,
)
    requires
        low <= high,
        !(parse::understood_parts(low, parts, done, background, vars, paths) is TooDeep),
    ensures
        parse::understood_parts(high, parts, done, background, vars, paths)
            == parse::understood_parts(low, parts, done, background, vars, paths),
    decreases low, 1 + parts.len(),
{
    if parts.len() > 0 {
        let line = text::joined(parts[0], " "@);
        law_depth_only_limits(low, high, line, vars, paths);
        match parse::understood(low, line, vars, paths) {
            ParseView::Done(command) => {
                if !parse::refused_in_pipe(command) {
                    lemma_parts_deeper(
                        low,
                        high,
                        parts.skip(1),
                        done.push(command),
                        background,
                        vars,
                        paths,
                    );
                }
            },
            _ => {},
        }
    }
}

/// The depth only limits: a line that is understood to some depth is understood in the same
/// way to any greater depth.
pub proof fn law_depth_only_limits(
    low: nat,
    high: nat,
    input: Seq<char>,
    vars: Map<Seq<char>, Seq<char>>,
    paths: Map<Seq<char>, Answer>,
)
    requires
        low <= high,
        !(parse::understood(low, input, vars, paths) is TooDeep),
    ensures
        parse::understood(high, input, vars, paths) == parse::understood(low, input, vars, paths),
    decreases low, 0nat,
{
    let line = parse::line_of(input, vars);
    let words = parse::line_parts(input, vars);
    if !text::is_blank(input) && words.contains("|"@) {
        if let Some(parts) = parse::pipe_parts(words) {
            lemma_parts_deeper(
                (low - 1) as nat,
                (high - 1) as nat,
                parts,
                Seq::empty(),
                parse::in_background(line.words),
                vars,
                paths,
            );
        }
    }
}

proof fn lemma_parts_ask(
    depth: nat,
    parts: Seq<Seq<Seq<char>>>,
    done: Seq<crate::command::CommandView>,
    background: bool,
    vars: Map<Seq<char>, Seq<char>>,
    paths: Map<Seq<char>, Answer>,
    more: Map<Seq<char>, Answer>,
)
    requires
        paths.submap_of(more),
    ensures
        parse::understood_parts(depth, parts, done, background, vars, paths) matches ParseView::Lookup(
            name,
        ) ==> !paths.contains_key(name),
        !(parse::understood_parts(depth, parts, done, background, vars, paths) is Lookup)
            ==> parse::understood_parts(depth, parts, done, background, vars, more)
            == parse::understood_parts(depth, parts, done, background, vars, paths),
    decreases depth, 1 + parts.len(),
{
    if parts.len() > 0 {
        let line = text::joined(parts[0], " "@);
        lemma_line_asks(depth, line, vars, paths, more);
        match parse::understood(depth, line, vars, paths) {
            ParseView::Done(command) => {
                if !parse::refused_in_pipe(command) {
                    lemma_parts_ask(
                        depth,
                        parts.skip(1),
                        done.push(command),
                        background,
                        vars,
                        paths,
                        more,
                    );
                }
            },
            _ => {},
        }
    }
}

proof fn lemma_line_asks(
    depth: nat,
    input: Seq<char>,
    vars: Map<Seq<char>, Seq<char>>,
    paths: Map<Seq<char>, Answer>,
    more: Map<Seq<char>, Answer>,
)
    requires
        paths.submap_of(more),
    ensures
        parse::understood(depth, input, vars, paths) matches ParseView::Lookup(name)
            ==> !paths.contains_key(name),
        !(parse::understood(depth, input, vars, paths) is Lookup) ==> parse::understood(
            depth,
            input,
            vars,
            more,
        ) == parse::understood(depth, input, vars, paths),
    decreases depth, 0nat,
{
    let line = parse::line_of(input, vars);
    let words = parse::line_parts(input, vars);
    if !text::is_blank(input) && words.contains("|"@) && depth > 0 {
        if let Some(parts) = parse::pipe_parts(words) {
            lemma_parts_ask(
                (depth - 1) as nat,
                parts,
                Seq::empty(),
                parse::in_background(line.words),
                vars,
                paths,
                more,
            );
        }
    }
}

/// Only a name without an answer is asked for.
pub proof fn law_known_names_are_not_asked(
    depth: nat,
    input: Seq<char>,
    vars: Map<Seq<char>, Seq<char>>,
    paths: Map<Seq<char>, Answer>,
)
    ensures
        parse::understood(depth, input, vars, paths) matches ParseView::Lookup(name)
            ==> !paths.contains_key(name),
{
    lemma_line_asks(depth, input, vars, paths, paths);
}

/// Once nothing more is asked, further answers change nothing.
pub proof fn law_further_answers_change_nothing(
    depth: nat,
    input: Seq<char>,
    vars: Map<Seq<char>, Seq<char>>,
    paths: Map<Seq<char>, Answer>,
    more: Map<Seq<char>, Answer>,
)
    requires
        paths.submap_of(more),
        !(parse::understood(depth, input, vars, paths) is Lookup),
    ensures
        parse::understood(depth, input, vars, more) == parse::understood(
            depth,
            input,
            vars,
            paths,
        ),
{
    lemma_line_asks(depth, input, vars, paths, more);
}

/// How often a text holds a character.
pub open spec fn count(s: Seq<char>, c: char) -> nat
    decreases s.len(),
{
    if s.len() == 0 {
        0
    } else {
        (if s[0] == c {
            1nat
        } else {
            0nat
        }) + count(s.skip(1), c)
    }
}

/// How often the words hold a character.
spec fn count_of(words: Seq<Seq<char>>, c: char) -> nat
    decreases words.len(),
{
    if words.len() == 0 {
        0
    } else {
        count(words[0], c) + count_of(words.skip(1), c)
    }
}

proof fn lemma_count_concat(a: Seq<char>, b: Seq<char>, c: char)
    ensures
        count(a + b, c) == count(a, c) + count(b, c),
    decreases a.len(),
{
    if a.len() == 0 {
        assert(a + b =~= b);
    } else {
        assert((a + b).skip(1) =~= a.skip(1) + b);
        lemma_count_concat(a.skip(1), b, c);
    }
}

proof fn lemma_count_none(s: Seq<char>, c: char)
    requires
        !s.contains(c),
    ensures
        count(s, c) == 0,
    decreases s.len(),
{
    if s.len() > 0 {
        let rest = s.skip(1);
        assert(s[0] != c);
        assert forall|i: int| 0 <= i < rest.len() implies rest[i] != c by {
            assert(rest[i] == s[i + 1]);
        }
        lemma_count_none(rest, c);
    }
}

proof fn lemma_count_push(s: Seq<char>, x: char, c: char)
    ensures
        count(s.push(x), c) == count(s, c) + (if x == c {
            1nat
        } else {
            0nat
        }),
{
    let one = seq![x];
    assert(s.push(x) =~= s + one);
    lemma_count_concat(s, one, c);
    assert(one.skip(1) =~= Seq::empty());
    assert(count(one.skip(1), c) == 0);
}

proof fn lemma_words_concat(a: Seq<Seq<char>>, b: Seq<Seq<char>>, c: char)
    ensures
        count_of(a + b, c) == count_of(a, c) + count_of(b, c),
    decreases a.len(),
{
    if a.len() == 0 {
        assert(a + b =~= b);
    } else {
        assert((a + b).skip(1) =~= a.skip(1) + b);
        lemma_words_concat(a.skip(1), b, c);
    }
}

proof fn lemma_one_word(word: Seq<char>, c: char)
    ensures
        count_of(seq![word], c) == count(word, c),
{
    let one = seq![word];
    assert(one.skip(1) =~= Seq::empty());
    assert(count_of(one.skip(1), c) == 0);
}

proof fn lemma_joined(words: Seq<Seq<char>>, c: char)
    requires
        c != ' ',
    ensures
        count(text::joined(words, " "@), c) == count_of(words, c),
    decreases words.len(),
{
    reveal_strlit(" ");
    assert(" "@ =~= seq![' ']);
    if words.len() == 1 {
        lemma_one_word(words[0], c);
        assert(words =~= seq![words[0]]);
    } else if words.len() > 1 {
        let rest = words.skip(1);
        lemma_joined(rest, c);
        let later = text::joined(rest, " "@);
        lemma_count_concat(words[0] + " "@, later, c);
        lemma_count_concat(words[0], " "@, c);
        lemma_count_none(" "@, c);
    }
}

proof fn lemma_trimmed(s: Seq<char>, c: char)
    ensures
        count(text::trimmed(s), c) <= count(s, c),
{
    lemma_trimmed_start(s, c);
    lemma_trimmed_end(text::trimmed_start(s), c);
}

proof fn lemma_trimmed_start(s: Seq<char>, c: char)
    ensures
        count(text::trimmed_start(s), c) <= count(s, c),
    decreases s.len(),
{
    if s.len() > 0 && text::is_white(s[0]) {
        lemma_trimmed_start(s.skip(1), c);
    }
}

proof fn lemma_trimmed_end(s: Seq<char>, c: char)
    ensures
        count(text::trimmed_end(s), c) <= count(s, c),
    decreases s.len(),
{
    if s.len() > 0 && text::is_white(s.last()) {
        lemma_trimmed_end(s.drop_last(), c);
        assert(s =~= s.drop_last().push(s.last()));
        lemma_count_push(s.drop_last(), s.last(), c);
    }
}

proof fn lemma_flushed(word: Seq<char>, c: char)
    ensures
        count_of(tokens::flushed(word), c) == count(word, c),
{
    if word.len() > 0 {
        lemma_one_word(word, c);
    }
}

proof fn lemma_escaped_in_double(word: Seq<char>, x: char, c: char)
    requires
        c != '\\',
    ensures
        count(word + tokens::escaped_in_double(x), c) <= count(word, c) + (if x == c {
            1nat
        } else {
            0nat
        }),
{
    let e = tokens::escaped_in_double(x);
    lemma_count_concat(word, e, c);
    let none = Seq::<char>::empty();
    if e.len() == 1 {
        assert(e =~= none.push(x));
        lemma_count_push(none, x, c);
    } else if e.len() == 2 {
        assert(e =~= none.push('\\').push(x));
        lemma_count_push(none, '\\', c);
        lemma_count_push(none.push('\\'), x, c);
    }
}

/// Reading words takes away characters and never adds any.
proof fn lemma_lexed(s: Seq<char>, quote: Quote, word: Seq<char>, c: char)
    requires
        c != '\\',
    ensures
        count_of(tokens::lexed(s, quote, word), c) <= count(word, c) + count(s, c),
    decreases s.len(),
{
    lemma_flushed(word, c);
    if s.len() > 0 {
        let x = s[0];
        let rest = s.skip(1);
        if x == '\\' && quote != Quote::Single {
            if rest.len() > 0 {
                reveal_with_fuel(count, 2);
                lemma_escaped_in_double(word, rest[0], c);
                lemma_count_push(word, rest[0], c);
                lemma_lexed(rest.skip(1), quote, word + tokens::escaped_in_double(rest[0]), c);
                lemma_lexed(rest.skip(1), quote, word.push(rest[0]), c);
            }
        } else if x == ' ' && quote == Quote::Outside {
            lemma_lexed(rest, quote, Seq::empty(), c);
            lemma_words_concat(
                tokens::flushed(word),
                tokens::lexed(rest, quote, Seq::empty()),
                c,
            );
        } else {
            lemma_count_push(word, x, c);
            lemma_lexed(rest, quote, word.push(x), c);
            lemma_lexed(rest, Quote::Outside, word, c);
            lemma_lexed(rest, Quote::Single, word, c);
            lemma_lexed(rest, Quote::Double, word, c);
        }
    }
}

/// Whether no variable has a value that holds a `$`.
pub open spec fn plain_values(vars: Map<Seq<char>, Seq<char>>) -> bool {
    forall|name: Seq<char>| #[trigger] vars.contains_key(name) ==> !vars[name].contains('$')
}

/// With values that hold no `$`, expanding takes away `$`, or changes nothing.
proof fn lemma_expanded(s: Seq<char>, vars: Map<Seq<char>, Seq<char>>)
    requires
        plain_values(vars),
    ensures
        count(expand::expanded(s, vars), '$') <= count(s, '$'),
        count(expand::expanded(s, vars), '$') == count(s, '$') ==> expand::expanded(s, vars) == s,
    decreases s.len(),
{
    let none = Seq::<char>::empty();
    if s.len() == 0 {
        assert(s =~= none);
    } else {
        let after = s.skip(1);
        let head = seq![s[0]];
        assert(head =~= none.push(s[0]));
        lemma_count_push(none, s[0], '$');
        if s[0] != '$' {
            lemma_expanded(after, vars);
            lemma_count_concat(head, expand::expanded(after, vars), '$');
            assert(head + after =~= s);
        } else if after.len() > 0 && after[0] == '{' {
            let inner = after.skip(1);
            reveal_with_fuel(count, 2);
            let close = text::find(inner, '}');
            text::lemma_find(inner, '}');
            if close < inner.len() {
                let name = inner.take(close as int);
                let rest = inner.skip(close as int + 1);
                lemma_expanded(rest, vars);
                lemma_count_none(expand::value_of(vars, name), '$');
                lemma_count_concat(
                    expand::value_of(vars, name),
                    expand::expanded(rest, vars),
                    '$',
                );
                assert(inner =~= inner.take(close as int + 1) + rest);
                lemma_count_concat(inner.take(close as int + 1), rest, '$');
            } else {
                lemma_expanded(after, vars);
                lemma_count_concat(head, expand::expanded(after, vars), '$');
                assert(head + after =~= s);
            }
        } else {
            let end = expand::name_len(after);
            expand::lemma_name_len(after);
            if end == 0 {
                lemma_expanded(after, vars);
                lemma_count_concat(head, expand::expanded(after, vars), '$');
                assert(head + after =~= s);
            } else {
                let name = after.take(end as int);
                let rest = after.skip(end as int);
                lemma_expanded(rest, vars);
                lemma_count_none(expand::value_of(vars, name), '$');
                lemma_count_concat(
                    expand::value_of(vars, name),
                    expand::expanded(rest, vars),
                    '$',
                );
                assert(after =~= name + rest);
                lemma_count_concat(name, rest, '$');
            }
        }
    }
}

proof fn lemma_escaped(word: Seq<char>, c: char)
    requires
        c != '\\',
    ensures
        count(tokens::escaped(word), c) == count(word, c),
    decreases word.len(),
{
    if word.len() > 0 {
        let pair = seq!['\\', word[0]];
        let none = Seq::<char>::empty();
        assert(pair =~= none.push('\\').push(word[0]));
        lemma_count_push(none, '\\', c);
        lemma_count_push(none.push('\\'), word[0], c);
        lemma_escaped(word.skip(1), c);
        lemma_count_concat(pair, tokens::escaped(word.skip(1)), c);
    }
}

proof fn lemma_redirection(operator: Seq<char>, file: Seq<char>, c: char)
    requires
        c != '\\',
        c != ' ',
    ensures
        count(operator + " "@ + parse::quoted(file), c) == count(operator, c) + count(file, c),
{
    reveal_strlit(" ");
    lemma_count_none(" "@, c);
    lemma_escaped(file, c);
    lemma_count_concat(operator + " "@, parse::quoted(file), c);
    lemma_count_concat(operator, " "@, c);
}

/// With values that hold no `$`, expanding the words of a line takes away `$`, or adds nothing.
proof fn lemma_kept(words: Seq<Seq<char>>, vars: Map<Seq<char>, Seq<char>>)
    requires
        plain_values(vars),
    ensures
        count_of(parse::kept(words, vars), '$') <= count_of(words, '$'),
        count_of(parse::kept(words, vars), '$') == count_of(words, '$') ==> count_of(
            parse::kept(words, vars),
            '|',
        ) <= count_of(words, '|'),
    decreases words.len(),
{
    let after = parse::kept(words, vars);
    if words.len() >= 2 && parse::is_redirection(words[0]) {
        let whole = words[0] + " "@ + parse::quoted(words[1]);
        let rest = words.skip(2);
        lemma_kept(rest, vars);
        assert(words.skip(1).skip(1) =~= rest);
        lemma_redirection(words[0], words[1], '$');
        lemma_redirection(words[0], words[1], '|');
        lemma_one_word(whole, '$');
        lemma_one_word(whole, '|');
        lemma_words_concat(seq![whole], parse::kept(rest, vars), '$');
        lemma_words_concat(seq![whole], parse::kept(rest, vars), '|');
        reveal_with_fuel(count_of, 2);
    } else if words.len() > 0 {
        let word = expand::expanded(words[0], vars);
        let rest = words.skip(1);
        lemma_expanded(words[0], vars);
        lemma_kept(rest, vars);
        lemma_one_word(word, '$');
        lemma_one_word(word, '|');
        lemma_words_concat(seq![word], parse::kept(rest, vars), '$');
        lemma_words_concat(seq![word], parse::kept(rest, vars), '|');
    }
}

proof fn lemma_removed(words: Seq<Seq<char>>, place: int, c: char)
    requires
        0 <= place < words.len(),
    ensures
        count_of(words.remove(place), c) <= count_of(words, c),
{
    let before = words.take(place);
    let one = seq![words[place]];
    let behind = words.skip(place + 1);
    assert(words =~= before + one + behind);
    assert(words.remove(place) =~= before + behind);
    lemma_words_concat(before + one, behind, c);
    lemma_words_concat(before, one, c);
    lemma_words_concat(before, behind, c);
}

/// A part between separators is less than the whole.
proof fn lemma_split(words: Seq<Seq<char>>, i: int)
    requires
        0 <= i < parse::split(words, "|"@).len(),
    ensures
        count_of(parse::split(words, "|"@)[i], '$') <= count_of(words, '$'),
        count_of(parse::split(words, "|"@)[i], '|') <= count_of(words, '|'),
        words.contains("|"@) ==> count_of(parse::split(words, "|"@)[i], '|') < count_of(
            words,
            '|',
        ),
    decreases words.len(),
{
    let sep = "|"@;
    let k = text::find(words, sep);
    text::lemma_find(words, sep);
    if k < words.len() {
        let first = words.take(k as int);
        let rest = words.skip(k as int + 1);
        assert(parse::split(words, sep) == seq![first] + parse::split(rest, sep));
        assert(words =~= first + seq![sep] + rest);
        lemma_words_concat(first + seq![sep], rest, '$');
        lemma_words_concat(first + seq![sep], rest, '|');
        lemma_words_concat(first, seq![sep], '$');
        lemma_words_concat(first, seq![sep], '|');
        lemma_one_word(sep, '|');
        reveal_strlit("|");
        assert(sep =~= Seq::<char>::empty().push('|'));
        lemma_count_push(Seq::empty(), '|', '|');
        if i > 0 {
            lemma_split(rest, i - 1);
            assert(parse::split(words, sep)[i] == parse::split(rest, sep)[i - 1]);
        }
    }
}

/// Whether a line is understood to some depth.
pub open spec fn settles(
    input: Seq<char>,
    vars: Map<Seq<char>, Seq<char>>,
    paths: Map<Seq<char>, Answer>,
) -> bool {
    exists|depth: nat| !(#[trigger] parse::understood(depth, input, vars, paths) is TooDeep)
}

proof fn lemma_parts_settle(
    parts: Seq<Seq<Seq<char>>>,
    done: Seq<crate::command::CommandView>,
    background: bool,
    vars: Map<Seq<char>, Seq<char>>,
    paths: Map<Seq<char>, Answer>,
) -> (depth: nat)
    requires
        forall|i: int|
            0 <= i < parts.len() ==> settles(
                text::joined(#[trigger] parts[i], " "@),
                vars,
                paths,
            ),
    ensures
        !(parse::understood_parts(depth, parts, done, background, vars, paths) is TooDeep),
    decreases parts.len(),
{
    if parts.len() == 0 {
        0
    } else {
        let line = text::joined(parts[0], " "@);
        assert(settles(line, vars, paths));
        let here = choose|depth: nat|
            !(#[trigger] parse::understood(depth, line, vars, paths) is TooDeep);
        match parse::understood(here, line, vars, paths) {
            ParseView::Done(command) if !parse::refused_in_pipe(command) => {
                let rest = parts.skip(1);
                assert forall|i: int| 0 <= i < rest.len() implies settles(
                    text::joined(#[trigger] rest[i], " "@),
                    vars,
                    paths,
                ) by {
                    assert(rest[i] == parts[i + 1]);
                }
                let later = lemma_parts_settle(
                    rest,
                    done.push(command),
                    background,
                    vars,
                    paths,
                );
                let depth = if here < later {
                    later
                } else {
                    here
                };
                law_depth_only_limits(here, depth, line, vars, paths);
                lemma_parts_deeper(
                    later,
                    depth,
                    rest,
                    done.push(command),
                    background,
                    vars,
                    paths,
                );
                depth
            },
            _ => here,
        }
    }
}

/// While no variable has a value that holds a `$`, every line is understood to some depth:
/// there is no end to pipes within pipes only where the value of a variable refers to one.
pub proof fn law_every_line_settles(
    input: Seq<char>,
    vars: Map<Seq<char>, Seq<char>>,
    paths: Map<Seq<char>, Answer>,
)
    requires
        plain_values(vars),
    ensures
        settles(input, vars, paths),
    decreases count(input, '$'), count(input, '|'),
{
    let trimmed = text::trimmed(input);
    let read = tokens::tokens(trimmed);
    let all = parse::kept(read, vars);
    let words = parse::line_parts(input, vars);
    let background = parse::in_background(parse::line_of(input, vars).words);
    if !text::is_blank(input) && words.contains("|"@) && parse::pipe_parts(words) is Some {
        let parts = parse::pipe_parts(words)->0;
        lemma_trimmed(input, '$');
        lemma_trimmed(input, '|');
        lemma_lexed(trimmed, Quote::Outside, Seq::empty(), '$');
        lemma_lexed(trimmed, Quote::Outside, Seq::empty(), '|');
        lemma_kept(read, vars);
        if let Some(place) = parse::last_kept_word(read) {
            parse::lemma_last_kept_word(read, vars);
            lemma_removed(all, place as int, '$');
            lemma_removed(all, place as int, '|');
        }
        assert forall|i: int| 0 <= i < parts.len() implies settles(
            text::joined(#[trigger] parts[i], " "@),
            vars,
            paths,
        ) by {
            lemma_split(words, i);
            lemma_joined(parts[i], '$');
            lemma_joined(parts[i], '|');
            law_every_line_settles(text::joined(parts[i], " "@), vars, paths);
        }
        let depth = lemma_parts_settle(parts, Seq::empty(), background, vars, paths);
        assert(!(parse::understood(depth + 1, input, vars, paths) is TooDeep));
    } else {
        assert(!(parse::understood(0, input, vars, paths) is TooDeep));
    }
}

} // verus!
