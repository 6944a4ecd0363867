//! What holds of the candidates for a completion, and of what is picked from them.
use vstd::prelude::*;
use vstd::utf8;

use crate::completion;
use crate::completion::{DirFile, DirName, TabStepView, TabView};
use crate::order;
use crate::text;

verus! {

proof fn lemma_common(a: Seq<char>, b: Seq<char>)
    ensures
        completion::common(a, b) <= a.len(),
        completion::common(a, b) <= b.len(),
        a.take(completion::common(a, b) as int) == b.take(completion::common(a, b) as int),
        forall|n: int|
            0 <= n <= a.len() && n <= b.len() && #[trigger] a.take(n) == b.take(n) ==> n
                <= completion::common(a, b),
    decreases a.len(),
{
    let k = completion::common(a, b);
    if a.len() == 0 || b.len() == 0 || a[0] != b[0] {
        assert(a.take(0) =~= b.take(0));
        assert forall|n: int|
            0 <= n <= a.len() && n <= b.len() && #[trigger] a.take(n) == b.take(n) implies n
            <= k by {
            if n > 0 {
                assert(a.take(n)[0] == b.take(n)[0]);
            }
        }
    } else {
        let x = a.skip(1);
        let y = b.skip(1);
        lemma_common(x, y);
        assert(a.take(k as int) =~= seq![a[0]] + x.take(k - 1));
        assert(b.take(k as int) =~= seq![b[0]] + y.take(k - 1));
        assert forall|n: int|
            0 <= n <= a.len() && n <= b.len() && #[trigger] a.take(n) == b.take(n) implies n
            <= k by {
            if n > 0 {
                assert(x.take(n - 1) =~= a.take(n).skip(1));
                assert(y.take(n - 1) =~= b.take(n).skip(1));
            }
        }
    }
}

proof fn lemma_shared(first: Seq<char>, others: Seq<Seq<char>>)
    ensures
        completion::shared(first, others) <= first.len(),
        forall|i: int|
            0 <= i < others.len() ==> completion::shared(first, others) <= completion::common(
                first,
                #[trigger] others[i],
            ),
        completion::shared(first, others) == first.len() || exists|i: int|
            0 <= i < others.len() && completion::shared(first, others) == completion::common(
                first,
                #[trigger] others[i],
            ),
    decreases others.len(),
{
    if others.len() > 0 {
        let before = others.drop_last();
        lemma_shared(first, before);
        lemma_common(first, others.last());
        let n = completion::shared(first, others);
        assert forall|i: int| 0 <= i < others.len() implies n <= completion::common(
            first,
            #[trigger] others[i],
        ) by {
            if i < before.len() {
                assert(others[i] == before[i]);
            }
        }
        if n == completion::shared(first, before) && n != first.len() {
            let i = choose|i: int|
                0 <= i < before.len() && n == completion::common(first, #[trigger] before[i]);
            assert(others[i] == before[i]);
        } else if n != first.len() {
            assert(others[others.len() - 1] == others.last());
        }
    }
}

proof fn lemma_byte_len(s: Seq<char>, n: int)
    requires
        0 <= n <= s.len(),
    ensures
        n < s.len() ==> completion::byte_len(s.take(n)) < completion::byte_len(s),
    decreases s.len(),
{
    if n < s.len() {
        let rest = s.drop_first();
        assert(utf8::encode_scalar(s[0] as u32).len() > 0);
        if n > 0 {
            let head = s.take(n);
            assert(head.drop_first() =~= rest.take(n - 1));
            assert(head[0] == s[0]);
            lemma_byte_len(rest, n - 1);
        } else {
            assert(utf8::encode_utf8(s.take(0)).len() == 0);
        }
    }
}

/// Whether each of the names begins with `prefix`.
pub open spec fn all_begin_with(names: Seq<Seq<char>>, prefix: Seq<char>) -> bool {
    forall|i: int| 0 <= i < names.len() ==> text::begins_with(#[trigger] names[i], prefix)
}

/// The common prefix of names is the longest text that each of them begins with.
pub proof fn law_common_prefix_is_the_longest(names: Seq<Seq<char>>)
    requires
        names.len() > 0,
    ensures
        all_begin_with(names, completion::common_prefix(names)),
        forall|prefix: Seq<char>|
            #[trigger] all_begin_with(names, prefix) ==> text::begins_with(
                completion::common_prefix(names),
                prefix,
            ),
{
    let first = names[0];
    let common = completion::common_prefix(names);
    let others = names.skip(1);
    let n = completion::shared(first, others);
    lemma_shared(first, others);
    assert forall|i: int| 0 <= i < names.len() implies text::begins_with(
        #[trigger] names[i],
        common,
    ) by {
        if i > 0 {
            assert(names[i] == others[i - 1]);
            lemma_common(first, names[i]);
            let k = completion::common(first, names[i]) as int;
            assert(first.take(k).take(n as int) =~= first.take(n as int));
            assert(names[i].take(k).take(n as int) =~= names[i].take(n as int));
        }
    }
    assert forall|prefix: Seq<char>| #[trigger]
        all_begin_with(names, prefix) implies text::begins_with(common, prefix) by {
        let m = prefix.len() as int;
        assert(text::begins_with(names[0], prefix));
        if n != first.len() {
            let i = choose|i: int|
                0 <= i < others.len() && n == completion::common(first, #[trigger] others[i]);
            assert(names[i + 1] == others[i]);
            assert(text::begins_with(names[i + 1], prefix));
            lemma_common(first, others[i]);
            assert(first.take(m) == others[i].take(m));
        }
        assert(common.take(m) =~= first.take(m));
    }
}

/// Of candidates that begin with the word, what is picked begins with the word too: the only
/// candidate and a space, more than the word that all have in common, or all of them if they
/// have no more in common.
pub proof fn law_completion_extends_the_word(word: Seq<char>, candidates: Seq<Seq<char>>)
    requires
        all_begin_with(candidates, word),
    ensures
        match completion::picked(word, candidates) {
            TabView::Nothing => candidates.len() == 0,
            TabView::Single(s) => {
                &&& text::begins_with(s, word)
                &&& s.len() > word.len()
                &&& candidates.len() > 1 ==> all_begin_with(candidates, s)
            },
            TabView::Multiple(list) => {
                &&& list == candidates
                &&& completion::common_prefix(candidates) == word
            },
        },
{
    if candidates.len() > 0 {
        let common = completion::common_prefix(candidates);
        law_common_prefix_is_the_longest(candidates);
        assert(text::begins_with(candidates[0], word));
        assert(text::begins_with(common, word));
        lemma_byte_len(common, word.len() as int);
        if candidates.len() == 1 {
            reveal_strlit(" ");
            let s = candidates[0] + " "@;
            assert(s.take(word.len() as int) =~= candidates[0].take(word.len() as int));
        } else if common.len() == word.len() {
            assert(common.take(common.len() as int) =~= common);
        }
    }
}

/// The completion of a command, given the files of the search path, begins with the word.
pub proof fn law_completed_command_extends_the_word(files: Seq<DirFile>, word: Seq<char>)
    ensures
        ({
            let options = completion::command_options(word, completion::executables(files, word));
            match completion::picked(word, options) {
                TabView::Nothing => options.len() == 0,
                TabView::Single(s) => text::begins_with(s, word) && s.len() > word.len(),
                TabView::Multiple(list) => list == options && all_begin_with(list, word),
            }
        }),
{
    law_command_options(files, word);
    law_completion_extends_the_word(
        word,
        completion::command_options(word, completion::executables(files, word)),
    );
}

proof fn lemma_filtered<T>(s: Seq<T>, p: spec_fn(T) -> bool, i: int)
    requires
        0 <= i < s.filter(p).len(),
    ensures
        p(s.filter(p)[i]),
        s.contains(s.filter(p)[i]),
    decreases s.len(),
{
    reveal_with_fuel(Seq::filter, 1);
    let before = s.drop_last();
    if i < before.filter(p).len() {
        lemma_filtered(before, p, i);
        let k = choose|k: int| 0 <= k < before.len() && before[k] == before.filter(p)[i];
        assert(s[k] == s.filter(p)[i]);
    } else {
        assert(s[s.len() - 1] == s.filter(p)[i]);
    }
}

proof fn lemma_kept<T>(s: Seq<T>, p: spec_fn(T) -> bool, i: int) -> (k: int)
    requires
        0 <= i < s.len(),
        p(s[i]),
    ensures
        0 <= k < s.filter(p).len(),
        s.filter(p)[k] == s[i],
    decreases s.len(),
{
    reveal_with_fuel(Seq::filter, 1);
    let before = s.drop_last();
    if i < before.len() {
        assert(before[i] == s[i]);
        lemma_kept(before, p, i)
    } else {
        before.filter(p).len() as int
    }
}

/// The executable files offered for a command stand in order, none is there twice, and they
/// are just the names of the files that can be run, are not hidden and begin with the word.
pub proof fn law_executables(files: Seq<DirFile>, word: Seq<char>)
    ensures
        order::in_order(completion::executables(files, word)),
        completion::executables(files, word).no_duplicates(),
        all_begin_with(completion::executables(files, word), word),
        forall|name: Seq<char>| #[trigger]
            completion::executables(files, word).contains(name) <==> exists|i: int|
                0 <= i < files.len() && completion::file_fits(#[trigger] files[i], word)
                    && files[i].name@ == name,
{
    let keep = |f: DirFile| completion::file_fits(f, word);
    let show = |f: DirFile| f.name@;
    let fitting = files.filter(keep);
    let names = fitting.map_values(show);
    let sorted = order::sorted(names);
    let all = completion::executables(files, word);
    order::law_sorted(names);
    order::law_deduped(sorted);
    assert forall|name: Seq<char>| #[trigger] all.contains(name) <==> exists|i: int|
        0 <= i < files.len() && completion::file_fits(#[trigger] files[i], word) && files[i].name@
            == name by {
        order::law_deduped_keeps(sorted, name);
        order::law_sorted_keeps(names, name);
        if names.contains(name) {
            let k = choose|k: int| 0 <= k < names.len() && names[k] == name;
            lemma_filtered(files, keep, k);
            let i = choose|i: int| 0 <= i < files.len() && files[i] == fitting[k];
            assert(completion::file_fits(files[i], word) && files[i].name@ == name);
        }
        if exists|i: int|
            0 <= i < files.len() && completion::file_fits(#[trigger] files[i], word)
                && files[i].name@ == name {
            let i = choose|i: int|
                0 <= i < files.len() && completion::file_fits(#[trigger] files[i], word)
                    && files[i].name@ == name;
            let k = lemma_kept(files, keep, i);
            assert(names[k] == name);
        }
    }
    assert forall|i: int| 0 <= i < all.len() implies text::begins_with(#[trigger] all[i], word) by {
        assert(all.contains(all[i]));
        let k = choose|k: int|
            0 <= k < files.len() && completion::file_fits(#[trigger] files[k], word)
                && files[k].name@ == all[i];
        assert(completion::file_fits(files[k], word));
    }
}

proof fn lemma_with_missing(list: Seq<Seq<char>>, more: Seq<Seq<char>>)
    ensures
        list.is_prefix_of(completion::with_missing(list, more)),
        list.no_duplicates() ==> completion::with_missing(list, more).no_duplicates(),
        forall|name: Seq<char>| #[trigger]
            completion::with_missing(list, more).contains(name) <==> list.contains(name)
                || more.contains(name),
    decreases more.len(),
{
    let whole = completion::with_missing(list, more);
    if more.len() > 0 {
        let rest = more.skip(1);
        let next = if list.contains(more[0]) {
            list
        } else {
            list.push(more[0])
        };
        lemma_with_missing(next, rest);
        assert forall|name: Seq<char>| next.contains(name) <==> list.contains(name) || name
            == more[0] && next.contains(name) by {
            if next.contains(name) {
                let i = choose|i: int| 0 <= i < next.len() && next[i] == name;
                if i < list.len() {
                    assert(list[i] == name);
                }
            }
            if list.contains(name) {
                let i = choose|i: int| 0 <= i < list.len() && list[i] == name;
                assert(next[i] == name);
            }
        }
        if !list.contains(more[0]) {
            assert(next[list.len() as int] == more[0]);
        }
        assert forall|name: Seq<char>| #[trigger]
            whole.contains(name) <==> list.contains(name) || more.contains(name) by {
            if more.contains(name) {
                let i = choose|i: int| 0 <= i < more.len() && more[i] == name;
                if i > 0 {
                    assert(rest[i - 1] == name);
                }
            }
            if rest.contains(name) {
                let i = choose|i: int| 0 <= i < rest.len() && rest[i] == name;
                assert(more[i + 1] == name);
            }
            if name == more[0] {
                assert(more[0] == name);
                assert(next.contains(name));
            }
        }
    }
}

/// The options for a command begin with the word, none is there twice, and they are the names
/// that the shell answers itself and the executable files that begin with it.
pub proof fn law_command_options(files: Seq<DirFile>, word: Seq<char>)
    ensures
        ({
            let executables = completion::executables(files, word);
            let options = completion::command_options(word, executables);
            &&& all_begin_with(options, word)
            &&& options.no_duplicates()
            &&& forall|name: Seq<char>| #[trigger]
                options.contains(name) <==> completion::builtin_names().contains(name)
                    && text::begins_with(name, word) || executables.contains(name)
        }),
{
    let executables = completion::executables(files, word);
    let options = completion::command_options(word, executables);
    let keep = |name: Seq<char>| text::begins_with(name, word);
    let names = completion::builtin_names();
    let own = names.filter(keep);
    law_executables(files, word);
    lemma_with_missing(own, executables);
    lemma_builtin_names_differ();
    lemma_filter_no_duplicates(names, keep);
    assert forall|name: Seq<char>| #[trigger]
        options.contains(name) <==> names.contains(name) && text::begins_with(name, word)
            || executables.contains(name) by {
        if own.contains(name) {
            let i = choose|i: int| 0 <= i < own.len() && own[i] == name;
            lemma_filtered(names, keep, i);
        }
        if names.contains(name) && text::begins_with(name, word) {
            let i = choose|i: int| 0 <= i < names.len() && names[i] == name;
            let k = lemma_kept(names, keep, i);
        }
    }
    assert forall|i: int| 0 <= i < options.len() implies text::begins_with(
        #[trigger] options[i],
        word,
    ) by {
        assert(options.contains(options[i]));
        if executables.contains(options[i]) {
            let k = choose|k: int| 0 <= k < executables.len() && executables[k] == options[i];
            assert(text::begins_with(executables[k], word));
        }
    }
}

proof fn lemma_filter_no_duplicates<T>(s: Seq<T>, p: spec_fn(T) -> bool)
    requires
        s.no_duplicates(),
    ensures
        s.filter(p).no_duplicates(),
    decreases s.len(),
{
    reveal_with_fuel(Seq::filter, 1);
    if s.len() > 0 {
        let before = s.drop_last();
        assert(before.no_duplicates()) by {
            assert forall|i: int, j: int|
                0 <= i < before.len() && 0 <= j < before.len() && i != j implies before[i]
                != before[j] by {
                assert(before[i] == s[i] && before[j] == s[j]);
            }
        }
        lemma_filter_no_duplicates(before, p);
        let kept = before.filter(p);
        assert forall|i: int| 0 <= i < kept.len() implies kept[i] != s.last() by {
            lemma_filtered(before, p, i);
            let k = choose|k: int| 0 <= k < before.len() && before[k] == kept[i];
            assert(s[k] == kept[i]);
            assert(s[s.len() - 1] == s.last());
        }
    }
}

proof fn lemma_builtin_names_differ()
    ensures
        completion::builtin_names().no_duplicates(),
{
    let names = completion::builtin_names();
    reveal_strlit("echo");
    reveal_strlit("type");
    reveal_strlit("exit");
    reveal_strlit("pwd");
    reveal_strlit("cd");
    reveal_strlit("complete");
    reveal_strlit("jobs");
    reveal_strlit("history");
    reveal_strlit("declare");
    assert(names.len() == 9);
    assert(names[0] == "echo"@ && names[0].len() == 4);
    assert(names[0][0] == 'e' && names[0][1] == 'c');
    assert(names[1] == "type"@ && names[1].len() == 4);
    assert(names[1][0] == 't' && names[1][1] == 'y');
    assert(names[2] == "exit"@ && names[2].len() == 4);
    assert(names[2][0] == 'e' && names[2][1] == 'x');
    assert(names[3] == "pwd"@ && names[3].len() == 3);
    assert(names[3][0] == 'p' && names[3][1] == 'w');
    assert(names[4] == "cd"@ && names[4].len() == 2);
    assert(names[4][0] == 'c' && names[4][1] == 'd');
    assert(names[5] == "complete"@ && names[5].len() == 8);
    assert(names[5][0] == 'c' && names[5][1] == 'o');
    assert(names[6] == "jobs"@ && names[6].len() == 4);
    assert(names[6][0] == 'j' && names[6][1] == 'o');
    assert(names[7] == "history"@ && names[7].len() == 7);
    assert(names[7][0] == 'h' && names[7][1] == 'i');
    assert(names[8] == "declare"@ && names[8].len() == 7);
    assert(names[8][0] == 'd' && names[8][1] == 'e');
}

/// The options for a path stand in order, and they are just the names that begin with what is
/// there of the path's last part and are not hidden, each with the sign of its kind.
pub proof fn law_path_options(path: Seq<char>, entries: Seq<DirName>)
    ensures
        order::in_order(completion::path_options(path, entries)),
        all_begin_with(completion::path_options(path, entries), completion::file_part(path)),
        forall|option: Seq<char>| #[trigger]
            completion::path_options(path, entries).contains(option) <==> exists|i: int|
                0 <= i < entries.len() && completion::name_fits(
                    (#[trigger] entries[i]).name@,
                    completion::file_part(path),
                ) && entries[i].name@ + completion::suffix(entries[i].is_dir) == option,
{
    let part = completion::file_part(path);
    let keep = |e: DirName| completion::name_fits(e.name@, part);
    let show = |e: DirName| e.name@ + completion::suffix(e.is_dir);
    let fitting = entries.filter(keep);
    let names = fitting.map_values(show);
    let all = completion::path_options(path, entries);
    order::law_sorted(names);
    assert forall|option: Seq<char>| #[trigger] all.contains(option) <==> exists|i: int|
        0 <= i < entries.len() && completion::name_fits((#[trigger] entries[i]).name@, part)
            && entries[i].name@ + completion::suffix(entries[i].is_dir) == option by {
        order::law_sorted_keeps(names, option);
        if names.contains(option) {
            let k = choose|k: int| 0 <= k < names.len() && names[k] == option;
            lemma_filtered(entries, keep, k);
            let i = choose|i: int| 0 <= i < entries.len() && entries[i] == fitting[k];
            assert(completion::name_fits(entries[i].name@, part));
        }
        if exists|i: int|
            0 <= i < entries.len() && completion::name_fits((#[trigger] entries[i]).name@, part)
                && entries[i].name@ + completion::suffix(entries[i].is_dir) == option {
            let i = choose|i: int|
                0 <= i < entries.len() && completion::name_fits(
                    (#[trigger] entries[i]).name@,
                    part,
                ) && entries[i].name@ + completion::suffix(entries[i].is_dir) == option;
            let k = lemma_kept(entries, keep, i);
            assert(names[k] == option);
        }
    }
    assert forall|k: int| 0 <= k < all.len() implies text::begins_with(#[trigger] all[k], part) by {
        assert(all.contains(all[k]));
        let i = choose|i: int|
            0 <= i < entries.len() && completion::name_fits((#[trigger] entries[i]).name@, part)
                && entries[i].name@ + completion::suffix(entries[i].is_dir) == all[k];
        let n = part.len() as int;
        assert(all[k].take(n) =~= entries[i].name@.take(n));
    }
}

proof fn lemma_after_last(before: Seq<char>, word: Seq<char>, c: char)
    requires
        !word.contains(c),
        before.len() > 0 ==> before.last() == c,
    ensures
        completion::after_last(before + word, c) == before.len(),
    decreases word.len(),
{
    let whole = before + word;
    if word.len() == 0 {
        assert(whole =~= before);
    } else {
        let rest = word.drop_last();
        assert(word[word.len() - 1] != c);
        assert(whole.last() == word.last());
        assert(whole.drop_last() =~= before + rest);
        assert forall|i: int| 0 <= i < rest.len() implies rest[i] != c by {
            assert(rest[i] == word[i]);
        }
        lemma_after_last(before, rest, c);
    }
}

/// The word at the end of a line is what stands behind its last space.
pub proof fn law_last_word(before: Seq<char>, word: Seq<char>)
    requires
        !word.contains(' '),
        before.len() > 0 ==> before.last() == ' ',
    ensures
        completion::last_word(before + word) == word,
{
    lemma_after_last(before, word, ' ');
    assert((before + word).skip(before.len() as int) =~= word);
}

/// A path is its directory, up to the last `/` and with it, and the name behind that; where there
/// is no `/` it is searched for in the current directory.
pub proof fn law_parts_of_a_path(dir: Seq<char>, name: Seq<char>)
    requires
        !name.contains('/'),
        dir.len() > 0 ==> dir.last() == '/',
    ensures
        completion::directory_part(dir + name) == dir,
        completion::file_part(dir + name) == name,
        dir.len() > 0 ==> completion::search_directory(dir + name) == dir,
        dir.len() == 0 ==> completion::search_directory(dir + name) == seq!['.'],
{
    lemma_after_last(dir, name, '/');
    assert((dir + name).take(dir.len() as int) =~= dir);
    assert((dir + name).skip(dir.len() as int) =~= name);
    reveal_strlit(".");
    assert("."@ =~= seq!['.']);
}

/// Every path has a directory part and a name that make it up.
proof fn lemma_path_is_its_parts(path: Seq<char>)
    ensures
        completion::directory_part(path) + completion::file_part(path) == path,
{
    lemma_after_last_bound(path, '/');
    assert(completion::directory_part(path) + completion::file_part(path) =~= path);
}

proof fn lemma_after_last_bound(s: Seq<char>, c: char)
    ensures
        completion::after_last(s, c) <= s.len(),
    decreases s.len(),
{
    if s.len() > 0 && s.last() != c {
        lemma_after_last_bound(s.drop_last(), c);
    }
}

proof fn lemma_begins_behind(dir: Seq<char>, name: Seq<char>, option: Seq<char>, end: Seq<char>)
    requires
        text::begins_with(option, name),
    ensures
        text::begins_with(dir + option, dir + name),
        text::begins_with(dir + option + end, dir + name),
{
    let n = (dir + name).len() as int;
    assert((dir + option).take(n) =~= dir + option.take(name.len() as int));
    assert((dir + option + end).take(n) =~= dir + option.take(name.len() as int));
}

/// What a path is completed to begins with the whole of the path that was typed, if its options
/// begin with the part behind the last `/`: the only completion does, and each of several does.
pub proof fn law_completed_path_extends_the_path(
    path: Seq<char>,
    options: Seq<Seq<char>>,
    is_dir: bool,
)
    requires
        all_begin_with(options, completion::file_part(path)),
    ensures
        match completion::completed_path(path, options, is_dir) {
            TabView::Nothing => options.len() == 0,
            TabView::Single(s) => options.len() > 0 && text::begins_with(s, path) && s.len()
                > path.len(),
            TabView::Multiple(list) => options.len() > 1 && list.len() == options.len()
                && all_begin_with(list, path),
        },
{
    let dir = completion::directory_part(path);
    let name = completion::file_part(path);
    let done = completion::completed_path(path, options, is_dir);
    lemma_path_is_its_parts(path);
    let end = completion::suffix(is_dir);
    reveal_strlit("/");
    reveal_strlit(" ");
    if options.len() > 0 {
        let common = completion::common_prefix(options);
        law_common_prefix_is_the_longest(options);
        assert(text::begins_with(options[0], name));
        lemma_begins_behind(dir, name, options[0], end);
        assert(text::begins_with(common, name));
        lemma_begins_behind(dir, name, common, end);
        if let TabView::Multiple(list) = done {
            assert forall|i: int| 0 <= i < list.len() implies text::begins_with(
                #[trigger] list[i],
                path,
            ) by {
                assert(text::begins_with(options[i], name));
                lemma_begins_behind(dir, name, options[i], end);
            }
        }
        if common.len() == name.len() {
            assert(common.take(common.len() as int) =~= common);
        }
    }
}

/// The only option of a path takes the place of the part behind its last `/`, with a `/` behind
/// it if it is a directory and a space if not; more than one become what they have in common, if
/// that is more than what is there, and else each is shown behind the directory that was typed.
pub proof fn law_completed_paths(
    dir: Seq<char>,
    name: Seq<char>,
    options: Seq<Seq<char>>,
    is_dir: bool,
)
    requires
        !name.contains('/'),
        dir.len() > 0 ==> dir.last() == '/',
        options.len() > 0,
    ensures
        ({
            let end = if is_dir {
                '/'
            } else {
                ' '
            };
            match completion::completed_path(dir + name, options, is_dir) {
                TabView::Nothing => false,
                TabView::Single(s) => if options.len() == 1 {
                    s == (dir + options[0]).push(end)
                } else {
                    &&& text::begins_with(s, dir)
                    &&& all_begin_with(options, s.skip(dir.len() as int))
                    &&& completion::byte_len(s.skip(dir.len() as int)) > completion::byte_len(name)
                },
                TabView::Multiple(list) => {
                    &&& options.len() > 1
                    &&& list.len() == options.len()
                    &&& forall|i: int|
                        0 <= i < list.len() ==> #[trigger] list[i] == (dir + options[i]).push(end)
                    &&& all_begin_with(options, name) ==> completion::common_prefix(options) == name
                },
            }
        }),
{
    law_parts_of_a_path(dir, name);
    law_common_prefix_is_the_longest(options);
    reveal_strlit("/");
    reveal_strlit(" ");
    let end = completion::suffix(is_dir);
    let last = if is_dir {
        '/'
    } else {
        ' '
    };
    assert(end =~= seq![last]);
    let common = completion::common_prefix(options);
    assert((dir + common).skip(dir.len() as int) =~= common);
    assert((dir + common).take(dir.len() as int) =~= dir);
    assert((dir + options[0]).push(last) =~= dir + options[0] + end);
    if let TabView::Multiple(list) = completion::completed_path(dir + name, options, is_dir) {
        assert forall|i: int| 0 <= i < list.len() implies #[trigger] list[i] == (dir
            + options[i]).push(last) by {
            assert((dir + options[i]).push(last) =~= dir + options[i] + end);
        }
        if all_begin_with(options, name) {
            assert(text::begins_with(common, name));
            lemma_byte_len(common, name.len() as int);
            assert(common.take(common.len() as int) =~= common);
        }
    }
}

/// It has to be known of the first option whether it is a directory where there is one option,
/// or where several are shown.
pub proof fn law_what_is_probed(dir: Seq<char>, name: Seq<char>, options: Seq<Seq<char>>)
    requires
        !name.contains('/'),
        dir.len() > 0 ==> dir.last() == '/',
    ensures
        completion::probed(dir + name, options) is Some <==> options.len() == 1 || (
        completion::completed_path(dir + name, options, false) is Multiple),
        completion::probed(dir + name, options) matches Some(path) ==> path == (if dir.len() == 0 {
            seq!['.']
        } else {
            dir
        }) + options[0],
{
    law_parts_of_a_path(dir, name);
}

/// A name serves if it begins with the word and is not hidden, and a file only if it can be
/// executed.
pub proof fn law_fitting_names(name: Seq<char>, word: Seq<char>, file: DirFile)
    ensures
        completion::name_fits(name, word) <==> text::begins_with(name, word) && (name.len() == 0
            || name[0] != '.'),
        completion::file_fits(file, word) <==> completion::name_fits(file.name@, word) && file.meta
            is Some && crate::lookup::executable(file.meta->0),
{
}

/// The only candidate is picked, with a space behind it; of several, what they have in common if
/// that is longer than the word, and else all of them.
pub proof fn law_what_is_picked(word: Seq<char>, candidates: Seq<Seq<char>>)
    ensures
        candidates.len() == 1 ==> completion::picked(word, candidates) == TabView::Single(
            candidates[0].push(' '),
        ),
        candidates.len() > 1 ==> match completion::picked(word, candidates) {
            TabView::Nothing => false,
            TabView::Single(s) => {
                &&& all_begin_with(candidates, s)
                &&& forall|longer: Seq<char>|
                    #[trigger] all_begin_with(candidates, longer) ==> text::begins_with(s, longer)
                &&& completion::byte_len(s) > completion::byte_len(word)
            },
            TabView::Multiple(list) => {
                &&& list == candidates
                &&& completion::byte_len(completion::common_prefix(candidates))
                    <= completion::byte_len(word)
            },
        },
{
    if candidates.len() == 1 {
        reveal_strlit(" ");
        assert(candidates[0] + " "@ =~= candidates[0].push(' '));
    } else if candidates.len() > 1 {
        law_common_prefix_is_the_longest(candidates);
    }
}

/// A word that is the whole line is completed as a path if it holds a `/` or begins with a dot,
/// and else as a command; nothing is offered for an empty line.
pub proof fn law_first_words(word: Seq<char>, completions: Map<Seq<char>, Seq<char>>)
    requires
        !word.contains(' '),
    ensures
        word.len() == 0 ==> completion::first_step(word, completions) == TabStepView::Finished(
            TabView::Multiple(Seq::empty()),
        ),
        word.len() > 0 && (word.contains('/') || word[0] == '.') ==> completion::first_step(
            word,
            completions,
        ) == (TabStepView::ListDirectory {
            prefix: word,
            search_dir: completion::search_directory(word),
        }),
        word.len() > 0 && !word.contains('/') && word[0] != '.' ==> completion::first_step(
            word,
            completions,
        ) == (TabStepView::ListExecutables { prefix: word }),
{
    let none = Seq::<char>::empty();
    law_last_word(none, word);
    lemma_after_last(none, word, ' ');
    assert(none + word =~= word);
}

/// A word behind a command is completed by the script for that command, which is told the
/// command, the word, what stands between them and the whole line; where there is no script, or
/// it offers nothing, the word is completed as a path.
pub proof fn law_later_words(
    command: Seq<char>,
    between: Seq<char>,
    word: Seq<char>,
    completions: Map<Seq<char>, Seq<char>>,
)
    requires
        !command.contains(' '),
        !word.contains(' '),
        between.len() > 0 ==> between.last() == ' ',
    ensures
        ({
            let line = command + seq![' '] + between + word;
            let step = completion::first_step(line, completions);
            let as_path = if word.len() == 0 {
                TabStepView::Finished(TabView::Multiple(Seq::empty()))
            } else {
                TabStepView::ListDirectory {
                    prefix: word,
                    search_dir: completion::search_directory(word),
                }
            };
            &&& !completions.contains_key(command) ==> step == as_path
            &&& completion::second_step(line, None) == as_path
            &&& completion::second_step(line, Some(Seq::empty())) == as_path
            &&& completions.contains_key(command) ==> match step {
                TabStepView::RunScript(call) => {
                    &&& call.script == completions[command]
                    &&& call.command == command
                    &&& call.prefix == word
                    &&& call.comp_line == line
                    &&& call.comp_point == utf8::encode_utf8(line).len()
                    &&& call.prev_word == (if between.len() == 0 {
                        Seq::empty()
                    } else {
                        text::trimmed(between.drop_last())
                    })
                },
                _ => false,
            }
        }),
{
    let before = command + seq![' '] + between;
    let line = before + word;
    assert(line =~= command + seq![' '] + between + word);
    law_last_word(before, word);
    lemma_after_last(before, word, ' ');
    let n = command.len() as int;
    assert forall|i: int| 0 <= i < n implies line[i] != ' ' by {
        assert(line[i] == command[i]);
    }
    text::lemma_find_is(line, ' ', n);
    assert(line.take(n) =~= command);
    if between.len() > 0 {
        assert(line.subrange(n + 1, before.len() - 1) =~= between.drop_last());
    }
    law_script_offers(Seq::empty());
    assert(crate::lines::lines(Seq::empty()) =~= Seq::empty());
}

/// A script offers the lines that it prints, without white space at their ends, in order; the
/// word is completed from them if there is one.
pub proof fn law_script_offers(output: Seq<char>)
    ensures
        order::in_order(completion::offered(output)),
        completion::offered(output).len() == crate::lines::lines(output).len(),
        forall|offer: Seq<char>| #[trigger]
            completion::offered(output).contains(offer) <==> exists|i: int|
                0 <= i < crate::lines::lines(output).len() && text::trimmed(
                    #[trigger] crate::lines::lines(output)[i],
                ) == offer,
{
    let lines = crate::lines::lines(output);
    let shown = lines.map_values(|l: Seq<char>| text::trimmed(l));
    order::law_sorted(shown);
    assert forall|offer: Seq<char>| #[trigger]
        completion::offered(output).contains(offer) <==> exists|i: int|
            0 <= i < lines.len() && text::trimmed(#[trigger] lines[i]) == offer by {
        order::law_sorted_keeps(shown, offer);
        if shown.contains(offer) {
            let i = choose|i: int| 0 <= i < shown.len() && shown[i] == offer;
            assert(text::trimmed(lines[i]) == offer);
        }
        if exists|i: int| 0 <= i < lines.len() && text::trimmed(#[trigger] lines[i]) == offer {
            let i = choose|i: int|
                0 <= i < lines.len() && text::trimmed(#[trigger] lines[i]) == offer;
            assert(shown[i] == offer);
        }
    }
}

/// After a script the word is completed from what the script offers.
pub proof fn law_offers_complete_the_word(
    before: Seq<char>,
    word: Seq<char>,
    output: Seq<char>,
)
    requires
        !word.contains(' '),
        before.len() > 0 ==> before.last() == ' ',
        crate::lines::lines(output).len() > 0,
    ensures
        completion::second_step(before + word, Some(output)) == TabStepView::Finished(
            completion::picked(word, completion::offered(output)),
        ),
{
    law_last_word(before, word);
    law_script_offers(output);
}

proof fn lemma_missing_in_order(list: Seq<Seq<char>>, more: Seq<Seq<char>>, n: int)
    requires
        0 <= n <= list.len(),
        order::in_order(list.skip(n) + more),
    ensures
        order::in_order(completion::with_missing(list, more).skip(n)),
    decreases more.len(),
{
    if more.len() == 0 {
        assert(list.skip(n) + more =~= list.skip(n));
    } else {
        let rest = more.skip(1);
        let all = list.skip(n) + more;
        if list.contains(more[0]) {
            let fewer = list.skip(n) + rest;
            assert forall|i: int, j: int| 0 <= i < j < fewer.len() implies order::text_le(
                #[trigger] fewer[i],
                #[trigger] fewer[j],
            ) by {
                let k = list.len() - n;
                let a = if i < k {
                    i
                } else {
                    i + 1
                };
                let b = if j < k {
                    j
                } else {
                    j + 1
                };
                assert(fewer[i] == all[a] && fewer[j] == all[b]);
            }
            lemma_missing_in_order(list, rest, n);
        } else {
            let next = list.push(more[0]);
            assert(next.skip(n) + rest =~= all);
            lemma_missing_in_order(next, rest, n);
        }
    }
}

/// Among the options for a command, the names that the shell answers itself come first, and
/// behind them the executable files in order.
pub proof fn law_order_of_command_options(files: Seq<DirFile>, word: Seq<char>)
    ensures
        ({
            let options = completion::command_options(word, completion::executables(files, word));
            exists|k: int|
                #![trigger options.skip(k)]
                0 <= k <= options.len() && order::in_order(options.skip(k)) && (forall|i: int|
                    0 <= i < options.len() ==> (completion::builtin_names().contains(
                        #[trigger] options[i],
                    ) <==> i < k))
        }),
{
    let executables = completion::executables(files, word);
    let options = completion::command_options(word, executables);
    let keep = |name: Seq<char>| text::begins_with(name, word);
    let names = completion::builtin_names();
    let own = names.filter(keep);
    let k = own.len() as int;
    law_executables(files, word);
    law_command_options(files, word);
    lemma_with_missing(own, executables);
    assert(own.skip(k) + executables =~= executables);
    lemma_missing_in_order(own, executables, k);
    assert forall|i: int| 0 <= i < options.len() implies (names.contains(#[trigger] options[i])
        <==> i < k) by {
        if i < k {
            assert(options[i] == own[i]);
            lemma_filtered(names, keep, i);
        } else if names.contains(options[i]) {
            assert(text::begins_with(options[i], word));
            let m = choose|m: int| 0 <= m < names.len() && names[m] == options[i];
            let j = lemma_kept(names, keep, m);
            assert(options[j] == own[j]);
        }
    }
    assert(order::in_order(options.skip(k)));
}

} // verus!
