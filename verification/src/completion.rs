//! Completing the word at the end of a line.
use vstd::prelude::*;
use vstd::utf8;

use crate::command::{Command, BUILT_IN_COMMANDS};
use crate::lines;
use crate::lines::split_lines;
use crate::lookup;
use crate::lookup::{is_executable, FileMeta};
use crate::order;
use crate::order::{dedup, sort};
use crate::store;
use crate::store::TextMap;
use crate::text;
use crate::text::{
    chars_of, contains_char, contains_text, find_from, push_text, starts_with, text_between, trim,
};

verus! {

/// What a word can be completed to.
#[derive(Debug, PartialEq, Eq)]
pub enum TabCompletion {
    /// The word becomes this one.
    Single(String),
    /// The word may become any of these.
    Multiple(Vec<String>),
    /// Nothing begins with the word.
    Nothing,
}

/// What a `TabCompletion` says.
pub enum TabView {
    Single(Seq<char>),
    Multiple(Seq<Seq<char>>),
    Nothing,
}

impl View for TabCompletion {
    type V = TabView;

    open spec fn view(&self) -> TabView {
        match self {
            TabCompletion::Single(s) => TabView::Single(s@),
            TabCompletion::Multiple(list) => TabView::Multiple(text::texts(list@)),
            TabCompletion::Nothing => TabView::Nothing,
        }
    }
}

/// How many bytes the UTF-8 encoding of a text has.
pub open spec fn byte_len(s: Seq<char>) -> nat {
    utf8::encode_utf8(s).len()
}

/// How many characters two texts have in common at their beginning.
pub open spec fn common(a: Seq<char>, b: Seq<char>) -> nat
    decreases a.len(),
{
    if a.len() == 0 || b.len() == 0 || a[0] != b[0] {
        0
    } else {
        1 + common(a.skip(1), b.skip(1))
    }
}

/// How many characters `first` has in common with all of the others at its beginning.
pub open spec fn shared(first: Seq<char>, others: Seq<Seq<char>>) -> nat
    decreases others.len(),
{
    if others.len() == 0 {
        first.len()
    } else {
        let before = shared(first, others.drop_last());
        let here = common(first, others.last());
        if here < before {
            here
        } else {
            before
        }
    }
}

/// The longest common prefix of the names: as much of the first one as it has in common with
/// all the others.
pub open spec fn common_prefix(names: Seq<Seq<char>>) -> Seq<char> {
    if names.len() == 0 {
        Seq::empty()
    } else {
        names[0].take(shared(names[0], names.skip(1)) as int)
    }
}

/// What `prefix` can be completed to, given the candidates: the only one, what they have in
/// common if that is more than `prefix`, or any of them.
pub open spec fn picked(prefix: Seq<char>, candidates: Seq<Seq<char>>) -> TabView {
    if candidates.len() == 0 {
        TabView::Nothing
    } else if candidates.len() == 1 {
        TabView::Single(candidates[0] + " "@)
    } else if byte_len(common_prefix(candidates)) > byte_len(prefix) {
        TabView::Single(common_prefix(candidates))
    } else {
        TabView::Multiple(candidates)
    }
}

/// The place behind the last `c` of `s`, or its beginning.
pub open spec fn after_last(s: Seq<char>, c: char) -> nat
    decreases s.len(),
{
    if s.len() == 0 || s.last() == c {
        s.len()
    } else {
        after_last(s.drop_last(), c)
    }
}

/// The word at the end of a line.
pub open spec fn last_word(line: Seq<char>) -> Seq<char> {
    line.skip(after_last(line, ' ') as int)
}

/// What stands between the first word of a line and the last one, without white space at its
/// ends.
pub open spec fn words_between(line: Seq<char>) -> Seq<char> {
    let start = text::find(line, ' ') + 1;
    let end = after_last(line, ' ') - 1;
    if start <= end {
        text::trimmed(line.subrange(start as int, end))
    } else {
        Seq::empty()
    }
}

/// How to run a completion script.
#[derive(Debug, PartialEq, Eq)]
pub struct ScriptCall {
    pub script: String,
    pub command: String,
    pub prefix: String,
    pub prev_word: String,
    pub comp_line: String,
    pub comp_point: usize,
}

/// What a `ScriptCall` says.
pub struct ScriptView {
    pub script: Seq<char>,
    pub command: Seq<char>,
    pub prefix: Seq<char>,
    pub prev_word: Seq<char>,
    pub comp_line: Seq<char>,
    pub comp_point: nat,
}

/// What has to be done next to complete a word.
#[derive(Debug, PartialEq, Eq)]
pub enum TabStep {
    /// Run a script and offer what it prints.
    RunScript(ScriptCall),
    /// List a directory and complete the path `prefix` in it.
    ListDirectory { prefix: String, search_dir: String },
    /// List the executable files of the search path and complete the command `prefix`.
    ListExecutables { prefix: String },
    /// The completion is known.
    Finished(TabCompletion),
}

/// What a `TabStep` says.
pub enum TabStepView {
    RunScript(ScriptView),
    ListDirectory { prefix: Seq<char>, search_dir: Seq<char> },
    ListExecutables { prefix: Seq<char> },
    Finished(TabView),
}

impl View for ScriptCall {
    type V = ScriptView;

    open spec fn view(&self) -> ScriptView {
        ScriptView {
            script: self.script@,
            command: self.command@,
            prefix: self.prefix@,
            prev_word: self.prev_word@,
            comp_line: self.comp_line@,
            comp_point: self.comp_point as nat,
        }
    }
}

impl View for TabStep {
    type V = TabStepView;

    open spec fn view(&self) -> TabStepView {
        match self {
            TabStep::RunScript(call) => TabStepView::RunScript(call@),
            TabStep::ListDirectory { prefix, search_dir } => TabStepView::ListDirectory {
                prefix: prefix@,
                search_dir: search_dir@,
            },
            TabStep::ListExecutables { prefix } => TabStepView::ListExecutables {
                prefix: prefix@,
            },
            TabStep::Finished(completion) => TabStepView::Finished(completion@),
        }
    }
}

/// A path up to its last `/`.
pub open spec fn directory_part(path: Seq<char>) -> Seq<char> {
    path.take(after_last(path, '/') as int)
}

/// A path behind its last `/`.
pub open spec fn file_part(path: Seq<char>) -> Seq<char> {
    path.skip(after_last(path, '/') as int)
}

/// The directory in which a path is completed.
pub open spec fn search_directory(path: Seq<char>) -> Seq<char> {
    if directory_part(path).len() == 0 {
        "."@
    } else {
        directory_part(path)
    }
}

/// How the last word of a line is completed where no script offers anything: as a path behind
/// the first word, or if it looks like one; else as a command.
pub open spec fn without_script(line: Seq<char>) -> TabStepView {
    let word = last_word(line);
    if word.len() == 0 {
        TabStepView::Finished(TabView::Multiple(Seq::empty()))
    } else if after_last(line, ' ') > 0 || word.contains('/') || word[0] == '.' {
        TabStepView::ListDirectory { prefix: word, search_dir: search_directory(word) }
    } else {
        TabStepView::ListExecutables { prefix: word }
    }
}

/// How the last word of a line is completed: behind the first word by the script for that
/// command, if there is one.
pub open spec fn first_step(
    line: Seq<char>,
    completions: Map<Seq<char>, Seq<char>>,
) -> TabStepView {
    let command = line.take(text::find(line, ' ') as int);
    if after_last(line, ' ') > 0 && completions.contains_key(command) {
        TabStepView::RunScript(
            ScriptView {
                script: completions[command],
                command,
                prefix: last_word(line),
                prev_word: words_between(line),
                comp_line: line,
                comp_point: byte_len(line),
            },
        )
    } else {
        without_script(line)
    }
}

/// What a script that printed `output` offers.
pub open spec fn offered(output: Seq<char>) -> Seq<Seq<char>> {
    order::sorted(lines::lines(output).map_values(|l: Seq<char>| text::trimmed(l)))
}

/// How the last word of a line is completed after a script has printed `output`, or could not
/// be run: by what the script offers, if it offers anything.
pub open spec fn second_step(line: Seq<char>, output: Option<Seq<char>>) -> TabStepView {
    match output {
        Some(printed) if offered(printed).len() > 0 => TabStepView::Finished(
            picked(last_word(line), offered(printed)),
        ),
        _ => without_script(line),
    }
}

/// A file of a directory of the search path.
#[derive(Debug, PartialEq, Eq)]
pub struct DirFile {
    pub name: String,
    pub meta: Option<FileMeta>,
}

/// An entry of a directory.
#[derive(Debug, PartialEq, Eq)]
pub struct DirName {
    pub name: String,
    pub is_dir: bool,
}

/// Whether a name begins with `prefix` and is not hidden.
pub open spec fn name_fits(name: Seq<char>, prefix: Seq<char>) -> bool {
    text::begins_with(name, prefix) && !(name.len() > 0 && name[0] == '.')
}

/// Whether a file can complete the command `prefix`.
pub open spec fn file_fits(file: DirFile, prefix: Seq<char>) -> bool {
    name_fits(file.name@, prefix) && match file.meta {
        Some(meta) => lookup::executable(meta),
        None => false,
    }
}

/// The names of the files that can complete the command `prefix`, in order, each once.
pub open spec fn executables(files: Seq<DirFile>, prefix: Seq<char>) -> Seq<Seq<char>> {
    order::deduped(
        order::sorted(
            files.filter(|f: DirFile| file_fits(f, prefix)).map_values(|f: DirFile| f.name@),
        ),
    )
}

/// The names that the shell answers itself.
pub open spec fn builtin_names() -> Seq<Seq<char>> {
    BUILT_IN_COMMANDS@.map_values(|s: &'static str| s@)
}

/// `list` and those of `more`, each in its turn, that are not in it yet.
pub open spec fn with_missing(list: Seq<Seq<char>>, more: Seq<Seq<char>>) -> Seq<Seq<char>>
    decreases more.len(),
{
    if more.len() == 0 {
        list
    } else {
        with_missing(
            if list.contains(more[0]) {
                list
            } else {
                list.push(more[0])
            },
            more.skip(1),
        )
    }
}

/// What the command `prefix` can be completed to: the names that the shell answers itself,
/// and then the executable files.
pub open spec fn command_options(
    prefix: Seq<char>,
    executables: Seq<Seq<char>>,
) -> Seq<Seq<char>> {
    with_missing(
        builtin_names().filter(|name: Seq<char>| text::begins_with(name, prefix)),
        executables,
    )
}

/// The sign behind the name of a directory or of anything else.
pub open spec fn suffix(is_dir: bool) -> Seq<char> {
    if is_dir {
        "/"@
    } else {
        " "@
    }
}

/// What the path `prefix` can be completed to in its directory, in order.
pub open spec fn path_options(prefix: Seq<char>, entries: Seq<DirName>) -> Seq<Seq<char>> {
    order::sorted(
        entries.filter(|e: DirName| name_fits(e.name@, file_part(prefix))).map_values(
            |e: DirName| e.name@ + suffix(e.is_dir),
        ),
    )
}

/// Whether what the options have in common is more than what is there of the path.
pub open spec fn path_grows(prefix: Seq<char>, options: Seq<Seq<char>>) -> bool {
    byte_len(common_prefix(options)) > byte_len(file_part(prefix))
}

/// The path of which it has to be known whether it is a directory, if there is one.
pub open spec fn probed(prefix: Seq<char>, options: Seq<Seq<char>>) -> Option<Seq<char>> {
    if options.len() == 1 || options.len() > 1 && !path_grows(prefix, options) {
        Some(search_directory(prefix) + options[0])
    } else {
        None
    }
}

/// What the path `prefix` is completed to, given its options, and given whether the path
/// `probed` is a directory.
pub open spec fn completed_path(
    prefix: Seq<char>,
    options: Seq<Seq<char>>,
    is_dir: bool,
) -> TabView {
    let dir = directory_part(prefix);
    if options.len() == 0 {
        TabView::Nothing
    } else if options.len() == 1 {
        TabView::Single(dir + options[0] + suffix(is_dir))
    } else if path_grows(prefix, options) {
        TabView::Single(dir + common_prefix(options))
    } else {
        TabView::Multiple(options.map_values(|o: Seq<char>| dir + o + suffix(is_dir)))
    }
}

proof fn lemma_common_is(a: Seq<char>, b: Seq<char>, k: int)
    requires
        0 <= k <= a.len(),
        k <= b.len(),
        forall|i: int| 0 <= i < k ==> a[i] == b[i],
        k < a.len() && k < b.len() ==> a[k] != b[k],
    ensures
        common(a, b) == k,
    decreases k,
{
    if k > 0 {
        let x = a.skip(1);
        let y = b.skip(1);
        assert forall|i: int| 0 <= i < k - 1 implies x[i] == y[i] by {
            assert(x[i] == a[i + 1]);
            assert(y[i] == b[i + 1]);
        }
        lemma_common_is(x, y, k - 1);
    }
}

/// How many characters two texts have in common at their beginning.
fn common_count(a: &Vec<char>, b: &Vec<char>) -> (r: usize)
    ensures
        r == common(a@, b@),
{
    let mut i: usize = 0;
    while i < a.len() && i < b.len() && a[i] == b[i]
        invariant
            i <= a@.len(),
            i <= b@.len(),
            forall|j: int| 0 <= j < i ==> a@[j] == b@[j],
        decreases a@.len() - i,
    {
        i += 1;
    }
    proof {
        lemma_common_is(a@, b@, i as int);
    }
    i
}

/// How many characters the first name has in common with all of the others at its beginning.
fn shared_count(names: &Vec<String>) -> (r: usize)
    requires
        names@.len() > 0,
    ensures
        r == shared(text::texts(names@)[0], text::texts(names@).skip(1)),
        r <= names@[0]@.len(),
{
    let ghost all = text::texts(names@);
    let first: Vec<char> = chars_of(names[0].as_str());
    let mut r: usize = first.len();
    let mut i: usize = 1;
    assert(all.subrange(1, 1) =~= Seq::empty());
    while i < names.len()
        invariant
            1 <= i <= names@.len(),
            all == text::texts(names@),
            first@ == all[0],
            r <= first@.len(),
            r == shared(all[0], all.subrange(1, i as int)),
        decreases names@.len() - i,
    {
        let name: Vec<char> = chars_of(names[i].as_str());
        let here: usize = common_count(&first, &name);
        assert(all.subrange(1, i + 1).drop_last() =~= all.subrange(1, i as int));
        if here < r {
            r = here;
        }
        i += 1;
    }
    assert(all.subrange(1, i as int) =~= all.skip(1));
    r
}

/// The place behind the last `c`, or the beginning.
pub(crate) fn find_after_last(chars: &Vec<char>, c: char) -> (r: usize)
    ensures
        r == after_last(chars@, c),
        r <= chars@.len(),
{
    let mut i: usize = chars.len();
    assert(chars@.take(i as int) =~= chars@);
    while i > 0 && chars[i - 1] != c
        invariant
            i <= chars@.len(),
            after_last(chars@, c) == after_last(chars@.take(i as int), c),
        decreases i,
    {
        assert(chars@.take(i as int).drop_last() =~= chars@.take(i - 1));
        i -= 1;
    }
    i
}

/// The directory part and the file part of a path.
fn path_parts(path: &str) -> (r: (String, String))
    ensures
        r.0@ == directory_part(path@),
        r.1@ == file_part(path@),
{
    let chars: Vec<char> = chars_of(path);
    let k: usize = find_after_last(&chars, '/');
    let dir: String = text_between(&chars, 0, k);
    let file: String = text_between(&chars, k, chars.len());
    proof {
        assert(dir@ =~= directory_part(path@));
        assert(file@ =~= file_part(path@));
    }
    (dir, file)
}

/// The directory in which a path is completed.
fn directory_to_search(path: &str) -> (r: String)
    ensures
        r@ == search_directory(path@),
{
    let (dir, _) = path_parts(path);
    if dir.as_str().is_empty() {
        ".".to_string()
    } else {
        dir
    }
}

/// How the last word of a line is completed where no script offers anything.
fn step_without_script(buffer: &str) -> (r: TabStep)
    ensures
        r@ == without_script(buffer@),
{
    let chars: Vec<char> = chars_of(buffer);
    let start: usize = find_after_last(&chars, ' ');
    let word: String = text_between(&chars, start, chars.len());
    assert(word@ =~= last_word(buffer@));
    if start == chars.len() {
        let none: Vec<String> = Vec::new();
        assert(text::texts(none@) =~= Seq::empty());
        return TabStep::Finished(TabCompletion::Multiple(none));
    }
    if start > 0 || contains_char(word.as_str(), '/') || chars[start] == '.' {
        let search_dir: String = directory_to_search(word.as_str());
        TabStep::ListDirectory { prefix: word, search_dir }
    } else {
        TabStep::ListExecutables { prefix: word }
    }
}

/// Whether a name begins with `prefix` and is not hidden.
fn fits(name: &str, prefix: &str) -> (r: bool)
    ensures
        r == name_fits(name@, prefix@),
{
    let chars: Vec<char> = chars_of(name);
    starts_with(name, prefix) && !(chars.len() > 0 && chars[0] == '.')
}

/// Whether a file can complete the command `prefix`.
fn is_option(file: &DirFile, prefix: &str) -> (r: bool)
    ensures
        r == file_fits(*file, prefix@),
{
    fits(file.name.as_str(), prefix) && match &file.meta {
        Some(meta) => is_executable(meta),
        None => false,
    }
}

impl Command {
    /// The longest common prefix of the names.
    pub fn longest_common_prefix(names: &Vec<String>) -> (r: String)
        ensures
            r@ == common_prefix(text::texts(names@)),
    {
        if names.len() == 0 {
            return String::new();
        }
        let n: usize = shared_count(names);
        let first: Vec<char> = chars_of(names[0].as_str());
        let r: String = text_between(&first, 0, n);
        assert(r@ =~= common_prefix(text::texts(names@)));
        r
    }

    /// What `prefix` can be completed to, given the candidates.
    pub fn pick_completion(prefix: &str, candidates: Vec<String>) -> (r: TabCompletion)
        ensures
            r@ == picked(prefix@, text::texts(candidates@)),
    {
        if candidates.len() == 0 {
            return TabCompletion::Nothing;
        }
        if candidates.len() == 1 {
            let mut only: String = candidates[0].clone();
            only.append(" ");
            return TabCompletion::Single(only);
        }
        let lcp: String = Self::longest_common_prefix(&candidates);
        if lcp.as_str().as_bytes().len() > prefix.as_bytes().len() {
            TabCompletion::Single(lcp)
        } else {
            TabCompletion::Multiple(candidates)
        }
    }

    /// How the last word of a line is completed.
    pub fn tab_completion(buffer: &str, completions: &TextMap<String>) -> (r: TabStep)
        ensures
            r@ == first_step(buffer@, store::text_values(completions@)),
    {
        let chars: Vec<char> = chars_of(buffer);
        let last_space: usize = find_after_last(&chars, ' ');
        if last_space > 0 {
            let first_space: usize = find_from(&chars, 0, ' ');
            assert(chars@.skip(0) =~= buffer@);
            let command: String = text_between(&chars, 0, first_space);
            assert(command@ =~= buffer@.take(first_space as int));
            if let Some(script) = completions.get(command.as_str()) {
                let prefix: String = text_between(&chars, last_space, chars.len());
                assert(prefix@ =~= last_word(buffer@));
                let prev_word: String = if first_space < last_space - 1 {
                    let between: String = text_between(&chars, first_space + 1, last_space - 1);
                    trim(between.as_str())
                } else {
                    String::new()
                };
                return TabStep::RunScript(
                    ScriptCall {
                        script: script.clone(),
                        command,
                        prefix,
                        prev_word,
                        comp_line: buffer.to_owned(),
                        comp_point: buffer.as_bytes().len(),
                    },
                );
            }
        }
        step_without_script(buffer)
    }

    /// What a script that printed `output` offers.
    pub fn script_candidates(output: &str) -> (r: Vec<String>)
        ensures
            text::texts(r@) == offered(output@),
    {
        let printed: Vec<String> = split_lines(output);
        let ghost whole = lines::lines(output@).map_values(|l: Seq<char>| text::trimmed(l));
        let mut offers: Vec<String> = Vec::new();
        let mut i: usize = 0;
        assert(text::texts(offers@) =~= whole.take(0));
        while i < printed.len()
            invariant
                i <= printed@.len(),
                text::texts(printed@) == lines::lines(output@),
                whole == lines::lines(output@).map_values(|l: Seq<char>| text::trimmed(l)),
                text::texts(offers@) == whole.take(i as int),
            decreases printed@.len() - i,
        {
            assert(text::texts(printed@)[i as int] == printed@[i as int]@);
            push_text(&mut offers, trim(printed[i].as_str()));
            i += 1;
            assert(text::texts(offers@) =~= whole.take(i as int));
        }
        assert(whole.take(i as int) =~= whole);
        sort(&offers)
    }

    /// How the last word of a line is completed after a script has printed `output`, or could
    /// not be run.
    pub fn after_script(buffer: &str, output: Option<&str>) -> (r: TabStep)
        ensures
            r@ == second_step(
                buffer@,
                match output {
                    Some(printed) => Some(printed@),
                    None => None,
                },
            ),
    {
        let printed: &str = match output {
            Some(printed) => printed,
            None => {
                return step_without_script(buffer);
            },
        };
        let candidates: Vec<String> = Self::script_candidates(printed);
        if candidates.len() == 0 {
            return step_without_script(buffer);
        }
        let chars: Vec<char> = chars_of(buffer);
        let start: usize = find_after_last(&chars, ' ');
        let word: String = text_between(&chars, start, chars.len());
        assert(word@ =~= last_word(buffer@));
        TabStep::Finished(Self::pick_completion(word.as_str(), candidates))
    }

    /// The names of the files that can complete the command `prefix`, in order, each once.
    pub fn get_exec_by_prefix(prefix: &str, files: &Vec<DirFile>) -> (r: Vec<String>)
        ensures
            text::texts(r@) == executables(files@, prefix@),
    {
        let ghost keep = |f: DirFile| file_fits(f, prefix@);
        let ghost show = |f: DirFile| f.name@;
        let mut names: Vec<String> = Vec::new();
        let mut i: usize = 0;
        proof {
            reveal_with_fuel(Seq::filter, 1);
            assert(text::texts(names@) =~= files@.take(0).filter(keep).map_values(show));
        }
        while i < files.len()
            invariant
                i <= files@.len(),
                keep == (|f: DirFile| file_fits(f, prefix@)),
                show == (|f: DirFile| f.name@),
                text::texts(names@) == files@.take(i as int).filter(keep).map_values(show),
            decreases files@.len() - i,
        {
            let ghost before = files@.take(i as int).filter(keep);
            proof {
                assert(files@.take(i + 1) =~= files@.take(i as int).push(files@[i as int]));
                files@.take(i as int).lemma_filter_push(files@[i as int], keep);
            }
            if is_option(&files[i], prefix) {
                push_text(&mut names, files[i].name.clone());
                assert(text::texts(names@) =~= before.push(files@[i as int]).map_values(show));
            }
            i += 1;
        }
        assert(files@.take(i as int) =~= files@);
        let ordered: Vec<String> = sort(&names);
        dedup(&ordered)
    }

    /// What the command `prefix` can be completed to.
    pub fn command_candidates(prefix: &str, executables: &Vec<String>) -> (r: Vec<String>)
        ensures
            text::texts(r@) == command_options(prefix@, text::texts(executables@)),
    {
        let ghost keep = |name: Seq<char>| text::begins_with(name, prefix@);
        let ghost names = builtin_names();
        let mut r: Vec<String> = Vec::new();
        let mut i: usize = 0;
        proof {
            reveal_with_fuel(Seq::filter, 1);
            assert(text::texts(r@) =~= names.take(0).filter(keep));
        }
        while i < BUILT_IN_COMMANDS.len()
            invariant
                i <= names.len(),
                names == builtin_names(),
                names.len() == 9,
                keep == (|name: Seq<char>| text::begins_with(name, prefix@)),
                text::texts(r@) == names.take(i as int).filter(keep),
            decreases names.len() - i,
        {
            let name: &str = BUILT_IN_COMMANDS[i];
            proof {
                assert(names[i as int] == name@);
                assert(names.take(i + 1) =~= names.take(i as int).push(name@));
                names.take(i as int).lemma_filter_push(name@, keep);
            }
            if starts_with(name, prefix) {
                push_text(&mut r, name.to_owned());
            }
            i += 1;
        }
        assert(names.take(i as int) =~= names);
        let ghost more = text::texts(executables@);
        let ghost whole = command_options(prefix@, more);
        let mut k: usize = 0;
        assert(more.skip(0) =~= more);
        while k < executables.len()
            invariant
                k <= executables@.len(),
                more == text::texts(executables@),
                whole == with_missing(text::texts(r@), more.skip(k as int)),
            decreases executables@.len() - k,
        {
            proof {
                assert(more.skip(k as int)[0] == executables@[k as int]@);
                assert(more.skip(k as int).skip(1) =~= more.skip(k + 1));
            }
            if !contains_text(&r, executables[k].as_str()) {
                push_text(&mut r, executables[k].clone());
            }
            k += 1;
        }
        r
    }

    /// What the command `prefix` is completed to, given the files of the search path.
    pub fn complete_command(prefix: &str, files: &Vec<DirFile>) -> (r: TabCompletion)
        ensures
            r@ == picked(prefix@, command_options(prefix@, executables(files@, prefix@))),
    {
        let executables: Vec<String> = Self::get_exec_by_prefix(prefix, files);
        let candidates: Vec<String> = Self::command_candidates(prefix, &executables);
        Self::pick_completion(prefix, candidates)
    }

    /// What the path `prefix` can be completed to in its directory, in order.
    pub fn path_candidates(prefix: &str, entries: &Vec<DirName>) -> (r: Vec<String>)
        ensures
            text::texts(r@) == path_options(prefix@, entries@),
    {
        let (_, file_prefix) = path_parts(prefix);
        let ghost keep = |e: DirName| name_fits(e.name@, file_part(prefix@));
        let ghost show = |e: DirName| e.name@ + suffix(e.is_dir);
        let mut names: Vec<String> = Vec::new();
        let mut i: usize = 0;
        proof {
            reveal_with_fuel(Seq::filter, 1);
            assert(text::texts(names@) =~= entries@.take(0).filter(keep).map_values(show));
        }
        while i < entries.len()
            invariant
                i <= entries@.len(),
                file_prefix@ == file_part(prefix@),
                keep == (|e: DirName| name_fits(e.name@, file_part(prefix@))),
                show == (|e: DirName| e.name@ + suffix(e.is_dir)),
                text::texts(names@) == entries@.take(i as int).filter(keep).map_values(show),
            decreases entries@.len() - i,
        {
            let ghost before = entries@.take(i as int).filter(keep);
            proof {
                assert(entries@.take(i + 1) =~= entries@.take(i as int).push(entries@[i as int]));
                entries@.take(i as int).lemma_filter_push(entries@[i as int], keep);
            }
            if fits(entries[i].name.as_str(), file_prefix.as_str()) {
                let mut name: String = entries[i].name.clone();
                name.append(suffix_text(entries[i].is_dir));
                push_text(&mut names, name);
                assert(text::texts(names@) =~= before.push(entries@[i as int]).map_values(show));
            }
            i += 1;
        }
        assert(entries@.take(i as int) =~= entries@);
        sort(&names)
    }

    /// The path of which it has to be known whether it is a directory, if there is one.
    pub fn path_to_probe(prefix: &str, options: &Vec<String>) -> (r: Option<String>)
        ensures
            text::opt_text(r) == probed(prefix@, text::texts(options@)),
    {
        if options.len() == 0 {
            return None;
        }
        if options.len() > 1 {
            let (_, file_prefix) = path_parts(prefix);
            let lcp: String = Self::longest_common_prefix(options);
            if lcp.as_str().as_bytes().len() > file_prefix.as_str().as_bytes().len() {
                return None;
            }
        }
        let mut path: String = directory_to_search(prefix);
        path.append(options[0].as_str());
        Some(path)
    }

    /// What the path `prefix` is completed to, given its options, and given whether the path
    /// to probe is a directory.
    pub fn complete_path(prefix: &str, options: &Vec<String>, is_dir: bool) -> (r: TabCompletion)
        ensures
            r@ == completed_path(prefix@, text::texts(options@), is_dir),
    {
        let ghost all = text::texts(options@);
        let (dir, file_prefix) = path_parts(prefix);
        if options.len() == 0 {
            return TabCompletion::Nothing;
        }
        if options.len() == 1 {
            let mut whole: String = dir;
            whole.append(options[0].as_str());
            whole.append(suffix_text(is_dir));
            return TabCompletion::Single(whole);
        }
        let lcp: String = Self::longest_common_prefix(options);
        if lcp.as_str().as_bytes().len() > file_prefix.as_str().as_bytes().len() {
            let mut whole: String = dir;
            whole.append(lcp.as_str());
            return TabCompletion::Single(whole);
        }
        let ghost show = |o: Seq<char>| dir@ + o + suffix(is_dir);
        let mut shown: Vec<String> = Vec::new();
        let mut i: usize = 0;
        assert(text::texts(shown@) =~= all.map_values(show).take(0));
        while i < options.len()
            invariant
                i <= options@.len(),
                all == text::texts(options@),
                show == (|o: Seq<char>| dir@ + o + suffix(is_dir)),
                text::texts(shown@) == all.map_values(show).take(i as int),
            decreases options@.len() - i,
        {
            let mut whole: String = dir.clone();
            whole.append(options[i].as_str());
            whole.append(suffix_text(is_dir));
            push_text(&mut shown, whole);
            i += 1;
            assert(text::texts(shown@) =~= all.map_values(show).take(i as int));
        }
        assert(all.map_values(show).take(i as int) =~= all.map_values(show));
        TabCompletion::Multiple(shown)
    }
}

/// The sign behind the name of a directory or of anything else.
fn suffix_text(is_dir: bool) -> (r: &'static str)
    ensures
        r@ == suffix(is_dir),
{
    if is_dir {
        "/"
    } else {
        " "
    }
}

} // verus!
