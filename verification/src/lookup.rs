//! Finding the file that a command name stands for.
use vstd::prelude::*;

use crate::command;
use crate::command::{exeCmd, Command};
use crate::store::TextMap;
use crate::text;
use crate::text::{contains_char, texts_from};
use crate::tokens;

verus! {

/// What the file system says of a file.
#[derive(Debug, Clone, Copy, PartialEq, Eq, Structural)]
pub struct FileMeta {
    pub is_file: bool,
    pub mode: u32,
}

/// A place where a command may be, and what the file system says of it, if it says anything.
#[derive(Debug, PartialEq, Eq)]
pub struct Candidate {
    pub path: String,
    pub meta: Option<FileMeta>,
}

/// What was found out about a command name.
///
/// For a name with a `/`, `direct` is what the file system says of that path, or why it says
/// nothing. For any other name, `search` holds a candidate for each directory of the search
/// path, in its order, or says why there is no search path.
#[derive(Debug, PartialEq, Eq)]
pub struct PathFacts {
    pub direct: Result<FileMeta, String>,
    pub search: Result<Vec<Candidate>, String>,
}

/// Why no file stands for a name.
#[derive(Debug, PartialEq, Eq)]
pub enum LookupError {
    /// The path could not be examined.
    Metadata(String),
    /// The path is no file that can be executed.
    NotExecutable,
    /// There is no search path.
    SearchPath(String),
    /// No directory of the search path holds such a file.
    PathNotFound,
}

/// What a `LookupError` says.
pub enum LookupErrorView {
    Metadata(Seq<char>),
    NotExecutable,
    SearchPath(Seq<char>),
    PathNotFound,
}

impl View for LookupError {
    type V = LookupErrorView;

    open spec fn view(&self) -> LookupErrorView {
        match self {
            LookupError::Metadata(reason) => LookupErrorView::Metadata(reason@),
            LookupError::NotExecutable => LookupErrorView::NotExecutable,
            LookupError::SearchPath(reason) => LookupErrorView::SearchPath(reason@),
            LookupError::PathNotFound => LookupErrorView::PathNotFound,
        }
    }
}

/// A lookup's error in words.
pub open spec fn lookup_message(error: LookupErrorView) -> Seq<char> {
    match error {
        LookupErrorView::Metadata(reason) => reason,
        LookupErrorView::NotExecutable => "Not executable"@,
        LookupErrorView::SearchPath(reason) => reason,
        LookupErrorView::PathNotFound => "Path Not Found"@,
    }
}

impl LookupError {
    /// The error in words.
    pub fn message(&self) -> (r: String)
        ensures
            r@ == lookup_message(self@),
    {
        match self {
            LookupError::Metadata(reason) => reason.clone(),
            LookupError::NotExecutable => "Not executable".to_string(),
            LookupError::SearchPath(reason) => reason.clone(),
            LookupError::PathNotFound => "Path Not Found".to_string(),
        }
    }
}

/// The answers to the lookups made so far: for each name the path found or the error.
pub type PathTable = TextMap<Result<String, LookupError>>;

/// An answer to a lookup.
pub type Answer = Result<Seq<char>, LookupErrorView>;

/// What an answer of a `PathTable` says.
pub open spec fn answer_view(answer: Result<String, LookupError>) -> Answer {
    match answer {
        Ok(path) => Ok(path@),
        Err(error) => Err(error@),
    }
}

/// What a `PathTable` says.
pub open spec fn answers(
    table: Map<Seq<char>, Result<String, LookupError>>,
) -> Map<Seq<char>, Answer> {
    table.map_values(|answer: Result<String, LookupError>| answer_view(answer))
}

/// Whether a file can be executed: a regular file for which some execute bit is set.
pub open spec fn executable(meta: FileMeta) -> bool {
    meta.is_file && meta.mode & 0o111 != 0
}

/// Whether a candidate is a file that can be executed.
pub open spec fn runs(candidate: Candidate) -> bool {
    match candidate.meta {
        Some(meta) => executable(meta),
        None => false,
    }
}

/// Whether a file can be executed.
pub fn is_executable(meta: &FileMeta) -> (r: bool)
    ensures
        r == executable(*meta),
{
    meta.is_file && meta.mode & 0o111 != 0
}

/// The place of the first candidate that can be executed, or their number.
pub open spec fn first_running(candidates: Seq<Candidate>) -> nat
    decreases candidates.len(),
{
    if candidates.len() == 0 || runs(candidates[0]) {
        0
    } else {
        1 + first_running(candidates.skip(1))
    }
}

/// The file that a name stands for, given what was found out about it: with a `/` in it the
/// name itself, and else the first candidate of the search path, if it can be executed.
pub open spec fn resolved(name: Seq<char>, facts: PathFacts) -> Answer {
    if name.contains('/') {
        match facts.direct {
            Err(reason) => Err(LookupErrorView::Metadata(reason@)),
            Ok(meta) => if executable(meta) {
                Ok(name)
            } else {
                Err(LookupErrorView::NotExecutable)
            },
        }
    } else {
        match facts.search {
            Err(reason) => Err(LookupErrorView::SearchPath(reason@)),
            Ok(candidates) => {
                let k = first_running(candidates@);
                if k < candidates@.len() {
                    Ok(candidates@[k as int].path@)
                } else {
                    Err(LookupErrorView::PathNotFound)
                }
            },
        }
    }
}

/// Why a text cannot be understood as a command with arguments.
#[derive(Debug, PartialEq, Eq)]
pub enum ParseError {
    /// The text holds no word.
    InvalidInput,
    /// No file stands for the first word.
    Lookup(LookupError),
    /// The first word has not been looked up yet.
    Unresolved(String),
}

/// What a `ParseError` says.
pub enum ParseErrorView {
    InvalidInput,
    Lookup(LookupErrorView),
    Unresolved(Seq<char>),
}

impl View for ParseError {
    type V = ParseErrorView;

    open spec fn view(&self) -> ParseErrorView {
        match self {
            ParseError::InvalidInput => ParseErrorView::InvalidInput,
            ParseError::Lookup(error) => ParseErrorView::Lookup(error@),
            ParseError::Unresolved(name) => ParseErrorView::Unresolved(name@),
        }
    }
}

impl ParseError {
    /// The error in words; that a name has not been looked up yet is none.
    pub fn message(&self) -> (r: Option<String>)
        ensures
            text::opt_text(r) == (match self@ {
                ParseErrorView::InvalidInput => Some("Invalid Input !!"@),
                ParseErrorView::Lookup(error) => Some(lookup_message(error)),
                ParseErrorView::Unresolved(_) => None,
            }),
    {
        match self {
            ParseError::InvalidInput => Some("Invalid Input !!".to_string()),
            ParseError::Lookup(error) => Some(error.message()),
            ParseError::Unresolved(_) => None,
        }
    }
}

/// What the result of `Command::parse_input` says.
pub open spec fn parsed_view(result: Result<exeCmd, ParseError>) -> Result<
    command::ExecView,
    ParseErrorView,
> {
    match result {
        Ok(cmd) => Ok(cmd@),
        Err(error) => Err(error@),
    }
}

/// `input` as a command with arguments: its first word, looked up in `paths`, and the others.
pub open spec fn command_line(input: Seq<char>, paths: Map<Seq<char>, Answer>) -> Result<
    command::ExecView,
    ParseErrorView,
> {
    let words = tokens::tokens(input);
    if words.len() == 0 {
        Err(ParseErrorView::InvalidInput)
    } else if !paths.contains_key(words[0]) {
        Err(ParseErrorView::Unresolved(words[0]))
    } else {
        match paths[words[0]] {
            Ok(path) => Ok(command::plain_exec(words[0], Some(path), words.skip(1))),
            Err(error) => Err(ParseErrorView::Lookup(error)),
        }
    }
}

/// A copy of an error.
fn copy_error(error: &LookupError) -> (r: LookupError)
    ensures
        r@ == error@,
{
    match error {
        LookupError::Metadata(reason) => LookupError::Metadata(reason.clone()),
        LookupError::NotExecutable => LookupError::NotExecutable,
        LookupError::SearchPath(reason) => LookupError::SearchPath(reason.clone()),
        LookupError::PathNotFound => LookupError::PathNotFound,
    }
}

proof fn lemma_first_running_is(candidates: Seq<Candidate>, k: int)
    requires
        0 <= k <= candidates.len(),
        forall|i: int| 0 <= i < k ==> !runs(#[trigger] candidates[i]),
        k < candidates.len() ==> runs(candidates[k]),
    ensures
        first_running(candidates) == k,
    decreases candidates.len(),
{
    if k > 0 {
        let rest = candidates.skip(1);
        assert(!runs(candidates[0]));
        assert forall|i: int| 0 <= i < k - 1 implies !runs(#[trigger] rest[i]) by {
            assert(rest[i] == candidates[i + 1]);
        }
        lemma_first_running_is(rest, k - 1);
    }
}

impl Command {
    /// Whether a name is looked up as it is, and not along the search path.
    pub fn is_path(name: &str) -> (r: bool)
        ensures
            r == name@.contains('/'),
    {
        contains_char(name, '/')
    }

    /// The file that a name stands for.
    pub fn get_path_exe(name: &str, facts: &PathFacts) -> (r: Result<String, LookupError>)
        ensures
            answer_view(r) == resolved(name@, *facts),
    {
        if Self::is_path(name) {
            return match &facts.direct {
                Err(reason) => Err(LookupError::Metadata(reason.clone())),
                Ok(meta) => if is_executable(meta) {
                    Ok(name.to_owned())
                } else {
                    Err(LookupError::NotExecutable)
                },
            };
        }
        match &facts.search {
            Err(reason) => Err(LookupError::SearchPath(reason.clone())),
            Ok(candidates) => {
                let mut i: usize = 0;
                while i < candidates.len()
                    invariant
                        i <= candidates@.len(),
                        !name@.contains('/'),
                        facts.search == Ok::<Vec<Candidate>, String>(*candidates),
                        forall|j: int| 0 <= j < i ==> !runs(#[trigger] candidates@[j]),
                    decreases candidates@.len() - i,
                {
                    if let Some(meta) = &candidates[i].meta {
                        if is_executable(meta) {
                            proof {
                                lemma_first_running_is(candidates@, i as int);
                            }
                            return Ok(candidates[i].path.clone());
                        }
                    }
                    i += 1;
                }
                proof {
                    lemma_first_running_is(candidates@, i as int);
                }
                Err(LookupError::PathNotFound)
            },
        }
    }

    /// `input` as a command with arguments, its first word looked up in `paths`.
    pub fn parse_input(input: &str, paths: &PathTable) -> (r: Result<exeCmd, ParseError>)
        ensures
            parsed_view(r) == command_line(input@, answers(paths@)),
    {
        let parts: Vec<String> = Self::tokenize(input);
        if parts.len() == 0 {
            return Err(ParseError::InvalidInput);
        }
        assert(text::texts(parts@)[0] == parts@[0]@);
        match paths.get(parts[0].as_str()) {
            None => Err(ParseError::Unresolved(parts[0].clone())),
            Some(Err(error)) => Err(ParseError::Lookup(copy_error(error))),
            Some(Ok(path)) => {
                let args: Vec<String> = texts_from(&parts, 1);
                Ok(exeCmd::new(parts[0].as_str(), Some(path.clone()), args))
            },
        }
    }
}

/// A name without a `/` stands for the first file of the search path that can be executed; it
/// is not found if there is none.
pub proof fn law_first_executable_wins(name: Seq<char>, facts: PathFacts, candidates: Vec<Candidate>)
    requires
        !name.contains('/'),
        facts.search == Ok::<Vec<Candidate>, String>(candidates),
    ensures
        match resolved(name, facts) {
            Ok(path) => exists|k: int|
                0 <= k < candidates@.len() && #[trigger] runs(candidates@[k])
                    && candidates@[k].path@ == path && forall|i: int|
                    0 <= i < k ==> !runs(#[trigger] candidates@[i]),
            Err(error) => error is PathNotFound && forall|i: int|
                0 <= i < candidates@.len() ==> !runs(#[trigger] candidates@[i]),
        },
{
    lemma_first_running(candidates@);
    let k = first_running(candidates@) as int;
    if k < candidates@.len() {
        assert(runs(candidates@[k]));
    }
}

proof fn lemma_first_running(candidates: Seq<Candidate>)
    ensures
        first_running(candidates) <= candidates.len(),
        first_running(candidates) < candidates.len() ==> runs(
            candidates[first_running(candidates) as int],
        ),
        forall|i: int| 0 <= i < first_running(candidates) ==> !runs(#[trigger] candidates[i]),
    decreases candidates.len(),
{
    if candidates.len() > 0 && !runs(candidates[0]) {
        let rest = candidates.skip(1);
        lemma_first_running(rest);
        assert forall|i: int| 0 <= i < first_running(candidates) implies !runs(
            #[trigger] candidates[i],
        ) by {
            if i > 0 {
                assert(candidates[i] == rest[i - 1]);
            }
        }
    }
}

/// A file can be executed if it is a regular file and someone may execute it: its owner, its
/// group or anyone else.
pub proof fn law_execute_bits(meta: FileMeta)
    ensures
        executable(meta) <==> meta.is_file && (meta.mode & 0o100 != 0 || meta.mode & 0o010 != 0
            || meta.mode & 0o001 != 0),
{
    let mode = meta.mode;
    assert(mode & 0o111 != 0 <==> mode & 0o100 != 0 || mode & 0o010 != 0 || mode & 0o001 != 0)
        by (bit_vector);
}

/// A candidate serves if the file system knows it and it can be executed.
pub proof fn law_candidates(candidate: Candidate)
    ensures
        runs(candidate) <==> candidate.meta is Some && executable(candidate.meta->0),
{
}

/// A name with a `/` in it stands for itself if that file can be executed, wherever the search
/// path leads; the error says otherwise why not.
pub proof fn law_paths_stand_for_themselves(name: Seq<char>, facts: PathFacts)
    requires
        name.contains('/'),
    ensures
        match facts.direct {
            Ok(meta) => if executable(meta) {
                resolved(name, facts) == Ok::<Seq<char>, LookupErrorView>(name)
            } else {
                resolved(name, facts) matches Err(error) && error is NotExecutable
            },
            Err(reason) => resolved(name, facts) matches Err(error) && error
                == LookupErrorView::Metadata(reason@),
        },
{
}

/// Without a search path a name that has no `/` in it is not found, for the reason that there
/// is none.
pub proof fn law_no_search_path(name: Seq<char>, facts: PathFacts)
    requires
        !name.contains('/'),
        facts.search is Err,
    ensures
        resolved(name, facts) matches Err(error) && error == LookupErrorView::SearchPath(
            facts.search->Err_0@,
        ),
{
}

/// A text of plain words is a command with arguments: its first word, which has to be known and
/// to stand for a file, and the others, each in its place, with nothing redirected.
pub proof fn law_command_with_arguments(words: Seq<Seq<char>>, paths: Map<Seq<char>, Answer>)
    requires
        forall|i: int| 0 <= i < words.len() ==> tokens::is_plain(#[trigger] words[i]),
    ensures
        match command_line(text::joined(words, " "@), paths) {
            Ok(cmd) => {
                &&& words.len() > 0
                &&& paths.contains_key(words[0])
                &&& paths[words[0]] is Ok
                &&& cmd.name == words[0]
                &&& cmd.path == Some(paths[words[0]]->Ok_0)
                &&& cmd.args.len() == words.len() - 1
                &&& forall|i: int| 0 <= i < cmd.args.len() ==> cmd.args[i] == words[i + 1]
                &&& cmd.stdout_file is None
                &&& cmd.stderr_file is None
                &&& !cmd.stdout_append
                &&& !cmd.stderr_append
                &&& !cmd.background
            },
            Err(ParseErrorView::InvalidInput) => words.len() == 0,
            Err(ParseErrorView::Unresolved(name)) => words.len() > 0 && name == words[0]
                && !paths.contains_key(name),
            Err(ParseErrorView::Lookup(error)) => words.len() > 0 && paths.contains_key(words[0])
                && paths[words[0]] == Err::<Seq<char>, LookupErrorView>(error),
        },
{
    tokens::law_plain_words_are_read_back(words);
}

/// A lookup's error that has a reason gives it, and the others say what is wrong.
pub proof fn law_messages(reason: Seq<char>)
    ensures
        lookup_message(LookupErrorView::Metadata(reason)) == reason,
        lookup_message(LookupErrorView::SearchPath(reason)) == reason,
        lookup_message(LookupErrorView::NotExecutable) == "Not executable"@,
        lookup_message(LookupErrorView::PathNotFound) == "Path Not Found"@,
{
}

} // verus!
