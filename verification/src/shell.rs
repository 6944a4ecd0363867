//! What the shell remembers between lines of input.
use vstd::prelude::*;

use crate::command;
use crate::command::{Command, Job, JobView};
use crate::store;
use crate::store::TextMap;
use crate::text;

verus! {

/// What the shell remembers between lines of input.
pub struct Shell {
    /// For each command that has one, its completion script.
    pub completions: TextMap<String>,
    /// The lines entered, the oldest first.
    pub history: Vec<String>,
    /// How many lines of the history have been written to a file.
    pub history_written: usize,
    /// The background jobs.
    pub jobs: Vec<Job>,
    /// The values of the declared variables.
    pub shell_vars: TextMap<String>,
}

/// What a `Shell` says.
#[verifier::ext_equal]
pub struct ShellView {
    pub completions: Map<Seq<char>, Seq<char>>,
    pub history: Seq<Seq<char>>,
    pub history_written: usize,
    pub jobs: Seq<JobView>,
    pub shell_vars: Map<Seq<char>, Seq<char>>,
}

impl View for Shell {
    type V = ShellView;

    open spec fn view(&self) -> ShellView {
        ShellView {
            completions: store::text_values(self.completions@),
            history: text::texts(self.history@),
            history_written: self.history_written,
            jobs: command::job_views(self.jobs@),
            shell_vars: store::text_values(self.shell_vars@),
        }
    }
}

impl Shell {
    /// The shell that remembers nothing.
    pub fn new() -> (r: Shell)
        ensures
            r@ == (ShellView {
                completions: Map::empty(),
                history: Seq::empty(),
                history_written: 0,
                jobs: Seq::empty(),
                shell_vars: Map::empty(),
            }),
    {
        let r = Shell {
            completions: TextMap::new(),
            history: Vec::new(),
            history_written: 0,
            jobs: Vec::new(),
            shell_vars: TextMap::new(),
        };
        assert(r@ =~= (ShellView {
            completions: Map::empty(),
            history: Seq::empty(),
            history_written: 0,
            jobs: Seq::empty(),
            shell_vars: Map::empty(),
        }));
        r
    }
}

impl Command {
    /// The completion scripts, to read and to change.
    pub fn completions(shell: &mut Shell) -> (r: &mut TextMap<String>)
        ensures
            *r == old(shell).completions,
            *final(shell) == (Shell { completions: *final(r), ..*old(shell) }),
    {
        &mut shell.completions
    }

    /// The lines entered, to read and to change.
    pub fn history_list(shell: &mut Shell) -> (r: &mut Vec<String>)
        ensures
            *r == old(shell).history,
            *final(shell) == (Shell { history: *final(r), ..*old(shell) }),
    {
        &mut shell.history
    }

    /// How many lines of the history have been written to a file, to read and to change.
    pub fn history_written(shell: &mut Shell) -> (r: &mut usize)
        ensures
            *r == old(shell).history_written,
            *final(shell) == (Shell { history_written: *final(r), ..*old(shell) }),
    {
        &mut shell.history_written
    }

    /// The background jobs, to read and to change.
    pub fn jobs_list(shell: &mut Shell) -> (r: &mut Vec<Job>)
        ensures
            *r == old(shell).jobs,
            *final(shell) == (Shell { jobs: *final(r), ..*old(shell) }),
    {
        &mut shell.jobs
    }

    /// The values of the declared variables, to read and to change.
    pub fn shell_vars(shell: &mut Shell) -> (r: &mut TextMap<String>)
        ensures
            *r == old(shell).shell_vars,
            *final(shell) == (Shell { shell_vars: *final(r), ..*old(shell) }),
    {
        &mut shell.shell_vars
    }
}

} // verus!
