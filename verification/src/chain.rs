//! Running the parts of a chain, one after the other.
use vstd::prelude::*;

use crate::command;
use crate::command::{exeCmd, ChainOp, ChainSegment, Command, CommandView, ExecView, SegmentView};
use crate::dispatch;
use crate::dispatch::{not_found_output, ActionView};
use crate::output;
use crate::output::{
    choose_sink, describe_output, echo_output, print_directory, Output, OutputView, Sink, SinkView,
};
use crate::parse;
use crate::shell::ShellView;
use crate::text;
use crate::text::{join, push_text};
use crate::tokens;

verus! {

/// A chain that is being run.
#[derive(Debug, PartialEq, Eq)]
pub struct ChainRun {
    pub segments: Vec<ChainSegment>,
    /// The place of the part that runs next.
    pub position: usize,
    /// Whether the last part that ran succeeded.
    pub last_status: bool,
}

/// What a `ChainRun` says.
#[verifier::ext_equal]
pub struct ChainView {
    pub segments: Seq<SegmentView>,
    pub position: nat,
    pub last_status: bool,
}

impl View for ChainRun {
    type V = ChainView;

    open spec fn view(&self) -> ChainView {
        ChainView {
            segments: command::segment_views(self.segments@),
            position: self.position as nat,
            last_status: self.last_status,
        }
    }
}

/// A chain before its first part.
pub open spec fn chain_start(segments: Seq<SegmentView>) -> ChainView {
    ChainView { segments, position: 0, last_status: true }
}

/// The line that the next part of a chain is, if there is one.
pub open spec fn next_line(chain: ChainView) -> Option<Seq<char>> {
    if chain.position < chain.segments.len() {
        Some(text::joined(chain.segments[chain.position as int].tokens, " "@))
    } else {
        None
    }
}

/// Whether a chain goes on behind an operator.
pub open spec fn goes_on(operator: ChainOp, status: bool) -> bool {
    match operator {
        ChainOp::And => status,
        ChainOp::Or => !status,
        ChainOp::End => true,
    }
}

/// The chain after its next part has succeeded or failed.
pub open spec fn advanced(chain: ChainView, status: bool) -> ChainView {
    ChainView {
        segments: chain.segments,
        position: if chain.position < chain.segments.len() && goes_on(
            chain.segments[chain.position as int].operator,
            status,
        ) {
            chain.position + 1
        } else {
            chain.segments.len()
        },
        last_status: status,
    }
}

/// The chain when nothing of it is to run any more.
pub open spec fn stopped(chain: ChainView) -> ChainView {
    ChainView { position: chain.segments.len(), ..chain }
}

/// What is to be done for a part of a chain.
#[derive(Debug, PartialEq, Eq)]
pub enum ChainAction {
    /// Run a program; the part succeeds if it does.
    Run(exeCmd),
    /// Print; the part succeeds.
    Emit(Output),
    /// Print; the part fails.
    Fail(Output),
    /// Change the directory; the part succeeds if that does, and an error goes to `errors`.
    ChangeDirectory { dir: String, errors: Sink },
    /// Let the shell do what the command does; the part succeeds.
    Dispatch(Command),
    /// Nothing; whether the part succeeds stays at what the part before it did.
    Pass,
    /// Leave the chain.
    Stop,
}

/// What a `ChainAction` says.
pub enum ChainActionView {
    Run(ExecView),
    Emit(OutputView),
    Fail(OutputView),
    ChangeDirectory { dir: Seq<char>, errors: SinkView },
    Dispatch(CommandView),
    Pass,
    Stop,
}

impl View for ChainAction {
    type V = ChainActionView;

    open spec fn view(&self) -> ChainActionView {
        match self {
            ChainAction::Run(cmd) => ChainActionView::Run(cmd@),
            ChainAction::Emit(output) => ChainActionView::Emit(output@),
            ChainAction::Fail(output) => ChainActionView::Fail(output@),
            ChainAction::ChangeDirectory { dir, errors } => ChainActionView::ChangeDirectory {
                dir: dir@,
                errors: errors@,
            },
            ChainAction::Dispatch(command) => ChainActionView::Dispatch(command@),
            ChainAction::Pass => ChainActionView::Pass,
            ChainAction::Stop => ChainActionView::Stop,
        }
    }
}

/// What is to be done for the part of a chain that is this line and stands for this command.
/// `exit` leaves a chain in the foreground, and is passed over in the background.
pub open spec fn chain_action(
    command: CommandView,
    background: bool,
    line: Seq<char>,
    cwd: Seq<char>,
) -> ChainActionView {
    match command {
        CommandView::ExecCommand { exec_name } => ChainActionView::Run(exec_name),
        CommandView::EchoCommand { display_string } => ChainActionView::Emit(
            output::echoed(display_string),
        ),
        CommandView::TypeCommand { command_name } => ChainActionView::Emit(
            output::type_output(command_name),
        ),
        CommandView::PwdCommand { stdout_file, stdout_append } => ChainActionView::Emit(
            output::pwd_output(stdout_file, stdout_append, cwd),
        ),
        CommandView::CdCommand { directory } => ChainActionView::ChangeDirectory {
            dir: directory.name,
            errors: output::sink_for(directory.stderr_file, directory.stderr_append),
        },
        CommandView::ExitCommand => if background {
            ChainActionView::Pass
        } else {
            ChainActionView::Stop
        },
        CommandView::CommandNotFound => ChainActionView::Fail(dispatch::not_found(line)),
        _ => ChainActionView::Dispatch(command),
    }
}

/// The chain after its next part has been passed over.
pub open spec fn passed(chain: ChainView) -> ChainView {
    advanced(chain, chain.last_status)
}

/// The name of the job that runs a chain: the lines of its parts.
pub open spec fn chain_text(segments: Seq<SegmentView>) -> Seq<char> {
    text::joined(
        segments.map_values(|s: SegmentView| text::joined(s.tokens, " "@)),
        " && "@,
    )
}

/// The name of the job that runs a chain.
pub fn chain_job_text(segments: &Vec<ChainSegment>) -> (r: String)
    ensures
        r@ == chain_text(command::segment_views(segments@)),
{
    let ghost all = command::segment_views(segments@);
    let ghost whole = all.map_values(|s: SegmentView| text::joined(s.tokens, " "@));
    let mut parts: Vec<String> = Vec::new();
    let mut i: usize = 0;
    assert(text::texts(parts@) =~= whole.take(0));
    while i < segments.len()
        invariant
            i <= segments@.len(),
            all == command::segment_views(segments@),
            whole == all.map_values(|s: SegmentView| text::joined(s.tokens, " "@)),
            text::texts(parts@) == whole.take(i as int),
        decreases segments@.len() - i,
    {
        assert(all[i as int] == segments@[i as int]@);
        push_text(&mut parts, join(&segments[i].tokens, " "));
        i += 1;
        assert(text::texts(parts@) =~= whole.take(i as int));
    }
    assert(whole.take(i as int) =~= whole);
    join(&parts, " && ")
}

impl ChainRun {
    /// A chain before its first part.
    pub fn new(segments: Vec<ChainSegment>) -> (r: ChainRun)
        ensures
            r@ == chain_start(command::segment_views(segments@)),
    {
        ChainRun { segments, position: 0, last_status: true }
    }

    /// The line that the next part of the chain is, if there is one.
    pub fn next_line(&self) -> (r: Option<String>)
        ensures
            text::opt_text(r) == next_line(self@),
    {
        if self.position < self.segments.len() {
            assert(self@.segments[self.position as int] == self.segments@[self.position as int]@);
            Some(join(&self.segments[self.position].tokens, " "))
        } else {
            None
        }
    }

    /// What is to be done for the part of the chain that is this line and stands for this
    /// command.
    pub fn part_action(command: Command, background: bool, line: &str, cwd: &str) -> (r:
        ChainAction)
        ensures
            r@ == chain_action(command@, background, line@, cwd@),
    {
        match command {
            Command::ExecCommand { exec_name } => ChainAction::Run(exec_name),
            Command::EchoCommand { display_string } => ChainAction::Emit(
                echo_output(&display_string),
            ),
            Command::TypeCommand { command_name } => ChainAction::Emit(
                describe_output(&command_name),
            ),
            Command::PwdCommand { stdout_file, stdout_append } => ChainAction::Emit(
                print_directory(&stdout_file, stdout_append, cwd),
            ),
            Command::CdCommand { directory } => {
                let errors: Sink = choose_sink(&directory.stderr_file, directory.stderr_append);
                ChainAction::ChangeDirectory { dir: directory.name, errors }
            },
            Command::ExitCommand => if background {
                ChainAction::Pass
            } else {
                ChainAction::Stop
            },
            Command::CommandNotFound => ChainAction::Fail(not_found_output(line)),
            other => ChainAction::Dispatch(other),
        }
    }

    /// Notes whether the next part of the chain has succeeded.
    pub fn advance(&mut self, status: bool)
        ensures
            final(self)@ == advanced(old(self)@, status),
    {
        let len: usize = self.segments.len();
        self.last_status = status;
        if self.position < len {
            let operator: ChainOp = self.segments[self.position].operator;
            let on: bool = match operator {
                ChainOp::And => status,
                ChainOp::Or => !status,
                ChainOp::End => true,
            };
            if on {
                self.position = self.position + 1;
                return;
            }
        }
        self.position = len;
    }

    /// Passes over the next part of the chain.
    pub fn pass(&mut self)
        ensures
            final(self)@ == passed(old(self)@),
    {
        let status: bool = self.last_status;
        self.advance(status);
    }

    /// Lets nothing of the chain run any more.
    pub fn stop(&mut self)
        ensures
            final(self)@ == stopped(old(self)@),
    {
        self.position = self.segments.len();
    }
}

/// A chain moves on with every part, and never past its end, so it ends.
pub proof fn law_chain_moves_on(chain: ChainView, status: bool)
    requires
        chain.position < chain.segments.len(),
    ensures
        chain.position < advanced(chain, status).position <= chain.segments.len(),
        chain.position < passed(chain).position <= chain.segments.len(),
        stopped(chain).position == chain.segments.len(),
        next_line(stopped(chain)) is None,
{
}

proof fn lemma_no_chain_word(words: Seq<Seq<char>>, rest: Seq<Seq<char>>)
    requires
        forall|i: int| 0 <= i < words.len() ==> !parse::is_chain_word(#[trigger] words[i]),
        rest.len() > 0 ==> parse::is_chain_word(rest[0]),
    ensures
        parse::first_chain_word(words + rest) == words.len(),
    decreases words.len(),
{
    let all = words + rest;
    if words.len() == 0 {
        assert(all =~= rest);
    } else {
        let later = words.skip(1);
        assert(!parse::is_chain_word(words[0]));
        assert(all[0] == words[0]);
        assert forall|i: int| 0 <= i < later.len() implies !parse::is_chain_word(
            #[trigger] later[i],
        ) by {
            assert(later[i] == words[i + 1]);
        }
        assert(all.skip(1) =~= later + rest);
        lemma_no_chain_word(later, rest);
    }
}

/// Of two commands joined by `&&` the first is run first, and the second is run if and only if
/// the first succeeded; joined by `||`, if and only if it failed.
pub proof fn law_short_circuit(
    first: Seq<Seq<char>>,
    second: Seq<Seq<char>>,
    operator: Seq<char>,
    status: bool,
)
    requires
        second.len() > 0,
        forall|i: int| 0 <= i < first.len() ==> !parse::is_chain_word(#[trigger] first[i]),
        forall|i: int| 0 <= i < second.len() ==> !parse::is_chain_word(#[trigger] second[i]),
        parse::is_chain_word(operator),
    ensures
        ({
            let start = chain_start(parse::chained(first.push(operator) + second));
            let after = advanced(start, status);
            &&& next_line(start) == Some(text::joined(first, " "@))
            &&& next_line(after) == (if status == (operator == "&&"@) {
                Some(text::joined(second, " "@))
            } else {
                None
            })
            &&& next_line(advanced(after, status)) is None
        }),
{
    let all = first.push(operator) + second;
    let behind = seq![operator] + second;
    let none = Seq::<Seq<char>>::empty();
    assert(all =~= first + behind);
    lemma_no_chain_word(first, behind);
    lemma_no_chain_word(second, none);
    assert(second + none =~= second);
    assert(all.take(first.len() as int) =~= first);
    assert(all[first.len() as int] == operator);
    assert(all.skip(first.len() as int + 1) =~= second);
    assert(parse::chained(second) == seq![
        SegmentView { tokens: second, operator: ChainOp::End },
    ]);
    reveal_strlit("&&");
    reveal_strlit("||");
    assert("&&"@[0] == '&' && "||"@[0] == '|');
}

/// Each part of a chain does what its command does as a line of its own: what it prints is what
/// the shell prints for it, and a command that changes what the shell remembers is left to the
/// shell. Only `exit` differs, which leaves the chain or is passed over, and a program, which is
/// waited for.
pub proof fn law_parts_do_what_lines_do(
    shell: ShellView,
    command: CommandView,
    background: bool,
    line: Seq<char>,
    cwd: Seq<char>,
)
    ensures
        ({
            let (after, action) = dispatch::dispatched(shell, command, line, cwd);
            match chain_action(command, background, line, cwd) {
                ChainActionView::Run(cmd) => command == CommandView::ExecCommand {
                    exec_name: cmd,
                },
                ChainActionView::Emit(output) => after == shell && action == ActionView::Emit(
                    output,
                ),
                ChainActionView::Fail(output) => after == shell && action == ActionView::Emit(
                    output,
                ) && command is CommandNotFound,
                ChainActionView::ChangeDirectory { dir, errors } => after == shell && action
                    == ActionView::ChangeDirectory { dir, errors },
                ChainActionView::Dispatch(handed) => handed == command,
                ChainActionView::Pass => action is Exit && background,
                ChainActionView::Stop => action is Exit && !background,
            }
        }),
{
}

/// At every place of a chain, the operator behind the part that has just run decides whether the
/// next part runs: behind `&&` the chain goes on by one part if and only if that part succeeded,
/// behind `||` if and only if it failed; otherwise nothing of the chain runs any more.
pub proof fn law_operators_decide(chain: ChainView, status: bool)
    requires
        chain.position < chain.segments.len(),
    ensures
        ({
            let after = advanced(chain, status);
            let operator = chain.segments[chain.position as int].operator;
            &&& operator == ChainOp::And && status ==> after.position == chain.position + 1
            &&& operator == ChainOp::And && !status ==> next_line(after) is None
            &&& operator == ChainOp::Or && !status ==> after.position == chain.position + 1
            &&& operator == ChainOp::Or && status ==> next_line(after) is None
            &&& operator == ChainOp::End ==> after.position == chain.position + 1
            &&& after.segments == chain.segments
            &&& after.last_status == status
        }),
{
}

/// A part that is passed over leaves the decision to the part before it.
pub proof fn law_passing_keeps_the_status(chain: ChainView)
    requires
        chain.position < chain.segments.len(),
    ensures
        passed(chain).last_status == chain.last_status,
        chain.segments[chain.position as int].operator == ChainOp::Or && !chain.last_status
            ==> passed(chain).position == chain.position + 1,
        chain.segments[chain.position as int].operator == ChainOp::And && chain.last_status
            ==> passed(chain).position == chain.position + 1,
        chain.segments[chain.position as int].operator == ChainOp::Or && chain.last_status
            ==> next_line(passed(chain)) is None,
        chain.segments[chain.position as int].operator == ChainOp::And && !chain.last_status
            ==> next_line(passed(chain)) is None,
{
}

/// A chain begins with its first part, and at each place the line of the part there is the
/// words of that part.
pub proof fn law_line_of_a_part(chain: ChainView)
    ensures
        chain_start(chain.segments).segments == chain.segments,
        chain_start(chain.segments).position == 0,
        chain_start(chain.segments).last_status,
        next_line(chain) is Some <==> chain.position < chain.segments.len(),
        (chain.position < chain.segments.len() && forall|i: int|
            0 <= i < chain.segments[chain.position as int].tokens.len() ==> tokens::is_plain(
                #[trigger] chain.segments[chain.position as int].tokens[i],
            )) ==> tokens::tokens(next_line(chain)->0)
            == chain.segments[chain.position as int].tokens,
{
    if chain.position < chain.segments.len() && forall|i: int|
        0 <= i < chain.segments[chain.position as int].tokens.len() ==> tokens::is_plain(
            #[trigger] chain.segments[chain.position as int].tokens[i],
        ) {
        tokens::law_plain_words_are_read_back(chain.segments[chain.position as int].tokens);
    }
}

/// Only a part that is not found fails without having run anything, only a program and a change
/// of the directory decide by how they end, and only `exit` leaves the chain or is passed over.
pub proof fn law_what_a_part_does(
    command: CommandView,
    background: bool,
    line: Seq<char>,
    cwd: Seq<char>,
)
    ensures
        ({
            let action = chain_action(command, background, line, cwd);
            &&& action is Fail <==> command is CommandNotFound
            &&& action is Run <==> command is ExecCommand
            &&& action is ChangeDirectory <==> command is CdCommand
            &&& action is Stop <==> command is ExitCommand && !background
            &&& action is Pass <==> command is ExitCommand && background
            &&& action is Emit <==> command is EchoCommand || command is TypeCommand || command
                is PwdCommand
        }),
{
}

/// The name of the job that runs a chain is made of the lines of its parts, one behind the
/// other, with ` && ` between each two.
pub proof fn law_name_of_a_chain(first: Seq<SegmentView>, second: Seq<SegmentView>)
    requires
        first.len() > 0,
        second.len() > 0,
    ensures
        chain_text(first + second) == chain_text(first) + " && "@ + chain_text(second),
        first.len() == 1 ==> chain_text(first) == next_line(chain_start(first))->0,
{
    let show = |s: SegmentView| text::joined(s.tokens, " "@);
    assert((first + second).map_values(show) =~= first.map_values(show) + second.map_values(show));
    text::law_joining(first.map_values(show), second.map_values(show), " && "@);
    if first.len() == 1 {
        assert(first.map_values(show)[0] == text::joined(first[0].tokens, " "@));
    }
}

/// The place in a chain stays one of its parts or its end, whatever its parts come to, and a chain
/// that has ended stays ended.
pub proof fn law_place_stays_in_the_chain(
    segments: Seq<SegmentView>,
    chain: ChainView,
    status: bool,
)
    requires
        chain.position <= chain.segments.len(),
    ensures
        chain_start(segments).position <= segments.len(),
        advanced(chain, status).segments == chain.segments,
        advanced(chain, status).position <= chain.segments.len(),
        stopped(chain).position <= chain.segments.len(),
        next_line(chain) is None ==> next_line(advanced(chain, status)) is None,
{
}

} // verus!
