//! The decisions of the execute loop: which command of a buffer is next, what
//! is echoed, and how a script or a sourced file is cut into statements.

use vstd::prelude::*;
use vstd::slice::slice_subrange;
use vstd::string::StringExecFns;
use crate::command::{
    argument_models, group_match, leaf_at, Argument, ArgumentModel, Command, CommandLeaf, MatchModel,
    ReplError, ReplErrorModel,
};
use crate::completion::texts;
use crate::statement::{
    empty_line_end, index_after_empty_line, is_single_statement, joined, lemma_empty_line_from,
    lemma_first_blank_line_of_joined,
};
use crate::repl::Repl;
use crate::session::Console;
use crate::text::{
    chars_of, first_non_whitespace, is_blank, is_blank_text, string_of, trim, trim_start,
    trimmed_string,
};
use crate::usage::{decimal, push_decimal};

verus! {

/// A buffer of commands that is being executed, one command after another.
#[derive(Debug)]
pub struct CommandBatch {
    input: Vec<char>,
    position: usize,
    multiple_commands: bool,
}

/// The mathematical content of a [`CommandBatch`]: what is left to execute,
/// and whether the buffer has been seen to hold more than one command.
pub struct BatchModel {
    pub rest: Seq<char>,
    pub multiple_commands: bool,
}

impl View for CommandBatch {
    type V = BatchModel;

    closed spec fn view(&self) -> BatchModel {
        BatchModel {
            rest: self.input@.skip(self.position as int),
            multiple_commands: self.multiple_commands,
        }
    }
}

/// What the execute loop is to do next.
#[derive(Debug)]
pub enum Step<'a> {
    /// Nothing is left to execute.
    Done,
    /// What is left starts with no known command.
    Unrecognised { input: String },
    /// The next command is malformed.
    Rejected(ReplError),
    /// Run `command` with `arguments`. `text` is the command as typed,
    /// trimmed; it is to be echoed first if `echo` is set.
    Run { command: &'a CommandLeaf, arguments: Vec<Argument>, text: String, echo: bool },
}

/// The mathematical content of a [`Step`]. The leaf to run is given by its
/// path from the command tree of the current session.
pub enum StepModel {
    Done,
    Unrecognised { input: Seq<char> },
    Rejected(ReplErrorModel),
    Run { path: Seq<int>, arguments: Seq<ArgumentModel>, text: Seq<char>, echo: bool },
}

/// The next step for a batch, with the session stack `stack`.
///
/// The loop is done when no session is left or only whitespace remains.
/// Otherwise the rest is resolved against the tree of the current session.
/// A command is echoed when the caller asks for it, or when its buffer holds
/// more than this one command.
pub open spec fn step_of(
    batch: BatchModel,
    stack: Seq<Repl>,
    coerce_to_one_line: bool,
    must_log_command: bool,
) -> StepModel {
    if stack.len() == 0 || is_blank(batch.rest) {
        StepModel::Done
    } else {
        match group_match(stack.last().commands, batch.rest, coerce_to_one_line) {
            MatchModel::NoMatch => StepModel::Unrecognised { input: batch.rest },
            MatchModel::Rejected(error) => StepModel::Rejected(error),
            MatchModel::Found { path, arguments, end } => StepModel::Run {
                path,
                arguments,
                text: trim(batch.rest.take(end)),
                echo: must_log_command || batch.multiple_commands || !is_blank(batch.rest.skip(end)),
            },
        }
    }
}

/// The batch after the step: past the command that was resolved and the
/// whitespace that follows it.
pub open spec fn batch_after(batch: BatchModel, stack: Seq<Repl>, coerce_to_one_line: bool) -> BatchModel {
    if stack.len() == 0 || is_blank(batch.rest) {
        batch
    } else {
        match group_match(stack.last().commands, batch.rest, coerce_to_one_line) {
            MatchModel::Found { end, .. } => BatchModel {
                rest: trim_start(batch.rest.skip(end)),
                multiple_commands: batch.multiple_commands || !is_blank(batch.rest.skip(end)),
            },
            _ => batch,
        }
    }
}

/// The step `step` says what `model` says, for the session stack `stack`.
pub open spec fn step_is(step: Step<'_>, model: StepModel, stack: Seq<Repl>) -> bool {
    match model {
        StepModel::Done => step is Done,
        StepModel::Unrecognised { input } => step matches Step::Unrecognised { input: text }
            && text@ == input,
        StepModel::Rejected(error) => step matches Step::Rejected(e) && e@ == error,
        StepModel::Run { path, arguments, text, echo } => {
            &&& step matches Step::Run { command, arguments: parsed, text: typed, echo: shown }
            &&& stack.len() > 0
            &&& leaf_at(Command::Group(stack.last().commands), path) == Some(*command)
            &&& argument_models(parsed@) == arguments
            &&& typed@ == text
            &&& shown == echo
        },
    }
}

impl CommandBatch {
    #[verifier::type_invariant]
    spec fn wf(&self) -> bool {
        self.position <= self.input@.len()
    }

    /// The batch that is to execute `input`.
    pub fn new(input: &str) -> (r: Self)
        ensures
            r@.rest == input@,
            !r@.multiple_commands,
    {
        let chars = chars_of(input);
        proof {
            assert(chars@.skip(0) == chars@);
        }
        CommandBatch { input: chars, position: 0, multiple_commands: false }
    }

    /// Decides the next step and moves past the command that it resolved.
    pub fn next<'a>(
        &mut self,
        console: &'a Console,
        coerce_to_one_line: bool,
        must_log_command: bool,
    ) -> (r: Step<'a>)
        ensures
            step_is(
                r,
                step_of(old(self)@, console.repl_stack@, coerce_to_one_line, must_log_command),
                console.repl_stack@,
            ),
            final(self)@ == batch_after(old(self)@, console.repl_stack@, coerce_to_one_line),
    {
        proof {
            use_type_invariant(&*self);
        }
        let rest = slice_subrange(self.input.as_slice(), self.position, self.input.len());
        proof {
            assert(rest@ == self@.rest);
        }
        let repl = match console.current_repl() {
            None => {
                return Step::Done;
            },
            Some(repl) => repl,
        };
        if is_blank_text(rest) {
            return Step::Done;
        }
        match repl.match_first_command(rest, coerce_to_one_line) {
            Ok(None) => Step::Unrecognised { input: string_of(rest) },
            Err(error) => Step::Rejected(error),
            Ok(Some(found)) => {
                let text = trimmed_string(slice_subrange(rest, 0, found.end));
                let after = slice_subrange(rest, found.end, rest.len());
                let more = !is_blank_text(after);
                let echo = must_log_command || self.multiple_commands || more;
                let skipped = first_non_whitespace(after, 0);
                let multiple = self.multiple_commands || more;
                proof {
                    assert(rest@.subrange(0, found.end as int) == rest@.take(found.end as int));
                    assert(after@ == rest@.skip(found.end as int));
                    assert(trim_start(after@) == self.input@.skip(
                        self.position + found.end + skipped,
                    ));
                }
                self.position = self.position + found.end + skipped;
                self.multiple_commands = multiple;
                Step::Run { command: found.command, arguments: found.arguments, text, echo }
            },
        }
    }
}

/// `count` plus signs.
pub open spec fn pluses(count: int) -> Seq<char> {
    Seq::new(count as nat, |i: int| '+')
}

/// The line that echoes a command before it runs: one plus sign for each
/// session on the stack, a space, and the command.
pub fn echo_line(depth: usize, text: &str) -> (r: String)
    ensures
        r@ == pluses(depth as int) + " "@ + text@,
{
    let mut line = String::new();
    let mut i: usize = 0;
    proof {
        assert(line@ =~= pluses(0));
    }
    while i < depth
        invariant
            i <= depth,
            line@ == pluses(i as int),
        decreases depth - i,
    {
        line.push('+');
        proof {
            assert(line@ =~= pluses(i + 1));
        }
        i += 1;
    }
    line.append(" ");
    line.append(text);
    line
}

/// The message for an input that starts with no known command.
pub fn unrecognised_command_message(input: &str) -> (r: String)
    ensures
        r@ == "Unrecognised command: "@ + input@,
{
    let mut message = String::new();
    message.append("Unrecognised command: ");
    message.append(input);
    proof {
        assert(message@ =~= "Unrecognised command: "@ + input@);
    }
    message
}

/// The message for a command that failed while it ran.
pub fn execution_error_message(command: &str, error: &str) -> (r: String)
    ensures
        r@ == "**Error executing command**\n"@ + command@ + "\n--> Error\n"@ + error@,
{
    let mut message = String::new();
    message.append("**Error executing command**\n");
    message.append(command);
    message.append("\n--> Error\n");
    message.append(error);
    proof {
        assert(message@ =~= "**Error executing command**\n"@ + command@ + "\n--> Error\n"@ + error@);
    }
    message
}

/// The message for a sourced file of which query number `number`, counted
/// from 1, failed with `error`.
pub fn sourced_file_error_message(error: &str, file: &str, number: usize, query: &str) -> (r: String)
    ensures
        r@ == error@ + "\n### Stopped executing sourced file '"@ + file@ + "' at query "@ + decimal(
            number as nat,
        ) + ": "@ + query@,
{
    let mut message = String::new();
    message.append(error);
    message.append("\n### Stopped executing sourced file '");
    message.append(file);
    message.append("' at query ");
    push_decimal(&mut message, number);
    message.append(": ");
    message.append(query);
    proof {
        assert(message@ =~= error@ + "\n### Stopped executing sourced file '"@ + file@
            + "' at query "@ + decimal(number as nat) + ": "@ + query@);
    }
    message
}

/// The message after a sourced file was executed in full.
pub fn executed_queries_message(count: usize) -> (r: String)
    ensures
        r@ == "Successfully executed "@ + decimal(count as nat) + " queries."@,
{
    let mut message = String::new();
    message.append("Successfully executed ");
    push_decimal(&mut message, count);
    message.append(" queries.");
    proof {
        assert(message@ =~= "Successfully executed "@ + decimal(count as nat) + " queries."@);
    }
    message
}

/// The lines `lines[..count]` of a script as one buffer: each line after a
/// newline.
pub open spec fn script_text(lines: Seq<Seq<char>>, count: int) -> Seq<char>
    decreases count,
{
    if count <= 0 {
        Seq::empty()
    } else {
        script_text(lines, count - 1).push('\n') + lines[count - 1]
    }
}

/// Joins the lines of a script into the buffer that is executed.
pub fn script_input(lines: &Vec<String>) -> (r: String)
    ensures
        r@ == script_text(texts(lines@), lines@.len() as int),
{
    let mut combined = String::new();
    let mut i: usize = 0;
    while i < lines.len()
        invariant
            i <= lines.len(),
            combined@ == script_text(texts(lines@), i as int),
        decreases lines.len() - i,
    {
        combined.push('\n');
        combined.append(lines[i].as_str());
        i += 1;
    }
    combined
}

/// The statements of a sourced file: those that a blank line closes, in
/// order, and what is left after the last of them.
#[derive(Debug)]
pub struct Statements {
    pub complete: Vec<String>,
    pub trailing: Option<String>,
}

/// The statements that blank lines delimit in `s`, one after another: each
/// reaches up to and including the first blank line after its start.
pub open spec fn complete_statements(s: Seq<char>) -> Seq<Seq<char>>
    decreases s.len(),
{
    match empty_line_end(s) {
        Some(end) => {
            proof {
                lemma_empty_line_from(s, 0);
            }
            seq![s.take(end)] + complete_statements(s.skip(end))
        },
        None => Seq::empty(),
    }
}

/// What is left of `s` after the statements that blank lines delimit.
pub open spec fn trailing_statement(s: Seq<char>) -> Seq<char>
    decreases s.len(),
{
    match empty_line_end(s) {
        Some(end) => {
            proof {
                lemma_empty_line_from(s, 0);
            }
            trailing_statement(s.skip(end))
        },
        None => s,
    }
}

/// Cuts the contents of a sourced file into statements at its blank lines,
/// by searching for the next blank line again and again. What is left after
/// the last blank line is the trailing statement, unless it is empty: the end
/// of the file bounds it.
pub fn split_statements(contents: &str) -> (r: Statements)
    ensures
        texts(r.complete@) == complete_statements(contents@),
        r.complete@.len() <= contents@.len(),
        r.complete@.len() == contents@.len() ==> r.trailing is None,
        match r.trailing {
            Some(text) => text@ == trailing_statement(contents@) && text@.len() > 0,
            None => trailing_statement(contents@).len() == 0,
        },
{
    let chars = chars_of(contents);
    let mut complete: Vec<String> = Vec::new();
    let mut position: usize = 0;
    proof {
        assert(chars@.skip(0) == chars@);
        assert(texts(complete@) =~= Seq::<Seq<char>>::empty());
    }
    loop
        invariant
            position <= chars.len(),
            complete@.len() <= position,
            chars@ == contents@,
            texts(complete@) + complete_statements(chars@.skip(position as int))
                == complete_statements(contents@),
            trailing_statement(chars@.skip(position as int)) == trailing_statement(contents@),
        decreases chars.len() - position,
    {
        let rest = slice_subrange(chars.as_slice(), position, chars.len());
        proof {
            assert(rest@ == chars@.skip(position as int));
            lemma_empty_line_from(rest@, 0);
        }
        let end = match index_after_empty_line(rest, false) {
            Some(end) => end,
            None => {
                proof {
                    assert(texts(complete@) + Seq::<Seq<char>>::empty() =~= texts(complete@));
                }
                let trailing = if rest.len() > 0 {
                    Some(string_of(rest))
                } else {
                    None
                };
                return Statements { complete, trailing };
            },
        };
        let ghost before = texts(complete@);
        let statement = string_of(slice_subrange(rest, 0, end));
        complete.push(statement);
        proof {
            assert(rest@.subrange(0, end as int) == rest@.take(end as int));
            assert(rest@.skip(end as int) == chars@.skip(position + end));
            assert(texts(complete@) =~= before.push(rest@.take(end as int)));
            assert(before.push(rest@.take(end as int)) + complete_statements(
                rest@.skip(end as int),
            ) =~= before + (seq![rest@.take(end as int)] + complete_statements(
                rest@.skip(end as int),
            )));
        }
        position = position + end;
    }
}

/// The number of statements: those that a blank line closes and, if there is
/// one, the trailing statement.
pub open spec fn statement_count(statements: Statements) -> int {
    statements.complete@.len() + if statements.trailing is Some {
        1int
    } else {
        0int
    }
}

/// The statement with number `index`, counted from 0, in the order of
/// execution: the complete ones first, the trailing one last.
pub open spec fn statement_at(statements: Statements, index: int) -> Option<Seq<char>> {
    if 0 <= index < statements.complete@.len() {
        Some(statements.complete@[index]@)
    } else if index == statements.complete@.len() {
        match statements.trailing {
            Some(text) => Some(text@),
            None => None,
        }
    } else {
        None
    }
}

/// What is reported after a sourced file was executed up to its first failing
/// statement, or to its end: the count of the statements executed, or the
/// error with the file, the number of the statement counted from 1, and the
/// statement.
pub open spec fn source_report(
    statements: Statements,
    file: Seq<char>,
    failure: Option<(usize, String)>,
) -> Result<Seq<char>, Seq<char>> {
    match failure {
        None => Ok(
            "Successfully executed "@ + decimal(statement_count(statements) as nat)
                + " queries."@,
        ),
        Some((index, error)) => Err(
            error@ + "\n### Stopped executing sourced file '"@ + file + "' at query "@ + decimal(
                (index + 1) as nat,
            ) + ": "@ + match statement_at(statements, index as int) {
                Some(text) => text,
                None => Seq::empty(),
            },
        ),
    }
}

impl Statements {
    /// The number of statements to execute.
    pub fn count(&self) -> (r: usize)
        requires
            statement_count(*self) <= usize::MAX,
        ensures
            r == statement_count(*self),
    {
        match &self.trailing {
            Some(_) => self.complete.len() + 1,
            None => self.complete.len(),
        }
    }

    /// The statement with number `index`, counted from 0, in the order of
    /// execution.
    pub fn get(&self, index: usize) -> (r: Option<&String>)
        ensures
            match r {
                Some(text) => statement_at(*self, index as int) == Some(text@),
                None => statement_at(*self, index as int) is None,
            },
    {
        if index < self.complete.len() {
            Some(&self.complete[index])
        } else if index == self.complete.len() {
            match &self.trailing {
                Some(text) => Some(text),
                None => None,
            }
        } else {
            None
        }
    }

    /// Whether the statement with number `index` is shown as it runs: every
    /// statement that a blank line closes is, the trailing one is not.
    pub fn is_logged(&self, index: usize) -> (r: bool)
        ensures
            r == (index < self.complete@.len()),
    {
        index < self.complete.len()
    }

    /// The report after the statements were executed in order: up to the end
    /// where `failure` is `None`, else up to the statement with the number
    /// given, which failed with the error given.
    pub fn report(&self, file: &str, failure: Option<(usize, String)>) -> (r: Result<String, String>)
        requires
            statement_count(*self) <= usize::MAX,
            failure matches Some((index, _)) ==> index < statement_count(*self),
        ensures
            match r {
                Ok(message) => source_report(*self, file@, failure) == Ok::<Seq<char>, Seq<char>>(
                    message@,
                ),
                Err(message) => source_report(*self, file@, failure) == Err::<
                    Seq<char>,
                    Seq<char>,
                >(message@),
            },
    {
        match failure {
            None => Ok(executed_queries_message(self.count())),
            Some((index, error)) => {
                let empty = String::new();
                let statement = match self.get(index) {
                    Some(text) => text,
                    None => &empty,
                };
                Err(
                    sourced_file_error_message(
                        error.as_str(),
                        file,
                        index + 1,
                        statement.as_str(),
                    ),
                )
            },
        }
    }
}

/// Cutting a buffer at its blank lines gives back the statements it was made
/// of: for statements that hold no blank line, the buffer made of them, each
/// followed by a blank line, is cut into those statements, each with its
/// blank line, and nothing is left over.
pub proof fn lemma_split_round_trip(statements: Seq<Seq<char>>)
    requires
        forall|k: int| 0 <= k < statements.len() ==> is_single_statement(#[trigger] statements[k]),
    ensures
        complete_statements(joined(statements)) == statements.map_values(
            |s: Seq<char>| s + seq!['\n', '\n'],
        ),
        trailing_statement(joined(statements)).len() == 0,
    decreases statements.len(),
{
    let whole = joined(statements);
    let expected = statements.map_values(|s: Seq<char>| s + seq!['\n', '\n']);
    if statements.len() == 0 {
        assert(empty_line_end(whole) is None);
        assert(complete_statements(whole) =~= expected);
    } else {
        let first = statements[0];
        let others = statements.skip(1);
        let tail = joined(others);
        let n = first.len() as int;
        assert(whole == first + seq!['\n', '\n'] + tail);
        lemma_first_blank_line_of_joined(first, tail);
        assert(whole.take(n + 2) =~= first + seq!['\n', '\n']);
        assert(whole.skip(n + 2) =~= tail);
        assert forall|k: int| 0 <= k < others.len() implies is_single_statement(
            #[trigger] others[k],
        ) by {
            assert(others[k] == statements[k + 1]);
        }
        lemma_split_round_trip(others);
        assert(complete_statements(whole) =~= expected) by {
            let rest = others.map_values(|s: Seq<char>| s + seq!['\n', '\n']);
            assert(complete_statements(whole) == seq![first + seq!['\n', '\n']] + rest);
            assert(seq![first + seq!['\n', '\n']] + rest =~= expected);
        }
    }
}

} // verus!
