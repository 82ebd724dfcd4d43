//! The command tree: leaves with their arguments, groups of subcommands, and
//! the resolution of an input against them.

use vstd::prelude::*;
use vstd::slice::slice_subrange;
use crate::query::{parse_prefix, query_end, spec_query_end, typeql_prefix};
use crate::text::{
    first_non_whitespace, first_whitespace, lemma_skip_whitespace, lemma_skip_word, skip_whitespace,
    skip_word, string_of, trim, trimmed_string,
};
use crate::token::{lemma_token_before_transitive, token_before, token_match, CommandToken};

verus! {

/// Where the first word of `input` ends, if `input` holds a word at all.
pub open spec fn word_end(input: Seq<char>) -> Option<int> {
    let start = skip_whitespace(input, 0);
    if start >= input.len() {
        None
    } else {
        Some(skip_word(input, start))
    }
}

/// Reads one word: skips leading whitespace and stops at the next whitespace
/// or at the end of `input`. `None` if only whitespace remains.
pub fn read_word(input: &[char]) -> (r: Option<usize>)
    ensures
        match r {
            Some(end) => word_end(input@) == Some(end as int) && 0 < end <= input.len(),
            None => word_end(input@) is None,
        },
{
    let start = first_non_whitespace(input, 0);
    if start >= input.len() {
        None
    } else {
        proof {
            lemma_skip_whitespace(input@, 0);
            lemma_skip_word(input@, start as int);
        }
        Some(first_whitespace(input, start))
    }
}

/// The word reader on text: see [`read_word`]. The second parameter has no
/// effect on it.
pub fn get_word(input: &str, _coerce_to_one_line: bool) -> (r: Option<usize>)
    ensures
        match r {
            Some(end) => word_end(input@) == Some(end as int),
            None => word_end(input@) is None,
        },
{
    let chars = crate::text::chars_of(input);
    read_word(chars.as_slice())
}

/// The strategies by which an argument's extent is read from the input.
#[derive(Clone, Copy, Debug, PartialEq, Eq, Structural)]
pub enum InputReader {
    /// One whitespace-delimited word.
    Word,
    /// One query, delimited by the statement boundary detector.
    Query,
}

/// How many characters at the start of `input` the reader takes as one
/// argument; `None` if the argument is absent.
pub open spec fn reader_end(reader: InputReader, input: Seq<char>, coerce_to_one_line: bool) -> Option<
    int,
> {
    match reader {
        InputReader::Word => word_end(input),
        InputReader::Query => if coerce_to_one_line {
            Some(input.len() as int)
        } else {
            spec_query_end(input, typeql_prefix(input))
        },
    }
}

impl InputReader {
    /// Applies the reader to `input`.
    pub fn read(self, input: &[char], coerce_to_one_line: bool) -> (r: Option<usize>)
        ensures
            match r {
                Some(end) => reader_end(self, input@, coerce_to_one_line) == Some(end as int) && end
                    <= input.len(),
                None => reader_end(self, input@, coerce_to_one_line) is None,
            },
    {
        match self {
            InputReader::Word => read_word(input),
            InputReader::Query => {
                if coerce_to_one_line {
                    Some(input.len())
                } else {
                    let text = string_of(input);
                    let outcome = parse_prefix(text.as_str());
                    query_end(input, &outcome)
                }
            },
        }
    }
}

/// Whether an argument must be given, and how it is obtained when it is not on
/// the command line.
#[derive(Clone, Copy, Debug, PartialEq, Eq, Structural)]
pub enum InputType {
    /// May be left out; only at the tail of an argument list.
    Optional,
    /// Must be on the command line.
    RequiredVisible,
    /// Must be given; when it is not on the command line it is asked for
    /// through a masked prompt.
    RequiredHidden,
}

/// The sources of completion candidates for an argument.
#[derive(Clone, Copy, Debug, PartialEq, Eq, Structural)]
pub enum Completer {
    /// Names of the databases on the server.
    DatabaseNames,
    /// Paths in the file system.
    Files,
}

/// The specification of one argument of a command leaf.
#[derive(Debug)]
pub struct CommandInput {
    pub usage: &'static str,
    pub reader: InputReader,
    pub type_: InputType,
    pub completer: Option<Completer>,
}

/// The operation that a command leaf stands for.
#[derive(Clone, Copy, Debug, PartialEq, Eq, Structural)]
pub enum Operation {
    Exit,
    Help,
    Clear,
    DatabaseList,
    DatabaseCreate,
    DatabaseCreateInit,
    DatabaseDelete,
    DatabaseSchema,
    DatabaseImport,
    DatabaseExport,
    UserList,
    UserCreate,
    UserDelete,
    UserUpdatePassword,
    TransactionRead,
    TransactionWrite,
    TransactionSchema,
    TransactionCommit,
    TransactionRollback,
    TransactionClose,
    TransactionSource,
    TransactionQuery,
}

/// A terminal command: a token, its ordered arguments and its operation.
#[derive(Debug)]
pub struct CommandLeaf {
    pub token: CommandToken,
    pub description: &'static str,
    pub arguments: Vec<CommandInput>,
    pub executor: Operation,
}

/// An internal node: a token and the subcommands that may follow it, kept in
/// the order in which they are tried.
#[derive(Debug)]
pub struct Subcommand {
    pub token: CommandToken,
    pub subcommands: Vec<Command>,
}

/// A node of the command tree.
#[derive(Debug)]
pub enum Command {
    Leaf(CommandLeaf),
    Group(Subcommand),
}

/// The mathematical content of a [`CommandInput`].
pub struct InputModel {
    pub usage: Seq<char>,
    pub reader: InputReader,
    pub type_: InputType,
    pub completer: Option<Completer>,
}

/// The mathematical content of a command tree: what each node holds, with the
/// subcommands of a group in the order in which they are tried.
pub enum CommandModel {
    Leaf { token: Seq<char>, description: Seq<char>, arguments: Seq<InputModel>, executor: Operation },
    Group { token: Seq<char>, subcommands: Seq<CommandModel> },
}

impl View for CommandInput {
    type V = InputModel;

    open spec fn view(&self) -> InputModel {
        InputModel {
            usage: self.usage@,
            reader: self.reader,
            type_: self.type_,
            completer: self.completer,
        }
    }
}

/// The models of a list of arguments' specifications.
pub open spec fn input_models(inputs: Seq<CommandInput>) -> Seq<InputModel> {
    inputs.map_values(|input: CommandInput| input@)
}

/// The model of a command.
pub open spec fn command_model(command: Command) -> CommandModel
    decreases command,
{
    match command {
        Command::Leaf(leaf) => CommandModel::Leaf {
            token: leaf.token@,
            description: leaf.description@,
            arguments: input_models(leaf.arguments@),
            executor: leaf.executor,
        },
        Command::Group(group) => CommandModel::Group {
            token: group.token@,
            subcommands: Seq::new(
                group.subcommands@.len(),
                |i: int|
                    if 0 <= i < group.subcommands@.len() {
                        command_model(group.subcommands@[i])
                    } else {
                        CommandModel::Group { token: Seq::empty(), subcommands: Seq::empty() }
                    },
            ),
        },
    }
}

impl View for Command {
    type V = CommandModel;

    open spec fn view(&self) -> CommandModel {
        command_model(*self)
    }
}

impl View for CommandLeaf {
    type V = CommandModel;

    open spec fn view(&self) -> CommandModel {
        command_model(Command::Leaf(*self))
    }
}

impl View for Subcommand {
    type V = CommandModel;

    open spec fn view(&self) -> CommandModel {
        command_model(Command::Group(*self))
    }
}

/// One parsed argument of a resolved command.
#[derive(Debug)]
pub enum Argument {
    /// The text found on the command line, trimmed.
    Given(String),
    /// A hidden argument that was not on the command line: it is still to be
    /// asked for. The number is the argument's index in the leaf's list.
    Hidden(usize),
}

/// The mathematical content of an [`Argument`].
pub enum ArgumentModel {
    Given(Seq<char>),
    Hidden(int),
}

impl View for Argument {
    type V = ArgumentModel;

    open spec fn view(&self) -> ArgumentModel {
        match *self {
            Argument::Given(text) => ArgumentModel::Given(text@),
            Argument::Hidden(index) => ArgumentModel::Hidden(index as int),
        }
    }
}

/// The models of a list of arguments.
pub open spec fn argument_models(arguments: Seq<Argument>) -> Seq<ArgumentModel> {
    arguments.map_values(|a: Argument| a@)
}

/// The structural errors of matching.
#[derive(Debug)]
pub enum ReplError {
    /// A group's token matched but none of its subcommands did.
    UnrecognisedSubcommand { token: String, input: String },
    /// A required argument is missing; `index` counts from 1.
    MissingArgument { index: usize, usage: &'static str },
    /// The text typed at a hidden prompt is not a valid argument.
    UnreadableHidden { usage: &'static str },
    /// A hidden prompt was asked for an argument that is not hidden.
    NotHidden { usage: &'static str },
}

/// The mathematical content of a [`ReplError`].
pub enum ReplErrorModel {
    UnrecognisedSubcommand { token: Seq<char>, input: Seq<char> },
    MissingArgument { index: int, usage: Seq<char> },
    UnreadableHidden { usage: Seq<char> },
    NotHidden { usage: Seq<char> },
}

impl View for ReplError {
    type V = ReplErrorModel;

    open spec fn view(&self) -> ReplErrorModel {
        match *self {
            ReplError::UnrecognisedSubcommand { token, input } => ReplErrorModel::UnrecognisedSubcommand {
                token: token@,
                input: input@,
            },
            ReplError::MissingArgument { index, usage } => ReplErrorModel::MissingArgument {
                index: index as int,
                usage: usage@,
            },
            ReplError::UnreadableHidden { usage } => ReplErrorModel::UnreadableHidden { usage: usage@ },
            ReplError::NotHidden { usage } => ReplErrorModel::NotHidden { usage: usage@ },
        }
    }
}

/// What resolving an input against a command comes to.
pub enum MatchModel {
    /// The command's token is not at the start of the input.
    NoMatch,
    /// The input resolves to the leaf reached from the command by `path`, one
    /// child index per group passed through, with these arguments; the whole
    /// command ends at offset `end` of the input.
    Found { path: Seq<int>, arguments: Seq<ArgumentModel>, end: int },
    /// The input is malformed.
    Rejected(ReplErrorModel),
}

/// Reads the arguments `specs[index..]` from `rest`, which starts at `offset`
/// of the whole input, after `taken` have been read.
///
/// An argument that is present but empty once trimmed makes the leaf a
/// non-match. An absent optional argument ends the collection; an absent
/// hidden argument is left to be asked for; an absent required argument is an
/// error that names it.
pub open spec fn read_arguments(
    specs: Seq<CommandInput>,
    index: int,
    rest: Seq<char>,
    coerce_to_one_line: bool,
    offset: int,
    taken: Seq<ArgumentModel>,
) -> MatchModel
    decreases specs.len() - index,
{
    if index < 0 || index >= specs.len() {
        MatchModel::Found { path: Seq::empty(), arguments: taken, end: offset }
    } else {
        match reader_end(specs[index].reader, rest, coerce_to_one_line) {
            Some(next) => {
                let value = trim(rest.take(next));
                if value.len() == 0 {
                    MatchModel::NoMatch
                } else {
                    read_arguments(
                        specs,
                        index + 1,
                        rest.skip(next),
                        coerce_to_one_line,
                        offset + next,
                        taken.push(ArgumentModel::Given(value)),
                    )
                }
            },
            None => match specs[index].type_ {
                InputType::Optional => MatchModel::Found {
                    path: Seq::empty(),
                    arguments: taken,
                    end: offset,
                },
                InputType::RequiredHidden => read_arguments(
                    specs,
                    index + 1,
                    rest,
                    coerce_to_one_line,
                    offset,
                    taken.push(ArgumentModel::Hidden(index)),
                ),
                InputType::RequiredVisible => MatchModel::Rejected(
                    ReplErrorModel::MissingArgument { index: index + 1, usage: specs[index].usage@ },
                ),
            },
        }
    }
}

/// Resolution of `input` against a leaf: its token, then its arguments in order.
pub open spec fn leaf_match(leaf: CommandLeaf, input: Seq<char>, coerce_to_one_line: bool) -> MatchModel {
    match token_match(leaf.token@, input, coerce_to_one_line) {
        None => MatchModel::NoMatch,
        Some(end) => read_arguments(
            leaf.arguments@,
            0,
            input.skip(end),
            coerce_to_one_line,
            end,
            Seq::empty(),
        ),
    }
}

/// Resolution of `input` against any command.
pub open spec fn command_match(command: Command, input: Seq<char>, coerce_to_one_line: bool) -> MatchModel
    decreases command, 0nat,
{
    match command {
        Command::Leaf(leaf) => leaf_match(leaf, input, coerce_to_one_line),
        Command::Group(group) => group_match(group, input, coerce_to_one_line),
    }
}

/// Resolution of `input` against a group: its token, then its subcommands in
/// their order, of which the first that does not decline decides.
pub open spec fn group_match(group: Subcommand, input: Seq<char>, coerce_to_one_line: bool) -> MatchModel
    decreases group, 0nat,
{
    match token_match(group.token@, input, coerce_to_one_line) {
        None => MatchModel::NoMatch,
        Some(end) => children_match(
            group.subcommands@,
            0,
            input.skip(end),
            coerce_to_one_line,
            end,
            group.token@,
        ),
    }
}

/// Resolution of `rest`, which starts at `offset` of the whole input, against
/// the subcommands `children[index..]` of the group with token `token`.
pub open spec fn children_match(
    children: Seq<Command>,
    index: int,
    rest: Seq<char>,
    coerce_to_one_line: bool,
    offset: int,
    token: Seq<char>,
) -> MatchModel
    decreases children, children.len() - index,
{
    if index < 0 || index >= children.len() {
        MatchModel::Rejected(
            ReplErrorModel::UnrecognisedSubcommand { token, input: trim(rest) },
        )
    } else {
        match command_match(children[index], rest, coerce_to_one_line) {
            MatchModel::NoMatch => children_match(
                children,
                index + 1,
                rest,
                coerce_to_one_line,
                offset,
                token,
            ),
            MatchModel::Found { path, arguments, end } => MatchModel::Found {
                path: seq![index] + path,
                arguments,
                end: offset + end,
            },
            MatchModel::Rejected(error) => MatchModel::Rejected(error),
        }
    }
}

/// The leaf reached from `command` by `path`: one child index for each group
/// passed through.
pub open spec fn leaf_at(command: Command, path: Seq<int>) -> Option<CommandLeaf>
    decreases path.len(),
{
    match command {
        Command::Leaf(leaf) => if path.len() == 0 {
            Some(leaf)
        } else {
            None
        },
        Command::Group(group) => if path.len() > 0 && 0 <= path[0] < group.subcommands@.len() {
            leaf_at(group.subcommands@[path[0]], path.skip(1))
        } else {
            None
        },
    }
}

/// A resolved command: the leaf to execute, its parsed arguments in order, and
/// the offset in the input at which the whole command ends.
#[derive(Debug)]
pub struct CommandMatch<'a> {
    pub command: &'a CommandLeaf,
    pub arguments: Vec<Argument>,
    pub end: usize,
}

/// The result `r` of resolving against `root` says what `model` says.
pub open spec fn resolves_to(
    r: Result<Option<CommandMatch<'_>>, ReplError>,
    model: MatchModel,
    root: Command,
) -> bool {
    match model {
        MatchModel::NoMatch => r matches Ok(None),
        MatchModel::Found { path, arguments, end } => {
            &&& r matches Ok(Some(found))
            &&& leaf_at(root, path) == Some(*found.command)
            &&& argument_models(found.arguments@) == arguments
            &&& found.end == end
        },
        MatchModel::Rejected(error) => r matches Err(e) && e@ == error,
    }
}

impl CommandInput {
    /// A required argument that must be on the command line.
    pub fn new_required(usage: &'static str, reader: InputReader, completer: Option<Completer>) -> (r:
        Self)
        ensures
            r.usage == usage,
            r.reader == reader,
            r.type_ == InputType::RequiredVisible,
            r.completer == completer,
    {
        CommandInput { usage, reader, type_: InputType::RequiredVisible, completer }
    }

    /// A required argument that is asked for through a masked prompt when it
    /// is not on the command line.
    pub fn new_hidden(usage: &'static str, reader: InputReader, completer: Option<Completer>) -> (r:
        Self)
        ensures
            r.usage == usage,
            r.reader == reader,
            r.type_ == InputType::RequiredHidden,
            r.completer == completer,
    {
        CommandInput { usage, reader, type_: InputType::RequiredHidden, completer }
    }

    /// An argument that may be left out.
    pub fn new_optional(usage: &'static str, reader: InputReader, completer: Option<Completer>) -> (r:
        Self)
        ensures
            r.usage == usage,
            r.reader == reader,
            r.type_ == InputType::Optional,
            r.completer == completer,
    {
        CommandInput { usage, reader, type_: InputType::Optional, completer }
    }

    /// Where this argument ends in `input`, if it is present.
    pub fn read_end_index_from(&self, input: &[char], coerce_to_one_line: bool) -> (r: Option<usize>)
        ensures
            match r {
                Some(end) => reader_end(self.reader, input@, coerce_to_one_line) == Some(end as int)
                    && end <= input.len(),
                None => reader_end(self.reader, input@, coerce_to_one_line) is None,
            },
    {
        self.reader.read(input, coerce_to_one_line)
    }

    /// Whether the argument is asked for through a masked prompt when absent.
    pub fn is_hidden(&self) -> (r: bool)
        ensures
            r == (self.type_ is RequiredHidden),
    {
        match self.type_ {
            InputType::RequiredHidden => true,
            _ => false,
        }
    }
}

impl CommandLeaf {
    /// Resolves `input` against this leaf.
    pub fn match_first<'a>(&'a self, input: &[char], coerce_to_one_line: bool) -> (r: Result<
        Option<CommandMatch<'a>>,
        ReplError,
    >)
        ensures
            resolves_to(r, leaf_match(*self, input@, coerce_to_one_line), Command::Leaf(*self)),
            r matches Ok(Some(found)) ==> found.end <= input.len(),
    {
        match self.token.match_(input, coerce_to_one_line) {
            None => Ok(None),
            Some((_matched, after_token, token_end)) => {
                let ghost whole = read_arguments(
                    self.arguments@,
                    0,
                    input@.skip(token_end as int),
                    coerce_to_one_line,
                    token_end as int,
                    Seq::empty(),
                );
                let mut remaining = after_token;
                let mut offset = token_end;
                let mut parsed: Vec<Argument> = Vec::new();
                let mut index: usize = 0;
                proof {
                    assert(argument_models(parsed@) == Seq::<ArgumentModel>::empty());
                }
                while index < self.arguments.len()
                    invariant
                        index <= self.arguments.len(),
                        offset <= input.len(),
                        remaining@ == input@.skip(offset as int),
                        leaf_match(*self, input@, coerce_to_one_line) == whole,
                        read_arguments(
                            self.arguments@,
                            index as int,
                            remaining@,
                            coerce_to_one_line,
                            offset as int,
                            argument_models(parsed@),
                        ) == whole,
                    decreases self.arguments.len() - index,
                {
                    let argument = &self.arguments[index];
                    let ghost before = argument_models(parsed@);
                    match argument.read_end_index_from(remaining, coerce_to_one_line) {
                        Some(next) => {
                            let value = trimmed_string(slice_subrange(remaining, 0, next));
                            proof {
                                assert(remaining@.subrange(0, next as int) == remaining@.take(
                                    next as int,
                                ));
                            }
                            if value.as_str().unicode_len() == 0 {
                                return Ok(None);
                            }
                            parsed.push(Argument::Given(value));
                            proof {
                                assert(argument_models(parsed@) == before.push(
                                    ArgumentModel::Given(value@),
                                ));
                                assert(remaining@.skip(next as int) == input@.skip(offset + next));
                            }
                            remaining = slice_subrange(remaining, next, remaining.len());
                            offset = offset + next;
                        },
                        None => match argument.type_ {
                            InputType::Optional => {
                                return Ok(
                                    Some(CommandMatch { command: self, arguments: parsed, end: offset }),
                                );
                            },
                            InputType::RequiredHidden => {
                                parsed.push(Argument::Hidden(index));
                                proof {
                                    assert(argument_models(parsed@) == before.push(
                                        ArgumentModel::Hidden(index as int),
                                    ));
                                }
                            },
                            InputType::RequiredVisible => {
                                return Err(
                                    ReplError::MissingArgument {
                                        index: index + 1,
                                        usage: argument.usage,
                                    },
                                );
                            },
                        },
                    }
                    index += 1;
                }
                Ok(Some(CommandMatch { command: self, arguments: parsed, end: offset }))
            },
        }
    }
}

impl Subcommand {
    /// Resolves `input` against this group: its token first, then each
    /// subcommand in order until one matches or rejects the input.
    pub fn match_first<'a>(&'a self, input: &[char], coerce_to_one_line: bool) -> (r: Result<
        Option<CommandMatch<'a>>,
        ReplError,
    >)
        ensures
            resolves_to(r, group_match(*self, input@, coerce_to_one_line), Command::Group(*self)),
            r matches Ok(Some(found)) ==> found.end <= input.len(),
        decreases self, 0nat,
    {
        match self.token.match_(input, coerce_to_one_line) {
            None => Ok(None),
            Some((_matched, remaining, token_end)) => {
                let ghost whole = children_match(
                    self.subcommands@,
                    0,
                    remaining@,
                    coerce_to_one_line,
                    token_end as int,
                    self.token@,
                );
                let mut index: usize = 0;
                while index < self.subcommands.len()
                    invariant
                        index <= self.subcommands.len(),
                        token_end <= input.len(),
                        remaining@ == input@.skip(token_end as int),
                        group_match(*self, input@, coerce_to_one_line) == whole,
                        children_match(
                            self.subcommands@,
                            index as int,
                            remaining@,
                            coerce_to_one_line,
                            token_end as int,
                            self.token@,
                        ) == whole,
                    decreases self.subcommands.len() - index,
                {
                    match self.subcommands[index].match_first(remaining, coerce_to_one_line) {
                        Err(error) => {
                            return Err(error);
                        },
                        Ok(None) => {},
                        Ok(Some(found)) => {
                            proof {
                                let model = command_match(
                                    self.subcommands@[index as int],
                                    remaining@,
                                    coerce_to_one_line,
                                );
                                let path = model->path;
                                let longer = seq![index as int] + path;
                                assert(longer.skip(1) == path);
                            }
                            return Ok(
                                Some(
                                    CommandMatch {
                                        command: found.command,
                                        arguments: found.arguments,
                                        end: token_end + found.end,
                                    },
                                ),
                            );
                        },
                    }
                    index += 1;
                }
                Err(
                    ReplError::UnrecognisedSubcommand {
                        token: self.token.to_string(),
                        input: trimmed_string(remaining),
                    },
                )
            },
        }
    }
}

impl Command {
    /// The token of the node.
    pub fn token(&self) -> (r: &CommandToken)
        ensures
            r@ == command_token(*self),
    {
        match self {
            Command::Leaf(leaf) => &leaf.token,
            Command::Group(group) => &group.token,
        }
    }

    /// Resolves `input` against this node.
    pub fn match_first<'a>(&'a self, input: &[char], coerce_to_one_line: bool) -> (r: Result<
        Option<CommandMatch<'a>>,
        ReplError,
    >)
        ensures
            resolves_to(r, command_match(*self, input@, coerce_to_one_line), *self),
            r matches Ok(Some(found)) ==> found.end <= input.len(),
        decreases self, 1nat,
    {
        match self {
            Command::Leaf(leaf) => leaf.match_first(input, coerce_to_one_line),
            Command::Group(group) => group.match_first(input, coerce_to_one_line),
        }
    }
}

/// The token of a node of either kind.
pub open spec fn command_token(command: Command) -> Seq<char> {
    match command {
        Command::Leaf(leaf) => leaf.token@,
        Command::Group(group) => group.token@,
    }
}

/// Once an optional argument appears, every later argument is optional too.
pub open spec fn optionals_at_tail(arguments: Seq<CommandInput>) -> bool {
    forall|i: int, j: int|
        0 <= i < j < arguments.len() && (#[trigger] arguments[i]).type_ is Optional ==> (
        #[trigger] arguments[j]).type_ is Optional
}

/// Some child in `children` has the token `token`.
pub open spec fn has_token(children: Seq<Command>, token: Seq<char>) -> bool {
    exists|i: int| 0 <= i < children.len() && command_token(#[trigger] children[i]) == token
}

/// No two of `children` share a token.
pub open spec fn distinct_tokens(children: Seq<Command>) -> bool {
    forall|i: int, j: int|
        0 <= i < j < children.len() ==> command_token(#[trigger] children[i]) != command_token(
            #[trigger] children[j],
        )
}

/// `children` stand in matching order: no token is longer than one before it.
pub open spec fn longest_first(children: Seq<Command>) -> bool {
    forall|i: int, j: int|
        0 <= i < j < children.len() ==> command_token(#[trigger] children[i]).len()
            >= command_token(#[trigger] children[j]).len()
}

/// The well-formed commands: in every leaf the optional arguments are at the
/// tail, and in every group the subcommands have distinct tokens and stand
/// longest token first.
pub open spec fn command_wf(command: Command) -> bool
    decreases command,
{
    match command {
        Command::Leaf(leaf) => optionals_at_tail(leaf.arguments@),
        Command::Group(group) => {
            &&& distinct_tokens(group.subcommands@)
            &&& longest_first(group.subcommands@)
            &&& forall|i: int|
                0 <= i < group.subcommands@.len() ==> command_wf(#[trigger] group.subcommands@[i])
        },
    }
}

/// Index of the first of `children`, at or after `from`, whose token has at
/// most `len` characters; the number of children if there is none.
pub open spec fn insertion_point(children: Seq<Command>, from: int, len: int) -> int
    decreases children.len() - from,
{
    if 0 <= from < children.len() && command_token(children[from]).len() > len {
        insertion_point(children, from + 1, len)
    } else {
        from
    }
}

/// The insertion point lies among the children, after the tokens that are
/// longer than `len` and before one that is not.
pub proof fn lemma_insertion_point(children: Seq<Command>, from: int, len: int)
    requires
        0 <= from <= children.len(),
    ensures
        from <= insertion_point(children, from, len) <= children.len(),
        forall|i: int|
            from <= i < insertion_point(children, from, len) ==> command_token(
                #[trigger] children[i],
            ).len() > len,
        insertion_point(children, from, len) < children.len() ==> command_token(
            children[insertion_point(children, from, len)],
        ).len() <= len,
    decreases children.len() - from,
{
    if from < children.len() && command_token(children[from]).len() > len {
        lemma_insertion_point(children, from + 1, len);
    }
}

impl CommandLeaf {
    /// Whether the optional arguments of `arguments` are all at its tail.
    pub fn validate_optionals_at_tail(arguments: &[CommandInput]) -> (r: bool)
        ensures
            r == optionals_at_tail(arguments@),
    {
        let mut seen_optional = false;
        let ghost mut first: int = 0;
        let mut i: usize = 0;
        while i < arguments.len()
            invariant
                i <= arguments.len(),
                optionals_at_tail(arguments@.take(i as int)),
                seen_optional ==> 0 <= first < i && arguments@[first].type_ is Optional,
                !seen_optional ==> forall|k: int| 0 <= k < i ==> !(arguments@[k].type_ is Optional),
            decreases arguments.len() - i,
        {
            let optional = match arguments[i].type_ {
                InputType::Optional => true,
                _ => false,
            };
            if seen_optional && !optional {
                return false;
            }
            if optional && !seen_optional {
                seen_optional = true;
                proof {
                    first = i as int;
                }
            }
            proof {
                let longer = arguments@.take(i + 1);
                let shorter = arguments@.take(i as int);
                assert forall|a: int, b: int|
                    0 <= a < b < longer.len() && (#[trigger] longer[a]).type_ is Optional implies (
                #[trigger] longer[b]).type_ is Optional by {
                    if b < i {
                        assert(shorter[a] == longer[a] && shorter[b] == longer[b]);
                    }
                }
            }
            i += 1;
        }
        proof {
            assert(arguments@.take(i as int) == arguments@);
        }
        true
    }

    /// A leaf with the given arguments.
    pub fn new_with_inputs(
        token: &'static str,
        description: &'static str,
        arguments: Vec<CommandInput>,
        executor: Operation,
    ) -> (r: Self)
        requires
            optionals_at_tail(arguments@),
        ensures
            r.token@ == token@,
            r.description == description,
            r.arguments == arguments,
            r.executor == executor,
            command_wf(Command::Leaf(r)),
    {
        CommandLeaf { token: CommandToken::new(token), description, arguments, executor }
    }

    /// A leaf without arguments.
    pub fn new(token: &'static str, description: &'static str, executor: Operation) -> (r: Self)
        ensures
            r.token@ == token@,
            r.description == description,
            r.arguments@.len() == 0,
            r.executor == executor,
            command_wf(Command::Leaf(r)),
    {
        Self::new_with_inputs(token, description, Vec::new(), executor)
    }

    /// A leaf with one argument.
    pub fn new_with_input(
        token: &'static str,
        description: &'static str,
        argument: CommandInput,
        executor: Operation,
    ) -> (r: Self)
        ensures
            r.token@ == token@,
            r.description == description,
            r.arguments@ == seq![argument],
            r.executor == executor,
            command_wf(Command::Leaf(r)),
    {
        let mut arguments = Vec::new();
        arguments.push(argument);
        Self::new_with_inputs(token, description, arguments, executor)
    }
}

impl Subcommand {
    /// A group without subcommands.
    pub fn new(token: &'static str) -> (r: Self)
        ensures
            r.token@ == token@,
            r.subcommands@.len() == 0,
            command_wf(Command::Group(r)),
    {
        Subcommand { token: CommandToken::new(token), subcommands: Vec::new() }
    }

    /// Whether a subcommand with this token has been added.
    pub fn contains_token(&self, token: &CommandToken) -> (r: bool)
        ensures
            r == has_token(self.subcommands@, token@),
    {
        let mut i: usize = 0;
        while i < self.subcommands.len()
            invariant
                i <= self.subcommands.len(),
                forall|k: int| 0 <= k < i ==> command_token(#[trigger] self.subcommands@[k]) != token@,
            decreases self.subcommands.len() - i,
        {
            if self.subcommands[i].token().same_as(token) {
                return true;
            }
            i += 1;
        }
        false
    }

    /// Adds a subcommand. It takes its place in the matching order: after the
    /// subcommands with longer tokens and before all others, so that among
    /// tokens of one length the one added last is tried first.
    pub fn add(self, command: Command) -> (r: Self)
        requires
            command_wf(Command::Group(self)),
            command_wf(command),
            !has_token(self.subcommands@, command_token(command)),
        ensures
            r.token == self.token,
            r.subcommands@ == self.subcommands@.insert(
                insertion_point(self.subcommands@, 0, command_token(command).len() as int),
                command,
            ),
            forall|token: Seq<char>|
                has_token(r.subcommands@, token) <==> has_token(self.subcommands@, token) || token
                    == command_token(command),
            command_wf(Command::Group(r)),
    {
        let ghost before = self.subcommands@;
        let ghost new_token = command_token(command);
        let len = command.token().len();
        let mut group = self;
        let mut at: usize = 0;
        while at < group.subcommands.len() && group.subcommands[at].token().len() > len
            invariant
                at <= group.subcommands.len(),
                group == self,
                insertion_point(before, at as int, len as int) == insertion_point(
                    before,
                    0,
                    len as int,
                ),
                before == self.subcommands@,
            decreases group.subcommands.len() - at,
        {
            at += 1;
        }
        proof {
            lemma_insertion_point(before, 0, len as int);
        }
        group.subcommands.insert(at, command);
        proof {
            let after = group.subcommands@;
            assert(after == before.insert(at as int, command));
            assert forall|i: int, j: int| 0 <= i < j < after.len() implies command_token(
                #[trigger] after[i],
            ) != command_token(#[trigger] after[j]) && command_token(after[i]).len()
                >= command_token(after[j]).len() by {
                let old_i = if i < at { i } else { i - 1 };
                let old_j = if j < at { j } else { j - 1 };
                if i != at {
                    assert(after[i] == before[old_i]);
                }
                if j != at {
                    assert(after[j] == before[old_j]);
                }
            }
            assert forall|i: int| 0 <= i < after.len() implies command_wf(#[trigger] after[i]) by {
                if i != at {
                    let old_i = if i < at { i } else { i - 1 };
                    assert(after[i] == before[old_i]);
                }
            }
            assert forall|token: Seq<char>|
                has_token(after, token) <==> has_token(before, token) || token
                    == new_token by {
                if has_token(after, token) {
                    let i = choose|i: int|
                        0 <= i < after.len() && command_token(#[trigger] after[i]) == token;
                    if i != at {
                        let old_i = if i < at { i } else { i - 1 };
                        assert(after[i] == before[old_i]);
                    }
                }
                if has_token(before, token) {
                    let i = choose|i: int|
                        0 <= i < before.len() && command_token(#[trigger] before[i]) == token;
                    let new_i = if i < at { i } else { i + 1 };
                    assert(after[new_i] == before[i]);
                }
                if token == new_token {
                    assert(after[at as int] == command);
                }
            }
        }
        group
    }
}

/// When the subcommand at `target` resolves the input, the search that starts
/// at `index` never gets past it.
proof fn lemma_children_match_until(
    children: Seq<Command>,
    index: int,
    target: int,
    rest: Seq<char>,
    coerce_to_one_line: bool,
    offset: int,
    token: Seq<char>,
)
    requires
        0 <= index <= target < children.len(),
        command_match(children[target], rest, coerce_to_one_line) is Found,
    ensures
        match children_match(children, index, rest, coerce_to_one_line, offset, token) {
            MatchModel::NoMatch => false,
            MatchModel::Found { path, .. } => path.len() > 0 && index <= path[0] <= target,
            MatchModel::Rejected(_) => true,
        },
        (forall|k: int|
            index <= k < target ==> command_match(
                #[trigger] children[k],
                rest,
                coerce_to_one_line,
            ) is NoMatch) ==> children_match(
            children,
            index,
            rest,
            coerce_to_one_line,
            offset,
            token,
        ) == children_match(children, target, rest, coerce_to_one_line, offset, token),
    decreases target - index,
{
    if index < target {
        lemma_children_match_until(
            children,
            index + 1,
            target,
            rest,
            coerce_to_one_line,
            offset,
            token,
        );
    }
}

/// Of two sibling subcommands, the one with the longer token is tried first.
///
/// Let a well-formed group hold the subcommands `longer` and `shorter`, where
/// the token of the second is a proper initial segment of the token of the
/// first, and let the input match the group's token and then resolve within
/// `longer`. Then the input never resolves within `shorter`; and where every
/// subcommand that is tried before `longer` declines the input, it resolves
/// within `longer`, to the very leaf and arguments that `longer` gives.
pub proof fn lemma_longer_sibling_first(
    group: Subcommand,
    input: Seq<char>,
    coerce_to_one_line: bool,
    longer: int,
    shorter: int,
)
    requires
        command_wf(Command::Group(group)),
        0 <= longer < group.subcommands@.len(),
        0 <= shorter < group.subcommands@.len(),
        command_token(group.subcommands@[longer]).len() > command_token(
            group.subcommands@[shorter],
        ).len(),
        crate::text::starts_with(
            command_token(group.subcommands@[longer]),
            command_token(group.subcommands@[shorter]),
        ),
        token_match(group.token@, input, coerce_to_one_line) is Some,
        command_match(
            group.subcommands@[longer],
            input.skip(token_match(group.token@, input, coerce_to_one_line).unwrap()),
            coerce_to_one_line,
        ) is Found,
    ensures
        longer < shorter,
        group_match(group, input, coerce_to_one_line) matches MatchModel::Found { path, .. }
            ==> path.len() > 0 && path[0] <= longer,
        !(group_match(group, input, coerce_to_one_line) is NoMatch),
        ({
            let end = token_match(group.token@, input, coerce_to_one_line).unwrap();
            let within = command_match(group.subcommands@[longer], input.skip(end), coerce_to_one_line);
            (forall|k: int|
                0 <= k < longer ==> command_match(
                    #[trigger] group.subcommands@[k],
                    input.skip(end),
                    coerce_to_one_line,
                ) is NoMatch) ==> group_match(group, input, coerce_to_one_line)
                == MatchModel::Found {
                path: seq![longer] + within->path,
                arguments: within->arguments,
                end: end + within->end,
            }
        }),
{
    let children = group.subcommands@;
    let end = token_match(group.token@, input, coerce_to_one_line).unwrap();
    assert(longer < shorter) by {
        if shorter < longer {
            assert(command_token(children[shorter]).len() >= command_token(children[longer]).len());
        }
    }
    lemma_children_match_until(
        children,
        0,
        longer,
        input.skip(end),
        coerce_to_one_line,
        end,
        group.token@,
    );
}

/// Where the child with token `token` goes in the listing `order`: before the
/// first entry at or after `from` whose token comes after `token`.
pub open spec fn listing_position(
    children: Seq<Command>,
    order: Seq<int>,
    from: int,
    token: Seq<char>,
) -> int
    decreases order.len() - from,
{
    if 0 <= from < order.len() && !token_before(token, command_token(children[order[from]])) {
        listing_position(children, order, from + 1, token)
    } else {
        from
    }
}

/// The indices of the first `count` of `children` in the order in which they
/// are listed: ascending by token, and children with one token in the order
/// in which they stand.
pub open spec fn listing(children: Seq<Command>, count: int) -> Seq<int>
    decreases count,
{
    if count <= 0 {
        Seq::empty()
    } else {
        let before = listing(children, count - 1);
        before.insert(
            listing_position(children, before, 0, command_token(children[count - 1])),
            count - 1,
        )
    }
}

/// The indices of `children` in the order in which they are listed, in help
/// menus and among completions: ascending by token. The order in which they
/// are tried is another: it is that in which they stand.
pub open spec fn listing_order(children: Seq<Command>) -> Seq<int> {
    listing(children, children.len() as int)
}

/// The position found lies within the listing, after the entries whose tokens
/// do not come after `token` and before one whose token does.
pub proof fn lemma_listing_position(
    children: Seq<Command>,
    order: Seq<int>,
    from: int,
    token: Seq<char>,
)
    requires
        0 <= from <= order.len(),
    ensures
        from <= listing_position(children, order, from, token) <= order.len(),
        forall|k: int|
            from <= k < listing_position(children, order, from, token) ==> !token_before(
                token,
                command_token(children[#[trigger] order[k]]),
            ),
        listing_position(children, order, from, token) < order.len() ==> token_before(
            token,
            command_token(children[order[listing_position(children, order, from, token)]]),
        ),
    decreases order.len() - from,
{
    if from < order.len() && !token_before(token, command_token(children[order[from]])) {
        lemma_listing_position(children, order, from + 1, token);
    }
}

/// The listing holds every one of the first `count` children once, and no
/// child in it has a token that comes before the token of one listed earlier.
pub proof fn lemma_listing_is_ascending(children: Seq<Command>, count: int)
    requires
        0 <= count <= children.len(),
    ensures
        listing(children, count).len() == count,
        forall|k: int| 0 <= k < count ==> 0 <= #[trigger] listing(children, count)[k] < count,
        forall|i: int, j: int|
            0 <= i < j < count ==> listing(children, count)[i] != listing(children, count)[j],
        forall|i: int, j: int|
            0 <= i < j < count ==> !token_before(
                command_token(children[listing(children, count)[j]]),
                command_token(children[listing(children, count)[i]]),
            ),
    decreases count,
{
    if count > 0 {
        let before = listing(children, count - 1);
        let token = command_token(children[count - 1]);
        let at = listing_position(children, before, 0, token);
        lemma_listing_is_ascending(children, count - 1);
        lemma_listing_position(children, before, 0, token);
        let after = listing(children, count);
        assert(after == before.insert(at, count - 1));
        assert forall|k: int| 0 <= k < count implies 0 <= #[trigger] after[k] < count by {
            if k < at {
                assert(after[k] == before[k]);
            } else if k > at {
                assert(after[k] == before[k - 1]);
            }
        }
        assert forall|i: int, j: int| 0 <= i < j < count implies after[i] != after[j]
            && !token_before(
            command_token(children[after[j]]),
            command_token(children[after[i]]),
        ) by {
            let old_i = if i < at { i } else { i - 1 };
            let old_j = if j < at { j } else { j - 1 };
            if i != at && j != at {
                assert(after[i] == before[old_i]);
                assert(after[j] == before[old_j]);
                assert(0 <= old_i < old_j < count - 1);
                assert(before[old_i] != before[old_j]);
                assert(!token_before(
                    command_token(children[before[old_j]]),
                    command_token(children[before[old_i]]),
                ));
            } else if j == at {
                assert(after[i] == before[i]);
                assert(after[j] == count - 1);
                assert(0 <= before[i] < count - 1);
                assert(!token_before(token, command_token(children[before[i]])));
            } else {
                assert(after[j] == before[old_j]);
                assert(after[i] == count - 1);
                assert(0 <= before[old_j] < count - 1);
                assert(at <= old_j < before.len());
                assert(token_before(token, command_token(children[before[at]])));
                if token_before(command_token(children[before[old_j]]), token) {
                    lemma_token_before_transitive(
                        command_token(children[before[old_j]]),
                        token,
                        command_token(children[before[at]]),
                        0,
                    );
                    if old_j == at {
                        crate::token::lemma_token_before_irreflexive(
                            command_token(children[before[at]]),
                            0,
                        );
                    } else {
                        assert(0 <= at < old_j < count - 1);
                        assert(!token_before(
                            command_token(children[before[old_j]]),
                            command_token(children[before[at]]),
                        ));
                    }
                }
            }
        }
    }
}

impl Subcommand {
    /// The indices of the subcommands in the order in which they are listed:
    /// ascending by token.
    pub fn listing_order(&self) -> (r: Vec<usize>)
        ensures
            r@.map_values(|i: usize| i as int) == listing_order(self.subcommands@),
            r@.len() == self.subcommands@.len(),
            forall|k: int| 0 <= k < r@.len() ==> (#[trigger] r@[k]) < self.subcommands@.len(),
    {
        let ghost children = self.subcommands@;
        let mut order: Vec<usize> = Vec::new();
        let mut count: usize = 0;
        proof {
            assert(order@.map_values(|i: usize| i as int) =~= listing(children, 0));
        }
        while count < self.subcommands.len()
            invariant
                count <= self.subcommands.len(),
                children == self.subcommands@,
                order@.len() == count,
                order@.map_values(|i: usize| i as int) == listing(children, count as int),
                forall|k: int| 0 <= k < order@.len() ==> (#[trigger] order@[k]) < count,
            decreases self.subcommands.len() - count,
        {
            let ghost before = listing(children, count as int);
            let token = self.subcommands[count].token();
            let mut at: usize = 0;
            while at < order.len() && !token.less_than(self.subcommands[order[at]].token())
                invariant
                    at <= order@.len(),
                    count < self.subcommands.len(),
                    children == self.subcommands@,
                    token@ == command_token(children[count as int]),
                    order@.map_values(|i: usize| i as int) == before,
                    forall|k: int| 0 <= k < order@.len() ==> (#[trigger] order@[k]) < count,
                    listing_position(children, before, at as int, token@) == listing_position(
                        children,
                        before,
                        0,
                        token@,
                    ),
                decreases order@.len() - at,
            {
                proof {
                    assert(before[at as int] == order@[at as int] as int);
                }
                at += 1;
            }
            proof {
                if at < order@.len() {
                    assert(before[at as int] == order@[at as int] as int);
                }
            }
            let ghost shorter = order@;
            order.insert(at, count);
            proof {
                assert(order@.map_values(|i: usize| i as int) =~= before.insert(
                    at as int,
                    count as int,
                ));
                assert forall|k: int| 0 <= k < order@.len() implies (#[trigger] order@[k]) < count
                    + 1 by {
                    if k < at {
                        assert(order@[k] == shorter[k]);
                    } else if k > at {
                        assert(order@[k] == shorter[k - 1]);
                    }
                }
            }
            count += 1;
        }
        order
    }
}

/// What a reader takes lies within its input.
pub proof fn lemma_reader_end_bounds(reader: InputReader, input: Seq<char>, coerce_to_one_line: bool)
    ensures
        reader_end(reader, input, coerce_to_one_line) matches Some(end) ==> 0 <= end <= input.len(),
{
    match reader {
        InputReader::Word => {
            lemma_skip_whitespace(input, 0);
            if skip_whitespace(input, 0) < input.len() {
                lemma_skip_word(input, skip_whitespace(input, 0));
            }
        },
        InputReader::Query => {
            if !coerce_to_one_line {
                crate::query::lemma_query_end_bounds(input, typeql_prefix(input));
            }
        },
    }
}

/// The argument is what the first `cut` characters of `text` hold once they
/// are trimmed, and that is not nothing.
pub open spec fn first_piece(argument: ArgumentModel, text: Seq<char>, cut: int) -> bool {
    &&& 0 < cut <= text.len()
    &&& trim(text.take(cut)).len() > 0
    &&& argument == ArgumentModel::Given(trim(text.take(cut)))
}

/// The arguments lie in `text` in their order: `text` can be cut into as many
/// pieces as there are arguments that were given, one after another and with
/// nothing left over, so that each such argument is its piece, trimmed.
/// Hidden arguments that are still to be asked for take no text.
pub open spec fn lie_in_order(arguments: Seq<ArgumentModel>, text: Seq<char>) -> bool
    decreases arguments.len(),
{
    if arguments.len() == 0 {
        text.len() == 0
    } else if arguments[0] is Hidden {
        lie_in_order(arguments.skip(1), text)
    } else {
        exists|cut: int|
            #[trigger] first_piece(arguments[0], text, cut) && lie_in_order(
                arguments.skip(1),
                text.skip(cut),
            )
    }
}

/// What holds of the arguments `arguments` that were collected for the
/// specifications `specs[index..]` from `rest`, which starts at `offset`,
/// after `taken`, when the command ends at `end`:
/// the command ends within `rest`; the arguments are `taken` and then one
/// for each of the next specifications, in their order, up to the first
/// optional one that is absent; each is either given, trimmed and not empty,
/// or is the hidden argument of its own specification; the given ones lie in
/// order in the text that the command takes; and every specification that
/// contributed no argument is optional.
pub open spec fn arguments_are_sound(
    specs: Seq<CommandInput>,
    index: int,
    rest: Seq<char>,
    offset: int,
    taken: Seq<ArgumentModel>,
    arguments: Seq<ArgumentModel>,
    end: int,
) -> bool {
    let collected = arguments.len() - taken.len();
    &&& offset <= end <= offset + rest.len()
    &&& 0 <= collected <= specs.len() - index
    &&& arguments.take(taken.len() as int) == taken
    &&& lie_in_order(arguments.skip(taken.len() as int), rest.take(end - offset))
    &&& forall|j: int|
        0 <= j < collected ==> match #[trigger] arguments[taken.len() + j] {
            ArgumentModel::Given(value) => trim(value) == value && value.len() > 0,
            ArgumentModel::Hidden(at) => at == index + j && specs[index + j].type_
                is RequiredHidden,
        }
    &&& forall|j: int|
        index + collected <= j < specs.len() ==> (#[trigger] specs[j]).type_ is Optional
}

/// The arguments of a resolved command are sound: see [`arguments_are_sound`].
pub proof fn lemma_arguments_are_sound(
    specs: Seq<CommandInput>,
    index: int,
    rest: Seq<char>,
    coerce_to_one_line: bool,
    offset: int,
    taken: Seq<ArgumentModel>,
)
    requires
        0 <= index <= specs.len(),
        optionals_at_tail(specs),
    ensures
        match read_arguments(specs, index, rest, coerce_to_one_line, offset, taken) {
            MatchModel::Found { arguments, end, .. } => arguments_are_sound(
                specs,
                index,
                rest,
                offset,
                taken,
                arguments,
                end,
            ),
            _ => true,
        },
    decreases specs.len() - index,
{
    let whole = read_arguments(specs, index, rest, coerce_to_one_line, offset, taken);
    if index >= specs.len() {
        assert(taken.take(taken.len() as int) =~= taken);
        assert(taken.skip(taken.len() as int).len() == 0);
        assert(rest.take(0).len() == 0);
    } else {
        lemma_reader_end_bounds(specs[index].reader, rest, coerce_to_one_line);
        match reader_end(specs[index].reader, rest, coerce_to_one_line) {
            Some(next) => {
                let value = trim(rest.take(next));
                if value.len() > 0 {
                    let longer = taken.push(ArgumentModel::Given(value));
                    lemma_arguments_are_sound(
                        specs,
                        index + 1,
                        rest.skip(next),
                        coerce_to_one_line,
                        offset + next,
                        longer,
                    );
                    if let MatchModel::Found { arguments, end, .. } = whole {
                        crate::text::lemma_trim_is_trimmed(rest.take(next));
                        let text = rest.take(end - offset);
                        let after = arguments.skip(taken.len() as int);
                        assert(arguments.take(longer.len() as int) == longer);
                        assert(arguments.take(taken.len() as int) =~= taken) by {
                            assert forall|k: int| 0 <= k < taken.len() implies arguments[k]
                                == taken[k] by {
                                assert(arguments.take(longer.len() as int)[k] == longer[k]);
                            }
                        }
                        assert(arguments[taken.len() as int] == longer[taken.len() as int]) by {
                            assert(arguments.take(longer.len() as int)[taken.len() as int]
                                == longer[taken.len() as int]);
                        }
                        assert(after[0] == ArgumentModel::Given(value));
                        assert(text.take(next) =~= rest.take(next));
                        assert(text.skip(next) =~= rest.skip(next).take(end - offset - next));
                        assert(after.skip(1) =~= arguments.skip(longer.len() as int));
                        assert(first_piece(after[0], text, next));
                        assert(lie_in_order(after, text));
                        let collected = arguments.len() - taken.len();
                        assert forall|j: int| 0 <= j < collected implies match #[trigger] arguments[taken.len()
                            + j] {
                            ArgumentModel::Given(v) => trim(v) == v && v.len() > 0,
                            ArgumentModel::Hidden(at) => at == index + j && specs[index + j].type_
                                is RequiredHidden,
                        } by {
                            if j > 0 {
                                assert(arguments[taken.len() + j] == arguments[longer.len() + (j
                                    - 1)]);
                            }
                        }
                    }
                }
            },
            None => match specs[index].type_ {
                InputType::Optional => {
                    assert(taken.take(taken.len() as int) =~= taken);
                    assert(taken.skip(taken.len() as int).len() == 0);
                    assert(rest.take(0).len() == 0);
                    assert forall|j: int| index <= j < specs.len() implies (#[trigger] specs[j]).type_
                        is Optional by {
                        if j > index {
                            assert(specs[index].type_ is Optional);
                        }
                    }
                },
                InputType::RequiredHidden => {
                    let longer = taken.push(ArgumentModel::Hidden(index));
                    lemma_arguments_are_sound(
                        specs,
                        index + 1,
                        rest,
                        coerce_to_one_line,
                        offset,
                        longer,
                    );
                    if let MatchModel::Found { arguments, end, .. } = whole {
                        let text = rest.take(end - offset);
                        let after = arguments.skip(taken.len() as int);
                        assert(arguments.take(longer.len() as int) == longer);
                        assert(arguments.take(taken.len() as int) =~= taken) by {
                            assert forall|k: int| 0 <= k < taken.len() implies arguments[k]
                                == taken[k] by {
                                assert(arguments.take(longer.len() as int)[k] == longer[k]);
                            }
                        }
                        assert(arguments[taken.len() as int] == longer[taken.len() as int]) by {
                            assert(arguments.take(longer.len() as int)[taken.len() as int]
                                == longer[taken.len() as int]);
                        }
                        assert(after[0] == ArgumentModel::Hidden(index));
                        assert(after.skip(1) =~= arguments.skip(longer.len() as int));
                        assert(lie_in_order(after, text));
                        let collected = arguments.len() - taken.len();
                        assert forall|j: int| 0 <= j < collected implies match #[trigger] arguments[taken.len()
                            + j] {
                            ArgumentModel::Given(v) => trim(v) == v && v.len() > 0,
                            ArgumentModel::Hidden(at) => at == index + j && specs[index + j].type_
                                is RequiredHidden,
                        } by {
                            if j > 0 {
                                assert(arguments[taken.len() + j] == arguments[longer.len() + (j
                                    - 1)]);
                            }
                        }
                    }
                },
                InputType::RequiredVisible => {},
            },
        }
    }
}

/// The arguments of a command that a well-formed leaf resolves are sound.
/// The command ends within the input. Its arguments are one for each
/// specification of the leaf, in their order, up to the first optional one
/// that is absent: an absent optional argument adds nothing and is no error,
/// and every required one is there. Each argument that was given is trimmed
/// and not empty, and the given arguments lie in order, without overlap, in
/// the text between the leaf's token and the end of the command.
pub proof fn lemma_leaf_arguments_are_sound(
    leaf: CommandLeaf,
    input: Seq<char>,
    coerce_to_one_line: bool,
)
    requires
        optionals_at_tail(leaf.arguments@),
    ensures
        match leaf_match(leaf, input, coerce_to_one_line) {
            MatchModel::Found { arguments, end, .. } => {
                &&& token_match(leaf.token@, input, coerce_to_one_line) matches Some(after_token)
                &&& 0 <= after_token <= end <= input.len()
                &&& arguments_are_sound(
                    leaf.arguments@,
                    0,
                    input.skip(after_token),
                    after_token,
                    Seq::empty(),
                    arguments,
                    end,
                )
            },
            _ => true,
        },
{
    if let Some(after_token) = token_match(leaf.token@, input, coerce_to_one_line) {
        crate::token::lemma_first_occurrence(leaf.token@, input, 0);
        lemma_arguments_are_sound(
            leaf.arguments@,
            0,
            input.skip(after_token),
            coerce_to_one_line,
            after_token,
            Seq::empty(),
        );
    }
}

} // verus!
