//! One level of the nested command context: a prompt and a command tree.

use vstd::prelude::*;
use vstd::slice::slice_subrange;
use vstd::string::StringExecFns;
use crate::command::{
    command_token, command_wf, group_match, has_token, insertion_point, resolves_to, Command,
    CommandLeaf, CommandMatch, CommandModel, MatchModel, Operation, ReplError, Subcommand,
};
use crate::text::{is_blank, is_blank_text};
use crate::usage::{format_help, group_usage, help_text};

verus! {

/// What is to be done when a session ends.
#[derive(Clone, Copy, Debug, PartialEq, Eq, Structural)]
pub enum FinishHook {
    /// Discard the transaction that the session owned.
    DropTransaction,
}

/// A session frame: its prompt, its command tree, where its history is kept,
/// whether its input may span lines, and what to do when it ends.
#[derive(Debug)]
pub struct Repl {
    pub prompt: String,
    pub commands: Subcommand,
    pub history_file: String,
    pub multiline_input: bool,
    pub on_finish: Option<FinishHook>,
}

/// The model of a leaf without arguments.
pub open spec fn plain_leaf(token: Seq<char>, description: Seq<char>, executor: Operation) -> CommandModel {
    CommandModel::Leaf { token, description, arguments: Seq::empty(), executor }
}

/// The commands that every session has, in the order in which they are tried.
pub open spec fn builtin_commands() -> Seq<CommandModel> {
    seq![
        plain_leaf("clear"@, "Clear the console."@, Operation::Clear),
        plain_leaf("help"@, "Print help menu"@, Operation::Help),
        plain_leaf("exit"@, "Exit"@, Operation::Exit),
    ]
}

/// `group` is complete on `input`: the input resolves, command after command,
/// without error, until only whitespace is left.
pub open spec fn is_complete(group: Subcommand, input: Seq<char>) -> bool
    decreases input.len(),
{
    match group_match(group, input, false) {
        MatchModel::Found { end, .. } => {
            if 0 <= end <= input.len() {
                let rest = input.skip(end);
                if is_blank(rest) {
                    true
                } else if end > 0 {
                    is_complete(group, rest)
                } else {
                    false
                }
            } else {
                false
            }
        },
        _ => false,
    }
}

impl Subcommand {
    /// Whether `input` is a sequence of complete commands of this group, with
    /// nothing but whitespace after the last.
    pub fn is_complete_command(&self, input: &[char]) -> (r: bool)
        ensures
            r == is_complete(*self, input@),
    {
        let mut position: usize = 0;
        proof {
            assert(input@.skip(0) == input@);
        }
        loop
            invariant
                position <= input.len(),
                is_complete(*self, input@.skip(position as int)) == is_complete(*self, input@),
            decreases input.len() - position,
        {
            let rest = slice_subrange(input, position, input.len());
            proof {
                assert(rest@ == input@.skip(position as int));
            }
            match self.match_first(rest, false) {
                Ok(Some(found)) => {
                    let end = found.end;
                    let after = slice_subrange(rest, end, rest.len());
                    proof {
                        assert(after@ == rest@.skip(end as int));
                        assert(rest@.skip(end as int) == input@.skip(position + end));
                    }
                    if is_blank_text(after) {
                        return true;
                    }
                    if end == 0 {
                        return false;
                    }
                    position = position + end;
                },
                _ => {
                    return false;
                },
            }
        }
    }
}

impl Repl {
    /// A frame with the built-in commands `exit`, `help` and `clear`.
    pub fn new(
        prompt: String,
        history_file: String,
        multiline_input: bool,
        on_finish: Option<FinishHook>,
    ) -> (r: Self)
        ensures
            r.prompt == prompt,
            r.history_file == history_file,
            r.multiline_input == multiline_input,
            r.on_finish == on_finish,
            r.commands@ == (CommandModel::Group {
                token: Seq::empty(),
                subcommands: builtin_commands(),
            }),
            r.wf(),
    {
        proof {
            reveal_strlit("");
            reveal_strlit("exit");
            reveal_strlit("help");
            reveal_strlit("clear");
        }
        let exit = Command::Leaf(CommandLeaf::new("exit", "Exit", Operation::Exit));
        let help = Command::Leaf(CommandLeaf::new("help", "Print help menu", Operation::Help));
        let clear = Command::Leaf(CommandLeaf::new("clear", "Clear the console.", Operation::Clear));
        let empty = Subcommand::new("");
        let one = empty.add(exit);
        proof {
            assert(one.subcommands@ =~= seq![exit]);
            assert("help"@[0] != "exit"@[0]);
        }
        let two = one.add(help);
        proof {
            assert(two.subcommands@ =~= seq![help, exit]);
        }
        let three = two.add(clear);
        proof {
            assert(three.subcommands@ =~= seq![clear, help, exit]);
            assert(clear@->Leaf_arguments =~= Seq::<crate::command::InputModel>::empty());
            assert(help@->Leaf_arguments =~= Seq::<crate::command::InputModel>::empty());
            assert(exit@->Leaf_arguments =~= Seq::<crate::command::InputModel>::empty());
            assert(three@->Group_subcommands =~= builtin_commands());
            assert(three.token@ =~= Seq::<char>::empty());
        }
        Repl { prompt, commands: three, history_file, multiline_input, on_finish }
    }

    /// The frame is well formed when its command tree is.
    pub open spec fn wf(self) -> bool {
        command_wf(Command::Group(self.commands))
    }

    /// Adds a command at the top level of the frame.
    pub fn add(self, command: Command) -> (r: Self)
        requires
            self.wf(),
            command_wf(command),
            !has_token(self.commands.subcommands@, command_token(command)),
        ensures
            r.wf(),
            r.prompt == self.prompt,
            r.history_file == self.history_file,
            r.multiline_input == self.multiline_input,
            r.on_finish == self.on_finish,
            r.commands.token == self.commands.token,
            r.commands.subcommands@ == self.commands.subcommands@.insert(
                insertion_point(self.commands.subcommands@, 0, command_token(command).len() as int),
                command,
            ),
            forall|token: Seq<char>|
                has_token(r.commands.subcommands@, token) <==> has_token(
                    self.commands.subcommands@,
                    token,
                ) || token == command_token(command),
    {
        let Repl { prompt, commands, history_file, multiline_input, on_finish } = self;
        Repl { prompt, commands: commands.add(command), history_file, multiline_input, on_finish }
    }

    /// Whether a top-level command with this token has been added.
    pub fn contains_token(&self, token: &'static str) -> (r: bool)
        ensures
            r == has_token(self.commands.subcommands@, token@),
    {
        self.commands.contains_token(&crate::token::CommandToken::new(token))
    }

    /// Resolves the first command of `input` against the frame's tree.
    pub fn match_first_command<'a>(&'a self, input: &[char], coerce_to_one_line: bool) -> (r: Result<
        Option<CommandMatch<'a>>,
        ReplError,
    >)
        ensures
            resolves_to(
                r,
                group_match(self.commands, input@, coerce_to_one_line),
                Command::Group(self.commands),
            ),
            r matches Ok(Some(found)) ==> found.end <= input.len(),
    {
        self.commands.match_first(input, coerce_to_one_line)
    }

    /// The help menu of the frame.
    pub fn help(&self) -> (r: String)
        ensures
            r@ == help_text(group_usage(self.commands)),
    {
        let entries = self.commands.usage_description();
        format_help(&entries)
    }

    /// The prompt to show: the frame's own, after an asterisk when there are
    /// changes that have not been committed.
    pub fn prompt_for(&self, has_changes: bool) -> (r: String)
        ensures
            r@ == if has_changes {
                "*"@ + self.prompt@
            } else {
                self.prompt@
            },
    {
        if has_changes {
            let mut text = String::new();
            text.append("*");
            text.append(self.prompt.as_str());
            proof {
                assert(text@ =~= "*"@ + self.prompt@);
            }
            text
        } else {
            self.prompt.clone()
        }
    }

    /// What is to be done now that the frame has ended.
    pub fn finished(&self) -> (r: Option<FinishHook>)
        ensures
            r == self.on_finish,
    {
        self.on_finish
    }
}

impl Repl {
    /// Whether the line editor may hand over `input` as it is, or is to go on
    /// reading. A session that reads line by line takes any input. A session
    /// whose input may span lines takes it once it is complete with the
    /// newline that the editor has cut off.
    pub fn accepts(&self, input: &str) -> (r: bool)
        ensures
            r == (!self.multiline_input || is_complete(self.commands, input@.push('\n'))),
    {
        if self.multiline_input {
            let mut chars = crate::text::chars_of(input);
            chars.push('\n');
            self.commands.is_complete_command(chars.as_slice())
        } else {
            true
        }
    }
}

} // verus!
