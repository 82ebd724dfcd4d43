//! Usage lines, the help menu and the wording of errors.

use vstd::prelude::*;
use vstd::string::StringExecFns;
use crate::command::{
    listing_order, reader_end, Command, CommandInput, CommandLeaf, InputType, ReplError,
    ReplErrorModel, Subcommand,
};
use crate::text::{chars_of, string_of};

verus! {

/// The decimal digit `d` as a character.
pub open spec fn digit_char(d: int) -> char {
    if d == 0 {
        '0'
    } else if d == 1 {
        '1'
    } else if d == 2 {
        '2'
    } else if d == 3 {
        '3'
    } else if d == 4 {
        '4'
    } else if d == 5 {
        '5'
    } else if d == 6 {
        '6'
    } else if d == 7 {
        '7'
    } else if d == 8 {
        '8'
    } else {
        '9'
    }
}

/// The decimal numeral of `n`, without leading zeros.
pub open spec fn decimal(n: nat) -> Seq<char>
    decreases n,
{
    if n < 10 {
        seq![digit_char(n as int)]
    } else {
        decimal(n / 10).push(digit_char((n % 10) as int))
    }
}

fn digit_of(d: usize) -> (c: char)
    requires
        d < 10,
    ensures
        c == digit_char(d as int),
{
    if d == 0 {
        '0'
    } else if d == 1 {
        '1'
    } else if d == 2 {
        '2'
    } else if d == 3 {
        '3'
    } else if d == 4 {
        '4'
    } else if d == 5 {
        '5'
    } else if d == 6 {
        '6'
    } else if d == 7 {
        '7'
    } else if d == 8 {
        '8'
    } else {
        '9'
    }
}

/// Appends the decimal numeral of `n` to `text`.
pub fn push_decimal_u64(text: &mut String, n: u64)
    ensures
        final(text)@ == old(text)@ + decimal(n as nat),
    decreases n,
{
    if n >= 10 {
        push_decimal_u64(text, n / 10);
    }
    text.push(digit_of((n % 10) as usize));
    proof {
        if n >= 10 {
            assert(old(text)@ + decimal(n as nat) =~= (old(text)@ + decimal((n / 10) as nat)).push(
                digit_char((n % 10) as int),
            ));
        } else {
            assert(old(text)@ + decimal(n as nat) =~= old(text)@.push(digit_char(n as int)));
        }
    }
}

/// Appends the decimal numeral of `n` to `text`.
pub fn push_decimal(text: &mut String, n: usize)
    ensures
        final(text)@ == old(text)@ + decimal(n as nat),
{
    push_decimal_u64(text, n as u64)
}

/// Appends `count` spaces to `text`.
pub fn push_spaces(text: &mut String, count: usize)
    ensures
        final(text)@ == old(text)@ + Seq::new(count as nat, |i: int| ' '),
{
    let mut i: usize = 0;
    proof {
        assert(text@ =~= old(text)@ + Seq::new(0, |i: int| ' '));
    }
    while i < count
        invariant
            i <= count,
            text@ == old(text)@ + Seq::new(i as nat, |i: int| ' '),
        decreases count - i,
    {
        text.push(' ');
        proof {
            assert(text@ =~= old(text)@ + Seq::new((i + 1) as nat, |i: int| ' '));
        }
        i += 1;
    }
}

/// The wording of an error.
pub open spec fn error_message(error: ReplErrorModel) -> Seq<char> {
    match error {
        ReplErrorModel::UnrecognisedSubcommand { token, input } => "Unrecognised '"@ + token
            + "' subcommand: '"@ + input + "', please type 'help' to see the help menu."@,
        ReplErrorModel::MissingArgument { index, usage } => "Missing argument "@ + decimal(
            index as nat,
        ) + ": "@ + usage,
        ReplErrorModel::UnreadableHidden { usage } => "Could not read input for '"@ + usage + "'"@,
        ReplErrorModel::NotHidden { usage } => usage
            + " cannot be requested as a hidden parameter and must be entered as part of the command."@,
    }
}

impl ReplError {
    /// The wording of the error.
    pub fn message(&self) -> (r: String)
        ensures
            r@ == error_message(self@),
    {
        let mut text = String::new();
        match self {
            ReplError::UnrecognisedSubcommand { token, input } => {
                text.append("Unrecognised '");
                text.append(token.as_str());
                text.append("' subcommand: '");
                text.append(input.as_str());
                text.append("', please type 'help' to see the help menu.");
            },
            ReplError::MissingArgument { index, usage } => {
                text.append("Missing argument ");
                push_decimal(&mut text, *index);
                text.append(": ");
                text.append(usage);
            },
            ReplError::UnreadableHidden { usage } => {
                text.append("Could not read input for '");
                text.append(usage);
                text.append("'");
            },
            ReplError::NotHidden { usage } => {
                text.append(usage);
                text.append(
                    " cannot be requested as a hidden parameter and must be entered as part of the command.",
                );
            },
        }
        proof {
            assert(text@ =~= error_message(self@));
        }
        text
    }
}

/// How an argument is shown in a usage line.
pub open spec fn input_usage(input: CommandInput) -> Seq<char> {
    match input.type_ {
        InputType::Optional => "[optional] "@ + input.usage@,
        InputType::RequiredVisible => input.usage@,
        InputType::RequiredHidden => input.usage@ + " (enter in hidden input)"@,
    }
}

/// What a hidden prompt makes of the text `typed` for the argument `input`:
/// the part of it that the argument's reader accepts as one argument on a
/// single line, the same reader that reads the argument from the command line.
pub open spec fn hidden_value(input: CommandInput, typed: Seq<char>) -> Result<Seq<char>, ReplErrorModel> {
    match input.type_ {
        InputType::RequiredHidden => match reader_end(input.reader, typed, true) {
            Some(end) => Ok(typed.take(end)),
            None => Err(ReplErrorModel::UnreadableHidden { usage: input.usage@ }),
        },
        _ => Err(ReplErrorModel::NotHidden { usage: input.usage@ }),
    }
}

impl CommandInput {
    /// How the argument is shown in a usage line.
    pub fn usage(&self) -> (r: String)
        ensures
            r@ == input_usage(*self),
    {
        let mut text = String::new();
        match self.type_ {
            InputType::Optional => {
                text.append("[optional] ");
                text.append(self.usage);
            },
            InputType::RequiredVisible => {
                text.append(self.usage);
            },
            InputType::RequiredHidden => {
                text.append(self.usage);
                text.append(" (enter in hidden input)");
            },
        }
        proof {
            assert(text@ =~= input_usage(*self));
        }
        text
    }

    /// The prompt with which the argument is asked for in hidden input.
    pub fn hidden_prompt(&self) -> (r: String)
        ensures
            r@ == self.usage@ + ": "@,
    {
        let mut text = String::new();
        text.append(self.usage);
        text.append(": ");
        proof {
            assert(text@ =~= self.usage@ + ": "@);
        }
        text
    }

    /// Takes the text typed at a hidden prompt as the value of this argument.
    /// The text is read as one argument by the argument's reader; it is an
    /// error if the reader finds none in it, or if the argument is not hidden.
    pub fn request_hidden(&self, typed: &str) -> (r: Result<String, ReplError>)
        ensures
            match r {
                Ok(value) => hidden_value(*self, typed@) == Ok::<Seq<char>, ReplErrorModel>(value@),
                Err(error) => hidden_value(*self, typed@) == Err::<Seq<char>, ReplErrorModel>(
                    error@,
                ),
            },
    {
        match self.type_ {
            InputType::RequiredHidden => {
                let chars = chars_of(typed);
                match self.reader.read(chars.as_slice(), true) {
                    None => Err(ReplError::UnreadableHidden { usage: self.usage }),
                    Some(end) => {
                        let value = vstd::slice::slice_subrange(chars.as_slice(), 0, end);
                        proof {
                            assert(value@ == typed@.take(end as int));
                        }
                        Ok(string_of(value))
                    },
                }
            },
            _ => Err(ReplError::NotHidden { usage: self.usage }),
        }
    }
}

/// A usage line with the description of what it does.
#[derive(Debug)]
pub struct UsageEntry {
    pub usage: String,
    pub description: &'static str,
}

/// The mathematical content of a [`UsageEntry`].
pub struct UsageModel {
    pub usage: Seq<char>,
    pub description: Seq<char>,
}

impl View for UsageEntry {
    type V = UsageModel;

    open spec fn view(&self) -> UsageModel {
        UsageModel { usage: self.usage@, description: self.description@ }
    }
}

/// The models of a list of usage entries.
pub open spec fn usage_models(entries: Seq<UsageEntry>) -> Seq<UsageModel> {
    entries.map_values(|e: UsageEntry| e@)
}

/// The usage line of a leaf after its first `count` arguments: the token and
/// each argument between angle brackets.
pub open spec fn leaf_usage_line(leaf: CommandLeaf, count: int) -> Seq<char>
    decreases count,
{
    if count <= 0 {
        leaf.token@
    } else {
        leaf_usage_line(leaf, count - 1) + " <"@ + input_usage(leaf.arguments@[count - 1]) + ">"@
    }
}

/// The usage of a leaf: one entry.
pub open spec fn leaf_usage(leaf: CommandLeaf) -> Seq<UsageModel> {
    seq![
        UsageModel {
            usage: leaf_usage_line(leaf, leaf.arguments@.len() as int),
            description: leaf.description@,
        },
    ]
}

/// An entry of a subcommand as seen from its group: prefixed by the group's
/// token and a space, unless the group has no token.
pub open spec fn prefixed(token: Seq<char>, entry: UsageModel) -> UsageModel {
    if token.len() == 0 {
        entry
    } else {
        UsageModel { usage: token + " "@ + entry.usage, description: entry.description }
    }
}

/// The usage entries of a command.
pub open spec fn command_usage(command: Command) -> Seq<UsageModel>
    decreases command, 0nat,
{
    match command {
        Command::Leaf(leaf) => leaf_usage(leaf),
        Command::Group(group) => group_usage(group),
    }
}

/// The usage entries of a group: those of its subcommands, in the order in
/// which they are listed, each prefixed by the group's token.
pub open spec fn group_usage(group: Subcommand) -> Seq<UsageModel>
    decreases group, 0nat,
{
    children_usage(group.subcommands@, listing_order(group.subcommands@), 0).map_values(
        |e: UsageModel| prefixed(group.token@, e),
    )
}

/// The usage entries of the subcommands `children[order[index]]`,
/// `children[order[index + 1]]` and so on, one after another.
pub open spec fn children_usage(children: Seq<Command>, order: Seq<int>, index: int) -> Seq<
    UsageModel,
>
    decreases children, order.len() - index,
{
    if index < 0 || index >= order.len() {
        Seq::empty()
    } else if 0 <= order[index] < children.len() {
        command_usage(children[order[index]]) + children_usage(children, order, index + 1)
    } else {
        children_usage(children, order, index + 1)
    }
}

impl CommandLeaf {
    /// The usage line of the leaf with its description.
    pub fn usage_description(&self) -> (r: Vec<UsageEntry>)
        ensures
            usage_models(r@) == leaf_usage(*self),
    {
        let mut usage = self.token.to_string();
        let mut index: usize = 0;
        while index < self.arguments.len()
            invariant
                index <= self.arguments.len(),
                usage@ == leaf_usage_line(*self, index as int),
            decreases self.arguments.len() - index,
        {
            let ghost before = usage@;
            let argument = self.arguments[index].usage();
            usage.append(" <");
            usage.append(argument.as_str());
            usage.append(">");
            index += 1;
        }
        let mut entries: Vec<UsageEntry> = Vec::new();
        entries.push(UsageEntry { usage, description: self.description });
        proof {
            assert(usage_models(entries@) =~= leaf_usage(*self));
        }
        entries
    }
}

impl Subcommand {
    /// The usage lines of all leaves below this group, with their descriptions.
    pub fn usage_description(&self) -> (r: Vec<UsageEntry>)
        ensures
            usage_models(r@) == group_usage(*self),
        decreases self, 0nat,
    {
        let order = self.listing_order();
        let ghost listed = listing_order(self.subcommands@);
        let mut entries: Vec<UsageEntry> = Vec::new();
        let ghost mut plain: Seq<UsageModel> = Seq::empty();
        let mut index: usize = 0;
        proof {
            assert(usage_models(entries@) =~= plain.map_values(
                |e: UsageModel| prefixed(self.token@, e),
            ));
        }
        while index < order.len()
            invariant
                index <= order@.len(),
                order@.map_values(|i: usize| i as int) == listed,
                forall|k: int| 0 <= k < order@.len() ==> (#[trigger] order@[k]) < self.subcommands@.len(),
                plain + children_usage(self.subcommands@, listed, index as int) == children_usage(
                    self.subcommands@,
                    listed,
                    0,
                ),
                usage_models(entries@) == plain.map_values(
                    |e: UsageModel| prefixed(self.token@, e),
                ),
            decreases order@.len() - index,
        {
            proof {
                assert(listed[index as int] == order@[index as int] as int);
            }
            let below = self.subcommands[order[index]].usage_description();
            let ghost below_models = usage_models(below@);
            let ghost plain_before = plain;
            let mut k: usize = 0;
            while k < below.len()
                invariant
                    k <= below.len(),
                    below_models == usage_models(below@),
                    plain == plain_before + below_models.take(k as int),
                    usage_models(entries@) == plain.map_values(
                        |e: UsageModel| prefixed(self.token@, e),
                    ),
                decreases below.len() - k,
            {
                let ghost entries_before = usage_models(entries@);
                let entry = &below[k];
                let usage = if self.token.len() == 0 {
                    entry.usage.clone()
                } else {
                    let mut text = self.token.to_string();
                    text.append(" ");
                    text.append(entry.usage.as_str());
                    text
                };
                entries.push(UsageEntry { usage, description: entry.description });
                proof {
                    let added = prefixed(self.token@, below_models[k as int]);
                    assert(usage@ == added.usage);
                    assert(below_models[k as int] == below@[k as int]@);
                    assert(usage_models(entries@) =~= entries_before.push(added));
                    plain = plain.push(below_models[k as int]);
                    assert(plain =~= plain_before + below_models.take(k + 1));
                    assert(usage_models(entries@) =~= plain.map_values(
                        |e: UsageModel| prefixed(self.token@, e),
                    ));
                }
                k += 1;
            }
            proof {
                assert(below_models.take(k as int) == below_models);
                assert((plain_before + below_models) + children_usage(
                    self.subcommands@,
                    listed,
                    index + 1,
                ) =~= plain_before + (below_models + children_usage(
                    self.subcommands@,
                    listed,
                    index + 1,
                )));
            }
            index += 1;
        }
        proof {
            assert(plain + Seq::<UsageModel>::empty() =~= plain);
        }
        entries
    }
}

impl Command {
    /// The usage lines of all leaves at or below this node.
    pub fn usage_description(&self) -> (r: Vec<UsageEntry>)
        ensures
            usage_models(r@) == command_usage(*self),
        decreases self, 1nat,
    {
        match self {
            Command::Leaf(leaf) => leaf.usage_description(),
            Command::Group(group) => group.usage_description(),
        }
    }
}

/// An entry whose usage and description together have fewer characters than
/// this is shown on one line.
pub const INLINE_HELP_THRESHOLD: usize = 100;

/// The entry is short enough to be shown on one line.
pub open spec fn is_inline(entry: UsageModel) -> bool {
    entry.usage.len() + entry.description.len() < INLINE_HELP_THRESHOLD
}

/// The greatest number of characters in the usage of an inline entry.
pub open spec fn widest_inline(entries: Seq<UsageModel>) -> nat
    decreases entries.len(),
{
    if entries.len() == 0 {
        0
    } else {
        let before = widest_inline(entries.drop_last());
        if is_inline(entries.last()) && entries.last().usage.len() > before {
            entries.last().usage.len()
        } else {
            before
        }
    }
}

/// `count` spaces.
pub open spec fn spaces(count: int) -> Seq<char> {
    Seq::new(count as nat, |i: int| ' ')
}

/// One entry of the help menu: an inline entry has its description in a
/// column that starts `width` characters in; any other has it on a line of
/// its own, indented.
pub open spec fn help_line(entry: UsageModel, width: int) -> Seq<char> {
    if is_inline(entry) {
        entry.usage + spaces(width - entry.usage.len()) + entry.description
    } else {
        entry.usage + "\n    "@ + entry.description
    }
}

/// The first `count` entries of the help menu, separated by newlines.
pub open spec fn help_lines(entries: Seq<UsageModel>, count: int, width: int) -> Seq<char>
    decreases count,
{
    if count <= 0 {
        Seq::empty()
    } else if count == 1 {
        help_line(entries[0], width)
    } else {
        help_lines(entries, count - 1, width) + "\n"@ + help_line(entries[count - 1], width)
    }
}

/// The help menu: the descriptions of the inline entries stand in one column,
/// four characters to the right of the widest inline usage.
pub open spec fn help_text(entries: Seq<UsageModel>) -> Seq<char> {
    help_lines(entries, entries.len() as int, (widest_inline(entries) + 4) as int)
}

proof fn lemma_widest_inline(entries: Seq<UsageModel>)
    ensures
        widest_inline(entries) < INLINE_HELP_THRESHOLD,
        forall|i: int|
            0 <= i < entries.len() && is_inline(#[trigger] entries[i]) ==> entries[i].usage.len()
                <= widest_inline(entries),
    decreases entries.len(),
{
    if entries.len() > 0 {
        let before = entries.drop_last();
        lemma_widest_inline(before);
        assert forall|i: int| 0 <= i < entries.len() && is_inline(#[trigger] entries[i]) implies entries[i].usage.len()
            <= widest_inline(entries) by {
            if i < before.len() {
                assert(before[i] == entries[i]);
            }
        }
    }
}

/// Whether the entry with these lengths is shown on one line.
fn fits_inline(usage_len: usize, description_len: usize) -> (r: bool)
    ensures
        r == (usage_len + description_len < INLINE_HELP_THRESHOLD),
{
    usage_len < INLINE_HELP_THRESHOLD && description_len < INLINE_HELP_THRESHOLD - usage_len
}

/// Lays out the help menu for `entries`.
pub fn format_help(entries: &Vec<UsageEntry>) -> (r: String)
    ensures
        r@ == help_text(usage_models(entries@)),
{
    let ghost models = usage_models(entries@);
    let mut widest: usize = 0;
    let mut i: usize = 0;
    while i < entries.len()
        invariant
            i <= entries.len(),
            models == usage_models(entries@),
            widest == widest_inline(models.take(i as int)),
            widest < INLINE_HELP_THRESHOLD,
        decreases entries.len() - i,
    {
        proof {
            assert(models.take(i + 1).drop_last() == models.take(i as int));
            assert(models.take(i + 1).last() == entries@[i as int]@);
        }
        let usage_len = entries[i].usage.as_str().unicode_len();
        let description_len = entries[i].description.unicode_len();
        if fits_inline(usage_len, description_len) && usage_len > widest {
            widest = usage_len;
        }
        i += 1;
    }
    proof {
        assert(models.take(i as int) == models);
        lemma_widest_inline(models);
    }
    let width = widest + 4;
    let mut text = String::new();
    let mut k: usize = 0;
    while k < entries.len()
        invariant
            k <= entries.len(),
            models == usage_models(entries@),
            width == widest_inline(models) + 4,
            forall|i: int|
                0 <= i < models.len() && is_inline(#[trigger] models[i]) ==> models[i].usage.len()
                    <= widest_inline(models),
            text@ == help_lines(models, k as int, width as int),
        decreases entries.len() - k,
    {
        let ghost before = text@;
        let entry = &entries[k];
        proof {
            assert(models[k as int] == entry@);
        }
        if k > 0 {
            text.append("\n");
        }
        let usage_len = entry.usage.as_str().unicode_len();
        let description_len = entry.description.unicode_len();
        text.append(entry.usage.as_str());
        if fits_inline(usage_len, description_len) {
            push_spaces(&mut text, width - usage_len);
        } else {
            text.append("\n    ");
        }
        text.append(entry.description);
        proof {
            let line = help_line(models[k as int], width as int);
            if k > 0 {
                assert(text@ =~= before + "\n"@ + line);
            } else {
                assert(before =~= Seq::<char>::empty());
                assert(text@ =~= line);
            }
        }
        k += 1;
    }
    text
}

} // verus!
