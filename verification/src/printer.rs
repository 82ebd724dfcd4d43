//! How concepts and rows of answers are shown.

use vstd::prelude::*;
use vstd::string::StringExecFns;
use crate::text::chars_of;
use crate::usage::{push_spaces, spaces};

verus! {

/// What precedes the separator lines of a table.
pub const TABLE_INDENT: &'static str = "   ";

/// What precedes every line of the content of a row.
pub const CONTENT_INDENT: &'static str = "    ";

/// The least number of dashes in a separator line.
pub const TABLE_DASHES: usize = 7;

/// A label of a type, in its colour.
pub open spec fn type_text(label: Seq<char>) -> Seq<char> {
    "\x1b[95m"@ + label + "\x1b[0m"@
}

/// A keyword, in its colour.
pub open spec fn keyword_text(keyword: Seq<char>) -> Seq<char> {
    "\x1b[94m"@ + keyword + "\x1b[0m"@
}

/// The keyword `isa` and the label of a type.
pub open spec fn isa_text(label: Seq<char>) -> Seq<char> {
    keyword_text("isa"@) + " \x1b[95m"@ + label + "\x1b[0m"@
}

/// The keyword `iid` and an instance identifier.
pub open spec fn iid_text(iid: Seq<char>) -> Seq<char> {
    keyword_text("iid"@) + " "@ + iid
}

/// The first `count` characters of `s`, with `indent` after each newline.
pub open spec fn indent_body(indent: Seq<char>, s: Seq<char>, count: int) -> Seq<char>
    decreases count,
{
    if count <= 0 {
        Seq::empty()
    } else if s[count - 1] == '\n' {
        indent_body(indent, s, count - 1).push('\n') + indent
    } else {
        indent_body(indent, s, count - 1).push(s[count - 1])
    }
}

/// `s` with `indent` at the start of each of its lines.
pub open spec fn indented(indent: Seq<char>, s: Seq<char>) -> Seq<char> {
    indent + indent_body(indent, s, s.len() as int)
}

/// `count` dashes.
pub open spec fn dashes(count: int) -> Seq<char> {
    Seq::new(count as nat, |i: int| '-')
}

/// A separator line for a table whose widest variable has `extra` characters.
pub open spec fn separator_text(extra: int) -> Seq<char> {
    TABLE_INDENT@ + dashes(TABLE_DASHES + extra)
}

/// The label of a type, in its colour.
pub fn format_type(label: &str) -> (r: String)
    ensures
        r@ == type_text(label@),
{
    let mut text = String::new();
    text.append("\x1b[95m");
    text.append(label);
    text.append("\x1b[0m");
    proof {
        assert(text@ =~= type_text(label@));
    }
    text
}

/// A keyword, in its colour.
pub fn format_keyword(keyword: &str) -> (r: String)
    ensures
        r@ == keyword_text(keyword@),
{
    let mut text = String::new();
    text.append("\x1b[94m");
    text.append(keyword);
    text.append("\x1b[0m");
    proof {
        assert(text@ =~= keyword_text(keyword@));
    }
    text
}

/// The keyword `isa` and the label of a type.
pub fn format_isa(label: &str) -> (r: String)
    ensures
        r@ == isa_text(label@),
{
    let mut text = format_keyword("isa");
    text.append(" \x1b[95m");
    text.append(label);
    text.append("\x1b[0m");
    proof {
        assert(text@ =~= isa_text(label@));
    }
    text
}

/// The keyword `iid` and an instance identifier.
pub fn format_iid(iid: &str) -> (r: String)
    ensures
        r@ == iid_text(iid@),
{
    let mut text = format_keyword("iid");
    text.append(" ");
    text.append(iid);
    proof {
        assert(text@ =~= iid_text(iid@));
    }
    text
}

/// Puts `prefix` at the start of each line of `string`.
pub fn indent(prefix: &str, string: &str) -> (r: String)
    ensures
        r@ == indented(prefix@, string@),
{
    let chars = chars_of(string);
    let mut text = String::new();
    text.append(prefix);
    let mut i: usize = 0;
    proof {
        assert(text@ =~= prefix@ + indent_body(prefix@, string@, 0));
    }
    while i < chars.len()
        invariant
            i <= chars.len(),
            chars@ == string@,
            text@ == prefix@ + indent_body(prefix@, string@, i as int),
        decreases chars.len() - i,
    {
        let ghost before = indent_body(prefix@, string@, i as int);
        if chars[i] == '\n' {
            text.push('\n');
            text.append(prefix);
            proof {
                assert(text@ =~= prefix@ + (before.push('\n') + prefix@));
            }
        } else {
            text.push(chars[i]);
            proof {
                assert(text@ =~= prefix@ + before.push(string@[i as int]));
            }
        }
        i += 1;
    }
    text
}

/// A separator line for a table whose widest variable has
/// `additional_dashes_num` characters.
pub fn line_dash_separator(additional_dashes_num: usize) -> (r: String)
    requires
        additional_dashes_num <= usize::MAX - TABLE_DASHES,
    ensures
        r@ == separator_text(additional_dashes_num as int),
{
    let count = TABLE_DASHES + additional_dashes_num;
    let mut text = String::new();
    text.append(TABLE_INDENT);
    let mut i: usize = 0;
    proof {
        assert(text@ =~= TABLE_INDENT@ + dashes(0));
    }
    while i < count
        invariant
            i <= count,
            text@ == TABLE_INDENT@ + dashes(i as int),
        decreases count - i,
    {
        text.push('-');
        proof {
            assert(text@ =~= TABLE_INDENT@ + dashes(i + 1));
        }
        i += 1;
    }
    text
}

/// A concept of an answer, with what is shown of it.
#[derive(Debug)]
pub enum Concept {
    EntityType { label: String },
    RelationType { label: String },
    RoleType { label: String },
    AttributeType { label: String },
    Entity { type_label: Option<String>, iid: String },
    Relation { type_label: Option<String>, iid: String },
    Attribute { type_label: Option<String>, value: String },
    Value(String),
}

/// The text for the type of an instance: `isa` and the label, or nothing
/// where the type is not known.
pub open spec fn optional_isa_text(type_label: Option<String>) -> Seq<char> {
    match type_label {
        Some(label) => isa_text(label@),
        None => Seq::empty(),
    }
}

/// How a concept is shown; a variable without concept shows as nothing.
pub open spec fn concept_text(concept: Option<Concept>) -> Seq<char> {
    match concept {
        None => Seq::empty(),
        Some(Concept::EntityType { label }) => type_text(label@),
        Some(Concept::RelationType { label }) => type_text(label@),
        Some(Concept::RoleType { label }) => type_text(label@),
        Some(Concept::AttributeType { label }) => type_text(label@),
        Some(Concept::Entity { type_label, iid }) => optional_isa_text(type_label) + ", "@
            + iid_text(iid@),
        Some(Concept::Relation { type_label, iid }) => optional_isa_text(type_label) + ", "@
            + iid_text(iid@),
        Some(Concept::Attribute { type_label, value }) => optional_isa_text(type_label) + " "@
            + value@,
        Some(Concept::Value(value)) => value@,
    }
}

fn optional_isa(type_label: &Option<String>) -> (r: String)
    ensures
        r@ == optional_isa_text(*type_label),
{
    match type_label {
        Some(label) => format_isa(label.as_str()),
        None => String::new(),
    }
}

/// How a concept is shown.
pub fn concept_display_string(concept: Option<&Concept>) -> (r: String)
    ensures
        r@ == concept_text(
            match concept {
                Some(c) => Some(*c),
                None => None,
            },
        ),
{
    match concept {
        None => String::new(),
        Some(Concept::EntityType { label }) => format_type(label.as_str()),
        Some(Concept::RelationType { label }) => format_type(label.as_str()),
        Some(Concept::RoleType { label }) => format_type(label.as_str()),
        Some(Concept::AttributeType { label }) => format_type(label.as_str()),
        Some(Concept::Entity { type_label, iid }) => {
            let mut text = optional_isa(type_label);
            text.append(", ");
            text.append(format_iid(iid.as_str()).as_str());
            text
        },
        Some(Concept::Relation { type_label, iid }) => {
            let mut text = optional_isa(type_label);
            text.append(", ");
            text.append(format_iid(iid.as_str()).as_str());
            text
        },
        Some(Concept::Attribute { type_label, value }) => {
            let mut text = optional_isa(type_label);
            text.append(" ");
            text.append(value.as_str());
            text
        },
        Some(Concept::Value(value)) => value.clone(),
    }
}

/// One column of a row of an answer: a variable and its concept, if any.
#[derive(Debug)]
pub struct Column {
    pub name: String,
    pub concept: Option<Concept>,
}

/// The greatest number of characters in the name of a variable of the row.
pub open spec fn widest_name(row: Seq<Column>) -> nat
    decreases row.len(),
{
    if row.len() == 0 {
        0
    } else {
        let before = widest_name(row.drop_last());
        if row.last().name@.len() > before {
            row.last().name@.len()
        } else {
            before
        }
    }
}

/// No name of the row is longer than the widest.
pub proof fn lemma_widest_name(row: Seq<Column>)
    ensures
        forall|i: int| 0 <= i < row.len() ==> (#[trigger] row[i]).name@.len() <= widest_name(row),
    decreases row.len(),
{
    if row.len() > 0 {
        let before = row.drop_last();
        lemma_widest_name(before);
        assert forall|i: int| 0 <= i < row.len() implies (#[trigger] row[i]).name@.len()
            <= widest_name(row) by {
            if i < before.len() {
                assert(before[i] == row[i]);
            }
        }
    }
}

/// The width of the column of variables: the greatest length of a name.
pub fn variable_column_width(row: &Vec<Column>) -> (r: usize)
    ensures
        r == widest_name(row@),
        forall|i: int| 0 <= i < row@.len() ==> (#[trigger] row@[i]).name@.len() <= r,
{
    let mut widest: usize = 0;
    let mut i: usize = 0;
    while i < row.len()
        invariant
            i <= row.len(),
            widest == widest_name(row@.take(i as int)),
        decreases row.len() - i,
    {
        proof {
            assert(row@.take(i + 1).drop_last() == row@.take(i as int));
        }
        let len = row[i].name.as_str().unicode_len();
        if len > widest {
            widest = len;
        }
        i += 1;
    }
    proof {
        assert(row@.take(i as int) == row@);
        lemma_widest_name(row@);
    }
    widest
}

/// The line for one column: the variable, padded to `width` characters and one
/// more, a bar, and the concept.
pub open spec fn column_text(column: Column, width: int) -> Seq<char> {
    seq!['$'] + column.name@ + spaces(width - column.name@.len() + 1) + "| "@ + concept_text(
        column.concept,
    )
}

/// The lines of the first `count` columns, separated by newlines.
pub open spec fn columns_text(row: Seq<Column>, count: int, width: int) -> Seq<char>
    decreases count,
{
    if count <= 0 {
        Seq::empty()
    } else if count == 1 {
        column_text(row[0], width)
    } else {
        columns_text(row, count - 1, width).push('\n') + column_text(row[count - 1], width)
    }
}

/// How a row is shown: its columns, one per line and indented, and a
/// separator line below.
pub open spec fn row_text(row: Seq<Column>, width: int) -> Seq<char> {
    indented(CONTENT_INDENT@, columns_text(row, row.len() as int, width)).push('\n')
        + separator_text(width)
}

/// How a row of an answer is shown, in a table whose column of variables is
/// `variable_column_width` characters wide.
pub fn concept_row_display_string(row: &Vec<Column>, variable_column_width: usize) -> (r: String)
    requires
        variable_column_width <= usize::MAX - TABLE_DASHES,
        forall|i: int|
            0 <= i < row@.len() ==> (#[trigger] row@[i]).name@.len() <= variable_column_width,
    ensures
        r@ == row_text(row@, variable_column_width as int),
{
    let mut content = String::new();
    let mut i: usize = 0;
    while i < row.len()
        invariant
            i <= row.len(),
            variable_column_width <= usize::MAX - TABLE_DASHES,
            forall|i: int|
                0 <= i < row@.len() ==> (#[trigger] row@[i]).name@.len() <= variable_column_width,
            content@ == columns_text(row@, i as int, variable_column_width as int),
        decreases row.len() - i,
    {
        let ghost before = content@;
        let column = &row[i];
        if i > 0 {
            content.push('\n');
        }
        content.push('$');
        content.append(column.name.as_str());
        let len = column.name.as_str().unicode_len();
        push_spaces(&mut content, variable_column_width - len + 1);
        content.append("| ");
        let shown = concept_display_string(column.concept.as_ref());
        content.append(shown.as_str());
        proof {
            let line = column_text(row@[i as int], variable_column_width as int);
            if i > 0 {
                assert(content@ =~= before.push('\n') + line);
            } else {
                assert(before =~= Seq::<char>::empty());
                assert(content@ =~= line);
            }
        }
        i += 1;
    }
    let mut text = indent(CONTENT_INDENT, content.as_str());
    text.push('\n');
    text.append(line_dash_separator(variable_column_width).as_str());
    text
}

} // verus!
