//! The table of the replicas of a server.

use itertools::Itertools;
use vstd::prelude::*;
use vstd::string::StringExecFns;
use crate::style::{format_colored, styled, TextColor, TextStyle};
use crate::usage::{decimal, push_decimal_u64, push_spaces, spaces};

verus! {

/// What a replica does in its cluster.
#[derive(Clone, Copy, Debug, PartialEq, Eq, Structural)]
pub enum ReplicaRole {
    Primary,
    Candidate,
    Secondary,
}

/// What is known of one replica of a server.
#[derive(Debug)]
pub struct ServerReplica {
    pub id: u64,
    pub address: Option<String>,
    pub role: Option<ReplicaRole>,
    pub term: Option<u64>,
    pub available: bool,
}

/// Number of columns of the table.
pub const COLUMN_NUM: usize = 5;

/// No cell of the table may be longer than this.
pub const MAX_CELL: usize = 0x00ff_ffff;

/// One row of the table: its cells, and the style of the last of them.
#[derive(Debug)]
pub struct Row {
    pub cells: Vec<String>,
    pub status_style: TextStyle,
}

/// The mathematical content of a [`Row`].
pub struct RowModel {
    pub cells: Seq<Seq<char>>,
    pub status_style: TextStyle,
}

impl View for Row {
    type V = RowModel;

    open spec fn view(&self) -> RowModel {
        RowModel { cells: self.cells@.map_values(|s: String| s@), status_style: self.status_style }
    }
}

/// The models of a list of rows.
pub open spec fn row_models(rows: Seq<Row>) -> Seq<RowModel> {
    rows.map_values(|r: Row| r@)
}

/// The name of a role, or nothing where the role is not known.
pub open spec fn role_name(role: Option<ReplicaRole>) -> Seq<char> {
    match role {
        Some(ReplicaRole::Primary) => "primary"@,
        Some(ReplicaRole::Candidate) => "candidate"@,
        Some(ReplicaRole::Secondary) => "secondary"@,
        None => ""@,
    }
}

/// The row of headings.
pub open spec fn header_model() -> RowModel {
    RowModel {
        cells: seq!["id"@, "address"@, "role"@, "term"@, "status"@],
        status_style: TextStyle { color: None, bold: false },
    }
}

/// The row of a replica: its id, address, role, term and status, where an
/// unknown address, role or term shows as nothing.
pub open spec fn replica_model(replica: ServerReplica) -> RowModel {
    RowModel {
        cells: seq![
            decimal(replica.id as nat),
            match replica.address {
                Some(address) => address@,
                None => Seq::empty(),
            },
            role_name(replica.role),
            match replica.term {
                Some(term) => decimal(term as nat),
                None => Seq::empty(),
            },
            if replica.available {
                "available"@
            } else {
                "unavailable"@
            },
        ],
        status_style: if replica.available {
            TextStyle { color: Some(TextColor::Green), bold: false }
        } else {
            TextStyle { color: Some(TextColor::Red), bold: false }
        },
    }
}

/// The replicas stand in the order of their ids.
pub open spec fn ascending(replicas: Seq<ServerReplica>) -> bool {
    forall|i: int, j: int|
        0 <= i < j < replicas.len() ==> (#[trigger] replicas[i]).id <= (#[trigger] replicas[j]).id
}

/// Calls `sorted_by_key` of itertools on the replicas, with the id as the key.
/// It returns the elements of the iterator in ascending order of the key: the
/// same replicas, each as often as before, ordered by id.
#[verifier::external_body]
fn sorted_by_id(replicas: Vec<ServerReplica>) -> (r: Vec<ServerReplica>)
    ensures
        r@.to_multiset() == replicas@.to_multiset(),
        ascending(r@),
{
    replicas.into_iter().sorted_by_key(|replica| replica.id).collect()
}

/// The name of a role.
pub fn role_str(role: Option<ReplicaRole>) -> (r: &'static str)
    ensures
        r@ == role_name(role),
{
    match role {
        Some(ReplicaRole::Primary) => "primary",
        Some(ReplicaRole::Candidate) => "candidate",
        Some(ReplicaRole::Secondary) => "secondary",
        None => "",
    }
}

/// The row of headings.
pub fn header_row() -> (r: Row)
    ensures
        r@ == header_model(),
{
    let mut cells: Vec<String> = Vec::new();
    cells.push(String::from_str("id"));
    cells.push(String::from_str("address"));
    cells.push(String::from_str("role"));
    cells.push(String::from_str("term"));
    cells.push(String::from_str("status"));
    let row = Row { cells, status_style: TextStyle::plain() };
    proof {
        assert(row@.cells =~= header_model().cells);
    }
    row
}

/// The row of a replica.
pub fn replica_row(replica: &ServerReplica) -> (r: Row)
    ensures
        r@ == replica_model(*replica),
{
    let mut cells: Vec<String> = Vec::new();
    let mut id = String::new();
    push_decimal_u64(&mut id, replica.id);
    cells.push(id);
    let address = match &replica.address {
        Some(address) => address.clone(),
        None => String::new(),
    };
    cells.push(address);
    cells.push(String::from_str(role_str(replica.role)));
    let mut term = String::new();
    match replica.term {
        Some(number) => {
            push_decimal_u64(&mut term, number);
        },
        None => {},
    }
    cells.push(term);
    let (status, status_style) = if replica.available {
        ("available", TextStyle::green())
    } else {
        ("unavailable", TextStyle::red())
    };
    cells.push(String::from_str(status));
    let row = Row { cells, status_style };
    proof {
        reveal_strlit("");
        assert(row@.cells =~= replica_model(*replica).cells);
    }
    row
}

/// The rows of the table for replicas that stand in their order: the headings
/// and one row for each replica.
pub open spec fn table_rows(sorted: Seq<ServerReplica>) -> Seq<RowModel> {
    seq![header_model()] + sorted.map_values(|r: ServerReplica| replica_model(r))
}

/// The rows of the table of `replicas`: the headings, then the replicas in the
/// order of their ids.
pub fn replica_rows(replicas: Vec<ServerReplica>) -> (r: Vec<Row>)
    ensures
        exists|sorted: Seq<ServerReplica>|
            sorted.to_multiset() == replicas@.to_multiset() && ascending(sorted) && row_models(r@)
                == #[trigger] table_rows(sorted),
{
    let sorted = sorted_by_id(replicas);
    let mut rows: Vec<Row> = Vec::new();
    rows.push(header_row());
    let mut i: usize = 0;
    proof {
        assert(row_models(rows@) =~= table_rows(sorted@.take(0)));
    }
    while i < sorted.len()
        invariant
            i <= sorted.len(),
            row_models(rows@) == table_rows(sorted@.take(i as int)),
        decreases sorted.len() - i,
    {
        let ghost before = row_models(rows@);
        rows.push(replica_row(&sorted[i]));
        proof {
            let added = replica_model(sorted@[i as int]);
            let shorter = sorted@.take(i as int);
            let longer = sorted@.take(i + 1);
            assert(longer =~= shorter.push(sorted@[i as int]));
            assert(row_models(rows@) =~= before.push(added));
            assert(longer.map_values(|r: ServerReplica| replica_model(r)) =~= shorter.map_values(
                |r: ServerReplica| replica_model(r),
            ).push(added));
            assert(table_rows(longer) =~= table_rows(shorter).push(added));
        }
        i += 1;
    }
    proof {
        assert(sorted@.take(i as int) == sorted@);
    }
    rows
}

/// Every row has one cell for each column, and no cell is too long.
pub open spec fn table_wf(rows: Seq<RowModel>) -> bool {
    forall|i: int|
        0 <= i < rows.len() ==> {
            &&& (#[trigger] rows[i]).cells.len() == COLUMN_NUM
            &&& forall|c: int| 0 <= c < COLUMN_NUM ==> (#[trigger] rows[i].cells[c]).len() <= MAX_CELL
        }
}

/// Whether the table can be laid out: every row has one cell for each column,
/// and no cell is too long.
pub fn table_fits(rows: &Vec<Row>) -> (r: bool)
    ensures
        r == table_wf(row_models(rows@)),
{
    let ghost models = row_models(rows@);
    let mut i: usize = 0;
    while i < rows.len()
        invariant
            i <= rows.len(),
            models == row_models(rows@),
            table_wf(models.take(i as int)),
        decreases rows.len() - i,
    {
        let row = &rows[i];
        proof {
            assert(models[i as int] == row@);
        }
        if row.cells.len() != COLUMN_NUM {
            return false;
        }
        let mut c: usize = 0;
        while c < COLUMN_NUM
            invariant
                c <= COLUMN_NUM,
                i < rows.len(),
                models == row_models(rows@),
                models[i as int] == row@,
                row.cells@.len() == COLUMN_NUM,
                forall|k: int| 0 <= k < c ==> (#[trigger] row@.cells[k]).len() <= MAX_CELL,
            decreases COLUMN_NUM - c,
        {
            proof {
                assert(row@.cells[c as int] == row.cells@[c as int]@);
            }
            if row.cells[c].as_str().unicode_len() > MAX_CELL {
                return false;
            }
            c += 1;
        }
        proof {
            let longer = models.take(i + 1);
            let shorter = models.take(i as int);
            assert forall|k: int| 0 <= k < longer.len() implies {
                &&& (#[trigger] longer[k]).cells.len() == COLUMN_NUM
                &&& forall|c: int|
                    0 <= c < COLUMN_NUM ==> (#[trigger] longer[k].cells[c]).len() <= MAX_CELL
            } by {
                if k < i {
                    assert(longer[k] == shorter[k]);
                }
            }
        }
        i += 1;
    }
    proof {
        assert(models.take(i as int) == models);
    }
    true
}

/// The greatest number of characters of a cell in column `column` of the
/// first `count` rows.
pub open spec fn widest_cell(rows: Seq<RowModel>, column: int, count: int) -> int
    decreases count,
{
    if count <= 0 {
        0
    } else {
        let before = widest_cell(rows, column, count - 1);
        let len = rows[count - 1].cells[column].len() as int;
        if len > before {
            len
        } else {
            before
        }
    }
}

/// The width of a column: that of its widest cell, and one space on each side.
pub open spec fn column_width(rows: Seq<RowModel>, column: int) -> int {
    widest_cell(rows, column, rows.len() as int) + 2
}

/// A cell: a space, the content in its style, padding up to the width of the
/// column, and a space.
pub open spec fn cell_text(content: Seq<char>, width: int, style: TextStyle) -> Seq<char> {
    " "@ + styled(style, content) + spaces(width - content.len() - 2) + " "@
}

/// The style of the cell in column `column` of a row: only the last column
/// has one.
pub open spec fn cell_style(row: RowModel, column: int) -> TextStyle {
    if column == COLUMN_NUM - 1 {
        row.status_style
    } else {
        TextStyle { color: None, bold: false }
    }
}

/// The first `count` cells of a row, with bars between them.
pub open spec fn row_line(rows: Seq<RowModel>, index: int, count: int) -> Seq<char>
    decreases count,
{
    if count <= 0 {
        Seq::empty()
    } else {
        let cell = cell_text(
            rows[index].cells[count - 1],
            column_width(rows, count - 1),
            cell_style(rows[index], count - 1),
        );
        if count == 1 {
            cell
        } else {
            row_line(rows, index, count - 1) + "|"@ + cell
        }
    }
}

/// The sum of the widths of the first `count` columns.
pub open spec fn widths_sum(rows: Seq<RowModel>, count: int) -> int
    decreases count,
{
    if count <= 0 {
        0
    } else {
        widths_sum(rows, count - 1) + column_width(rows, count - 1)
    }
}

/// The line under the headings: as many dashes as the table is wide, the bars
/// between the columns included.
pub open spec fn rule_line(rows: Seq<RowModel>) -> Seq<char> {
    Seq::new((widths_sum(rows, COLUMN_NUM as int) + COLUMN_NUM - 1) as nat, |i: int| '-')
}

/// The lines of the table for its first `count` rows: one line for each row,
/// and the rule under the first.
pub open spec fn table_lines(rows: Seq<RowModel>, count: int) -> Seq<Seq<char>>
    decreases count,
{
    if count <= 0 {
        Seq::empty()
    } else if count == 1 {
        seq![row_line(rows, 0, COLUMN_NUM as int), rule_line(rows)]
    } else {
        table_lines(rows, count - 1).push(row_line(rows, count - 1, COLUMN_NUM as int))
    }
}

proof fn lemma_widest_cell(rows: Seq<RowModel>, column: int, count: int)
    requires
        table_wf(rows),
        0 <= column < COLUMN_NUM,
        0 <= count <= rows.len(),
    ensures
        0 <= widest_cell(rows, column, count) <= MAX_CELL,
        forall|i: int| 0 <= i < count ==> (#[trigger] rows[i]).cells[column].len() <= widest_cell(
            rows,
            column,
            count,
        ),
    decreases count,
{
    if count > 0 {
        lemma_widest_cell(rows, column, count - 1);
        assert(rows[count - 1].cells[column].len() <= MAX_CELL);
    }
}

/// The width of column `column`.
fn width_of_column(rows: &Vec<Row>, column: usize) -> (r: usize)
    requires
        table_wf(row_models(rows@)),
        column < COLUMN_NUM,
    ensures
        r == column_width(row_models(rows@), column as int),
        2 <= r <= MAX_CELL + 2,
        forall|i: int|
            0 <= i < rows@.len() ==> (#[trigger] row_models(rows@)[i]).cells[column as int].len() + 2
                <= r,
{
    let ghost models = row_models(rows@);
    let mut widest: usize = 0;
    let mut i: usize = 0;
    while i < rows.len()
        invariant
            i <= rows.len(),
            column < COLUMN_NUM,
            models == row_models(rows@),
            table_wf(models),
            widest == widest_cell(models, column as int, i as int),
            widest <= MAX_CELL,
        decreases rows.len() - i,
    {
        proof {
            assert(models[i as int] == rows@[i as int]@);
            assert(models[i as int].cells.len() == COLUMN_NUM);
            assert(models[i as int].cells[column as int] == rows@[i as int].cells@[column as int]@);
            lemma_widest_cell(models, column as int, i + 1);
        }
        let len = rows[i].cells[column].as_str().unicode_len();
        if len > widest {
            widest = len;
        }
        i += 1;
    }
    proof {
        lemma_widest_cell(models, column as int, rows@.len() as int);
    }
    widest + 2
}

/// Lays out the table: one line for each row, and a rule under the first.
pub fn replicas_table(rows: &Vec<Row>) -> (r: Vec<String>)
    requires
        table_wf(row_models(rows@)),
    ensures
        crate::completion::texts(r@) == table_lines(row_models(rows@), rows@.len() as int),
{
    let ghost models = row_models(rows@);
    let mut widths: Vec<usize> = Vec::new();
    let mut total: usize = COLUMN_NUM - 1;
    let mut column: usize = 0;
    while column < COLUMN_NUM
        invariant
            column <= COLUMN_NUM,
            models == row_models(rows@),
            table_wf(models),
            widths@.len() == column,
            forall|c: int| 0 <= c < column ==> widths@[c] == column_width(models, c),
            forall|c: int, i: int|
                0 <= c < column && 0 <= i < models.len() ==> (#[trigger] models[i]).cells[c].len()
                    + 2 <= #[trigger] widths@[c],
            total == widths_sum(models, column as int) + COLUMN_NUM - 1,
            total <= column * 0x0100_0001 + 4,
        decreases COLUMN_NUM - column,
    {
        let width = width_of_column(rows, column);
        widths.push(width);
        total = total + width;
        column += 1;
    }
    let mut lines: Vec<String> = Vec::new();
    let mut index: usize = 0;
    proof {
        assert(crate::completion::texts(lines@) =~= table_lines(models, 0));
    }
    while index < rows.len()
        invariant
            index <= rows.len(),
            models == row_models(rows@),
            table_wf(models),
            widths@.len() == COLUMN_NUM,
            forall|c: int| 0 <= c < COLUMN_NUM ==> widths@[c] == column_width(models, c),
            forall|c: int, i: int|
                0 <= c < COLUMN_NUM && 0 <= i < models.len() ==> (#[trigger] models[i]).cells[c].len()
                    + 2 <= #[trigger] widths@[c],
            total == widths_sum(models, COLUMN_NUM as int) + COLUMN_NUM - 1,
            crate::completion::texts(lines@) == table_lines(models, index as int),
        decreases rows.len() - index,
    {
        let row = &rows[index];
        let ghost before = crate::completion::texts(lines@);
        let ghost count_before = lines@.len();
        proof {
            assert(before.len() == count_before);
            assert(models[index as int] == row@);
            assert(row@.cells.len() == COLUMN_NUM);
        }
        let mut line = String::new();
        let mut c: usize = 0;
        while c < COLUMN_NUM
            invariant
                c <= COLUMN_NUM,
                index < rows.len(),
                models == row_models(rows@),
                models[index as int] == row@,
                row.cells@.len() == COLUMN_NUM,
                widths@.len() == COLUMN_NUM,
                forall|c: int| 0 <= c < COLUMN_NUM ==> widths@[c] == column_width(models, c),
                forall|c: int, i: int|
                    0 <= c < COLUMN_NUM && 0 <= i < models.len() ==> (
                    #[trigger] models[i]).cells[c].len() + 2 <= #[trigger] widths@[c],
                line@ == row_line(models, index as int, c as int),
            decreases COLUMN_NUM - c,
        {
            let ghost so_far = line@;
            if c > 0 {
                line.append("|");
            }
            let content = row.cells[c].as_str();
            let style = if c == COLUMN_NUM - 1 {
                row.status_style
            } else {
                TextStyle::plain()
            };
            proof {
                assert(row@.cells[c as int] == content@);
                assert(models[index as int].cells[c as int].len() + 2 <= widths@[c as int]);
            }
            let len = content.unicode_len();
            line.append(" ");
            line.append(format_colored(style, content).as_str());
            push_spaces(&mut line, widths[c] - len - 2);
            line.append(" ");
            proof {
                let cell = cell_text(content@, column_width(models, c as int), style);
                if c > 0 {
                    assert(line@ =~= so_far + "|"@ + cell);
                } else {
                    assert(so_far =~= Seq::<char>::empty());
                    assert(line@ =~= cell);
                }
            }
            c += 1;
        }
        lines.push(line);
        if index == 0 {
            let mut rule = String::new();
            let mut k: usize = 0;
            proof {
                assert(rule@ =~= Seq::new(0, |i: int| '-'));
            }
            while k < total
                invariant
                    k <= total,
                    rule@ == Seq::new(k as nat, |i: int| '-'),
                decreases total - k,
            {
                rule.push('-');
                proof {
                    assert(rule@ =~= Seq::new((k + 1) as nat, |i: int| '-'));
                }
                k += 1;
            }
            lines.push(rule);
            proof {
                assert(before =~= Seq::<Seq<char>>::empty());
                assert(count_before == 0);
                assert(rule@ == rule_line(models));
                assert(lines@.len() == 2);
                assert(lines@[0]@ == row_line(models, 0, COLUMN_NUM as int));
                assert(lines@[1]@ == rule_line(models));
                assert(crate::completion::texts(lines@) =~= seq![
                    row_line(models, 0, COLUMN_NUM as int),
                    rule_line(models),
                ]);
            }
        } else {
            proof {
                assert(crate::completion::texts(lines@) =~= before.push(
                    row_line(models, index as int, COLUMN_NUM as int),
                ));
            }
        }
        index += 1;
    }
    lines
}

} // verus!
