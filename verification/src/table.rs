//! A table of connections, in columns as wide as what they hold.

use crate::text;
use vstd::prelude::*;

verus! {

broadcast use text::lemma_texts_push;

/// The cells of one line of the table.
#[derive(Debug, PartialEq, Eq)]
pub struct TableRow {
    pub id: String,
    pub name: String,
    pub destination: String,
    pub last_used: String,
}

/// The mathematical form of a [`TableRow`].
pub struct TableRowView {
    pub id: Seq<char>,
    pub name: Seq<char>,
    pub destination: Seq<char>,
    pub last_used: Seq<char>,
}

impl View for TableRow {
    type V = TableRowView;

    open spec fn view(&self) -> TableRowView {
        TableRowView {
            id: self.id@,
            name: self.name@,
            destination: self.destination@,
            last_used: self.last_used@,
        }
    }
}

pub open spec fn row_views(v: Seq<TableRow>) -> Seq<TableRowView> {
    Seq::new(v.len(), |i: int| v[i]@)
}

/// The widths of the columns that are padded.
#[derive(Clone, Copy, Debug)]
pub struct Widths {
    pub id: usize,
    pub name: usize,
    pub destination: usize,
}

/// The line that names the columns.
pub open spec fn headers() -> TableRowView {
    TableRowView {
        id: "ID"@,
        name: "NAME"@,
        destination: "DESTINATION"@,
        last_used: "LAST USED"@,
    }
}

/// The larger of two widths.
pub open spec fn wider(a: nat, b: nat) -> nat {
    if a >= b {
        a
    } else {
        b
    }
}

/// The length of the longest text in a column.
pub open spec fn widest(header: Seq<char>, cells: Seq<Seq<char>>) -> nat
    decreases cells.len(),
{
    if cells.len() == 0 {
        header.len()
    } else {
        wider(widest(header, cells.drop_last()), cells.last().len())
    }
}

/// One line of the table: every column but the last padded to its width, and two spaces
/// between columns.
pub open spec fn table_line(row: TableRowView, id: nat, name: nat, destination: nat) -> Seq<char> {
    text::trim_end(
        text::padded(row.id, id) + "  "@ + text::padded(row.name, name) + "  "@ + text::padded(
            row.destination,
            destination,
        ) + "  "@ + row.last_used,
    )
}

/// The table, headers first.
pub open spec fn table(rows: Seq<TableRowView>) -> Seq<Seq<char>> {
    let id = widest(headers().id, rows.map_values(|r: TableRowView| r.id));
    let name = widest(headers().name, rows.map_values(|r: TableRowView| r.name));
    let destination = widest(
        headers().destination,
        rows.map_values(|r: TableRowView| r.destination),
    );
    seq![table_line(headers(), id, name, destination)] + rows.map_values(
        |r: TableRowView| table_line(r, id, name, destination),
    )
}

fn max_width(a: usize, b: usize) -> (r: usize)
    ensures
        r == wider(a as nat, b as nat),
{
    if a >= b {
        a
    } else {
        b
    }
}

fn column_widths(rows: &Vec<TableRow>) -> (r: Widths)
    ensures
        ({
            let views = row_views(rows@);
            &&& r.id == widest(headers().id, views.map_values(|r: TableRowView| r.id))
            &&& r.name == widest(headers().name, views.map_values(|r: TableRowView| r.name))
            &&& r.destination == widest(
                headers().destination,
                views.map_values(|r: TableRowView| r.destination),
            )
        }),
{
    let ghost views = row_views(rows@);
    let ghost i0 = views.map_values(|r: TableRowView| r.id);
    let ghost n0 = views.map_values(|r: TableRowView| r.name);
    let ghost d0 = views.map_values(|r: TableRowView| r.destination);
    let mut w = Widths {
        id: text::char_count("ID"),
        name: text::char_count("NAME"),
        destination: text::char_count("DESTINATION"),
    };
    let mut k: usize = 0;
    assert(i0.take(0) =~= seq![] && n0.take(0) =~= seq![] && d0.take(0) =~= seq![]);
    while k < rows.len()
        invariant
            k <= rows@.len(),
            views == row_views(rows@),
            i0 == views.map_values(|r: TableRowView| r.id),
            n0 == views.map_values(|r: TableRowView| r.name),
            d0 == views.map_values(|r: TableRowView| r.destination),
            w.id == widest(headers().id, i0.take(k as int)),
            w.name == widest(headers().name, n0.take(k as int)),
            w.destination == widest(headers().destination, d0.take(k as int)),
        decreases rows@.len() - k,
    {
        proof {
            assert(i0.take(k + 1).drop_last() =~= i0.take(k as int));
            assert(n0.take(k + 1).drop_last() =~= n0.take(k as int));
            assert(d0.take(k + 1).drop_last() =~= d0.take(k as int));
        }
        w = Widths {
            id: max_width(w.id, text::char_count(rows[k].id.as_str())),
            name: max_width(w.name, text::char_count(rows[k].name.as_str())),
            destination: max_width(w.destination, text::char_count(rows[k].destination.as_str())),
        };
        k = k + 1;
    }
    assert(i0.take(k as int) =~= i0 && n0.take(k as int) =~= n0 && d0.take(k as int) =~= d0);
    w
}

fn format_row(row: &TableRow, w: &Widths) -> (r: String)
    ensures
        r@ == table_line(row@, w.id as nat, w.name as nat, w.destination as nat),
{
    let mut s = text::pad(row.id.as_str(), w.id);
    s.append("  ");
    s.append(text::pad(row.name.as_str(), w.name).as_str());
    s.append("  ");
    s.append(text::pad(row.destination.as_str(), w.destination).as_str());
    s.append("  ");
    s.append(row.last_used.as_str());
    text::trim_right(s.as_str())
}

/// The table, headers first.
pub fn format_table(rows: &Vec<TableRow>) -> (r: Vec<String>)
    ensures
        text::texts(r@) == table(row_views(rows@)),
{
    let w = column_widths(rows);
    let header = TableRow {
        id: "ID".to_string(),
        name: "NAME".to_string(),
        destination: "DESTINATION".to_string(),
        last_used: "LAST USED".to_string(),
    };
    let mut out: Vec<String> = Vec::new();
    out.push(format_row(&header, &w));
    let ghost expected = table(row_views(rows@));
    let mut i: usize = 0;
    assert(text::texts(out@) =~= expected.take(1));
    while i < rows.len()
        invariant
            i <= rows@.len(),
            expected == table(row_views(rows@)),
            ({
                let views = row_views(rows@);
                &&& w.id == widest(headers().id, views.map_values(|r: TableRowView| r.id))
                &&& w.name == widest(headers().name, views.map_values(|r: TableRowView| r.name))
                &&& w.destination == widest(
                    headers().destination,
                    views.map_values(|r: TableRowView| r.destination),
                )
            }),
            text::texts(out@) == expected.take(i + 1),
        decreases rows@.len() - i,
    {
        out.push(format_row(&rows[i], &w));
        assert(expected.take(i + 2) =~= expected.take(i + 1).push(expected[i + 1]));
        i = i + 1;
    }
    assert(expected.take(i + 1) =~= expected);
    out
}

// ---------------------------------------------------------------- laws

proof fn lemma_widest(header: Seq<char>, cells: Seq<Seq<char>>, k: int)
    requires
        0 <= k < cells.len(),
    ensures
        cells[k].len() <= widest(header, cells),
    decreases cells.len(),
{
    if k < cells.len() - 1 {
        lemma_widest(header, cells.drop_last(), k);
    }
}

/// Every cell fits into its column, so that the columns line up.
pub proof fn law_columns_line_up(rows: Seq<TableRowView>, k: int)
    requires
        0 <= k < rows.len(),
    ensures
        ({
            let id = widest(headers().id, rows.map_values(|r: TableRowView| r.id));
            let name = widest(headers().name, rows.map_values(|r: TableRowView| r.name));
            let destination = widest(
                headers().destination,
                rows.map_values(|r: TableRowView| r.destination),
            );
            &&& text::padded(rows[k].id, id).len() == id
            &&& text::padded(rows[k].name, name).len() == name
            &&& text::padded(rows[k].destination, destination).len() == destination
        }),
{
    lemma_widest(headers().id, rows.map_values(|r: TableRowView| r.id), k);
    lemma_widest(headers().name, rows.map_values(|r: TableRowView| r.name), k);
    lemma_widest(headers().destination, rows.map_values(|r: TableRowView| r.destination), k);
}

/// A column is as wide as the widest of its heading and its cells, and no wider.
pub proof fn law_widest(header: Seq<char>, cells: Seq<Seq<char>>, k: int)
    ensures
        header.len() <= widest(header, cells),
        0 <= k < cells.len() ==> cells[k].len() <= widest(header, cells),
        widest(header, cells) == header.len() || exists|i: int|
            0 <= i < cells.len() && #[trigger] cells[i].len() == widest(header, cells),
    decreases cells.len(),
{
    if cells.len() > 0 {
        let front = cells.drop_last();
        law_widest(header, front, k);
        if widest(header, cells) == cells.last().len() {
            assert(cells[cells.len() - 1].len() == widest(header, cells));
        } else if widest(header, cells) != header.len() {
            let i = choose|i: int|
                0 <= i < front.len() && #[trigger] front[i].len() == widest(header, front);
            assert(cells[i] == front[i]);
        }
        if 0 <= k < cells.len() {
            lemma_widest(header, cells, k);
        }
    }
}

/// The table has a heading and a line for each row, in the order of the rows. Each line
/// shows its cells, every one at the place where its column starts, two spaces behind the
/// one before it.
pub proof fn law_table(rows: Seq<TableRowView>, k: int)
    requires
        0 <= k < rows.len(),
        rows[k].last_used.len() > 0,
        !text::is_white(rows[k].last_used.last()),
    ensures
        ({
            let id = widest(headers().id, rows.map_values(|r: TableRowView| r.id)) as int;
            let name = widest(headers().name, rows.map_values(|r: TableRowView| r.name)) as int;
            let destination = widest(
                headers().destination,
                rows.map_values(|r: TableRowView| r.destination),
            ) as int;
            let line = table(rows)[k + 1];
            let row = rows[k];
            &&& table(rows).len() == rows.len() + 1
            &&& text::occurs_at(line, row.id, 0)
            &&& text::occurs_at(line, row.name, id + 2)
            &&& text::occurs_at(line, row.destination, id + 2 + name + 2)
            &&& text::occurs_at(line, row.last_used, id + 2 + name + 2 + destination + 2)
            &&& line.len() == id + 2 + name + 2 + destination + 2 + row.last_used.len()
        }),
{
    let id = widest(headers().id, rows.map_values(|r: TableRowView| r.id));
    let name = widest(headers().name, rows.map_values(|r: TableRowView| r.name));
    let destination = widest(
        headers().destination,
        rows.map_values(|r: TableRowView| r.destination),
    );
    law_columns_line_up(rows, k);
    lemma_line(rows[k], id, name, destination);
    assert(table(rows)[k + 1] == table_line(rows[k], id, name, destination));
}

/// The heading of the table names its columns, each where the column starts.
pub proof fn law_heading(rows: Seq<TableRowView>)
    ensures
        ({
            let id = widest(headers().id, rows.map_values(|r: TableRowView| r.id)) as int;
            let name = widest(headers().name, rows.map_values(|r: TableRowView| r.name)) as int;
            let destination = widest(
                headers().destination,
                rows.map_values(|r: TableRowView| r.destination),
            ) as int;
            let line = table(rows)[0];
            &&& text::occurs_at(line, "ID"@, 0)
            &&& text::occurs_at(line, "NAME"@, id + 2)
            &&& text::occurs_at(line, "DESTINATION"@, id + 2 + name + 2)
            &&& text::occurs_at(line, "LAST USED"@, id + 2 + name + 2 + destination + 2)
        }),
{
    reveal_strlit("LAST USED");
    let id = widest(headers().id, rows.map_values(|r: TableRowView| r.id));
    let name = widest(headers().name, rows.map_values(|r: TableRowView| r.name));
    let destination = widest(
        headers().destination,
        rows.map_values(|r: TableRowView| r.destination),
    );
    law_widest(headers().id, rows.map_values(|r: TableRowView| r.id), 0);
    law_widest(headers().name, rows.map_values(|r: TableRowView| r.name), 0);
    law_widest(headers().destination, rows.map_values(|r: TableRowView| r.destination), 0);
    lemma_line(headers(), id, name, destination);
    assert(table(rows)[0] == table_line(headers(), id, name, destination));
}

proof fn lemma_line(row: TableRowView, id: nat, name: nat, destination: nat)
    requires
        row.id.len() <= id,
        row.name.len() <= name,
        row.destination.len() <= destination,
        row.last_used.len() > 0,
        !text::is_white(row.last_used.last()),
    ensures
        ({
            let line = table_line(row, id, name, destination);
            let end = id + 2 + name + 2 + destination + 2;
            &&& text::occurs_at(line, row.id, 0)
            &&& text::occurs_at(line, row.name, id + 2int)
            &&& text::occurs_at(line, row.destination, id + 2int + name + 2)
            &&& text::occurs_at(line, row.last_used, end as int)
            &&& line.len() == end + row.last_used.len()
        }),
{
    reveal_strlit("  ");
    let line = table_line(row, id, name, destination);
    let a = text::padded(row.id, id);
    let b = text::padded(row.name, name);
    let c = text::padded(row.destination, destination);
    let whole = a + "  "@ + b + "  "@ + c + "  "@ + row.last_used;
    assert(whole.last() == row.last_used.last());
    assert(line == whole);
    text::law_padded(row.id, id);
    text::law_padded(row.name, name);
    text::law_padded(row.destination, destination);
    let i: int = id + 2int;
    let j: int = id + 2int + name + 2;
    let k: int = id + 2int + name + 2 + destination + 2;
    assert(line.subrange(0, id as int) =~= a);
    assert(line.subrange(i, i + name) =~= b);
    assert(line.subrange(j, j + destination) =~= c);
    assert(line.subrange(k, k + row.last_used.len()) =~= row.last_used);
    lemma_cell(line, a, row.id, 0);
    lemma_cell(line, b, row.name, i);
    lemma_cell(line, c, row.destination, j);
}

proof fn lemma_cell(line: Seq<char>, column: Seq<char>, cell: Seq<char>, at: int)
    requires
        0 <= at,
        at + column.len() <= line.len(),
        line.subrange(at, at + column.len()) == column,
        cell.is_prefix_of(column),
    ensures
        text::occurs_at(line, cell, at),
{
    assert(line.subrange(at, at + cell.len()) =~= cell) by {
        assert(cell == column.subrange(0, cell.len() as int));
        assert forall|i: int| 0 <= i < cell.len() implies line.subrange(at, at + cell.len())[i]
            == cell[i] by {
            assert(column[i] == line.subrange(at, at + column.len())[i]);
        }
    }
}

} // verus!
