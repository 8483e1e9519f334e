//! The table of registered vaults.
use vstd::prelude::*;
use vstd::string::StringExecFns;

use crate::paths::abbreviate_home;
use crate::paths;
use crate::registry::vault::{Vault, VaultView};
use crate::registry::vault;
use crate::text::{chars_of, decimal_string, string_of, trim_end};
use crate::text;

verus! {

/// What is known of a vault's file without opening it.
#[derive(Debug)]
pub struct FileFacts {
    pub size: String,
    pub modified: String,
}

/// The status of a vault.
pub open spec fn status_of(mounted: bool, found: bool) -> Seq<char> {
    if mounted {
        "mounted"@
    } else if !found {
        "file missing"@
    } else {
        "-"@
    }
}

/// The cells of a vault.
pub open spec fn cells_of(
    v: VaultView,
    facts: Option<FileFacts>,
    mounted: bool,
    home: Option<Seq<char>>,
) -> Seq<Seq<char>> {
    seq![
        v.alias,
        paths::abbreviated(v.mountpoint, home),
        paths::abbreviated(v.file, home),
        match facts {
            Some(f) => f.size@,
            None => "-"@,
        },
        match facts {
            Some(f) => f.modified@,
            None => "-"@,
        },
        status_of(mounted, facts is Some),
    ]
}

/// The number of a row in a menu.
pub open spec fn number_cell(n: nat) -> Seq<char> {
    text::decimal(n).push(')')
}

/// The cells of a row; in a menu its number comes first.
pub open spec fn row_of(
    v: VaultView,
    facts: Option<FileFacts>,
    mounted: bool,
    number: Option<u64>,
    home: Option<Seq<char>>,
) -> Seq<Seq<char>> {
    match number {
        Some(n) => seq![number_cell(n as nat)] + cells_of(v, facts, mounted, home),
        None => cells_of(v, facts, mounted, home),
    }
}

/// A row of the table; in a menu it starts with its number.
pub fn vault_row(
    v: &Vault,
    facts: Option<FileFacts>,
    mounted: bool,
    number: Option<u64>,
    home: Option<&str>,
) -> (row: Vec<String>)
    ensures
        vault::texts_view(row@) == (match number {
            Some(n) => seq![number_cell(n as nat)],
            None => Seq::empty(),
        }) + cells_of(v@, facts, mounted, paths::opt_view(home)),
        vault::texts_view(row@) == row_of(v@, facts, mounted, number, paths::opt_view(home)),
{
    let found = facts.is_some();
    let (size, modified) = match facts {
        Some(f) => (f.size, f.modified),
        None => ("-".to_owned(), "-".to_owned()),
    };
    let status = if mounted {
        "mounted".to_owned()
    } else if !found {
        "file missing".to_owned()
    } else {
        "-".to_owned()
    };
    let mut row: Vec<String> = Vec::new();
    if let Some(n) = number {
        let mut cell = decimal_string(n);
        cell.push(')');
        row.push(cell);
    }
    let ghost first = vault::texts_view(row@);
    assert(first =~= match number {
        Some(n) => seq![number_cell(n as nat)],
        None => Seq::empty(),
    });
    row.push(v.alias.clone());
    row.push(abbreviate_home(v.mountpoint.as_str(), home));
    row.push(abbreviate_home(v.file.as_str(), home));
    row.push(size);
    row.push(modified);
    row.push(status);
    assert(vault::texts_view(row@) =~= first + cells_of(
        v@,
        facts,
        mounted,
        paths::opt_view(home),
    ));
    assert(vault::texts_view(row@) =~= row_of(v@, facts, mounted, number, paths::opt_view(home)));
    row
}

pub open spec fn heads_of(numbered: bool) -> Seq<Seq<char>> {
    let heads = seq!["ALIAS"@, "MOUNTPOINT"@, "FILE"@, "SIZE"@, "MODIFIED"@, "STATUS"@];
    if numbered {
        seq![Seq::<char>::empty()] + heads
    } else {
        heads
    }
}

/// The heads of the columns.
pub fn table_header(numbered: bool) -> (header: Vec<String>)
    ensures
        vault::texts_view(header@) == (if numbered {
            seq![Seq::<char>::empty()]
        } else {
            Seq::empty()
        }) + seq![
            "ALIAS"@,
            "MOUNTPOINT"@,
            "FILE"@,
            "SIZE"@,
            "MODIFIED"@,
            "STATUS"@,
        ],
        vault::texts_view(header@) == heads_of(numbered),
{
    let mut header: Vec<String> = Vec::new();
    if numbered {
        header.push(String::new());
    }
    header.push("ALIAS".to_owned());
    header.push("MOUNTPOINT".to_owned());
    header.push("FILE".to_owned());
    header.push("SIZE".to_owned());
    header.push("MODIFIED".to_owned());
    header.push("STATUS".to_owned());
    assert(vault::texts_view(header@) =~= (if numbered {
        seq![Seq::<char>::empty()]
    } else {
        Seq::empty()
    }) + seq!["ALIAS"@, "MOUNTPOINT"@, "FILE"@, "SIZE"@, "MODIFIED"@, "STATUS"@]);
    assert(vault::texts_view(header@) =~= heads_of(numbered));
    header
}

/// The model of some rows.
pub open spec fn rows_view(rows: Seq<Vec<String>>) -> Seq<Seq<Seq<char>>> {
    Seq::new(rows.len(), |i: int| vault::texts_view(rows[i]@))
}

/// The length of the longest cell in a column.
pub open spec fn width(rows: Seq<Seq<Seq<char>>>, column: int) -> nat
    decreases rows.len(),
{
    if rows.len() == 0 {
        0
    } else {
        let rest = width(rows.drop_last(), column);
        let row = rows.last();
        if column < row.len() && row[column].len() > rest {
            row[column].len()
        } else {
            rest
        }
    }
}

/// A cell filled up with spaces to a width.
pub open spec fn padded(cell: Seq<char>, w: nat) -> Seq<char> {
    if cell.len() < w {
        cell + Seq::new((w - cell.len()) as nat, |i: int| ' ')
    } else {
        cell
    }
}

/// Some cells side by side, two spaces between them.
pub open spec fn side_by_side(row: Seq<Seq<char>>, widths: Seq<nat>) -> Seq<char>
    decreases row.len(),
{
    if row.len() == 0 {
        Seq::empty()
    } else {
        let last = padded(row.last(), widths[row.len() - 1]);
        if row.len() == 1 {
            last
        } else {
            side_by_side(row.drop_last(), widths) + "  "@ + last
        }
    }
}

/// The widths of a table's columns.
pub open spec fn widths_of(rows: Seq<Seq<Seq<char>>>, columns: nat) -> Seq<nat> {
    Seq::new(columns, |i: int| width(rows, i))
}

/// A line of a table, without the spaces at its end.
pub open spec fn table_line(row: Seq<Seq<char>>, widths: Seq<nat>) -> Seq<char> {
    text::trimmed_end(side_by_side(row, widths))
}

/// The lines of a table.
pub open spec fn table_lines(rows: Seq<Seq<Seq<char>>>, columns: nat) -> Seq<Seq<char>> {
    Seq::new(rows.len(), |i: int| table_line(rows[i], widths_of(rows, columns)))
}

fn widen(widths: &mut Vec<usize>, row: &Vec<String>, Ghost(rows): Ghost<Seq<Seq<Seq<char>>>>)
    requires
        forall|i: int|
            0 <= i < old(widths)@.len() ==> #[trigger] old(widths)@[i] == width(rows, i),
    ensures
        final(widths)@.len() == old(widths)@.len(),
        forall|i: int|
            0 <= i < final(widths)@.len() ==> #[trigger] final(widths)@[i] == width(
                rows.push(vault::texts_view(row@)),
                i,
            ),
{
    let ghost view = vault::texts_view(row@);
    let ghost more = rows.push(view);
    let n: usize = widths.len();
    let ghost before = widths@;
    let mut i: usize = 0;
    assert(more.drop_last() =~= rows);
    while i < n
        invariant
            i <= n == widths@.len() == before.len(),
            view == vault::texts_view(row@),
            more == rows.push(view),
            more.drop_last() == rows,
            forall|k: int| 0 <= k < n ==> #[trigger] before[k] == width(rows, k),
            forall|k: int| 0 <= k < i ==> #[trigger] widths@[k] == width(more, k),
            forall|k: int| i <= k < n ==> #[trigger] widths@[k] == before[k],
        decreases n - i,
    {
        if i < row.len() {
            let len: usize = chars_of(row[i].as_str()).len();
            assert(view[i as int].len() == len);
            if len > widths[i] {
                widths.set(i, len);
            }
        }
        assert(width(more, i as int) == widths@[i as int]);
        i += 1;
    }
}

fn lay_out(row: &Vec<String>, widths: &Vec<usize>) -> (line: String)
    requires
        row@.len() <= widths@.len(),
    ensures
        line@ == table_line(
            vault::texts_view(row@),
            Seq::new(widths@.len(), |i: int| widths@[i] as nat),
        ),
{
    let ghost view = vault::texts_view(row@);
    let ghost ws = Seq::new(widths@.len(), |i: int| widths@[i] as nat);
    let mut out: Vec<char> = Vec::new();
    let n: usize = row.len();
    let mut i: usize = 0;
    assert(view.take(0) =~= Seq::empty());
    while i < n
        invariant
            i <= n == row@.len(),
            n <= widths@.len(),
            view == vault::texts_view(row@),
            ws == Seq::new(widths@.len(), |k: int| widths@[k] as nat),
            out@ == side_by_side(view.take(i as int), ws),
        decreases n - i,
    {
        let ghost before = out@;
        if i > 0 {
            let mut gap = chars_of("  ");
            out.append(&mut gap);
        }
        let ghost spaced = out@;
        let mut cell = chars_of(row[i].as_str());
        let len: usize = cell.len();
        out.append(&mut cell);
        let w: usize = widths[i];
        let mut k: usize = len;
        while k < w
            invariant
                len <= k,
                len < w ==> k <= w,
                len >= w ==> k == len,
                out@ == spaced + view[i as int] + Seq::new((k - len) as nat, |j: int| ' '),
                view[i as int].len() == len,
            decreases w - k,
        {
            out.push(' ');
            assert(out@ =~= spaced + view[i as int] + Seq::new((k + 1 - len) as nat, |j: int| ' '));
            k += 1;
        }
        proof {
            let upto = view.take(i + 1);
            assert(upto.drop_last() =~= view.take(i as int));
            assert(upto.last() == view[i as int]);
            assert(ws[i as int] == w);
            assert(out@ =~= spaced + padded(view[i as int], w as nat));
            if i == 0 {
                assert(spaced =~= Seq::empty());
                assert(out@ =~= side_by_side(upto, ws));
            } else {
                assert(spaced == before + "  "@);
            }
        }
        i += 1;
    }
    assert(view.take(n as int) =~= view);
    string_of(trim_end(out.as_slice()))
}

/// The lines of a table: every column as wide as its longest cell.
pub fn print_table(header: &Vec<String>, rows: &Vec<Vec<String>>) -> (lines: Vec<String>)
    requires
        forall|i: int| 0 <= i < rows@.len() ==> (#[trigger] rows@[i])@.len() <= header@.len(),
    ensures
        ({
            let all = seq![vault::texts_view(header@)] + rows_view(rows@);
            let widths = widths_of(all, header@.len());
            vault::texts_view(lines@) == Seq::new(all.len(), |i: int| table_line(all[i], widths))
        }),
        vault::texts_view(lines@) == table_lines(
            seq![vault::texts_view(header@)] + rows_view(rows@),
            header@.len(),
        ),
{
    let ghost head = vault::texts_view(header@);
    let ghost view = rows_view(rows@);
    let ghost all = seq![head] + view;
    let columns: usize = header.len();
    let mut widths: Vec<usize> = Vec::new();
    let mut i: usize = 0;
    while i < columns
        invariant
            i <= columns,
            widths@.len() == i,
            forall|k: int| 0 <= k < i ==> #[trigger] widths@[k] == 0,
        decreases columns - i,
    {
        widths.push(0);
        i += 1;
    }
    let ghost none = Seq::<Seq<Seq<char>>>::empty();
    widen(&mut widths, header, Ghost(none));
    assert(none.push(head) =~= all.take(1));
    let n: usize = rows.len();
    let mut r: usize = 0;
    while r < n
        invariant
            r <= n == rows@.len(),
            columns == widths@.len(),
            view == rows_view(rows@),
            all == seq![head] + view,
            forall|k: int|
                0 <= k < widths@.len() ==> #[trigger] widths@[k] == width(all.take(r + 1), k),
        decreases n - r,
    {
        widen(&mut widths, &rows[r], Ghost(all.take(r + 1)));
        assert(all.take(r + 1).push(vault::texts_view(rows@[r as int]@)) =~= all.take(r + 2));
        r += 1;
    }
    assert(all.take(n + 1) =~= all);
    let ghost ws = widths_of(all, header@.len());
    assert(Seq::new(widths@.len(), |k: int| widths@[k] as nat) =~= ws);
    let mut lines: Vec<String> = Vec::new();
    lines.push(lay_out(header, &widths));
    let mut j: usize = 0;
    while j < n
        invariant
            j <= n == rows@.len(),
            columns == widths@.len() == header@.len(),
            forall|k: int| 0 <= k < rows@.len() ==> (#[trigger] rows@[k])@.len() <= header@.len(),
            view == rows_view(rows@),
            all == seq![head] + view,
            ws == Seq::new(widths@.len(), |k: int| widths@[k] as nat),
            lines@.len() == j + 1,
            forall|k: int| 0 <= k < lines@.len() ==> #[trigger] lines@[k]@ == table_line(all[k], ws),
        decreases n - j,
    {
        lines.push(lay_out(&rows[j], &widths));
        assert(all[j + 1] == view[j as int]);
        j += 1;
    }
    assert(vault::texts_view(lines@) =~= Seq::new(all.len(), |k: int| table_line(all[k], ws)));
    assert(vault::texts_view(lines@) =~= table_lines(all, header@.len()));
    lines
}

/// What a row shows, under heads of the same number: the alias, the mountpoint
/// and the file with the home directory as a tilde, the size and the time of the
/// file, and the status. Without a file there is a dash for the two, and the
/// status says so unless the vault is mounted all the same.
pub proof fn rows_show_vaults(
    v: VaultView,
    facts: Option<FileFacts>,
    mounted: bool,
    number: Option<u64>,
    home: Option<Seq<char>>,
)
    ensures
        ({
            let row = row_of(v, facts, mounted, number, home);
            let heads = heads_of(number is Some);
            let k: int = if number is Some {
                1
            } else {
                0
            };
            &&& row.len() == heads.len() == k + 6
            &&& number is Some ==> row[0] == text::decimal(number->Some_0 as nat) + seq![')']
            &&& number is Some ==> heads[0].len() == 0
            &&& heads[k] == "ALIAS"@ && row[k] == v.alias
            &&& heads[k + 1] == "MOUNTPOINT"@ && row[k + 1] == paths::abbreviated(v.mountpoint, home)
            &&& heads[k + 2] == "FILE"@ && row[k + 2] == paths::abbreviated(v.file, home)
            &&& heads[k + 3] == "SIZE"@
            &&& facts matches Some(f) ==> row[k + 3] == f.size@ && row[k + 4] == f.modified@
            &&& facts is None ==> row[k + 3] == "-"@ && row[k + 4] == "-"@
            &&& heads[k + 4] == "MODIFIED"@
            &&& heads[k + 5] == "STATUS"@
            &&& mounted ==> row[k + 5] == "mounted"@
            &&& !mounted && facts is None ==> row[k + 5] == "file missing"@
            &&& !mounted && facts is Some ==> row[k + 5] == "-"@
        }),
{
    if let Some(n) = number {
        assert(text::decimal(n as nat).push(')') =~= text::decimal(n as nat) + seq![')']);
    }
}

/// A column is as wide as its longest cell, and no wider.
pub proof fn columns_fit(rows: Seq<Seq<Seq<char>>>, column: int)
    requires
        0 <= column,
    ensures
        forall|i: int|
            0 <= i < rows.len() && column < (#[trigger] rows[i]).len() ==> rows[i][column].len()
                <= width(rows, column),
        width(rows, column) == 0 || exists|i: int|
            0 <= i < rows.len() && column < (#[trigger] rows[i]).len() && rows[i][column].len()
                == width(rows, column),
    decreases rows.len(),
{
    if rows.len() > 0 {
        let front = rows.drop_last();
        let n = rows.len() - 1;
        columns_fit(front, column);
        let before = width(front, column);
        assert forall|i: int| 0 <= i < rows.len() && column < (#[trigger] rows[i]).len() implies
            rows[i][column].len() <= width(rows, column) by {
            if i < n {
                assert(front[i] == rows[i]);
            }
        }
        if width(rows, column) == before && before > 0 {
            let i = choose|i: int|
                0 <= i < front.len() && column < (#[trigger] front[i]).len()
                    && front[i][column].len() == before;
            assert(rows[i] == front[i]);
            assert(rows[i][column].len() == width(rows, column));
        } else if width(rows, column) > 0 {
            assert(rows[n][column].len() == width(rows, column));
        }
    }
}

/// Where a column starts: the columns before it, and two spaces behind each.
pub open spec fn column_start(widths: Seq<nat>, column: int) -> int
    decreases column,
{
    if column <= 0 {
        0
    } else {
        column_start(widths, column - 1) + widths[column - 1] + 2
    }
}

/// The cells of a row stand at the starts of their columns: so those of one
/// column stand below each other.
pub proof fn cells_line_up(row: Seq<Seq<char>>, widths: Seq<nat>, column: int)
    requires
        0 <= column < row.len() <= widths.len(),
        forall|k: int| 0 <= k < row.len() ==> (#[trigger] row[k]).len() <= widths[k],
    ensures
        ({
            let line = side_by_side(row, widths);
            let from = column_start(widths, column);
            &&& 0 <= from
            &&& from + widths[column] <= line.len()
            &&& line.len() == column_start(widths, row.len() - 1) + widths[row.len() - 1]
            &&& line.subrange(from, from + row[column].len()) == row[column]
            &&& forall|i: int|
                from + row[column].len() <= i < from + widths[column] ==> #[trigger] line[i] == ' '
        }),
    decreases row.len(),
{
    reveal_strlit("  ");
    let n = row.len() - 1;
    let front = row.drop_last();
    let last = padded(row.last(), widths[n]);
    let line = side_by_side(row, widths);
    assert(row.last() == row[n]);
    assert(last.len() == widths[n]);
    assert forall|k: int| 0 <= k < front.len() implies (#[trigger] front[k]).len() <= widths[k] by {
        assert(front[k] == row[k]);
    }
    if n > 0 {
        let before = side_by_side(front, widths);
        cells_line_up(
            front,
            widths,
            if column < n {
                column
            } else {
                0
            },
        );
        assert(before.len() == column_start(widths, n - 1) + widths[n - 1]);
        assert(line == before + "  "@ + last);
        if column < n {
            let from = column_start(widths, column);
            assert(front[column] == row[column]);
            assert(line.subrange(from, from + row[column].len()) =~= before.subrange(
                from,
                from + row[column].len(),
            ));
            assert forall|i: int|
                from + row[column].len() <= i < from + widths[column] implies #[trigger] line[i]
                == ' ' by {
                assert(line[i] == before[i]);
            }
        } else {
            let from = column_start(widths, n);
            assert(from == before.len() + 2);
            assert(line.subrange(from, from + row[n].len()) =~= row[n]);
        }
    } else {
        assert(line == last);
        assert(line.subrange(0, row[0].len() as int) =~= row[0]);
    }
}

/// There is a line for each row, with the cells side by side and nothing but
/// white space taken off its end.
pub proof fn lines_show_rows(rows: Seq<Seq<Seq<char>>>, columns: nat, i: int)
    requires
        0 <= i < rows.len(),
    ensures
        table_lines(rows, columns).len() == rows.len(),
        ({
            let line = table_lines(rows, columns)[i];
            let whole = side_by_side(rows[i], Seq::new(columns, |k: int| width(rows, k)));
            &&& line.len() <= whole.len()
            &&& line == whole.take(line.len() as int)
            &&& line.len() > 0 ==> !text::white(line.last())
            &&& forall|k: int| line.len() <= k < whole.len() ==> text::white(#[trigger] whole[k])
        }),
{
    let whole = side_by_side(rows[i], widths_of(rows, columns));
    assert(widths_of(rows, columns) =~= Seq::new(columns, |k: int| width(rows, k)));
    text::lemma_trimmed_end(whole);
}

} // verus!
