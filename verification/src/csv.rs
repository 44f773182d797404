//! The text form of a table: one row to a line, cells separated by commas.

use crate::error::Error;
use crate::split::{find, join, joined, lemma_offset_of, lemma_split_pieces, offset_of, split};
use crate::table::{
    is_rectangular, lemma_transposed_shape, lemma_transposed_twice, transposed, Table,
};
use crate::text::{chars_of, string_of};
use crate::whitespace::{
    is_trim_window, is_trimmed, lemma_trimmed_is_window, trim_bounds, trimmed,
};
use vstd::prelude::*;
use vstd::string::StringExecFns;

verus! {

/// A line as it stands before its line feed, without the carriage return
/// that may precede the line feed.
pub open spec fn without_carriage_return(line: Seq<char>) -> Seq<char> {
    if line.len() > 0 && line.last() == '\r' {
        line.drop_last()
    } else {
        line
    }
}

/// The lines of a text. Each line feed ends a line, and a carriage return
/// just before it belongs to the terminator. What follows the last line feed
/// is a line of its own unless it is empty, so the empty text has no lines.
pub open spec fn lines(text: Seq<char>) -> Seq<Seq<char>>
    decreases text.len(),
{
    let at = offset_of(text, '\n') as int;
    if text.len() == 0 {
        Seq::empty()
    } else if at < text.len() {
        seq![without_carriage_return(text.take(at))] + lines(text.skip(at + 1))
    } else {
        seq![text]
    }
}

/// The cells of a line: its pieces between the commas, each trimmed.
pub open spec fn cells(line: Seq<char>) -> Seq<Seq<char>> {
    split(line, ',').map_values(|field: Seq<char>| trimmed(field))
}

/// The table that a text stands for: one row of cells for each line.
pub open spec fn parsed(text: Seq<char>) -> Seq<Seq<Seq<char>>> {
    lines(text).map_values(|line: Seq<char>| cells(line))
}

/// The text of a table: for each row, its cells joined by commas and then a
/// line feed.
pub open spec fn rendered(grid: Seq<Seq<Seq<char>>>) -> Seq<char>
    decreases grid.len(),
{
    if grid.len() == 0 {
        Seq::empty()
    } else {
        rendered(grid.drop_last()) + joined(grid.last(), ',').push('\n')
    }
}

/// How `cells` goes from one comma to the next.
proof fn lemma_cells_step(line: Seq<char>)
    ensures
        offset_of(line, ',') <= line.len(),
        offset_of(line, ',') < line.len() ==> cells(line) == seq![
            trimmed(line.take(offset_of(line, ',') as int)),
        ] + cells(line.skip(offset_of(line, ',') as int + 1)),
        offset_of(line, ',') == line.len() ==> cells(line) == seq![trimmed(line)],
{
    lemma_offset_of(line, ',');
    let at = offset_of(line, ',') as int;
    if at < line.len() {
        assert(cells(line) =~= seq![trimmed(line.take(at))] + cells(line.skip(at + 1)));
    } else {
        assert(cells(line) =~= seq![trimmed(line)]);
    }
}

/// A line has at least one cell, and no cell starts or ends with
/// whitespace or holds a comma.
pub proof fn lemma_cells_are_trimmed(line: Seq<char>)
    ensures
        cells(line).len() >= 1,
        forall|k: int| 0 <= k < cells(line).len() ==> is_trimmed(#[trigger] cells(line)[k]),
        forall|k: int, i: int|
            0 <= k < cells(line).len() && 0 <= i < cells(line)[k].len() ==> #[trigger] cells(
                line,
            )[k][i] != ',',
{
    lemma_split_pieces(line, ',');
    let fields = split(line, ',');
    assert forall|k: int| 0 <= k < cells(line).len() implies is_trimmed(
        #[trigger] cells(line)[k],
    ) by {
        lemma_trimmed_is_window(fields[k]);
    }
    assert forall|k: int, i: int|
        0 <= k < cells(line).len() && 0 <= i < cells(line)[k].len() implies #[trigger] cells(
        line,
    )[k][i] != ',' by {
        lemma_trimmed_is_window(fields[k]);
        let (a, b) = choose|a: int, b: int|
            is_trim_window(fields[k], a, b) && trimmed(fields[k]) == fields[k].subrange(a, b);
        assert(cells(line)[k][i] == fields[k][a + i]);
    }
}

/// Every row of a parsed table has at least one cell, and every cell is its
/// field without the whitespace around it: it neither starts nor ends with
/// whitespace, and what stands between its ends is kept as it was.
pub proof fn lemma_parsed_cells_are_trimmed(text: Seq<char>)
    ensures
        forall|j: int| 0 <= j < parsed(text).len() ==> (#[trigger] parsed(text)[j]).len() >= 1,
        forall|j: int, k: int|
            0 <= j < parsed(text).len() && 0 <= k < parsed(text)[j].len() ==> is_trimmed(
                #[trigger] parsed(text)[j][k],
            ),
        forall|j: int, k: int|
            0 <= j < parsed(text).len() && 0 <= k < parsed(text)[j].len() ==> #[trigger] parsed(
                text,
            )[j][k] == trimmed(split(lines(text)[j], ',')[k]),
{
    assert forall|j: int| 0 <= j < parsed(text).len() implies (#[trigger] parsed(text)[j]).len()
        >= 1 by {
        lemma_cells_are_trimmed(lines(text)[j]);
    }
    assert forall|j: int, k: int|
        0 <= j < parsed(text).len() && 0 <= k < parsed(text)[j].len() implies is_trimmed(
        #[trigger] parsed(text)[j][k],
    ) by {
        lemma_cells_are_trimmed(lines(text)[j]);
    }
}

/// Each cell of the transposed table is a field of the input without the
/// whitespace around it: cell `j` of its row `i` is the trimmed field `i` of
/// line `j`.
pub proof fn lemma_output_cells_are_trimmed_fields(text: Seq<char>)
    requires
        is_rectangular(parsed(text)),
    ensures
        forall|i: int, j: int|
            0 <= i < transposed(parsed(text)).len() && 0 <= j < transposed(parsed(text))[i].len()
                ==> {
                &&& #[trigger] transposed(parsed(text))[i][j] == trimmed(
                    split(lines(text)[j], ',')[i],
                )
                &&& is_trimmed(transposed(parsed(text))[i][j])
            },
{
    let grid = parsed(text);
    lemma_transposed_shape(grid);
    lemma_parsed_cells_are_trimmed(text);
    assert forall|i: int, j: int|
        0 <= i < transposed(grid).len() && 0 <= j < transposed(grid)[i].len() implies {
        &&& #[trigger] transposed(grid)[i][j] == trimmed(split(lines(text)[j], ',')[i])
        &&& is_trimmed(transposed(grid)[i][j])
    } by {
        assert(grid[j].len() == transposed(grid).len());
        assert(transposed(grid)[i][j] == grid[j][i]);
    }
}

/// Transposing a parsed table twice gives it back, whenever its rows have
/// one length.
pub proof fn lemma_parsed_transposed_twice(text: Seq<char>)
    requires
        is_rectangular(parsed(text)),
    ensures
        transposed(transposed(parsed(text))) == parsed(text),
{
    lemma_parsed_cells_are_trimmed(text);
    lemma_transposed_twice(parsed(text));
}

/// Cuts `input` into its lines, without their terminators.
pub fn split_lines(input: &str) -> (found: Vec<String>)
    ensures
        found.deep_view() == lines(input@),
{
    let chars = chars_of(input);
    let n = chars.len();
    let mut found: Vec<String> = Vec::new();
    let mut start: usize = 0;
    assert(chars@.skip(0) =~= chars@);
    assert(found.deep_view() + lines(chars@) =~= lines(chars@));
    while start < n
        invariant
            start <= n == chars@.len(),
            lines(chars@) == found.deep_view() + lines(chars@.skip(start as int)),
        decreases n - start,
    {
        let ghost rest = chars@.skip(start as int);
        let ghost before = found.deep_view();
        let end = find(&chars, start, n, '\n');
        let stop = if end < n && start < end && chars[end - 1] == '\r' {
            end - 1
        } else {
            end
        };
        found.push(string_of(&chars, start, stop));
        proof {
            let line = chars@.subrange(start as int, stop as int);
            assert(found.deep_view() =~= before.push(line));
            assert(rest.take(end - start) =~= chars@.subrange(start as int, end as int));
            if end < n {
                assert(rest.skip(end - start + 1) =~= chars@.skip(end + 1));
                if start < end {
                    assert(rest.take(end - start).last() == chars@[end - 1]);
                }
                assert(line =~= without_carriage_return(rest.take(end - start)));
                assert(lines(chars@) =~= found.deep_view() + lines(chars@.skip(end + 1)));
            } else {
                assert(line =~= rest);
                assert(lines(chars@.skip(n as int)) =~= Seq::<Seq<char>>::empty());
                assert(lines(chars@) =~= found.deep_view() + lines(chars@.skip(n as int)));
            }
        }
        start = if end < n {
            end + 1
        } else {
            n
        };
    }
    assert(lines(chars@.skip(n as int)) =~= Seq::<Seq<char>>::empty());
    assert(found.deep_view() + Seq::<Seq<char>>::empty() =~= found.deep_view());
    found
}

/// Cuts `line` at its commas and trims each piece.
pub fn parse_row(line: &str) -> (row: Vec<String>)
    ensures
        row.deep_view() == cells(line@),
{
    let chars = chars_of(line);
    let n = chars.len();
    let mut row: Vec<String> = Vec::new();
    let mut start: usize = 0;
    assert(chars@.skip(0) =~= chars@);
    assert(row.deep_view() + cells(chars@) =~= cells(chars@));
    loop
        invariant_except_break
            cells(chars@) == row.deep_view() + cells(chars@.skip(start as int)),
        invariant
            start <= n == chars@.len(),
        ensures
            row.deep_view() == cells(chars@),
        decreases n - start,
    {
        let ghost rest = chars@.skip(start as int);
        let ghost before = row.deep_view();
        let at = find(&chars, start, n, ',');
        let (a, b) = trim_bounds(&chars, start, at);
        row.push(string_of(&chars, a, b));
        proof {
            lemma_cells_step(rest);
            let field = chars@.subrange(start as int, at as int);
            assert(row.deep_view() =~= before.push(trimmed(field)));
            assert(rest.take(at - start) =~= field);
            if at < n {
                assert(rest.skip(at - start + 1) =~= chars@.skip(at + 1));
                assert(cells(chars@) =~= row.deep_view() + cells(chars@.skip(at + 1)));
            } else {
                assert(field =~= rest);
                assert(cells(chars@) =~= row.deep_view());
            }
        }
        if at == n {
            break ;
        }
        start = at + 1;
    }
    row
}

/// Reads a table from its text: one row for each line, one trimmed cell for
/// each piece of the line between commas.
pub fn parse(input: &str) -> (table: Table)
    ensures
        table@ == parsed(input@),
{
    let found = split_lines(input);
    let mut rows: Vec<Vec<String>> = Vec::new();
    let mut j: usize = 0;
    while j < found.len()
        invariant
            j <= found.len(),
            found.deep_view() == lines(input@),
            rows.len() == j,
            forall|k: int| 0 <= k < j ==> #[trigger] rows.deep_view()[k] == cells(lines(input@)[k]),
        decreases found.len() - j,
    {
        let ghost before = rows.deep_view();
        let row = parse_row(found[j].as_str());
        assert(found.deep_view()[j as int] == found[j as int]@);
        rows.push(row);
        assert forall|k: int| 0 <= k <= j implies #[trigger] rows.deep_view()[k] == cells(
            lines(input@)[k],
        ) by {
            if k < j {
                assert(rows.deep_view()[k] == before[k]);
            }
        }
        j += 1;
    }
    assert(rows.deep_view() =~= parsed(input@));
    Table::new(rows)
}

/// Writes a table as text: each row on a line of its own, its cells
/// separated by commas.
pub fn render(table: &Table) -> (text: String)
    ensures
        text@ == rendered(table@),
{
    let mut text = String::new();
    let mut j: usize = 0;
    while j < table.rows.len()
        invariant
            j <= table.rows.len(),
            text@ == rendered(table@.take(j as int)),
        decreases table.rows.len() - j,
    {
        let line = join(&table.rows[j], ',');
        text.append(line.as_str());
        text.push('\n');
        proof {
            let now = table@.take(j + 1);
            assert(now.drop_last() =~= table@.take(j as int));
            assert(now.last() == table.rows[j as int].deep_view());
            assert(text@ =~= rendered(now.drop_last()) + joined(now.last(), ',').push('\n'));
        }
        j += 1;
    }
    assert(table@.take(table.rows.len() as int) =~= table@);
    text
}

/// Transposes a table given as text. Every line of the input is a row and
/// every row of the result is a line of the output. An input whose rows
/// differ in length is refused; the empty input has the empty output.
pub fn transpose_csv(input: &str) -> (r: Result<String, Error>)
    ensures
        match r {
            Ok(output) => is_rectangular(parsed(input@)) && output@ == rendered(
                transposed(parsed(input@)),
            ),
            Err(e) => !is_rectangular(parsed(input@)) && e == Error::UnequalRows,
        },
{
    let table = parse(input);
    match table.transpose() {
        Ok(turned) => Ok(render(&turned)),
        Err(e) => Err(e),
    }
}

} // verus!
