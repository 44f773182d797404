//! Reading back what was written: the text of a table stands for that
//! table, so the output of a transposition can be transposed again.

use crate::csv::{cells, lines, parsed, rendered, without_carriage_return};
use crate::split::{
    joined, lemma_join_then_split, lemma_offset_of, lemma_offset_of_is, offset_of, split,
};
use crate::table::{
    column_count, is_rectangular, lemma_transposed_shape, lemma_transposed_twice, transposed,
};
use crate::whitespace::{
    is_trim_window, is_trimmed, is_whitespace, lemma_trim_window_is_trimmed,
    lemma_trimmed_is_window, trimmed,
};
use vstd::prelude::*;

verus! {

/// A cell that can be written and read back unchanged: it neither starts
/// nor ends with whitespace and holds neither a comma nor a line feed.
pub open spec fn is_plain_cell(cell: Seq<char>) -> bool {
    &&& is_trimmed(cell)
    &&& forall|i: int| 0 <= i < cell.len() ==> #[trigger] cell[i] != ',' && cell[i] != '\n'
}

/// A table that can be written and read back unchanged: every row has at
/// least one cell, and every cell is plain.
pub open spec fn is_plain(grid: Seq<Seq<Seq<char>>>) -> bool {
    &&& forall|j: int| 0 <= j < grid.len() ==> (#[trigger] grid[j]).len() >= 1
    &&& forall|j: int, k: int|
        0 <= j < grid.len() && 0 <= k < grid[j].len() ==> is_plain_cell(#[trigger] grid[j][k])
}

/// Trimming leaves a text alone that neither starts nor ends with
/// whitespace.
pub proof fn lemma_trimmed_of_trimmed(s: Seq<char>)
    requires
        is_trimmed(s),
    ensures
        trimmed(s) == s,
{
    assert(is_trim_window(s, 0, s.len() as int));
    lemma_trim_window_is_trimmed(s, 0, s.len() as int);
    assert(s.subrange(0, s.len() as int) =~= s);
}

/// A character that does not occur in a text occurs in none of its pieces.
proof fn lemma_split_lacks(s: Seq<char>, sep: char, c: char)
    requires
        forall|p: int| 0 <= p < s.len() ==> #[trigger] s[p] != c,
    ensures
        forall|k: int, i: int|
            0 <= k < split(s, sep).len() && 0 <= i < split(s, sep)[k].len() ==> #[trigger] split(
                s,
                sep,
            )[k][i] != c,
    decreases s.len(),
{
    lemma_offset_of(s, sep);
    let at = offset_of(s, sep) as int;
    if at < s.len() {
        let rest = s.skip(at + 1);
        assert forall|p: int| 0 <= p < rest.len() implies #[trigger] rest[p] != c by {
            assert(rest[p] == s[p + at + 1]);
        }
        lemma_split_lacks(rest, sep, c);
        assert forall|k: int, i: int|
            0 <= k < split(s, sep).len() && 0 <= i < split(s, sep)[k].len() implies #[trigger] split(
            s,
            sep,
        )[k][i] != c by {
            if k == 0 {
                assert(split(s, sep)[0] == s.take(at));
                assert(s.take(at)[i] == s[i]);
            } else {
                assert(split(s, sep)[k] == split(rest, sep)[k - 1]);
            }
        }
    }
}

/// No line holds a line feed.
proof fn lemma_lines_lack_line_feed(text: Seq<char>)
    ensures
        forall|j: int, p: int|
            0 <= j < lines(text).len() && 0 <= p < lines(text)[j].len() ==> #[trigger] lines(
                text,
            )[j][p] != '\n',
    decreases text.len(),
{
    lemma_offset_of(text, '\n');
    let at = offset_of(text, '\n') as int;
    if text.len() > 0 && at < text.len() {
        let rest = text.skip(at + 1);
        lemma_lines_lack_line_feed(rest);
        let first = without_carriage_return(text.take(at));
        assert forall|j: int, p: int|
            0 <= j < lines(text).len() && 0 <= p < lines(text)[j].len() implies #[trigger] lines(
            text,
        )[j][p] != '\n' by {
            if j == 0 {
                assert(lines(text)[0] == first);
                assert(first[p] == text[p]);
            } else {
                assert(lines(text)[j] == lines(rest)[j - 1]);
            }
        }
    }
}

/// Every cell of a parsed table is plain, and every row has a cell.
pub proof fn lemma_parsed_is_plain(text: Seq<char>)
    ensures
        is_plain(parsed(text)),
{
    let grid = parsed(text);
    lemma_lines_lack_line_feed(text);
    crate::csv::lemma_parsed_cells_are_trimmed(text);
    assert forall|j: int, k: int| 0 <= j < grid.len() && 0 <= k < grid[j].len() implies is_plain_cell(
        #[trigger] grid[j][k],
    ) by {
        let line = lines(text)[j];
        let field = split(line, ',')[k];
        let cell = grid[j][k];
        assert(cell == trimmed(field));
        crate::split::lemma_split_pieces(line, ',');
        assert forall|p: int| 0 <= p < line.len() implies #[trigger] line[p] != '\n' by {
            assert(lines(text)[j][p] != '\n');
        }
        lemma_split_lacks(line, ',', '\n');
        lemma_trimmed_is_window(field);
        let (a, b) = choose|a: int, b: int|
            is_trim_window(field, a, b) && trimmed(field) == field.subrange(a, b);
        assert forall|i: int| 0 <= i < cell.len() implies #[trigger] cell[i] != ',' && cell[i]
            != '\n' by {
            assert(cell[i] == field[a + i]);
            assert(split(line, ',')[k][a + i] != ',');
            assert(split(line, ',')[k][a + i] != '\n');
        }
    }
}

/// The transpose of a plain rectangular table is plain.
pub proof fn lemma_transposed_is_plain(grid: Seq<Seq<Seq<char>>>)
    requires
        is_plain(grid),
        is_rectangular(grid),
    ensures
        is_plain(transposed(grid)),
{
    lemma_transposed_shape(grid);
    let turned = transposed(grid);
    assert forall|i: int, j: int|
        0 <= i < turned.len() && 0 <= j < turned[i].len() implies is_plain_cell(
        #[trigger] turned[i][j],
    ) by {
        assert(grid[j].len() == column_count(grid));
        assert(turned[i][j] == grid[j][i]);
    }
}

/// The cells of a row of plain cells, joined by commas, make a line with no
/// line feed in it and no carriage return at its end.
proof fn lemma_joined_plain(row: Seq<Seq<char>>)
    requires
        row.len() >= 1,
        forall|k: int| 0 <= k < row.len() ==> is_plain_cell(#[trigger] row[k]),
    ensures
        forall|p: int| 0 <= p < joined(row, ',').len() ==> #[trigger] joined(row, ',')[p] != '\n',
        joined(row, ',').len() > 0 ==> joined(row, ',').last() != '\r',
    decreases row.len(),
{
    let line = joined(row, ',');
    let tail = row.last();
    assert(is_plain_cell(tail));
    assert(is_whitespace('\r'));
    if row.len() == 1 {
        assert(line == row[0]);
    } else {
        let front = row.drop_last();
        assert forall|k: int| 0 <= k < front.len() implies is_plain_cell(#[trigger] front[k]) by {
            assert(front[k] == row[k]);
        }
        lemma_joined_plain(front);
        let head = joined(front, ',');
        assert(line == head.push(',') + tail);
        assert forall|p: int| 0 <= p < line.len() implies #[trigger] line[p] != '\n' by {
            if p < head.len() {
                assert(line[p] == head[p]);
            } else if p > head.len() {
                assert(line[p] == tail[p - head.len() - 1]);
            }
        }
        if tail.len() > 0 {
            assert(line.last() == tail.last());
        } else {
            assert(line.last() == ',');
        }
    }
}

/// The text of a table with a row put in front: the line of that row, then
/// the text of the rest.
proof fn lemma_rendered_front(first: Seq<Seq<char>>, rest: Seq<Seq<Seq<char>>>)
    ensures
        rendered(seq![first] + rest) == joined(first, ',').push('\n') + rendered(rest),
    decreases rest.len(),
{
    let all = seq![first] + rest;
    if rest.len() == 0 {
        assert(all.drop_last() =~= rest);
        assert(all.last() == first);
        assert(rendered(rest) =~= Seq::<char>::empty());
        assert(rendered(all) =~= joined(first, ',').push('\n') + rendered(rest));
    } else {
        assert(all.drop_last() =~= seq![first] + rest.drop_last());
        assert(all.last() == rest.last());
        lemma_rendered_front(first, rest.drop_last());
        assert(rendered(all) =~= joined(first, ',').push('\n') + rendered(rest));
    }
}

/// Reading the text of a plain table gives the table back.
pub proof fn lemma_render_then_parse(grid: Seq<Seq<Seq<char>>>)
    requires
        is_plain(grid),
    ensures
        parsed(rendered(grid)) == grid,
    decreases grid.len(),
{
    if grid.len() == 0 {
        assert(parsed(rendered(grid)) =~= grid);
    } else {
        let first = grid.first();
        let rest = grid.drop_first();
        assert(grid =~= seq![first] + rest);
        assert forall|j: int| 0 <= j < rest.len() implies (#[trigger] rest[j]).len() >= 1 by {
            assert(rest[j] == grid[j + 1]);
        }
        assert forall|j: int, k: int|
            0 <= j < rest.len() && 0 <= k < rest[j].len() implies is_plain_cell(
            #[trigger] rest[j][k],
        ) by {
            assert(rest[j][k] == grid[j + 1][k]);
        }
        lemma_render_then_parse(rest);
        lemma_rendered_front(first, rest);

        let line = joined(first, ',');
        let text = rendered(grid);
        assert(text == line.push('\n') + rendered(rest));
        assert forall|k: int| 0 <= k < first.len() implies is_plain_cell(#[trigger] first[k]) by {
            assert(first[k] == grid[0][k]);
        }
        lemma_joined_plain(first);
        assert forall|p: int| 0 <= p < line.len() implies #[trigger] text[p] != '\n' by {
            assert(text[p] == line[p]);
        }
        lemma_offset_of_is(text, '\n', line.len() as int);
        assert(text.take(line.len() as int) =~= line);
        assert(text.skip(line.len() as int + 1) =~= rendered(rest));
        assert(without_carriage_return(line) == line);
        assert(lines(text) == seq![line] + lines(rendered(rest)));

        // the line reads back as the row it was made of
        assert forall|k: int, i: int|
            0 <= k < first.len() && 0 <= i < first[k].len() implies #[trigger] first[k][i]
            != ',' by {
            assert(is_plain_cell(first[k]));
        }
        lemma_join_then_split(first, ',');
        assert(cells(line) =~= first) by {
            assert forall|k: int| 0 <= k < first.len() implies cells(line)[k] == first[k] by {
                lemma_trimmed_of_trimmed(first[k]);
            }
        }
        assert(parsed(text) =~= seq![first] + parsed(rendered(rest)));
    }
}

/// The output of a transposition reads back as the transposed table.
pub proof fn lemma_output_reads_back(text: Seq<char>)
    requires
        is_rectangular(parsed(text)),
    ensures
        parsed(rendered(transposed(parsed(text)))) == transposed(parsed(text)),
{
    lemma_parsed_is_plain(text);
    lemma_transposed_is_plain(parsed(text));
    lemma_render_then_parse(transposed(parsed(text)));
}

/// Transposing the output of a transposition gives the first input back,
/// in the form in which tables are written: its cells trimmed, its rows
/// ended by a line feed each.
pub proof fn lemma_transposing_twice(text: Seq<char>)
    requires
        is_rectangular(parsed(text)),
    ensures
        is_rectangular(parsed(rendered(transposed(parsed(text))))),
        rendered(transposed(parsed(rendered(transposed(parsed(text)))))) == rendered(parsed(text)),
{
    lemma_output_reads_back(text);
    lemma_transposed_shape(parsed(text));
    lemma_parsed_is_plain(text);
    lemma_transposed_twice(parsed(text));
}

} // verus!
