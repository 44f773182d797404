use csv_transpose::csv::{parse, parse_row, render, split_lines, transpose_csv};
use csv_transpose::error::Error;
use csv_transpose::table::Table;

fn strings(items: &[&str]) -> Vec<String> {
    items.iter().map(|s| s.to_string()).collect()
}

fn table(rows: &[&[&str]]) -> Table {
    Table::new(rows.iter().map(|row| strings(row)).collect())
}

#[test]
fn lines_end_at_line_feeds() {
    assert_eq!(split_lines("a\nb\n"), strings(&["a", "b"]));
    assert_eq!(split_lines("a,b,c\n1,2,3\n"), strings(&["a,b,c", "1,2,3"]));
}

#[test]
fn last_line_needs_no_line_feed() {
    assert_eq!(split_lines("a\nb"), strings(&["a", "b"]));
    assert_eq!(split_lines("a"), strings(&["a"]));
}

#[test]
fn empty_text_has_no_lines() {
    assert_eq!(split_lines(""), Vec::<String>::new());
}

#[test]
fn empty_lines_are_lines() {
    assert_eq!(split_lines("\n"), strings(&[""]));
    assert_eq!(split_lines("a\n\n"), strings(&["a", ""]));
    assert_eq!(split_lines("\n\nb"), strings(&["", "", "b"]));
}

#[test]
fn carriage_return_before_line_feed_is_dropped() {
    assert_eq!(split_lines("a\r\nb\r\n"), strings(&["a", "b"]));
    assert_eq!(split_lines("\r\n"), strings(&[""]));
    assert_eq!(split_lines("a\r\r\n"), strings(&["a\r"]));
}

#[test]
fn other_carriage_returns_stay() {
    assert_eq!(split_lines("a\rb\n"), strings(&["a\rb"]));
    assert_eq!(split_lines("a\r"), strings(&["a\r"]));
    assert_eq!(split_lines("\ra\n"), strings(&["\ra"]));
}

#[test]
fn lines_agree_with_the_standard_library() {
    for text in ["", "a", "a\n", "a\r\n", "a\n\nb", "\n", "\r", "x\r\ny\rz\n", "é,ü\n日本\n"] {
        let expected: Vec<String> = text.lines().map(|l| l.to_string()).collect();
        assert_eq!(split_lines(text), expected, "{:?}", text);
    }
}

#[test]
fn row_is_cut_at_commas() {
    assert_eq!(parse_row("a,b,c"), strings(&["a", "b", "c"]));
    assert_eq!(parse_row("one"), strings(&["one"]));
}

#[test]
fn row_cells_are_trimmed() {
    assert_eq!(parse_row("a, b ,c"), strings(&["a", "b", "c"]));
    assert_eq!(parse_row("  a\t,\tb  "), strings(&["a", "b"]));
    assert_eq!(parse_row("x y , z  w"), strings(&["x y", "z  w"]));
}

#[test]
fn row_keeps_empty_cells() {
    assert_eq!(parse_row(""), strings(&[""]));
    assert_eq!(parse_row(","), strings(&["", ""]));
    assert_eq!(parse_row("a,,b"), strings(&["a", "", "b"]));
    assert_eq!(parse_row(" , ,"), strings(&["", "", ""]));
    assert_eq!(parse_row("a,"), strings(&["a", ""]));
}

#[test]
fn row_knows_no_quotes() {
    assert_eq!(parse_row("\"a,b\",c"), strings(&["\"a", "b\"", "c"]));
}

#[test]
fn row_agrees_with_the_standard_library() {
    for line in ["", "a", "a,b", " a , b ", ",,", "x\r", "\u{3000}全角,\u{A0}é "] {
        let expected: Vec<String> = line.split(',').map(|s| s.trim().to_string()).collect();
        assert_eq!(parse_row(line), expected, "{:?}", line);
    }
}

#[test]
fn parse_reads_rows_and_cells() {
    assert_eq!(parse("a,b,c\n1,2,3\n"), table(&[&["a", "b", "c"], &["1", "2", "3"]]));
    assert_eq!(parse("a, b ,c\r\n1,2,3"), table(&[&["a", "b", "c"], &["1", "2", "3"]]));
}

#[test]
fn parse_keeps_unequal_rows() {
    assert_eq!(parse("a,b\n1,2,3\n"), table(&[&["a", "b"], &["1", "2", "3"]]));
    assert_eq!(parse("a\n\nb\n"), table(&[&["a"], &[""], &["b"]]));
}

#[test]
fn parse_of_empty_text_has_no_rows() {
    assert_eq!(parse(""), table(&[]));
    assert_eq!(parse("").row_count(), 0);
}

#[test]
fn render_writes_one_line_per_row() {
    assert_eq!(render(&table(&[&["a", "1"], &["b", "2"], &["c", "3"]])), "a,1\nb,2\nc,3\n");
    assert_eq!(render(&table(&[&["x"]])), "x\n");
}

#[test]
fn render_of_no_rows_is_empty() {
    assert_eq!(render(&table(&[])), "");
}

#[test]
fn render_adds_no_whitespace() {
    assert_eq!(render(&table(&[&["a b", ""], &["", "c"]])), "a b,\n,c\n");
    assert_eq!(render(&table(&[&[""]])), "\n");
}

#[test]
fn render_then_parse_gives_the_table_back() {
    for t in [
        table(&[&["a", "1"], &["b", "2"]]),
        table(&[&["", ""], &["x y", ""]]),
        table(&[&[""]]),
        table(&[]),
    ] {
        assert_eq!(parse(&render(&t)), t);
    }
}

#[test]
fn transposes_a_table() {
    assert_eq!(transpose_csv("a,b,c\n1,2,3\n"), Ok("a,1\nb,2\nc,3\n".to_string()));
}

#[test]
fn transposes_a_table_with_spaces() {
    assert_eq!(transpose_csv("a, b ,c\n1,2,3\n"), Ok("a,1\nb,2\nc,3\n".to_string()));
}

#[test]
fn refuses_rows_of_unequal_length() {
    assert_eq!(transpose_csv("a,b\n1,2,3\n"), Err(Error::UnequalRows));
    assert_eq!(transpose_csv("a,b,c\n1,2\n"), Err(Error::UnequalRows));
    assert_eq!(transpose_csv("a,b\n1,2\n\n"), Err(Error::UnequalRows));
    assert_eq!(transpose_csv("a,b\nc,d\ne,f\ng\n"), Err(Error::UnequalRows));
}

#[test]
fn empty_input_has_empty_output() {
    assert_eq!(transpose_csv(""), Ok(String::new()));
}

#[test]
fn inner_whitespace_reaches_the_output() {
    assert_eq!(
        transpose_csv("  first name ,age\n Ada  Lovelace\t, 36 \n"),
        Ok("first name,Ada  Lovelace\nage,36\n".to_string())
    );
}

#[test]
fn single_row_becomes_a_column() {
    assert_eq!(transpose_csv("a,b,c"), Ok("a\nb\nc\n".to_string()));
    assert_eq!(transpose_csv("a\nb\nc\n"), Ok("a,b,c\n".to_string()));
}

#[test]
fn windows_line_ends_are_read() {
    assert_eq!(transpose_csv("a,b\r\n1,2\r\n"), Ok("a,1\nb,2\n".to_string()));
}

#[test]
fn blank_lines_are_rows_of_one_empty_cell() {
    assert_eq!(transpose_csv("\n\n"), Ok(",\n".to_string()));
    assert_eq!(transpose_csv("a\n\n"), Ok("a,\n".to_string()));
}

#[test]
fn transposing_twice_gives_the_cells_back() {
    let once = transpose_csv("a, b ,c\n1,2,3\n").unwrap();
    assert_eq!(transpose_csv(&once), Ok("a,b,c\n1,2,3\n".to_string()));
    let wide = transpose_csv("名前,年齢\n太郎,30\n花子,25\n").unwrap();
    assert_eq!(wide, "名前,太郎,花子\n年齢,30,25\n");
    assert_eq!(transpose_csv(&wide), Ok("名前,年齢\n太郎,30\n花子,25\n".to_string()));
}
