use csv_transpose::error::Error;
use csv_transpose::table::Table;

fn table(rows: &[&[&str]]) -> Table {
    Table::new(rows.iter().map(|row| row.iter().map(|cell| cell.to_string()).collect()).collect())
}

#[test]
fn new_keeps_the_rows() {
    let rows = vec![vec!["a".to_string(), "b".to_string()], vec!["c".to_string()]];
    assert_eq!(Table::new(rows.clone()).rows, rows);
}

#[test]
fn counts_of_a_table() {
    let t = table(&[&["a", "b", "c"], &["1", "2", "3"]]);
    assert_eq!(t.row_count(), 2);
    assert_eq!(t.column_count(), 3);
}

#[test]
fn counts_of_the_empty_table() {
    let t = table(&[]);
    assert_eq!(t.row_count(), 0);
    assert_eq!(t.column_count(), 0);
}

#[test]
fn column_count_is_the_length_of_the_first_row() {
    assert_eq!(table(&[&["a"], &["b", "c", "d"]]).column_count(), 1);
    assert_eq!(table(&[&[], &["b"]]).column_count(), 0);
}

#[test]
fn validate_accepts_equal_rows() {
    assert_eq!(table(&[&["a", "b"], &["c", "d"], &["e", "f"]]).validate(), Ok(()));
    assert_eq!(table(&[&["a"]]).validate(), Ok(()));
    assert_eq!(table(&[]).validate(), Ok(()));
    assert_eq!(table(&[&[], &[]]).validate(), Ok(()));
}

#[test]
fn validate_refuses_unequal_rows() {
    assert_eq!(table(&[&["a", "b"], &["1", "2", "3"]]).validate(), Err(Error::UnequalRows));
    assert_eq!(table(&[&["a", "b"], &["1"]]).validate(), Err(Error::UnequalRows));
    assert_eq!(table(&[&["a"], &["b"], &[]]).validate(), Err(Error::UnequalRows));
    assert_eq!(table(&[&[], &["b"]]).validate(), Err(Error::UnequalRows));
}

#[test]
fn transpose_exchanges_rows_and_columns() {
    let t = table(&[&["a", "b", "c"], &["1", "2", "3"]]);
    assert_eq!(t.transpose(), Ok(table(&[&["a", "1"], &["b", "2"], &["c", "3"]])));
}

#[test]
fn transpose_has_the_columns_as_rows() {
    let t = table(&[&["a", "b", "c"], &["1", "2", "3"]]);
    let turned = t.transpose().unwrap();
    assert_eq!(turned.row_count(), t.column_count());
    assert_eq!(turned.column_count(), t.row_count());
    for i in 0..turned.rows.len() {
        assert_eq!(turned.rows[i].len(), t.rows.len());
        for j in 0..t.rows.len() {
            assert_eq!(turned.rows[i][j], t.rows[j][i]);
        }
    }
}

#[test]
fn transpose_twice_gives_the_table_back() {
    for t in [
        table(&[&["a", "b", "c"], &["1", "2", "3"]]),
        table(&[&["x"]]),
        table(&[&["a"], &["b"], &["c"]]),
        table(&[&["a", "", " "], &["", "", ""]]),
        table(&[]),
    ] {
        assert_eq!(t.transpose().unwrap().transpose(), Ok(t));
    }
}

#[test]
fn transpose_of_a_single_row_is_a_single_column() {
    assert_eq!(table(&[&["a", "b"]]).transpose(), Ok(table(&[&["a"], &["b"]])));
    assert_eq!(table(&[&["a"], &["b"]]).transpose(), Ok(table(&[&["a", "b"]])));
}

#[test]
fn transpose_of_rows_without_cells_has_no_rows() {
    let t = table(&[&[], &[], &[]]);
    let turned = t.transpose().unwrap();
    assert_eq!(turned, table(&[]));
    assert_eq!(turned.transpose(), Ok(table(&[])));
}

#[test]
fn transpose_refuses_unequal_rows() {
    assert_eq!(table(&[&["a", "b"], &["1", "2", "3"]]).transpose(), Err(Error::UnequalRows));
    assert_eq!(table(&[&["a", "b", "c"], &["1", "2"]]).transpose(), Err(Error::UnequalRows));
}

#[test]
fn unequal_rows_message_and_status() {
    assert_eq!(
        Error::UnequalRows.message(),
        "Error: All rows must have the same number of columns"
    );
    assert_eq!(Error::UnequalRows.exit_code(), 1);
}
