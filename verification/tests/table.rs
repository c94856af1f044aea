use aiprog::base::md::table::make_table;

fn row(cells: &[&str]) -> Vec<String> {
    cells.iter().map(|c| c.to_string()).collect()
}

#[test]
fn test_table_basic() {
    let headers = vec!["Name", "Age", "City"];
    let rows = vec![row(&["Alice", "30", "New York"]), row(&["Bob", "25", "San Francisco"])];

    let table = make_table(Some(&headers), &rows);
    let expected = "\
| Name  | Age | City          |
| ----- | --- | ------------- |
| Alice | 30  | New York      |
| Bob   | 25  | San Francisco |";

    assert_eq!(table, expected);
}

#[test]
fn test_table_types_and_null() {
    let headers = vec!["Col A", "Col B", "Col C", "Col D"];
    let rows = vec![row(&["Text", "42.5", "true", ""]), row(&["More", "100", "false", "Present"])];

    let table = make_table(Some(&headers), &rows);
    let expected = "\
| Col A | Col B | Col C | Col D   |
| ----- | ----- | ----- | ------- |
| Text  | 42.5  | true  |         |
| More  | 100   | false | Present |";

    assert_eq!(table, expected);
}

#[test]
fn test_table_uneven_rows_and_headers() {
    let headers = vec!["H1"];
    let rows = vec![row(&["A", "B", "C"]), row(&["D"])];

    let table = make_table(Some(&headers), &rows);
    let expected = "\
| H1  |     |     |
| --- | --- | --- |
| A   | B   | C   |
| D   |     |     |";

    assert_eq!(table, expected);
}

#[test]
fn test_table_no_headers() {
    let rows = vec![row(&["X", "Y"]), row(&["1", "2"])];

    let table = make_table(None, &rows);
    let expected = "\
| X   | Y   |
| 1   | 2   |";

    assert_eq!(table, expected);
}

#[test]
fn test_table_empty() {
    let table = make_table(None, &[]);
    assert_eq!(table, "");

    let headers: Vec<&str> = vec![];
    let table_empty_headers = make_table(Some(&headers), &[]);
    assert_eq!(table_empty_headers, "");
}

#[test]
fn test_table_width_counts_bytes_and_pads_chars() {
    // "ééé" has 3 characters and 6 bytes: the column is 6 wide and that
    // cell gets 3 spaces of padding.
    let rows = vec![row(&["ééé"]), row(&["a"])];
    let table = make_table(None, &rows);
    assert_eq!(table, "| ééé    |\n| a      |");
}

#[test]
fn test_table_shape_lines_and_bars() {
    let rows = vec![
        vec!["a".to_string(), "bb".to_string()],
        vec!["ccc".to_string()],
        vec!["d".to_string(), "e".to_string(), "f".to_string()],
    ];
    let t = make_table(Some(&["x", "y"]), &rows);
    assert!(!t.ends_with('\n'));
    let lines: Vec<&str> = t.split('\n').collect();
    assert_eq!(lines.len(), rows.len() + 2);
    for l in &lines {
        assert_eq!(l.len(), lines[0].len());
        assert!(l.starts_with('|') && l.ends_with('|'));
        assert_eq!(l.matches('|').count(), 3 + 1);
    }
}
