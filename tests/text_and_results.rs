use tesseract_logic::names::QueryError;
use tesseract_logic::result::{contains_text, rename_headers, replace_all, stitch_columns, Column, ColumnKind};
use tesseract_logic::text::{decimal_text, parse_u32, split_on, text_eq};

fn s(x: &str) -> String {
    x.to_string()
}

fn sv(xs: &[&str]) -> Vec<String> {
    xs.iter().map(|x| s(x)).collect()
}

#[test]
fn decimal_rendering() {
    assert_eq!(decimal_text(0), "0");
    assert_eq!(decimal_text(2019), "2019");
    assert_eq!(decimal_text(u64::MAX), "18446744073709551615");
}

#[test]
fn number_parsing() {
    assert_eq!(parse_u32("42"), Some(42));
    assert_eq!(parse_u32("+7"), Some(7));
    assert_eq!(parse_u32("007"), Some(7));
    assert_eq!(parse_u32(""), None);
    assert_eq!(parse_u32("+"), None);
    assert_eq!(parse_u32("-1"), None);
    assert_eq!(parse_u32("12a"), None);
    assert_eq!(parse_u32("99999999999"), None);
}

#[test]
fn splitting() {
    assert_eq!(split_on("a,b,,c", ','), sv(&["a", "b", "", "c"]));
    assert_eq!(split_on("", ','), sv(&[""]));
    assert_eq!(split_on("01:children", ':'), sv(&["01", "children"]));
    assert!(text_eq("abc", "abc"));
    assert!(!text_eq("abc", "abd"));
}

#[test]
fn header_renames() {
    assert_eq!(replace_all("County ID", "County", "Geography"), "Geography ID");
    assert_eq!(replace_all("aaa", "aa", "b"), "ba");
    assert_eq!(replace_all("abc", "", "x"), "abc");
    assert!(contains_text("State ID", "State"));
    assert!(!contains_text("State", "County"));
    let headers = sv(&["County ID", "County", "Revenue"]);
    let map = vec![(s("County"), s("Geography")), (s("Year"), s("Time"))];
    assert_eq!(rename_headers(&headers, &map), sv(&["Geography ID", "Geography", "Revenue"]));
}

fn col(kind: ColumnKind, values: &[&str]) -> Column {
    Column { kind, values: sv(values) }
}

#[test]
fn stitching_promotes_disagreeing_columns() {
    let a = vec![col(ColumnKind::UInt32, &["1", "2"]), col(ColumnKind::Int64, &["10", "20"])];
    let b = vec![col(ColumnKind::Text, &["x"]), col(ColumnKind::Int64, &["30"])];
    let out = stitch_columns(&vec![a, b]).unwrap();
    assert_eq!(out[0], col(ColumnKind::Text, &["1", "2", "x"]));
    assert_eq!(out[1], col(ColumnKind::Int64, &["10", "20", "30"]));
    assert_eq!(stitch_columns(&vec![]), Err(QueryError::MissingConstraint));
    let short = vec![vec![col(ColumnKind::Text, &["a"]), col(ColumnKind::Text, &["b"])], vec![col(ColumnKind::Text, &["c"])]];
    assert_eq!(stitch_columns(&short), Err(QueryError::MissingConstraint));
}
