use csv::StringRecord;
use csvpeek::filter::{compile_filters, accepts_all, QueryError, RowFilter, RowFilterOperator};
use csvpeek::schema::Schema;

fn schema_of(names: &[&str]) -> Schema {
    Schema::from_names(names.iter().map(|n| n.to_string()).collect())
}

fn image_schema() -> Schema {
    schema_of(&["FIRST", "SECOND", "IMAGE_NAME"])
}

#[test]
fn test_equal_row_filter_constructor() {
    let row_filter = RowFilter::new("IMAGE_NAME=file1.png", &image_schema()).unwrap();

    // The operator should be EqualString
    assert!(row_filter.operator == RowFilterOperator::EqualString);
    assert_eq!(row_filter.left_column, Some(2));
    assert_eq!(row_filter.right_column, None);
    assert_eq!(row_filter.left_value, None);
    assert_eq!(row_filter.right_value, Some(String::from("file1.png")));
}

#[test]
fn test_equal_row_filter_accepts_method() {
    let row_filter = RowFilter::new("IMAGE_NAME=file1.png", &image_schema()).unwrap();

    let record = StringRecord::from(vec!["someContentInFirstColumn", "someContentInSecondColumn", "file1.png"]);
    let record2 = StringRecord::from(vec!["someContentInFirstColumn", "someContentInSecondColumn", "file2.png"]);

    assert!(row_filter.accepts(&record));
    assert!(!row_filter.accepts(&record2));
}

#[test]
fn operator_eq_method() {
    assert!(RowFilterOperator::EqualString.eq(&RowFilterOperator::EqualString));
}

#[test]
fn literal_keeps_later_equals_signs() {
    let f = RowFilter::new("IMAGE_NAME=a=b", &image_schema()).unwrap();
    assert_eq!(f.right_value, Some(String::from("a=b")));
    assert!(f.accepts(&StringRecord::from(vec!["x", "y", "a=b"])));
    assert!(!f.accepts(&StringRecord::from(vec!["x", "y", "a"])));
}

#[test]
fn empty_literal_matches_empty_field() {
    let f = RowFilter::new("SECOND=", &image_schema()).unwrap();
    assert_eq!(f.left_column, Some(1));
    assert!(f.accepts(&StringRecord::from(vec!["x", "", "z"])));
    assert!(!f.accepts(&StringRecord::from(vec!["x", "y", ""])));
}

#[test]
fn relational_tokens_are_literal_text() {
    let f = RowFilter::new("SECOND=<3", &image_schema()).unwrap();
    assert_eq!(f.right_value, Some(String::from("<3")));
}

#[test]
fn clause_without_operator_is_malformed() {
    let e = RowFilter::new("IMAGE_NAME<3", &image_schema()).unwrap_err();
    assert_eq!(e, QueryError::MalformedFilter(String::from("IMAGE_NAME<3")));
    assert_eq!(e.message(), "No operator for filter string IMAGE_NAME<3");
}

#[test]
fn clause_with_unknown_column_fails() {
    let e = RowFilter::new("OTHER=1", &image_schema()).unwrap_err();
    assert_eq!(e, QueryError::UnknownColumn(String::from("OTHER")));
    assert_eq!(e.message(), "Column not found: OTHER");
}

#[test]
fn short_row_is_rejected() {
    let f = RowFilter::new("IMAGE_NAME=file1.png", &image_schema()).unwrap();
    assert!(!f.accepts(&StringRecord::from(vec!["only"])));
}

#[test]
fn filter_set_is_a_conjunction() {
    let schema = image_schema();
    let fs = compile_filters("FIRST=a,IMAGE_NAME=file1.png", &schema).unwrap();
    assert_eq!(fs.len(), 2);
    let both = StringRecord::from(vec!["a", "b", "file1.png"]);
    let one = StringRecord::from(vec!["a", "b", "file2.png"]);
    let other = StringRecord::from(vec!["z", "b", "file1.png"]);
    assert!(fs[0].accepts(&one));
    assert!(!fs[1].accepts(&one));
    assert!(accepts_all(&fs, &both));
    assert!(!accepts_all(&fs, &one));
    assert!(!accepts_all(&fs, &other));
}

#[test]
fn filter_set_reports_first_failing_clause() {
    let schema = image_schema();
    let e = compile_filters("FIRST=a,bad,NOPE=1", &schema).unwrap_err();
    assert_eq!(e, QueryError::MalformedFilter(String::from("bad")));
    let e = compile_filters("NOPE=1,bad", &schema).unwrap_err();
    assert_eq!(e, QueryError::UnknownColumn(String::from("NOPE")));
}

#[test]
fn empty_filter_set_accepts_everything() {
    let fs: Vec<RowFilter> = Vec::new();
    assert!(accepts_all(&fs, &StringRecord::from(vec!["a"])));
}
