use csv::StringRecord;
use csvpeek::filter::QueryError;
use csvpeek::info::info_report;
use csvpeek::query::{resolve_projection, Query};
use csvpeek::schema::Schema;
use csvpeek::stream::{RowAction, RowStream};
use csvpeek::text::{join_with, split_clause, split_on};

fn abc() -> Schema {
    Schema::from_record(&StringRecord::from(vec!["a", "b", "c"]))
}

fn run(query: &Query, offset: u32, limit: u32, rows: &[StringRecord]) -> Vec<RowAction> {
    let mut stream = RowStream::new(offset, limit);
    let mut out = Vec::new();
    for row in rows {
        if stream.is_done() {
            break;
        }
        out.push(stream.step(query, row));
    }
    out
}

fn numbered(n: usize) -> Vec<StringRecord> {
    (1..=n)
        .map(|i| StringRecord::from(vec![i.to_string(), format!("r{}", i), (i % 2).to_string()]))
        .collect()
}

fn emitted(actions: &[RowAction]) -> Vec<Option<String>> {
    actions
        .iter()
        .filter_map(|a| match a {
            RowAction::Emit(l) => Some(l.clone()),
            _ => None,
        })
        .collect()
}

#[test]
fn split_on_keeps_empty_pieces() {
    assert_eq!(split_on("a,,b,", ','), vec!["a", "", "b", ""]);
    assert_eq!(split_on("", ','), vec![""]);
    assert_eq!(split_on("abc", ','), vec!["abc"]);
}

#[test]
fn split_clause_cuts_at_first_equals() {
    assert_eq!(split_clause("k=v=w"), Some((String::from("k"), String::from("v=w"))));
    assert_eq!(split_clause("=v"), Some((String::from(""), String::from("v"))));
    assert_eq!(split_clause("kv"), None);
}

#[test]
fn join_with_separator() {
    let v = vec![String::from("c"), String::from("a")];
    assert_eq!(join_with(&v, ","), "c,a");
    assert_eq!(join_with(&Vec::new(), ","), "");
}

#[test]
fn schema_resolves_first_duplicate() {
    let s = Schema::from_record(&StringRecord::from(vec!["x", "y", "x"]));
    assert_eq!(s.column_count(), 3);
    assert_eq!(s.resolve("x"), Some(0));
    assert_eq!(s.resolve("y"), Some(1));
    assert_eq!(s.resolve("z"), None);
    assert_eq!(s.name(2), "x");
}

#[test]
fn projection_follows_listed_order() {
    let schema = abc();
    assert_eq!(resolve_projection("c,a", &schema).unwrap(), vec![2, 0]);
    assert_eq!(resolve_projection("b,b", &schema).unwrap(), vec![1, 1]);
    let q = Query::compile(&schema, Some("c,a"), None).unwrap();
    assert_eq!(q.header_line(), Some(String::from("c,a")));
    let row = StringRecord::from(vec!["1", "2", "3"]);
    assert_eq!(q.row_line(&row), Some(String::from("3,1")));
}

#[test]
fn projection_of_missing_field_is_empty() {
    let q = Query::compile(&abc(), Some("a,c"), None).unwrap();
    assert_eq!(q.row_line(&StringRecord::from(vec!["1"])), Some(String::from("1,")));
}

#[test]
fn no_projection_prints_records_whole() {
    let q = Query::compile(&abc(), None, None).unwrap();
    assert_eq!(q.header_line(), None);
    assert_eq!(q.row_line(&StringRecord::from(vec!["1", "2", "3"])), None);
}

#[test]
fn unknown_projection_column_fails_compile() {
    let e = Query::compile(&abc(), Some("a,zz,yy"), Some("a=1")).err().unwrap();
    assert_eq!(e, QueryError::UnknownColumn(String::from("zz")));
}

#[test]
fn unknown_filter_column_fails_compile() {
    let e = Query::compile(&abc(), Some("a"), Some("a=1,zz=2")).err().unwrap();
    assert_eq!(e, QueryError::UnknownColumn(String::from("zz")));
    let e = Query::compile(&abc(), None, Some("a")).err().unwrap();
    assert_eq!(e, QueryError::MalformedFilter(String::from("a")));
}

#[test]
fn offset_and_limit_select_rows_six_to_fifteen() {
    let rows = numbered(100);
    let q = Query::compile(&abc(), Some("a"), None).unwrap();
    let out = run(&q, 5, 10, &rows);
    assert_eq!(out.len(), 15);
    assert!(out[..5].iter().all(|a| *a == RowAction::Skip));
    let lines = emitted(&out);
    let expected: Vec<Option<String>> = (6..=15).map(|i| Some(i.to_string())).collect();
    assert_eq!(lines, expected);
}

#[test]
fn zero_limit_reads_no_row() {
    let stream = RowStream::new(0, 0);
    assert!(stream.is_done());
    let q = Query::compile(&abc(), None, Some("a=1")).unwrap();
    assert!(run(&q, 3, 0, &numbered(10)).is_empty());
}

#[test]
fn offset_applies_before_filters() {
    let rows = numbered(10);
    let q = Query::compile(&abc(), Some("a"), Some("c=1")).unwrap();
    let out = run(&q, 2, 3, &rows);
    assert_eq!(out[0], RowAction::Skip);
    assert_eq!(out[1], RowAction::Skip);
    assert_eq!(out[2], RowAction::Emit(Some(String::from("3"))));
    assert_eq!(out[3], RowAction::Reject);
    assert_eq!(
        emitted(&out),
        vec![Some(String::from("3")), Some(String::from("5")), Some(String::from("7"))]
    );
    assert_eq!(out.len(), 7);
}

#[test]
fn stream_ends_with_the_rows() {
    let q = Query::compile(&abc(), None, None).unwrap();
    let out = run(&q, 0, 10, &numbered(3));
    assert_eq!(out, vec![RowAction::Emit(None), RowAction::Emit(None), RowAction::Emit(None)]);
}

#[test]
fn same_query_twice_gives_same_output() {
    let rows = numbered(40);
    let q1 = Query::compile(&abc(), Some("c,b"), Some("c=0")).unwrap();
    let q2 = Query::compile(&abc(), Some("c,b"), Some("c=0")).unwrap();
    assert_eq!(q1.header_line(), q2.header_line());
    assert_eq!(run(&q1, 3, 7, &rows), run(&q2, 3, 7, &rows));
}

#[test]
fn info_report_lists_headers_and_counts() {
    let lines = info_report(&StringRecord::from(vec!["a", "b", "c"]), 100);
    assert_eq!(
        lines,
        vec!["a", "b", "c", "Number of columns: 3", "Number of rows: 100"]
    );
    let lines = info_report(&StringRecord::from(Vec::<String>::new()), 0);
    assert_eq!(lines, vec!["Number of columns: 0", "Number of rows: 0"]);
}
