use etl_pipeline::{
    load, query_create, query_delete, query_read, query_update, render, Database, ErrorKind,
    EtlError,
};

fn cell(s: &str) -> Vec<u8> {
    s.as_bytes().to_vec()
}

fn row(values: &[&str]) -> Vec<Vec<u8>> {
    values.iter().map(|v| cell(v)).collect()
}

fn populated() -> Database {
    let mut db = Database::new();
    let text = b"name,dept,age\nann,sales,30\nbob,hr,41\ncid,sales,25\n";
    assert_eq!(load(&mut db, text).unwrap(), 3);
    db
}

fn all_rows(db: &Database) -> Vec<Vec<Vec<u8>>> {
    query_read(db, usize::MAX).unwrap()
}

#[test]
fn test_load() {
    let mut db = Database::new();
    let result = load(&mut db, b"dummy content");
    assert!(result.is_ok(), "Load failed: {:?}", result);
    assert_eq!(result.unwrap(), 0);
    assert!(db.has_table());
}

#[test]
fn test_create() {
    let mut db = populated();
    let result = query_create(&mut db, row(&["dee", "it", "52"]));
    assert!(result.is_ok(), "Create failed: {:?}", result);
    assert_eq!(result.unwrap(), 3);
    let rows = all_rows(&db);
    assert_eq!(rows.len(), 4);
    assert_eq!(rows[3], row(&["dee", "it", "52"]));
}

#[test]
fn test_read() {
    let db = populated();
    let result = query_read(&db, 2);
    assert!(result.is_ok(), "Read failed: {:?}", result);
    assert_eq!(result.unwrap(), vec![row(&["ann", "sales", "30"]), row(&["bob", "hr", "41"])]);
}

#[test]
fn test_update() {
    let mut db = populated();
    let result = query_update(&mut db, b"dept", b"sales", b"ops");
    assert!(result.is_ok(), "Update failed: {:?}", result);
    assert_eq!(result.unwrap(), 2);
    let rows = all_rows(&db);
    assert_eq!(rows[0], row(&["ann", "ops", "30"]));
    assert_eq!(rows[1], row(&["bob", "hr", "41"]));
    assert_eq!(rows[2], row(&["cid", "ops", "25"]));
}

#[test]
fn test_delete() {
    let mut db = populated();
    let result = query_delete(&mut db, b"dept", b"sales");
    assert!(result.is_ok(), "Delete failed: {:?}", result);
    assert_eq!(result.unwrap(), 2);
    assert_eq!(all_rows(&db), vec![row(&["bob", "hr", "41"])]);
}

#[test]
fn load_one_row_into_three_columns() {
    let mut db = Database::new();
    assert_eq!(load(&mut db, b"a,b,c\n1,2,3\n").unwrap(), 1);
    assert_eq!(all_rows(&db), vec![row(&["1", "2", "3"])]);
    // the header named the columns: a predicate on column b finds the row
    assert_eq!(query_update(&mut db, b"b", b"2", b"9").unwrap(), 1);
    assert_eq!(all_rows(&db), vec![row(&["1", "9", "3"])]);
}

#[test]
fn load_twice_keeps_duplicate_rows() {
    let mut db = Database::new();
    let text = b"a,b,c\n1,2,3\n";
    assert_eq!(load(&mut db, text).unwrap(), 1);
    assert_eq!(load(&mut db, text).unwrap(), 1);
    assert_eq!(all_rows(&db), vec![row(&["1", "2", "3"]), row(&["1", "2", "3"])]);
}

#[test]
fn load_appends_after_existing_rows() {
    let mut db = populated();
    assert_eq!(load(&mut db, b"name,dept,age\neve,it,33\n").unwrap(), 1);
    assert_eq!(all_rows(&db).len(), 4);
    assert_eq!(all_rows(&db)[3], row(&["eve", "it", "33"]));
}

#[test]
fn load_with_other_header_is_refused() {
    let mut db = populated();
    let err = load(&mut db, b"x,y\n1,2\n").unwrap_err();
    assert!(matches!(err, EtlError::SchemaMismatch));
    assert_eq!(err.kind(), ErrorKind::Storage);
    assert_eq!(all_rows(&db).len(), 3);
}

#[test]
fn load_of_malformed_text_changes_nothing() {
    let mut db = Database::new();
    let err = load(&mut db, b"a,b\n1,2\n3\n").unwrap_err();
    assert!(matches!(err, EtlError::RowWidth { record: 2, expected: 2, found: 1 }));
    assert_eq!(err.kind(), ErrorKind::Parse);
    assert!(!db.has_table());
    let err = load(&mut db, b"").unwrap_err();
    assert!(matches!(err, EtlError::MissingHeader));
    assert!(!db.has_table());
}

#[test]
fn queries_before_any_load_are_storage_errors() {
    let mut db = Database::new();
    let errors = vec![
        query_create(&mut db, row(&["1"])).unwrap_err(),
        query_read(&db, 5).unwrap_err(),
        query_update(&mut db, b"a", b"1", b"2").unwrap_err(),
        query_delete(&mut db, b"a", b"1").unwrap_err(),
    ];
    for e in errors {
        assert!(matches!(e, EtlError::NoSuchTable));
        assert_eq!(e.kind(), ErrorKind::Storage);
    }
    assert!(!db.has_table());
}

#[test]
fn create_with_wrong_value_count_is_refused() {
    let mut db = populated();
    let err = query_create(&mut db, row(&["x", "y"])).unwrap_err();
    assert!(matches!(err, EtlError::ValueCount { expected: 3, found: 2 }));
    assert_eq!(all_rows(&db).len(), 3);
}

#[test]
fn update_and_delete_with_no_match_succeed() {
    let mut db = populated();
    assert_eq!(query_update(&mut db, b"dept", b"legal", b"x").unwrap(), 0);
    assert_eq!(query_delete(&mut db, b"dept", b"legal").unwrap(), 0);
    assert_eq!(all_rows(&db).len(), 3);
}

#[test]
fn unknown_column_is_a_storage_error() {
    let mut db = populated();
    let err = query_update(&mut db, b"salary", b"1", b"2").unwrap_err();
    assert!(matches!(err, EtlError::NoSuchColumn));
    assert_eq!(err.kind(), ErrorKind::Storage);
    let err = query_delete(&mut db, b"salary", b"1").unwrap_err();
    assert!(matches!(err, EtlError::NoSuchColumn));
}

#[test]
fn read_limit_larger_than_table() {
    let db = populated();
    assert_eq!(query_read(&db, 10).unwrap().len(), 3);
    assert_eq!(query_read(&db, 0).unwrap().len(), 0);
}

#[test]
fn render_writes_header_then_rows() {
    let db = populated();
    let text = render(&db).unwrap();
    assert_eq!(text, b"name,dept,age\nann,sales,30\nbob,hr,41\ncid,sales,25\n".to_vec());
    assert!(render(&Database::new()).is_none());
}

#[test]
fn rendered_table_loads_back() {
    let mut db = populated();
    query_create(&mut db, row(&["dee", "", "52"])).unwrap();
    let text = render(&db).unwrap();
    let mut copy = Database::new();
    assert_eq!(load(&mut copy, &text).unwrap(), 4);
    assert_eq!(all_rows(&copy), all_rows(&db));
    assert_eq!(render(&copy).unwrap(), text);
}
