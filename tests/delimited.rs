use etl_pipeline::{parse_delimited, split_bytes, EtlError};

fn fields(values: &[&str]) -> Vec<Vec<u8>> {
    values.iter().map(|v| v.as_bytes().to_vec()).collect()
}

#[test]
fn split_keeps_empty_pieces() {
    let s = b",a,,b,";
    assert_eq!(split_bytes(s, s.len(), b','), fields(&["", "a", "", "b", ""]));
    assert_eq!(split_bytes(s, 0, b','), fields(&[""]));
    assert_eq!(split_bytes(s, 2, b','), fields(&["", "a"]));
}

#[test]
fn parse_header_and_rows() {
    let d = parse_delimited(b"a,b,c\r\n1,2,3\r\n\r\n4,5,6").unwrap();
    assert_eq!(d.header, fields(&["a", "b", "c"]));
    assert_eq!(d.rows, vec![fields(&["1", "2", "3"]), fields(&["4", "5", "6"])]);
}

#[test]
fn parse_header_only() {
    let d = parse_delimited(b"dummy content").unwrap();
    assert_eq!(d.header, fields(&["dummy content"]));
    assert!(d.rows.is_empty());
}

#[test]
fn parse_blank_text_has_no_header() {
    assert!(matches!(parse_delimited(b"\n\r\n\n"), Err(EtlError::MissingHeader)));
}

#[test]
fn parse_reports_first_bad_record() {
    let r = parse_delimited(b"a,b\n1,2\n1,2,3\n4\n");
    assert!(matches!(r, Err(EtlError::RowWidth { record: 2, expected: 2, found: 3 })));
}
