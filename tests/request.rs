use joiner::request::{parse_join_request, RequestError};

fn parts(line: &str) -> (String, String, String, String) {
    let q = parse_join_request(line).unwrap();
    (q.table1, q.column1, q.table2, q.column2)
}

fn owned(a: &str, b: &str, c: &str, d: &str) -> (String, String, String, String) {
    (a.to_string(), b.to_string(), c.to_string(), d.to_string())
}

#[test]
fn parses_plain_request() {
    assert_eq!(parts("Orders.cust_id = Customers.id\n"), owned("Orders", "cust_id", "Customers", "id"));
}

#[test]
fn parses_without_spaces_and_extra_dots() {
    assert_eq!(parts("  a.b=c.d.e "), owned("a", "b", "c", "d"));
}

#[test]
fn right_side_is_everything_after_first_equals() {
    assert_eq!(parts("a.b = c.d = e.f"), owned("a", "b", "c", "d = e"));
}

#[test]
fn trims_unicode_white_space() {
    assert_eq!(parts("\u{3000}a.b\t=\u{a0}c.d\u{2028}"), owned("a", "b", "c", "d"));
}

#[test]
fn empty_names_are_kept() {
    assert_eq!(parts(".=."), owned("", "", "", ""));
}

#[test]
fn missing_equals() {
    assert_eq!(parse_join_request("a.b c.d").unwrap_err(), RequestError::MissingEquals);
    assert_eq!(parse_join_request("").unwrap_err(), RequestError::MissingEquals);
}

#[test]
fn malformed_left() {
    assert_eq!(parse_join_request("a = b.c").unwrap_err(), RequestError::MalformedLeft);
    assert_eq!(parse_join_request("a = b").unwrap_err(), RequestError::MalformedLeft);
}

#[test]
fn malformed_right() {
    assert_eq!(parse_join_request("a.b = c").unwrap_err(), RequestError::MalformedRight);
}
