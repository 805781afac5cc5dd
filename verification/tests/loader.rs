use secret_santa::loader::{parse_participants, split_str, LoadError};

#[test]
fn parses_two_records() {
    let ps = parse_participants("name,email\nAlice,alice@x\nBob,bob@x\n").unwrap();
    assert_eq!(ps.len(), 2);
    assert_eq!(ps[0].name, "Alice");
    assert_eq!(ps[0].email, "alice@x");
    assert_eq!(ps[1].name, "Bob");
    assert_eq!(ps[1].email, "bob@x");
}

#[test]
fn parses_without_trailing_newline() {
    let ps = parse_participants("name,email\nAlice,alice@x").unwrap();
    assert_eq!(ps.len(), 1);
    assert_eq!(ps[0].name, "Alice");
}

#[test]
fn parses_crlf_line_endings() {
    let ps = parse_participants("name,email\r\nAlice,alice@x\r\n").unwrap();
    assert_eq!(ps.len(), 1);
    assert_eq!(ps[0].name, "Alice");
    assert_eq!(ps[0].email, "alice@x");
}

#[test]
fn reversed_columns_swap_fields() {
    let ps = parse_participants("email,name\nalice@x,Alice\n").unwrap();
    assert_eq!(ps.len(), 1);
    assert_eq!(ps[0].name, "Alice");
    assert_eq!(ps[0].email, "alice@x");
}

#[test]
fn empty_file_no_participants() {
    let ps = parse_participants("").unwrap();
    assert_eq!(ps.len(), 0);
}

#[test]
fn header_only_no_participants() {
    let ps = parse_participants("name,email\n").unwrap();
    assert_eq!(ps.len(), 0);
}

#[test]
fn wrong_header_is_rejected() {
    let r = parse_participants("nome,email\nAlice,alice@x\n");
    assert_eq!(r.unwrap_err(), LoadError::InvalidHeader);
}

#[test]
fn three_field_row_is_rejected() {
    let r = parse_participants("name,email\nAlice,alice@x,extra\n");
    assert_eq!(r.unwrap_err(), LoadError::InvalidRow);
}

#[test]
fn one_field_row_is_rejected() {
    let r = parse_participants("name,email\nAlice\n");
    assert_eq!(r.unwrap_err(), LoadError::InvalidRow);
}

#[test]
fn split_keeps_empty_pieces() {
    let r = split_str("a,b,,c", ',');
    assert_eq!(r, vec!["a", "b", "", "c"]);
}

#[test]
fn split_of_empty_is_one_empty_piece() {
    let r = split_str("", ',');
    assert_eq!(r, vec![""]);
}
