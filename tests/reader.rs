use rustql::reader::continued_line;

#[test]
fn backslash_before_newline_continues() {
    assert_eq!(continued_line("SELECT a \\\n"), Some("SELECT a "));
    assert_eq!(continued_line("\\\n"), Some(""));
}

#[test]
fn other_lines_end_the_statement() {
    assert_eq!(continued_line("SELECT a\n"), None);
    assert_eq!(continued_line("SELECT a\\"), None);
    assert_eq!(continued_line("\n"), None);
    assert_eq!(continued_line(""), None);
}
