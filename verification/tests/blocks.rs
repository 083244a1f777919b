use graphql_vtab::blocks::is_parsed_safely;
use graphql_vtab::error::QueryError;
use graphql_vtab::query::parse;

fn with_block(content: &str) -> String {
    format!("query Q {{ a(x: \"\"\"{}\"\"\") {{ b }} }}", content)
}

fn analysed(text: &str) -> bool {
    assert!(is_parsed_safely(text));
    let details = parse(text).unwrap();
    details.results.len() == 1 && details.results[0].to_string() == "b"
}

fn refused(text: &str) -> bool {
    !is_parsed_safely(text) && parse(text).err() == Some(QueryError::BlockIndent)
}

#[test]
fn text_without_a_block_string_is_safe() {
    assert!(is_parsed_safely(""));
    assert!(is_parsed_safely("query Q { a { b } }"));
    assert!(is_parsed_safely("\u{3000}\u{a0} anything \u{2003}"));
    assert!(is_parsed_safely("query Q { a(x: \"\u{2003}\") }"));
    assert!(is_parsed_safely("\"\"\""));
    assert!(is_parsed_safely("\"\"\"\n a\n\u{2003}\n b"));
}

#[test]
fn block_string_indented_with_ascii_is_unquoted() {
    assert!(analysed(&with_block("")));
    assert!(analysed(&with_block("one line")));
    assert!(analysed(&with_block("\n  plain\n    more\n\t\n  last\n")));
    assert!(analysed(&with_block("\r\n  plain\r\n\r\n  more\r\n")));
    assert!(analysed(&with_block("\n  caf\u{e9} \u{4e16}\u{754c}\n  b\u{3000}c\n")));
}

#[test]
fn cut_between_characters_is_unquoted() {
    assert!(analysed(&with_block("\n\u{3000}a\n\u{3000}b\n")));
    assert!(analysed(&with_block("\n\u{a0}\u{a0}a\n\u{a0}\u{a0}\u{a0}b\n")));
    assert!(analysed(&with_block("\n \u{2003}a\n \u{2003} b\n \u{2003}\u{2003}\n \u{2003}c")));
    assert!(analysed(&with_block("\n\u{a0}a\n\u{a0}\u{a0}b\n")));
    assert!(analysed(&with_block("\nx\u{3000}y\n\u{3000}z\n")));
}

#[test]
fn line_of_white_space_outside_the_text_lines_is_not_cut() {
    assert!(analysed(&with_block("\n\u{3000}\u{3000}\n  a\n")));
    assert!(analysed(&with_block("\n a\n b\n\u{2003}\n")));
    assert!(analysed(&with_block("\u{2003}\n\u{2003}\n a\n  b\n\u{2003}\n\u{a0}")));
    assert!(analysed(&with_block("\n\u{2003}\n\u{a0}\n")));
}

#[test]
fn first_line_is_never_cut() {
    assert!(analysed(&with_block("abc\n\u{3000}\n")));
    assert!(analysed(&with_block("\u{3000}abc\n  b")));
    assert!(analysed(&with_block("\u{3000}abc\n\u{2003}\n")));
    assert!(analysed(&with_block("x\u{3000}y\n z")));
}

#[test]
fn short_line_of_white_space_is_not_cut() {
    assert!(analysed(&with_block("\n   a\n\u{2003}\n   b\n")));
    assert!(analysed(&with_block("\n    a\n\u{2003}\n    b\n")));
    assert!(analysed(&with_block("\n   a\n\u{a0}\n   b\n")));
    assert!(analysed(&with_block("\n  a\n\u{a0}\n  b\n")));
}

#[test]
fn cut_inside_a_character_is_refused() {
    assert!(refused(&with_block("\n b\n\u{2003}\n c\n")));
    assert!(refused(&with_block("\n\u{3000}x\n y\n")));
    assert!(refused(&with_block("\n  a\n\u{2003}\n  b\n")));
    assert!(refused(&with_block("\n a\n\u{a0}b\n")));
    assert!(refused(&with_block("\n a\n\u{a0}\n b\n")));
    assert!(refused(&with_block("first\n\u{1680}a\n\u{2028}\u{2028}b\n c")));
    assert!(refused(&with_block("\n \u{205f}a\n  b\n")));
    assert!(refused(&with_block("\n\t\u{202f}a\n\t b\n\t  c\n")));
}

#[test]
fn every_block_string_is_looked_at() {
    let text = "query Q { a(x: \"\"\"\n fine\n\"\"\", y: \"\"\"\n b\n\u{2003}\n c\"\"\") { b } }";
    assert!(refused(text));
    let text = "query Q { a(x: \"\"\"\n fine\n\"\"\", y: \"\"\"\n b\n \n c\"\"\") { b } }";
    assert!(analysed(text));
}

#[test]
fn quotes_in_comments_and_strings_open_no_block_string() {
    let text = "query Q { # \"\"\"\n a(x: \"\u{2003}\") # \u{2003} \"\"\"\n { b } }";
    assert!(analysed(text));
    let text = "query Q { a(x: \"q \\\"\\\"\\\" \u{2003}\", y: \"\\\\\") { b } } # \"\"\"\n#\u{2003}\n";
    assert!(analysed(text));
    let text = "# \"\"\"\r a\n\u{2003}\nquery Q { a { b } }";
    assert!(is_parsed_safely(text));
}

#[test]
fn escaped_quotes_do_not_close_a_block_string() {
    let text = with_block("\n a \\\"\"\" b\n\u{2003}\n c\n");
    assert!(refused(&text));
    let text = with_block("\n a \\\"\"\" b\n \n c\n");
    assert!(analysed(&text));
}
