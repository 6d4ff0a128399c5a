use curseforge::tokenizer::parse_quoted_args;

fn args(line: &str) -> Vec<String> {
    parse_quoted_args(line)
}

#[test]
fn quoted_span_keeps_its_blanks() {
    assert_eq!(args("update -i \"123, 456\" -f"), vec!["update", "-i", "123, 456", "-f"]);
}

#[test]
fn unknown_escape_keeps_the_backslash() {
    assert_eq!(args("\"a\\qb\""), vec!["a\\qb"]);
}

#[test]
fn newline_escape_is_read() {
    assert_eq!(args("\"a\\nb\""), vec!["a\nb"]);
}

#[test]
fn every_known_escape_is_read() {
    assert_eq!(args("\"\\n\\t\\r\\\\\\\"\""), vec!["\n\t\r\\\""]);
}

#[test]
fn backslash_outside_quotes_is_literal() {
    assert_eq!(args("a\\nb c"), vec!["a\\nb", "c"]);
}

#[test]
fn runs_of_white_space_separate_once() {
    assert_eq!(args("  get \t -i\u{a0}7  "), vec!["get", "-i", "7"]);
}

#[test]
fn blank_line_has_no_arguments() {
    assert!(args("").is_empty());
    assert!(args("   \t ").is_empty());
}

#[test]
fn empty_quotes_make_no_argument() {
    assert!(args("\"\"").is_empty());
    assert_eq!(args("a \"\" b"), vec!["a", "b"]);
}

#[test]
fn quotes_join_with_their_neighbours() {
    assert_eq!(args("ab\"c d\"ef g"), vec!["abc def", "g"]);
}

#[test]
fn unclosed_quote_runs_to_the_end() {
    assert_eq!(args("search -f \"cell frames"), vec!["search", "-f", "cell frames"]);
}

#[test]
fn backslash_at_the_end_inside_quotes_is_dropped() {
    assert_eq!(args("\"abc\\"), vec!["abc"]);
}

#[test]
fn splitting_composes_at_white_space() {
    let head = "get \"a b\"";
    let tail = "-i \"1, 2\"";
    let mut both = args(head);
    both.extend(args(tail));
    assert_eq!(args(&format!("{} {}", head, tail)), both);
}
