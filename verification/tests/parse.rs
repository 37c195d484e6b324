use minishell::parse_args;

#[test]
fn should_parse_single_quotes() {
    assert_eq!(vec!["abc", " def ghi"], parse_args("'abc' def ghi"));
    assert_eq!(
        vec!["world test example hello"],
        parse_args("world     test example hello")
    );
}

#[test]
fn empty_and_blank_lines_yield_no_tokens() {
    assert_eq!(parse_args(""), Vec::<String>::new());
    assert_eq!(parse_args("   "), Vec::<String>::new());
}

#[test]
fn interior_spaces_collapse_to_one() {
    assert_eq!(vec!["a b"], parse_args("a  b"));
    assert_eq!(vec!["a b c"], parse_args("a b      c"));
}

#[test]
fn leading_and_trailing_spaces_are_dropped() {
    assert_eq!(vec!["ab"], parse_args("  ab"));
    assert_eq!(vec!["ab"], parse_args("ab   "));
}

#[test]
fn quote_spans_are_verbatim() {
    assert_eq!(vec!["b  c", ""], parse_args("'b  c'"));
    assert_eq!(vec!["a", "b c", " d"], parse_args("a 'b c' d"));
    assert_eq!(vec!["a", ""], parse_args("'a'"));
    assert_eq!(vec!["", ""], parse_args("''"));
}

#[test]
fn unterminated_quote_runs_to_end_of_line() {
    assert_eq!(vec!["b  c d"], parse_args("'b  c d"));
}
