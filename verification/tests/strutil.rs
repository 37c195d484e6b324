use minishell::str_eq;
use minishell::strings::join_on;
use minishell::strings::split_on;

#[test]
fn str_eq_compares_by_characters() {
    assert!(str_eq("", ""));
    assert!(str_eq("abc", "abc"));
    assert!(!str_eq("abc", "abd"));
    assert!(!str_eq("abc", "ab"));
}

#[test]
fn split_keeps_empty_segments() {
    let parts = split_on("a:b:", ':');
    assert_eq!(parts, vec!["a", "b", ""]);
    assert_eq!(split_on("", ':'), vec![""]);
    assert_eq!(split_on("abc", ':'), vec!["abc"]);
}

#[test]
fn join_reverses_a_split_without_empties() {
    let parts = split_on("/usr/bin:/bin", ':');
    assert_eq!(join_on(&parts, ':'), "/usr/bin:/bin");
    assert_eq!(join_on(&Vec::new(), ':'), "");
}

#[test]
fn join_with_a_space_keeps_empty_parts_visible() {
    let parts = vec![String::from("a"), String::from("b c"), String::new()];
    assert_eq!(join_on(&parts, ' '), "a b c ");
}
