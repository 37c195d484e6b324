use minishell::shell::program_action;
use minishell::shell::resolve_first;
use minishell::shell::type_report;
use minishell::Action;
use minishell::Command;
use minishell::Shell;

fn run(shell: &Shell, line: &str) -> Action {
    shell.handle_line(line, "/home/user").expect("an action")
}

#[test]
fn classification_is_by_name() {
    assert_eq!(Command::from_name("exit"), Command::Exit);
    assert_eq!(Command::from_name("echo"), Command::Echo);
    assert_eq!(Command::from_name("type"), Command::Type);
    assert_eq!(Command::from_name("pwd"), Command::Pwd);
    assert_eq!(Command::from_name("ls"), Command::Ls);
    assert_eq!(Command::from_name("cd"), Command::Cd);
    assert_eq!(
        Command::from_name("grep"),
        Command::Program(String::from("grep"))
    );
    assert_eq!(Command::from_name("grep").name(), "grep");
    assert_eq!(Command::from_name("exit").name(), "exit");
}

#[test]
fn empty_line_asks_nothing() {
    let shell = Shell::new("/bin");
    assert_eq!(shell.handle_line("", "/home/user"), None);
    assert_eq!(shell.handle_line("   ", "/home/user"), None);
    assert_eq!(shell.handle_line(" leading space", "/home/user"), None);
}

#[test]
fn exit_terminates_regardless_of_arguments() {
    let shell = Shell::new("/bin");
    assert_eq!(run(&shell, "exit"), Action::Exit);
    assert_eq!(run(&shell, "exit now really"), Action::Exit);
    let bare = Shell::new("");
    assert_eq!(run(&bare, "exit"), Action::Exit);
}

#[test]
fn echo_prints_its_arguments_normalized() {
    let shell = Shell::new("/bin");
    assert_eq!(run(&shell, "echo"), Action::Print(String::new()));
    assert_eq!(run(&shell, "echo a  b"), Action::Print(String::from("a b")));
    assert_eq!(
        run(&shell, "echo 'hello   world"),
        Action::Print(String::from("hello   world"))
    );
}

#[test]
fn echo_joins_tokens_with_single_spaces() {
    let shell = Shell::new("/bin");
    assert_eq!(
        run(&shell, "echo a 'b c'"),
        Action::Print(String::from("a b c "))
    );
}

#[test]
fn trailing_blanks_on_the_argument_string_are_dropped() {
    let shell = Shell::new("/bin");
    assert_eq!(
        run(&shell, "echo a  b   "),
        Action::Print(String::from("a b"))
    );
    assert_eq!(run(&shell, "echo \t"), Action::Print(String::new()));
    assert_eq!(
        run(&shell, "echo a\u{000C}"),
        Action::Print(String::from("a"))
    );
}

#[test]
fn pwd_is_delegated() {
    let shell = Shell::new("/bin");
    assert_eq!(run(&shell, "pwd"), Action::Pwd);
}

#[test]
fn ls_prints_the_frozen_search_path() {
    let shell = Shell::new("/usr/bin:/bin");
    assert_eq!(shell.paths, vec!["/usr/bin", "/bin"]);
    assert_eq!(
        run(&shell, "ls"),
        Action::Print(String::from("/usr/bin:/bin"))
    );
}

#[test]
fn type_reports_builtins_whatever_the_path_holds() {
    for path in ["", "/bin:/usr/bin", "/nonexistent_dir_kjhg"] {
        let shell = Shell::new(path);
        for name in ["echo", "exit", "pwd", "cd", "type", "ls"] {
            assert_eq!(
                run(&shell, &format!("type {name}")),
                Action::Print(format!("{name} is a shell builtin"))
            );
        }
    }
}

#[test]
fn type_reports_the_path_display_command_as_a_builtin() {
    let shell = Shell::new("/nonexistent_dir_kjhg");
    assert_eq!(
        run(&shell, "type ls"),
        Action::Print(String::from("ls is a shell builtin"))
    );
}

#[test]
fn type_without_argument_is_a_usage_error() {
    let shell = Shell::new("/bin");
    assert_eq!(
        run(&shell, "type"),
        Action::PrintErr(String::from("type: missing argument"))
    );
}

#[test]
fn unknown_name_is_reported_by_type_and_by_dispatch() {
    let shell = Shell::new("/nonexistent_dir_kjhg:/nonexistent_dir_qwert");
    assert_eq!(
        run(&shell, "type nosuchcmd"),
        Action::Print(String::from("nosuchcmd: not found"))
    );
    assert_eq!(
        run(&shell, "nosuchcmd"),
        Action::Print(String::from("nosuchcmd: command not found"))
    );
}

#[test]
fn cd_carries_its_target_and_its_failure_message() {
    let shell = Shell::new("/bin");
    assert_eq!(
        run(&shell, "cd /no/such/path"),
        Action::Chdir {
            target: String::from("/no/such/path"),
            failure: String::from("cd: /no/such/path: No such file or directory"),
        }
    );
}

#[test]
fn cd_substitutes_home_for_a_tilde_prefix() {
    let shell = Shell::new("/bin");
    assert_eq!(
        run(&shell, "cd ~/src"),
        Action::Chdir {
            target: String::from("/home/user/src"),
            failure: String::from("cd: ~/src: No such file or directory"),
        }
    );
}

#[test]
fn type_report_formats_both_outcomes() {
    assert_eq!(
        type_report("foo", Some(String::from("/a/foo"))),
        Action::Print(String::from("foo is /a/foo"))
    );
    assert_eq!(
        type_report("foo", None),
        Action::Print(String::from("foo: not found"))
    );
}

#[test]
fn program_action_spawns_with_the_token_vector_or_reports() {
    assert_eq!(
        program_action("prog", "x y", true),
        Action::Spawn {
            prog: String::from("prog"),
            args: vec![String::from("x y")],
        }
    );
    assert_eq!(
        program_action("prog", "'b c'", true),
        Action::Spawn {
            prog: String::from("prog"),
            args: vec![String::from("b c"), String::new()],
        }
    );
    assert_eq!(
        program_action("prog", "", true),
        Action::Spawn {
            prog: String::from("prog"),
            args: Vec::new(),
        }
    );
    assert_eq!(
        program_action("prog", "x", false),
        Action::Print(String::from("prog: command not found"))
    );
}

#[test]
fn first_search_path_directory_wins() {
    let paths = vec![String::from("/a"), String::from("/b")];
    assert_eq!(
        resolve_first(&paths, "foo", &vec![true, true]),
        Some(String::from("/a/foo"))
    );
    assert_eq!(
        resolve_first(&paths, "foo", &vec![false, true]),
        Some(String::from("/b/foo"))
    );
    assert_eq!(resolve_first(&paths, "foo", &vec![false, false]), None);
}

#[test]
fn searching_an_empty_directory_list_finds_nothing() {
    let shell = Shell::new("/nonexistent_dir_kjhg");
    assert_eq!(shell.exec_in_path("nosuchcmd"), None);
}
