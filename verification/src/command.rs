//! Command classification: the fixed set of built-in kinds plus the
//! external variant that carries the literal command name. Classification
//! is a pure function of the name and says nothing about whether an
//! external executable exists.

use vstd::prelude::*;

verus! {

/// The classified command of one input line.
#[derive(Debug, Eq)]
pub enum Command {
    Exit,
    Echo,
    Type,
    Pwd,
    Ls,
    Cd,
    Program(String),
}

impl PartialEq for Command {
    fn eq(&self, other: &Command) -> (r: bool) {
        match (self, other) {
            (Command::Exit, Command::Exit) => true,
            (Command::Echo, Command::Echo) => true,
            (Command::Type, Command::Type) => true,
            (Command::Pwd, Command::Pwd) => true,
            (Command::Ls, Command::Ls) => true,
            (Command::Cd, Command::Cd) => true,
            (Command::Program(a), Command::Program(b)) => *a == *b,
            _ => false,
        }
    }
}

impl vstd::std_specs::cmp::PartialEqSpecImpl for Command {
    open spec fn obeys_eq_spec() -> bool {
        true
    }

    open spec fn eq_spec(&self, other: &Command) -> bool {
        match (self, other) {
            (Command::Exit, Command::Exit) => true,
            (Command::Echo, Command::Echo) => true,
            (Command::Type, Command::Type) => true,
            (Command::Pwd, Command::Pwd) => true,
            (Command::Ls, Command::Ls) => true,
            (Command::Cd, Command::Cd) => true,
            (Command::Program(a), Command::Program(b)) => a@ == b@,
            _ => false,
        }
    }
}

/// The names the shell answers for itself without spawning: the members
/// of its built-in set, the path-list display command among them.
pub open spec fn is_builtin_name(n: Seq<char>) -> bool {
    n == "echo"@ || n == "exit"@ || n == "pwd"@ || n == "cd"@ || n == "type"@ || n == "ls"@
}

/// What it means for `c` to be the classification of the name `n`.
pub open spec fn classified(n: Seq<char>, c: Command) -> bool {
    match c {
        Command::Exit => n == "exit"@,
        Command::Echo => n == "echo"@,
        Command::Type => n == "type"@,
        Command::Pwd => n == "pwd"@,
        Command::Ls => n == "ls"@,
        Command::Cd => n == "cd"@,
        Command::Program(p) => p@ == n && !is_builtin_name(n),
    }
}

/// The name a command prints as: its own name for a built-in kind, the
/// carried name for an external command.
pub open spec fn name_view(c: Command) -> Seq<char> {
    match c {
        Command::Exit => "exit"@,
        Command::Echo => "echo"@,
        Command::Type => "type"@,
        Command::Pwd => "pwd"@,
        Command::Ls => "ls"@,
        Command::Cd => "cd"@,
        Command::Program(p) => p@,
    }
}

/// Classification is decided by the name alone: each shell word forces
/// its own variant, any other name forces the external variant, and the
/// classified command is a member of the built-in set exactly when the
/// name is a built-in name.
pub proof fn lemma_classified_unique(n: Seq<char>, c: Command)
    requires
        classified(n, c),
    ensures
        n == "exit"@ ==> c == Command::Exit,
        n == "echo"@ ==> c == Command::Echo,
        n == "type"@ ==> c == Command::Type,
        n == "pwd"@ ==> c == Command::Pwd,
        n == "ls"@ ==> c == Command::Ls,
        n == "cd"@ ==> c == Command::Cd,
        !is_builtin_name(n) ==> (c matches Command::Program(p) && p@ == n),
        is_builtin_name(n) <==> (c == Command::Echo || c == Command::Exit || c == Command::Pwd
            || c == Command::Cd || c == Command::Type || c == Command::Ls),
{
    reveal_strlit("exit");
    reveal_strlit("echo");
    reveal_strlit("type");
    reveal_strlit("pwd");
    reveal_strlit("ls");
    reveal_strlit("cd");
    assert("exit"@.len() == 4 && "echo"@.len() == 4 && "type"@.len() == 4);
    assert("pwd"@.len() == 3 && "ls"@.len() == 2 && "cd"@.len() == 2);
    assert("exit"@[1] == 'x' && "echo"@[1] == 'c' && "type"@[1] == 'y');
    assert("ls"@[0] == 'l' && "cd"@[0] == 'c');
    assert("exit"@ != "echo"@ && "exit"@ != "type"@ && "exit"@ != "pwd"@ && "exit"@ != "ls"@
        && "exit"@ != "cd"@);
    assert("echo"@ != "type"@ && "echo"@ != "pwd"@ && "echo"@ != "ls"@ && "echo"@ != "cd"@);
    assert("type"@ != "pwd"@ && "type"@ != "ls"@ && "type"@ != "cd"@);
    assert("pwd"@ != "ls"@ && "pwd"@ != "cd"@);
    assert("ls"@ != "cd"@);
    match c {
        Command::Exit => {},
        Command::Echo => {},
        Command::Type => {},
        Command::Pwd => {},
        Command::Ls => {},
        Command::Cd => {},
        Command::Program(p) => {
            assert(!is_builtin_name(n));
        },
    }
}

impl Command {
    /// Classifies a command name. Total: every name not in the fixed set
    /// becomes an external command carrying that name.
    pub fn from_name(name: &str) -> (r: Command)
        ensures
            classified(name@, r),
    {
        proof {
            reveal_strlit("exit");
            reveal_strlit("echo");
            reveal_strlit("type");
            reveal_strlit("pwd");
            reveal_strlit("ls");
            reveal_strlit("cd");
        }
        if crate::strings::str_eq(name, "exit") {
            Command::Exit
        } else if crate::strings::str_eq(name, "echo") {
            Command::Echo
        } else if crate::strings::str_eq(name, "type") {
            Command::Type
        } else if crate::strings::str_eq(name, "pwd") {
            Command::Pwd
        } else if crate::strings::str_eq(name, "ls") {
            Command::Ls
        } else if crate::strings::str_eq(name, "cd") {
            Command::Cd
        } else {
            Command::Program(name.to_owned())
        }
    }

    /// The command's printable name.
    pub fn name(&self) -> (r: String)
        ensures
            r@ == name_view(*self),
    {
        match self {
            Command::Exit => "exit".to_owned(),
            Command::Echo => "echo".to_owned(),
            Command::Type => "type".to_owned(),
            Command::Pwd => "pwd".to_owned(),
            Command::Ls => "ls".to_owned(),
            Command::Cd => "cd".to_owned(),
            Command::Program(p) => p.clone(),
        }
    }
}

} // verus!
