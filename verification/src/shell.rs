//! The resolver and the dispatcher. One input line is split into a
//! command name and an argument string, the name is classified, and the
//! dispatcher answers with the `Action` the surrounding loop must take:
//! termination is a returned signal, not a call, and every message is
//! spelled out here, so the loop around the library only performs.

use vstd::prelude::*;

use crate::command::is_builtin_name;
use crate::command::lemma_classified_unique;
use crate::command::Command;
use crate::strings::first_at;
use crate::strings::join_char;
use crate::strings::join_on;
use crate::strings::lemma_first_at_is;
use crate::strings::split_char;
use crate::strings::split_on;
use crate::tokenizer::parse_args;
use crate::tokenizer::tokenize;

verus! {

/// What the loop around the shell must do with one input line. The
/// dispatcher never performs a side effect itself; it hands one of these
/// back, message texts included.
#[derive(Debug, PartialEq, Eq)]
pub enum Action {
    /// Terminate the process with status 0.
    Exit,
    /// Write the line to standard output.
    Print(String),
    /// Write the line to standard error.
    PrintErr(String),
    /// Print the current working directory, surfacing a failure of the
    /// underlying call.
    Pwd,
    /// Change the working directory to `target`; if that fails, print
    /// `failure` and carry on.
    Chdir { target: String, failure: String },
    /// Run the named program with the given argument vector, streams
    /// inherited, and wait for it.
    Spawn { prog: String, args: Vec<String> },
}

/// The mathematical value of an `Action`.
pub ghost enum ActionModel {
    Exit,
    Print(Seq<char>),
    PrintErr(Seq<char>),
    Pwd,
    Chdir { target: Seq<char>, failure: Seq<char> },
    Spawn { prog: Seq<char>, args: Seq<Seq<char>> },
}

impl View for Action {
    type V = ActionModel;

    open spec fn view(&self) -> ActionModel {
        match self {
            Action::Exit => ActionModel::Exit,
            Action::Print(s) => ActionModel::Print(s@),
            Action::PrintErr(s) => ActionModel::PrintErr(s@),
            Action::Pwd => ActionModel::Pwd,
            Action::Chdir { target, failure } => (ActionModel::Chdir {
                target: target@,
                failure: failure@,
            }),
            Action::Spawn { prog, args } => (ActionModel::Spawn {
                prog: prog@,
                args: args.deep_view(),
            }),
        }
    }
}

/// A directory joined with a file name, the way the resolver builds its
/// candidate paths.
pub open spec fn joined(dir: Seq<char>, prog: Seq<char>) -> Seq<char> {
    dir + seq!['/'] + prog
}

/// What `type` answers for a member of the built-in set.
pub open spec fn builtin_report(n: Seq<char>) -> Seq<char> {
    n + " is a shell builtin"@
}

/// What `type` answers for a name resolved to the path `p`.
pub open spec fn located_report(n: Seq<char>, p: Seq<char>) -> Seq<char> {
    n + " is "@ + p
}

/// What `type` answers for a name it cannot place.
pub open spec fn type_not_found(n: Seq<char>) -> Seq<char> {
    n + ": not found"@
}

/// What dispatching an unresolvable command name reports.
pub open spec fn not_found_msg(n: Seq<char>) -> Seq<char> {
    n + ": command not found"@
}

/// What a failed directory change reports.
pub open spec fn cd_fail_msg(a: Seq<char>) -> Seq<char> {
    "cd: "@ + a + ": No such file or directory"@
}

/// What `type` without an argument reports on standard error.
pub open spec fn type_usage_msg() -> Seq<char> {
    "type: missing argument"@
}

/// Where `cd` goes: an argument that starts with `~` has that prefix
/// replaced by the home directory; any other argument is taken as it is.
pub open spec fn cd_target(a: Seq<char>, home: Seq<char>) -> Seq<char> {
    if a.len() > 0 && a[0] == '~' {
        home + a.skip(1)
    } else {
        a
    }
}

/// The resolution of `prog` against the search path, given for each
/// directory whether it holds an executable file of that name: the first
/// directory with a hit gives the joined path; no hit gives nothing.
pub open spec fn resolve_model(
    paths: Seq<Seq<char>>,
    prog: Seq<char>,
    present: Seq<bool>,
) -> Option<Seq<char>>
    decreases paths.len(),
{
    if paths.len() == 0 || present.len() == 0 {
        None
    } else if present[0] {
        Some(joined(paths[0], prog))
    } else {
        resolve_model(paths.drop_first(), prog, present.drop_first())
    }
}

/// What `type` answers once the search path has spoken.
pub open spec fn type_report_model(n: Seq<char>, resolution: Option<Seq<char>>) -> ActionModel {
    match resolution {
        Some(p) => ActionModel::Print(located_report(n, p)),
        None => ActionModel::Print(type_not_found(n)),
    }
}

/// What dispatching an external command does once the search path has
/// spoken: spawn it, with the token sequence of its argument string as
/// the argument vector, if some directory holds it; else report it.
pub open spec fn program_model(prog: Seq<char>, args: Seq<char>, resolved: bool) -> ActionModel {
    if resolved {
        ActionModel::Spawn { prog, args: tokenize(args) }
    } else {
        ActionModel::Print(not_found_msg(prog))
    }
}

/// Search order: the first search-path directory that holds the name
/// decides the resolved path; a hit in an earlier directory shadows every
/// later one.
pub proof fn lemma_search_order(
    paths: Seq<Seq<char>>,
    prog: Seq<char>,
    present: Seq<bool>,
    i: int,
)
    requires
        present.len() == paths.len(),
        0 <= i < paths.len(),
        present[i],
        forall|k: int| 0 <= k < i ==> !present[k],
    ensures
        resolve_model(paths, prog, present) == Some(joined(paths[i], prog)),
    decreases i,
{
    if i == 0 {
    } else {
        assert(!present[0]);
        assert(present.drop_first()[i - 1] == present[i]);
        assert forall|k: int| 0 <= k < i - 1 implies !present.drop_first()[k] by {
            assert(present.drop_first()[k] == present[k + 1]);
        }
        lemma_search_order(paths.drop_first(), prog, present.drop_first(), i - 1);
        assert(paths.drop_first()[i - 1] == paths[i]);
    }
}

/// A name that no search-path directory holds resolves to nothing.
pub proof fn lemma_resolve_none(paths: Seq<Seq<char>>, prog: Seq<char>, present: Seq<bool>)
    requires
        present.len() == paths.len(),
        forall|k: int| 0 <= k < present.len() ==> !present[k],
    ensures
        resolve_model(paths, prog, present) is None,
    decreases paths.len(),
{
    if paths.len() > 0 {
        assert(!present[0]);
        assert forall|k: int| 0 <= k < present.drop_first().len() implies !present.drop_first()[k]
            by {
            assert(present.drop_first()[k] == present[k + 1]);
        }
        lemma_resolve_none(paths.drop_first(), prog, present.drop_first());
    }
}

/// Whatever resolution comes back, it is the join of some search-path
/// directory with the program's name.
pub proof fn lemma_resolve_some(paths: Seq<Seq<char>>, prog: Seq<char>, present: Seq<bool>)
    requires
        present.len() == paths.len(),
    ensures
        resolve_model(paths, prog, present) matches Some(p) ==> exists|i: int|
            0 <= i < paths.len() && present[i] && p == joined(paths[i], prog),
    decreases paths.len(),
{
    if paths.len() == 0 {
    } else if present[0] {
        assert(resolve_model(paths, prog, present) == Some(joined(paths[0], prog)));
    } else {
        lemma_resolve_some(paths.drop_first(), prog, present.drop_first());
        if resolve_model(paths, prog, present) is Some {
            let p = resolve_model(paths, prog, present)->Some_0;
            let i = choose|i: int|
                0 <= i < paths.drop_first().len() && present.drop_first()[i] && p == joined(
                    paths.drop_first()[i],
                    prog,
                );
            assert(paths.drop_first()[i] == paths[i + 1]);
            assert(present.drop_first()[i] == present[i + 1]);
            assert(0 <= i + 1 < paths.len() && present[i + 1] && p == joined(paths[i + 1], prog));
        }
    }
}

/// An unknown name: one that is no built-in and that no search-path
/// directory holds. `type` reports it "not found", and dispatching it as
/// a command reports "command not found"; neither resolves a path and
/// nothing is spawned.
pub proof fn lemma_unknown_name(
    paths: Seq<Seq<char>>,
    name: Seq<char>,
    args: Seq<char>,
    present: Seq<bool>,
)
    requires
        present.len() == paths.len(),
        forall|k: int| 0 <= k < present.len() ==> !present[k],
        !is_builtin_name(name),
    ensures
        resolve_model(paths, name, present) is None,
        type_report_model(name, resolve_model(paths, name, present)) == ActionModel::Print(
            name + ": not found"@,
        ),
        program_model(name, args, !(resolve_model(paths, name, present) is None))
            == ActionModel::Print(name + ": command not found"@),
{
    lemma_resolve_none(paths, name, present);
}

/// Joins a directory and a file name with the path separator.
pub fn join_path(dir: &str, prog: &str) -> (r: String)
    ensures
        r@ == joined(dir@, prog@),
{
    let mut r = dir.to_owned();
    r.push('/');
    r.append(prog);
    proof {
        assert(dir@.push('/') =~= dir@ + seq!['/']);
    }
    r
}

/// Picks the resolution of `prog` out of the per-directory answers:
/// the path joined from the first directory whose answer is a hit.
pub fn resolve_first(paths: &Vec<String>, prog: &str, present: &Vec<bool>) -> (r: Option<String>)
    requires
        present@.len() == paths@.len(),
    ensures
        r.deep_view() == resolve_model(paths.deep_view(), prog@, present@),
{
    let ghost dv = paths.deep_view();
    let mut i: usize = 0;
    proof {
        assert(dv.skip(0) =~= dv);
        assert(present@.skip(0) =~= present@);
    }
    while i < paths.len()
        invariant
            present@.len() == paths@.len(),
            dv == paths.deep_view(),
            dv.len() == paths@.len(),
            i <= paths@.len(),
            resolve_model(dv, prog@, present@) == resolve_model(
                dv.skip(i as int),
                prog@,
                present@.skip(i as int),
            ),
        decreases paths@.len() - i,
    {
        proof {
            assert(dv.skip(i as int)[0] == dv[i as int]);
            assert(present@.skip(i as int)[0] == present@[i as int]);
        }
        if present[i] {
            let p = join_path(paths[i].as_str(), prog);
            proof {
                assert(resolve_model(dv.skip(i as int), prog@, present@.skip(i as int)) == Some(
                    joined(dv[i as int], prog@),
                ));
            }
            return Some(p);
        }
        proof {
            assert(dv.skip(i as int).drop_first() =~= dv.skip(i + 1));
            assert(present@.skip(i as int).drop_first() =~= present@.skip(i + 1));
        }
        i = i + 1;
    }
    proof {
        assert(dv.skip(i as int).len() == 0);
    }
    None
}

/// Relies on std::path's `Path::is_file`: true exactly when `p` names an
/// existing regular file at the moment of the call. The answer depends on
/// the filesystem, so nothing is promised of it.
#[verifier::external_body]
fn path_is_file(p: &str) -> bool {
    std::path::Path::new(p).is_file()
}

/// What `type` answers once the search path has spoken: the resolved
/// path if some directory held the name, else that the name is not found.
pub fn type_report(name: &str, resolution: Option<String>) -> (r: Action)
    ensures
        r@ == type_report_model(name@, resolution.deep_view()),
{
    match resolution {
        Some(p) => {
            let mut m = name.to_owned();
            m.append(" is ");
            m.append(p.as_str());
            Action::Print(m)
        },
        None => {
            let mut m = name.to_owned();
            m.append(": not found");
            Action::Print(m)
        },
    }
}

/// What dispatching an external command comes to once the search path
/// has spoken: spawn the program under its own name, with the tokens of
/// its argument string as the argument vector, if some directory held it;
/// else report that the command is not found.
pub fn program_action(prog: &str, args: &str, resolved: bool) -> (r: Action)
    ensures
        r@ == program_model(prog@, args@, resolved),
{
    if resolved {
        let sp = parse_args(args);
        Action::Spawn { prog: prog.to_owned(), args: sp }
    } else {
        let mut m = prog.to_owned();
        m.append(": command not found");
        Action::Print(m)
    }
}

/// The shell's frozen configuration: the set of names it answers for
/// itself, and the ordered search path, both fixed at startup.
pub struct Shell {
    pub builtins: Vec<Command>,
    pub paths: Vec<String>,
}

impl Shell {
    /// The built-in set the shell was constructed with.
    pub open spec fn wf(&self) -> bool {
        self.builtins@ == seq![
            Command::Echo,
            Command::Exit,
            Command::Pwd,
            Command::Cd,
            Command::Type,
            Command::Ls,
        ]
    }

    /// Builds the shell from the search-path variable's value: the
    /// directories are its separator-split segments, in order.
    pub fn new(path: &str) -> (s: Shell)
        ensures
            s.wf(),
            s.paths.deep_view() == split_char(path@, ':'),
    {
        let mut builtins: Vec<Command> = Vec::new();
        builtins.push(Command::Echo);
        builtins.push(Command::Exit);
        builtins.push(Command::Pwd);
        builtins.push(Command::Cd);
        builtins.push(Command::Type);
        builtins.push(Command::Ls);
        let paths = split_on(path, ':');
        proof {
            assert(builtins@ =~= seq![
                Command::Echo,
                Command::Exit,
                Command::Pwd,
                Command::Cd,
                Command::Type,
                Command::Ls,
            ]);
        }
        Shell { builtins, paths }
    }

    /// Membership of a classified command in the built-in set.
    fn is_builtin(&self, c: &Command) -> (r: bool)
        requires
            self.wf(),
        ensures
            r == (*c == Command::Echo || *c == Command::Exit || *c == Command::Pwd || *c
                == Command::Cd || *c == Command::Type || *c == Command::Ls),
    {
        let mut i: usize = 0;
        let ghost bs = self.builtins@;
        while i < self.builtins.len()
            invariant
                self.wf(),
                bs == self.builtins@,
                i <= bs.len(),
                forall|k: int| 0 <= k < i ==> bs[k] != *c,
            decreases bs.len() - i,
        {
            if self.builtins[i] == *c {
                proof {
                    assert(bs[i as int] == *c);
                }
                return true;
            }
            i = i + 1;
        }
        false
    }

    /// Searches the path, in order, for an executable file named `prog`.
    /// The filesystem decides which directories hold one; the result is
    /// the first-match resolution for whatever it answered, so whatever
    /// comes back is the join of some search-path directory with `prog`.
    pub fn exec_in_path(&self, prog: &str) -> (r: Option<String>)
        ensures
            exists|present: Seq<bool>|
                present.len() == self.paths@.len() && r.deep_view() == resolve_model(
                    self.paths.deep_view(),
                    prog@,
                    present,
                ),
            r matches Some(p) ==> exists|i: int|
                0 <= i < self.paths@.len() && p@ == joined(self.paths.deep_view()[i], prog@),
    {
        let mut present: Vec<bool> = Vec::new();
        let mut i: usize = 0;
        while i < self.paths.len()
            invariant
                present@.len() == i,
                i <= self.paths@.len(),
            decreases self.paths@.len() - i,
        {
            let cand = join_path(self.paths[i].as_str(), prog);
            let hit = path_is_file(cand.as_str());
            present.push(hit);
            i = i + 1;
        }
        let r = resolve_first(&self.paths, prog, &present);
        proof {
            lemma_resolve_some(self.paths.deep_view(), prog@, present@);
            assert(present@.len() == self.paths@.len() && r.deep_view() == resolve_model(
                self.paths.deep_view(),
                prog@,
                present@,
            ));
        }
        r
    }

    /// Dispatch: the action that one classified command, with its
    /// argument string, asks of the loop.
    ///
    /// The contract pins each branch: `exit` always terminates with
    /// status 0 whatever came before; `type` on a member of the built-in
    /// set always reports a shell builtin, whatever the search path
    /// holds; `echo` prints the tokens of its argument string joined by
    /// single spaces (so a quote span closed at the end of the line, an
    /// empty token, leaves a trailing space); only the two branches that
    /// consult the filesystem leave a choice, and each choice is one of
    /// the two stated outcomes.
    pub fn execute(&self, cmd: &Command, args: &str, home: &str) -> (r: Action)
        requires
            self.wf(),
        ensures
            cmd is Exit ==> r@ == ActionModel::Exit,
            cmd is Ls ==> r@ == ActionModel::Print(join_char(self.paths.deep_view(), ':')),
            cmd is Echo ==> r@ == ActionModel::Print(join_char(tokenize(args@), ' ')),
            cmd is Pwd ==> r@ == ActionModel::Pwd,
            cmd is Cd ==> r@ == (ActionModel::Chdir {
                target: cd_target(args@, home@),
                failure: cd_fail_msg(args@),
            }),
            cmd is Type && args@.len() == 0 ==> r@ == ActionModel::PrintErr(type_usage_msg()),
            cmd is Type && args@.len() > 0 && is_builtin_name(args@) ==> r@ == ActionModel::Print(
                builtin_report(args@),
            ),
            cmd is Type && args@.len() > 0 && !is_builtin_name(args@) ==> (r@
                == ActionModel::Print(type_not_found(args@)) || (exists|i: int|
                0 <= i < self.paths@.len() && r@ == ActionModel::Print(
                    located_report(args@, joined(self.paths.deep_view()[i], args@)),
                ))),
            cmd matches Command::Program(p) ==> (r@ == program_model(p@, args@, true) || r@
                == program_model(p@, args@, false)),
    {
        match cmd {
            Command::Exit => Action::Exit,
            Command::Ls => Action::Print(join_on(&self.paths, ':')),
            Command::Echo => {
                let toks = parse_args(args);
                Action::Print(join_on(&toks, ' '))
            },
            Command::Pwd => Action::Pwd,
            Command::Cd => {
                let n = args.unicode_len();
                let target = if n > 0 && args.get_char(0) == '~' {
                    let mut t = home.to_owned();
                    let sub = args.substring_char(1, n);
                    proof {
                        assert(sub@ =~= args@.skip(1));
                    }
                    t.append(sub);
                    t
                } else {
                    args.to_owned()
                };
                let mut failure = "cd: ".to_owned();
                failure.append(args);
                failure.append(": No such file or directory");
                Action::Chdir { target, failure }
            },
            Command::Type => {
                if args.is_empty() {
                    Action::PrintErr("type: missing argument".to_owned())
                } else {
                    let arg_cmd = Command::from_name(args);
                    proof {
                        lemma_classified_unique(args@, arg_cmd);
                    }
                    if self.is_builtin(&arg_cmd) {
                        let mut m = args.to_owned();
                        m.append(" is a shell builtin");
                        Action::Print(m)
                    } else {
                        let res = self.exec_in_path(args);
                        let ghost resv: Option<Seq<char>> = res.deep_view();
                        proof {
                            if res is Some {
                                assert(resv == Some(res->Some_0@));
                            }
                        }
                        let r = type_report(args, res);
                        proof {
                            if resv is Some {
                                let pv = resv->Some_0;
                                let i = choose|i: int|
                                    0 <= i < self.paths@.len() && pv == joined(
                                        self.paths.deep_view()[i],
                                        args@,
                                    );
                                assert(r@ == ActionModel::Print(
                                    located_report(args@, joined(self.paths.deep_view()[i], args@)),
                                ));
                            }
                        }
                        r
                    }
                }
            },
            Command::Program(p) => {
                let found = self.exec_in_path(p.as_str());
                program_action(p.as_str(), args, found.is_some())
            },
        }
    }
}

/// A blank character, as trimmed from the end of an argument string: the
/// Unicode white-space set, written out character by character.
pub open spec fn is_blank(c: char) -> bool {
    c == '\u{0009}' || c == '\u{000A}' || c == '\u{000B}' || c == '\u{000C}' || c == '\u{000D}'
        || c == '\u{0020}' || c == '\u{0085}' || c == '\u{00A0}' || c == '\u{1680}' || c
        == '\u{2000}' || c == '\u{2001}' || c == '\u{2002}' || c == '\u{2003}' || c == '\u{2004}'
        || c == '\u{2005}' || c == '\u{2006}' || c == '\u{2007}' || c == '\u{2008}' || c
        == '\u{2009}' || c == '\u{200A}' || c == '\u{2028}' || c == '\u{2029}' || c == '\u{202F}'
        || c == '\u{205F}' || c == '\u{3000}'
}

/// `s` with its trailing blanks removed.
pub open spec fn trim_end_blank(s: Seq<char>) -> Seq<char>
    decreases s.len(),
{
    if s.len() > 0 && is_blank(s.last()) {
        trim_end_blank(s.drop_last())
    } else {
        s
    }
}

/// `trim_end_blank` keeps exactly the prefix before the trailing run of
/// blanks.
pub proof fn lemma_trim_end_is(s: Seq<char>, e: int)
    requires
        0 <= e <= s.len(),
        forall|k: int| e <= k < s.len() ==> is_blank(s[k]),
        e > 0 ==> !is_blank(s[e - 1]),
    ensures
        trim_end_blank(s) == s.take(e),
    decreases s.len(),
{
    if e == s.len() {
        if s.len() > 0 {
            assert(!is_blank(s.last()));
        }
        assert(s.take(e) =~= s);
    } else {
        assert(is_blank(s[s.len() - 1]));
        assert(s.drop_last().take(e) =~= s.take(e));
        assert forall|k: int| e <= k < s.drop_last().len() implies is_blank(s.drop_last()[k]) by {
            assert(s.drop_last()[k] == s[k]);
        }
        if e > 0 {
            assert(s.drop_last()[e - 1] == s[e - 1]);
        }
        lemma_trim_end_is(s.drop_last(), e);
    }
}

/// The command name of one line: everything before the first space, the
/// whole line if it has none.
pub open spec fn cmd_of(l: Seq<char>) -> Seq<char> {
    l.take(first_at(l, ' ') as int)
}

/// The argument string of one line: what follows the first space, with
/// trailing blanks removed; empty when the line has no space.
pub open spec fn args_of(l: Seq<char>) -> Seq<char> {
    let j = first_at(l, ' ') as int;
    if j >= l.len() {
        Seq::empty()
    } else {
        trim_end_blank(l.skip(j + 1))
    }
}

/// Exec test for `is_blank`.
fn blank_char(c: char) -> (r: bool)
    ensures
        r == is_blank(c),
{
    c == '\u{0009}' || c == '\u{000A}' || c == '\u{000B}' || c == '\u{000C}' || c == '\u{000D}'
        || c == '\u{0020}' || c == '\u{0085}' || c == '\u{00A0}' || c == '\u{1680}' || c
        == '\u{2000}' || c == '\u{2001}' || c == '\u{2002}' || c == '\u{2003}' || c == '\u{2004}'
        || c == '\u{2005}' || c == '\u{2006}' || c == '\u{2007}' || c == '\u{2008}' || c
        == '\u{2009}' || c == '\u{200A}' || c == '\u{2028}' || c == '\u{2029}' || c == '\u{202F}'
        || c == '\u{205F}' || c == '\u{3000}'
}

impl Shell {
    /// The whole pipeline for one input line, already stripped of its
    /// terminating newline: split off the command name at the first
    /// space, classify it, dispatch. A line whose command name is empty
    /// asks for nothing.
    pub fn handle_line(&self, line: &str, home: &str) -> (r: Option<Action>)
        requires
            self.wf(),
        ensures
            r is None <==> cmd_of(line@).len() == 0,
            cmd_of(line@) == "exit"@ ==> (r matches Some(a) && a@ == ActionModel::Exit),
            cmd_of(line@) == "echo"@ ==> (r matches Some(a) && a@ == ActionModel::Print(
                join_char(tokenize(args_of(line@)), ' '),
            )),
            cmd_of(line@) == "pwd"@ ==> (r matches Some(a) && a@ == ActionModel::Pwd),
            cmd_of(line@) == "ls"@ ==> (r matches Some(a) && a@ == ActionModel::Print(
                join_char(self.paths.deep_view(), ':'),
            )),
            cmd_of(line@) == "cd"@ ==> (r matches Some(a) && a@ == (ActionModel::Chdir {
                target: cd_target(args_of(line@), home@),
                failure: cd_fail_msg(args_of(line@)),
            })),
            cmd_of(line@) == "type"@ && args_of(line@).len() == 0 ==> (r matches Some(a) && a@
                == ActionModel::PrintErr(type_usage_msg())),
            cmd_of(line@) == "type"@ && args_of(line@).len() > 0 && is_builtin_name(args_of(line@))
                ==> (r matches Some(a) && a@ == ActionModel::Print(builtin_report(args_of(line@)))),
            cmd_of(line@) == "type"@ && args_of(line@).len() > 0 && !is_builtin_name(
                args_of(line@),
            ) ==> (r matches Some(a) && (a@ == ActionModel::Print(type_not_found(args_of(line@)))
                || (exists|i: int|
                0 <= i < self.paths@.len() && a@ == ActionModel::Print(
                    located_report(args_of(line@), joined(self.paths.deep_view()[i], args_of(line@))),
                )))),
            cmd_of(line@).len() > 0 && !is_builtin_name(cmd_of(line@)) ==> (r matches Some(a) && (a@
                == program_model(cmd_of(line@), args_of(line@), true) || a@ == program_model(
                cmd_of(line@),
                args_of(line@),
                false,
            ))),
    {
        let n = line.unicode_len();
        let mut j: usize = 0;
        while j < n && line.get_char(j) != ' '
            invariant
                n == line@.len(),
                j <= n,
                forall|k: int| 0 <= k < j ==> line@[k] != ' ',
            decreases n - j,
        {
            j = j + 1;
        }
        proof {
            lemma_first_at_is(line@, ' ', j as int);
        }
        if j == 0 {
            proof {
                assert(cmd_of(line@) =~= Seq::<char>::empty());
                reveal_strlit("exit");
                reveal_strlit("echo");
                reveal_strlit("type");
                reveal_strlit("pwd");
                reveal_strlit("ls");
                reveal_strlit("cd");
            }
            return None;
        }
        let cmd_s = line.substring_char(0, j);
        proof {
            assert(cmd_s@ =~= cmd_of(line@));
        }
        let args_s: String = if j == n {
            proof {
                assert(args_of(line@) =~= Seq::<char>::empty());
            }
            String::new()
        } else {
            let mut e = n;
            while e > j + 1 && blank_char(line.get_char(e - 1))
                invariant
                    n == line@.len(),
                    j + 1 <= e <= n,
                    forall|k: int| e <= k < n ==> is_blank(line@[k]),
                decreases e,
            {
                e = e - 1;
            }
            let ghost s2 = line@.skip(j + 1);
            proof {
                assert forall|k: int| (e - j - 1) <= k < s2.len() implies is_blank(s2[k]) by {
                    assert(s2[k] == line@[j + 1 + k]);
                }
                if e - j - 1 > 0 {
                    assert(s2[e - j - 2] == line@[e - 1]);
                }
                lemma_trim_end_is(s2, e - j - 1);
                assert(s2.take(e - j - 1) =~= line@.subrange(j + 1, e as int));
            }
            line.substring_char(j + 1, e).to_owned()
        };
        proof {
            assert(args_s@ == args_of(line@));
        }
        let c = Command::from_name(cmd_s);
        proof {
            lemma_classified_unique(cmd_s@, c);
        }
        let act = self.execute(&c, args_s.as_str(), home);
        Some(act)
    }
}

} // verus!
