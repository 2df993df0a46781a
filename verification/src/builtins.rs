use vstd::prelude::*;

use crate::completion::{builtin_list, builtin_names};
use crate::text::{
    char_seqs, chars_of, chars_of_all, is_space, is_space_char, join_chars, join_with,
    lemma_push_contains, same_chars, string_of,
};

verus! {

/// The arguments of `echo`, separated by single spaces.
pub fn echo(args: &Vec<String>) -> (r: String)
    ensures
        r@ == join_with(args.deep_view(), seq![' ']),
{
    let words = chars_of_all(args);
    let space = vec![' '];
    assert(space@ =~= seq![' ']);
    let joined = join_chars(&words, &space);
    string_of(&joined)
}

/// The `jobs` builtin: the shell runs no background jobs, so there is nothing to report.
pub fn jobs() {
}

/// Whether `name` is the name of one of the shell's builtin commands.
pub fn is_builtin(name: &str) -> (b: bool)
    ensures
        b == builtin_names().contains(name@),
{
    let n = chars_of(name);
    let all = chars_of_all(&builtin_list());
    let mut i: usize = 0;
    while i < all.len()
        invariant
            i <= all.len(),
            n@ == name@,
            char_seqs(all@) == builtin_names(),
            !builtin_names().take(i as int).contains(name@),
        decreases all.len() - i,
    {
        proof {
            lemma_push_contains(builtin_names().take(i as int), builtin_names()[i as int], name@);
            assert(builtin_names().take(i + 1) =~= builtin_names().take(i as int).push(
                builtin_names()[i as int],
            ));
        }
        if same_chars(&all[i], &n) {
            assert(builtin_names()[i as int] == name@);
            return true;
        }
        i += 1;
    }
    assert(builtin_names().take(all.len() as int) =~= builtin_names());
    false
}

/// What `type` says of a command: `name is a reqsh builtin` for a builtin;
/// otherwise, where `location` is where the search path holds the command,
/// `name is location`, and where it holds none, the error `name: not found`.
pub fn command_type(args: &Vec<String>, location: Option<String>) -> (r: Result<String, String>)
    requires
        args.len() > 0,
    ensures
        builtin_names().contains(args[0]@) ==> (r matches Ok(s) && s@ == args[0]@
            + " is a reqsh builtin"@),
        !builtin_names().contains(args[0]@) ==> match location {
            Some(path) => r matches Ok(s) && s@ == args[0]@ + " is "@ + path@,
            None => r matches Err(e) && e@ == args[0]@ + ": not found"@,
        },
{
    let name = args[0].as_str();
    if is_builtin(name) {
        let mut s = name.to_owned();
        s.append(" is a reqsh builtin");
        return Ok(s);
    }
    match location {
        Some(path) => {
            let mut s = name.to_owned();
            s.append(" is ");
            s.append(path.as_str());
            Ok(s)
        },
        None => {
            let mut e = name.to_owned();
            e.append(": not found");
            Err(e)
        },
    }
}

/// The directory that `cd` changes to: the home directory for `~`, else
/// the argument itself. `None` where the argument is `~` and there is no
/// home directory.
pub fn cd_target(args: &Vec<String>, home: Option<&str>) -> (r: Option<String>)
    requires
        args.len() > 0,
    ensures
        args[0]@ == "~"@ ==> match home {
            Some(h) => r matches Some(t) && t@ == h@,
            None => r is None,
        },
        args[0]@ != "~"@ ==> (r matches Some(t) && t@ == args[0]@),
{
    let a = chars_of(args[0].as_str());
    let tilde = chars_of("~");
    if same_chars(&a, &tilde) {
        match home {
            Some(h) => Some(h.to_owned()),
            None => None,
        }
    } else {
        Some(args[0].clone())
    }
}

/// The error that `cd` reports for a directory it cannot change to.
pub fn cd_error(target: &str) -> (r: String)
    ensures
        r@ == "cd: "@ + target@ + ": No such file or directory"@,
{
    let mut e = "cd: ".to_owned();
    e.append(target);
    e.append(": No such file or directory");
    e
}

/// The error for a command that the search path does not hold.
pub fn command_not_found(command: &str) -> (r: String)
    ensures
        r@ == command@ + ": command not found"@,
{
    let mut e = command.to_owned();
    e.append(": command not found");
    e
}

/// `s` without its leading white space.
pub open spec fn trim_start(s: Seq<char>) -> Seq<char>
    decreases s.len(),
{
    if s.len() > 0 && is_space(s[0]) {
        trim_start(s.drop_first())
    } else {
        s
    }
}

/// `s` without its trailing white space.
pub open spec fn trim_end(s: Seq<char>) -> Seq<char>
    decreases s.len(),
{
    if s.len() > 0 && is_space(s.last()) {
        trim_end(s.drop_last())
    } else {
        s
    }
}

/// `s` without leading or trailing white space (`str::trim`).
pub open spec fn trimmed(s: Seq<char>) -> Seq<char> {
    trim_end(trim_start(s))
}

proof fn lemma_trim_start_skip(s: Seq<char>, i: int)
    requires
        0 <= i <= s.len(),
        forall|j: int| 0 <= j < i ==> is_space(#[trigger] s[j]),
    ensures
        trim_start(s) == trim_start(s.skip(i)),
    decreases i,
{
    if i > 0 {
        assert(s.drop_first().skip(i - 1) =~= s.skip(i));
        lemma_trim_start_skip(s.drop_first(), i - 1);
    } else {
        assert(s.skip(0) =~= s);
    }
}

proof fn lemma_trim_end_take(s: Seq<char>, k: int)
    requires
        0 <= k <= s.len(),
        forall|j: int| k <= j < s.len() ==> is_space(#[trigger] s[j]),
    ensures
        trim_end(s) == trim_end(s.take(k)),
    decreases s.len() - k,
{
    if k < s.len() {
        assert(s.drop_last().take(k) =~= s.take(k));
        lemma_trim_end_take(s.drop_last(), k);
    } else {
        assert(s.take(k) =~= s);
    }
}

/// The output of a command as the shell shows it: without leading or
/// trailing white space.
pub fn trim_output(s: &str) -> (r: String)
    ensures
        r@ == trimmed(s@),
{
    let chars = chars_of(s);
    let mut a: usize = 0;
    while a < chars.len() && is_space_char(chars[a])
        invariant
            a <= chars.len(),
            chars@ == s@,
            forall|j: int| 0 <= j < a ==> is_space(#[trigger] s@[j]),
        decreases chars.len() - a,
    {
        a += 1;
    }
    proof {
        lemma_trim_start_skip(s@, a as int);
    }
    let ghost rest = s@.skip(a as int);
    assert(rest.len() == 0 || !is_space(rest[0]));
    assert(trim_start(rest) == rest);
    let mut b = chars.len();
    while b > a && is_space_char(chars[b - 1])
        invariant
            a <= b <= chars.len(),
            chars@ == s@,
            forall|j: int| b <= j < chars.len() ==> is_space(#[trigger] s@[j]),
        decreases b,
    {
        b -= 1;
    }
    proof {
        let k = (b - a) as int;
        assert forall|j: int| k <= j < rest.len() implies is_space(#[trigger] rest[j]) by {
            assert(rest[j] == s@[j + a]);
        }
        lemma_trim_end_take(rest, k);
        let t = rest.take(k);
        assert(t.len() == 0 || !is_space(t.last())) by {
            if t.len() > 0 {
                assert(t.last() == s@[b - 1]);
            }
        }
        assert(trim_end(t) == t);
    }
    let mut out: Vec<char> = Vec::new();
    let mut i = a;
    while i < b
        invariant
            a <= i <= b <= chars.len(),
            chars@ == s@,
            out@ == s@.subrange(a as int, i as int),
        decreases b - i,
    {
        out.push(chars[i]);
        i += 1;
        assert(out@ =~= s@.subrange(a as int, i as int));
    }
    assert(out@ =~= rest.take((b - a) as int));
    string_of(&out)
}

/// The builtin commands that the shell runs itself.
#[derive(Clone, Copy, PartialEq, Eq, Structural, Debug)]
pub enum Builtin {
    Cd,
    Pwd,
    Echo,
    Type,
    History,
    Jobs,
    SaveCheck,
    ListChecks,
    DelCheck,
    RunCheck,
}

/// The builtin that a command name runs, or `None` for a command that the
/// shell runs as an outside program (`exit` only ends the shell when it is
/// the whole line).
pub open spec fn builtin_of_spec(name: Seq<char>) -> Option<Builtin> {
    if name == "cd"@ {
        Some(Builtin::Cd)
    } else if name == "pwd"@ {
        Some(Builtin::Pwd)
    } else if name == "echo"@ {
        Some(Builtin::Echo)
    } else if name == "type"@ {
        Some(Builtin::Type)
    } else if name == "history"@ {
        Some(Builtin::History)
    } else if name == "jobs"@ {
        Some(Builtin::Jobs)
    } else if name == "savecheck"@ {
        Some(Builtin::SaveCheck)
    } else if name == "listchecks"@ {
        Some(Builtin::ListChecks)
    } else if name == "delcheck"@ {
        Some(Builtin::DelCheck)
    } else if name == "runcheck"@ {
        Some(Builtin::RunCheck)
    } else {
        None
    }
}

/// The builtin names are exactly the names that the shell runs as builtins,
/// and `exit`: every listed name other than `exit` runs a builtin, and every
/// name that runs a builtin is listed (so `type` and completion know it).
pub proof fn lemma_builtin_names_are_dispatched(n: Seq<char>)
    ensures
        builtin_names().contains(n) <==> (builtin_of_spec(n) is Some || n == "exit"@),
        builtin_names().contains(n) && n != "exit"@ ==> builtin_of_spec(n) is Some,
{
    let names = builtin_names();
    if builtin_of_spec(n) is Some || n == "exit"@ {
        if n == "cd"@ {
            assert(names[0] == n);
        } else if n == "pwd"@ {
            assert(names[3] == n);
        } else if n == "echo"@ {
            assert(names[1] == n);
        } else if n == "type"@ {
            assert(names[4] == n);
        } else if n == "history"@ {
            assert(names[5] == n);
        } else if n == "jobs"@ {
            assert(names[6] == n);
        } else if n == "savecheck"@ {
            assert(names[7] == n);
        } else if n == "listchecks"@ {
            assert(names[9] == n);
        } else if n == "delcheck"@ {
            assert(names[10] == n);
        } else if n == "runcheck"@ {
            assert(names[8] == n);
        } else {
            assert(names[2] == n);
        }
    }
    if names.contains(n) {
        let i = choose|i: int| 0 <= i < names.len() && names[i] == n;
        assert(names.len() == 11);
    }
}

/// Each builtin command name runs its own builtin, and `exit` runs none
/// (it only ends the shell when it is the whole line).
pub proof fn lemma_each_builtin_name_has_its_builtin()
    ensures
        builtin_of_spec("cd"@) == Some(Builtin::Cd),
        builtin_of_spec("pwd"@) == Some(Builtin::Pwd),
        builtin_of_spec("echo"@) == Some(Builtin::Echo),
        builtin_of_spec("type"@) == Some(Builtin::Type),
        builtin_of_spec("history"@) == Some(Builtin::History),
        builtin_of_spec("jobs"@) == Some(Builtin::Jobs),
        builtin_of_spec("savecheck"@) == Some(Builtin::SaveCheck),
        builtin_of_spec("listchecks"@) == Some(Builtin::ListChecks),
        builtin_of_spec("delcheck"@) == Some(Builtin::DelCheck),
        builtin_of_spec("runcheck"@) == Some(Builtin::RunCheck),
        builtin_of_spec("exit"@) is None,
{
    reveal_strlit("cd");
    reveal_strlit("pwd");
    reveal_strlit("echo");
    reveal_strlit("type");
    reveal_strlit("history");
    reveal_strlit("jobs");
    reveal_strlit("savecheck");
    reveal_strlit("listchecks");
    reveal_strlit("delcheck");
    reveal_strlit("runcheck");
    reveal_strlit("exit");
    assert("cd"@.len() == 2 && "pwd"@.len() == 3 && "history"@.len() == 7);
    assert("savecheck"@.len() == 9 && "listchecks"@.len() == 10 && "delcheck"@.len() == 8);
    assert("runcheck"@.len() == 8 && "echo"@.len() == 4 && "type"@.len() == 4);
    assert("jobs"@.len() == 4 && "exit"@.len() == 4);
    assert("echo"@[1] != "exit"@[1]);
    assert("echo"@[0] != "type"@[0]);
    assert("echo"@[0] != "jobs"@[0]);
    assert("type"@[0] != "jobs"@[0]);
    assert("exit"@[0] != "type"@[0]);
    assert("exit"@[0] != "jobs"@[0]);
    assert("delcheck"@[0] != "runcheck"@[0]);
    assert("savecheck"@[0] != "runcheck"@[0]);
}

/// Whether `a` holds the characters of the string `b`.
fn is_word(a: &Vec<char>, b: &str) -> (r: bool)
    ensures
        r == (a@ == b@),
{
    let bc = chars_of(b);
    same_chars(a, &bc)
}

/// The builtin that a command name runs.
pub fn builtin_of(name: &str) -> (r: Option<Builtin>)
    ensures
        r == builtin_of_spec(name@),
{
    let n = chars_of(name);
    if is_word(&n, "cd") {
        Some(Builtin::Cd)
    } else if is_word(&n, "pwd") {
        Some(Builtin::Pwd)
    } else if is_word(&n, "echo") {
        Some(Builtin::Echo)
    } else if is_word(&n, "type") {
        Some(Builtin::Type)
    } else if is_word(&n, "history") {
        Some(Builtin::History)
    } else if is_word(&n, "jobs") {
        Some(Builtin::Jobs)
    } else if is_word(&n, "savecheck") {
        Some(Builtin::SaveCheck)
    } else if is_word(&n, "listchecks") {
        Some(Builtin::ListChecks)
    } else if is_word(&n, "delcheck") {
        Some(Builtin::DelCheck)
    } else if is_word(&n, "runcheck") {
        Some(Builtin::RunCheck)
    } else {
        None
    }
}

/// What the shell does with a line it has read.
#[derive(Clone, Copy, PartialEq, Eq, Structural, Debug)]
pub enum LineAction {
    /// An empty line: read the next one.
    Skip,
    /// The line `exit`: end the shell.
    Exit,
    /// Any other line: parse and run it.
    Run,
}

/// Decides what the shell does with a line it has read.
pub fn line_action(line: &str) -> (r: LineAction)
    ensures
        r == (if line@.len() == 0 {
            LineAction::Skip
        } else if line@ == "exit"@ {
            LineAction::Exit
        } else {
            LineAction::Run
        }),
{
    let l = chars_of(line);
    if l.len() == 0 {
        LineAction::Skip
    } else if is_word(&l, "exit") {
        LineAction::Exit
    } else {
        LineAction::Run
    }
}

/// What `listchecks` prints: each listed check, or `no checks saved` where there is none.
pub fn listchecks_output(items: Vec<String>) -> (r: Vec<String>)
    ensures
        items.len() == 0 ==> r.deep_view() == seq!["no checks saved"@],
        items.len() > 0 ==> r.deep_view() == items.deep_view(),
{
    if items.len() == 0 {
        let r = vec!["no checks saved".to_owned()];
        assert(r.deep_view() =~= seq!["no checks saved"@]);
        r
    } else {
        items
    }
}

/// What the shell shows of a program's output: the text for standard output
/// and the text for standard error, each only where it is not empty.
pub fn output_lines(out: &str, err: &str) -> (r: (Option<String>, Option<String>))
    ensures
        out@.len() == 0 ==> r.0 is None,
        out@.len() > 0 ==> (r.0 matches Some(o) && o@ == out@),
        err@.len() == 0 ==> r.1 is None,
        err@.len() > 0 ==> (r.1 matches Some(e) && e@ == err@),
{
    let o = if out.is_empty() {
        None
    } else {
        Some(out.to_owned())
    };
    let e = if err.is_empty() {
        None
    } else {
        Some(err.to_owned())
    };
    (o, e)
}

} // verus!
