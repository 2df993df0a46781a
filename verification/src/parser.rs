use vstd::prelude::*;

use crate::text::{chars_of, push_char};

verus! {

/// The stream that a redirection operator sends to a file.
#[derive(Clone, Copy, PartialEq, Eq, Structural, Debug)]
pub enum RedirectType {
    Stdout,
    Stderr,
}

/// Where the scanner stands between two characters of a command line.
#[derive(Clone, Copy, PartialEq, Eq, Structural, Debug)]
pub enum ScanMode {
    /// Outside any quote or escape.
    Normal,
    /// Inside single quotes.
    Single,
    /// Inside double quotes.
    Double,
    /// Inside double quotes, right after a backslash.
    DoubleEscape,
    /// Outside quotes, right after a backslash.
    Escape,
    /// Right after an unquoted `1` (stdout) or `2` (stderr) that may start a redirection.
    Digit(RedirectType),
    /// Right after a redirection operator, where a second `>` asks for appending.
    AfterGt,
}

/// The abstract state of the command-line scanner.
pub struct ScanModel {
    pub tokens: Seq<Seq<char>>,
    pub current: Seq<char>,
    pub pending: Option<RedirectType>,
    pub stdout: Option<Seq<char>>,
    pub stderr: Option<Seq<char>>,
    pub append: bool,
    pub mode: ScanMode,
}

pub open spec fn initial_model() -> ScanModel {
    ScanModel {
        tokens: seq![],
        current: seq![],
        pending: None,
        stdout: None,
        stderr: None,
        append: false,
        mode: ScanMode::Normal,
    }
}

/// The digit character that names a redirected stream.
pub open spec fn stream_digit(r: RedirectType) -> char {
    match r {
        RedirectType::Stdout => '1',
        RedirectType::Stderr => '2',
    }
}

/// Ends the word under construction: it becomes the target of a pending
/// redirection, or else the next token. An empty word ends nothing.
pub open spec fn flush_word(st: ScanModel) -> ScanModel {
    if st.current.len() == 0 {
        st
    } else {
        match st.pending {
            Some(RedirectType::Stdout) => ScanModel {
                stdout: Some(st.current),
                pending: None,
                current: seq![],
                ..st
            },
            Some(RedirectType::Stderr) => ScanModel {
                stderr: Some(st.current),
                pending: None,
                current: seq![],
                ..st
            },
            None => ScanModel { tokens: st.tokens.push(st.current), current: seq![], ..st },
        }
    }
}

/// One character read outside quotes and escapes.
pub open spec fn normal_step(st: ScanModel, c: char) -> ScanModel {
    if c == '\'' {
        ScanModel { mode: ScanMode::Single, ..st }
    } else if c == '"' {
        ScanModel { mode: ScanMode::Double, ..st }
    } else if c == '\\' {
        ScanModel { mode: ScanMode::Escape, ..st }
    } else if c == ' ' || c == '\t' {
        flush_word(st)
    } else if c == '1' {
        ScanModel { mode: ScanMode::Digit(RedirectType::Stdout), ..st }
    } else if c == '2' {
        ScanModel { mode: ScanMode::Digit(RedirectType::Stderr), ..st }
    } else if c == '>' {
        ScanModel { pending: Some(RedirectType::Stdout), mode: ScanMode::AfterGt, ..st }
    } else {
        ScanModel { current: st.current.push(c), ..st }
    }
}

/// One character of the command line, read in the scanner's current mode.
pub open spec fn scan_step(st: ScanModel, c: char) -> ScanModel {
    match st.mode {
        ScanMode::Normal => normal_step(st, c),
        ScanMode::Single => if c == '\'' {
            ScanModel { mode: ScanMode::Normal, ..st }
        } else {
            ScanModel { current: st.current.push(c), ..st }
        },
        ScanMode::Double => if c == '"' {
            ScanModel { mode: ScanMode::Normal, ..st }
        } else if c == '\\' {
            ScanModel { mode: ScanMode::DoubleEscape, ..st }
        } else {
            ScanModel { current: st.current.push(c), ..st }
        },
        ScanMode::DoubleEscape => if c == '"' || c == '\\' || c == '$' || c == '\n' {
            ScanModel { current: st.current.push(c), mode: ScanMode::Double, ..st }
        } else {
            ScanModel { current: st.current.push('\\').push(c), mode: ScanMode::Double, ..st }
        },
        ScanMode::Escape => ScanModel { current: st.current.push(c), mode: ScanMode::Normal, ..st },
        ScanMode::Digit(r) => if c == '>' {
            ScanModel { pending: Some(r), mode: ScanMode::AfterGt, ..st }
        } else {
            normal_step(
                ScanModel { current: st.current.push(stream_digit(r)), mode: ScanMode::Normal, ..st },
                c,
            )
        },
        ScanMode::AfterGt => if c == '>' {
            ScanModel { append: true, mode: ScanMode::Normal, ..st }
        } else {
            normal_step(ScanModel { mode: ScanMode::Normal, ..st }, c)
        },
    }
}

/// The scanner state after reading all of `s`, starting from `st`.
pub open spec fn scan_from(st: ScanModel, s: Seq<char>) -> ScanModel
    decreases s.len(),
{
    if s.len() == 0 {
        st
    } else {
        scan_step(scan_from(st, s.drop_last()), s.last())
    }
}

/// What the end of the line does: a digit still waiting for `>` is an
/// ordinary character, and the last word is ended.
pub open spec fn scan_end(st: ScanModel) -> ScanModel {
    match st.mode {
        ScanMode::Digit(r) => flush_word(ScanModel { current: st.current.push(stream_digit(r)), ..st }),
        _ => flush_word(st),
    }
}

/// The complete reading of a command line: its words and redirections.
pub open spec fn scan_line(line: Seq<char>) -> ScanModel {
    scan_end(scan_from(initial_model(), line))
}

/// The executable state of the scanner.
struct Scanner {
    tokens: Vec<String>,
    current: String,
    pending: Option<RedirectType>,
    stdout: Option<String>,
    stderr: Option<String>,
    append: bool,
    mode: ScanMode,
}

impl View for Scanner {
    type V = ScanModel;

    closed spec fn view(&self) -> ScanModel {
        ScanModel {
            tokens: self.tokens.deep_view(),
            current: self.current@,
            pending: self.pending,
            stdout: self.stdout.deep_view(),
            stderr: self.stderr.deep_view(),
            append: self.append,
            mode: self.mode,
        }
    }
}

impl Scanner {
    fn new() -> (s: Scanner)
        ensures
            s@ == initial_model(),
    {
        let s = Scanner {
            tokens: Vec::new(),
            current: String::new(),
            pending: None,
            stdout: None,
            stderr: None,
            append: false,
            mode: ScanMode::Normal,
        };
        assert(s@.tokens =~= Seq::<Seq<char>>::empty());
        s
    }

    fn flush_word(&mut self)
        ensures
            final(self)@ == flush_word(old(self)@),
    {
        if self.current.as_str().is_empty() {
            return;
        }
        let word = self.current.clone();
        match self.pending {
            Some(RedirectType::Stdout) => {
                self.stdout = Some(word);
                self.pending = None;
            },
            Some(RedirectType::Stderr) => {
                self.stderr = Some(word);
                self.pending = None;
            },
            None => {
                self.tokens.push(word);
                assert(self@.tokens =~= old(self)@.tokens.push(old(self)@.current));
            },
        }
        self.current = String::new();
    }

    fn normal_step(&mut self, c: char)
        ensures
            final(self)@ == normal_step(old(self)@, c),
    {
        if c == '\'' {
            self.mode = ScanMode::Single;
        } else if c == '"' {
            self.mode = ScanMode::Double;
        } else if c == '\\' {
            self.mode = ScanMode::Escape;
        } else if c == ' ' || c == '\t' {
            self.flush_word();
        } else if c == '1' {
            self.mode = ScanMode::Digit(RedirectType::Stdout);
        } else if c == '2' {
            self.mode = ScanMode::Digit(RedirectType::Stderr);
        } else if c == '>' {
            self.pending = Some(RedirectType::Stdout);
            self.mode = ScanMode::AfterGt;
        } else {
            push_char(&mut self.current, c);
        }
    }

    fn step(&mut self, c: char)
        ensures
            final(self)@ == scan_step(old(self)@, c),
    {
        match self.mode {
            ScanMode::Normal => self.normal_step(c),
            ScanMode::Single => {
                if c == '\'' {
                    self.mode = ScanMode::Normal;
                } else {
                    push_char(&mut self.current, c);
                }
            },
            ScanMode::Double => {
                if c == '"' {
                    self.mode = ScanMode::Normal;
                } else if c == '\\' {
                    self.mode = ScanMode::DoubleEscape;
                } else {
                    push_char(&mut self.current, c);
                }
            },
            ScanMode::DoubleEscape => {
                if c == '"' || c == '\\' || c == '$' || c == '\n' {
                    push_char(&mut self.current, c);
                } else {
                    push_char(&mut self.current, '\\');
                    push_char(&mut self.current, c);
                }
                self.mode = ScanMode::Double;
            },
            ScanMode::Escape => {
                push_char(&mut self.current, c);
                self.mode = ScanMode::Normal;
            },
            ScanMode::Digit(r) => {
                if c == '>' {
                    self.pending = Some(r);
                    self.mode = ScanMode::AfterGt;
                } else {
                    let d = match r {
                        RedirectType::Stdout => '1',
                        RedirectType::Stderr => '2',
                    };
                    push_char(&mut self.current, d);
                    self.mode = ScanMode::Normal;
                    self.normal_step(c);
                }
            },
            ScanMode::AfterGt => {
                if c == '>' {
                    self.append = true;
                    self.mode = ScanMode::Normal;
                } else {
                    self.mode = ScanMode::Normal;
                    self.normal_step(c);
                }
            },
        }
    }

    fn end(&mut self)
        ensures
            final(self)@ == scan_end(old(self)@),
    {
        match self.mode {
            ScanMode::Digit(r) => {
                let d = match r {
                    RedirectType::Stdout => '1',
                    RedirectType::Stderr => '2',
                };
                push_char(&mut self.current, d);
            },
            _ => {},
        }
        self.flush_word();
    }
}

/// The words and redirections of a command line, before it becomes a command.
pub struct ScannedLine {
    pub tokens: Vec<String>,
    pub stdout: Option<String>,
    pub stderr: Option<String>,
    pub append: bool,
}

/// Reads a command line: splits it into words, honouring single quotes,
/// double quotes with their backslash escapes, backslash escapes outside
/// quotes, and the redirections `>`, `>>`, `1>`, `1>>`, `2>` and `2>>`.
pub fn scan_command_line(line: &str) -> (r: ScannedLine)
    ensures
        r.tokens.deep_view() == scan_line(line@).tokens,
        r.stdout.deep_view() == scan_line(line@).stdout,
        r.stderr.deep_view() == scan_line(line@).stderr,
        r.append == scan_line(line@).append,
{
    let chars = chars_of(line);
    let mut sc = Scanner::new();
    let mut i: usize = 0;
    while i < chars.len()
        invariant
            i <= chars.len(),
            chars@ == line@,
            sc@ == scan_from(initial_model(), chars@.take(i as int)),
        decreases chars.len() - i,
    {
        let ghost before = chars@.take(i as int);
        sc.step(chars[i]);
        i += 1;
        assert(chars@.take(i as int).drop_last() =~= before);
    }
    assert(chars@.take(chars.len() as int) =~= chars@);
    sc.end();
    ScannedLine { tokens: sc.tokens, stdout: sc.stdout, stderr: sc.stderr, append: sc.append }
}

/// A parsed command: its name, its arguments, and where its output goes.
pub struct ShellCommand {
    pub name: String,
    pub args: Vec<String>,
    pub stdout: Option<String>,
    pub stderr: Option<String>,
    pub append: bool,
}

impl ShellCommand {
    /// Parses a command line into a command. The first word is the command's
    /// name, the other words its arguments; the redirection targets and the
    /// append flag come from the redirection operators.
    ///
    /// A line must hold at least one word (see [`scan_command_line`]).
    pub fn build(command_line: &str) -> (r: Result<ShellCommand, &str>)
        requires
            scan_line(command_line@).tokens.len() > 0,
        ensures
            r matches Ok(cmd) && {
                let m = scan_line(command_line@);
                &&& cmd.name@ == m.tokens[0]
                &&& cmd.args.deep_view() == m.tokens.drop_first()
                &&& cmd.stdout.deep_view() == m.stdout
                &&& cmd.stderr.deep_view() == m.stderr
                &&& cmd.append == m.append
            },
    {
        let scanned = scan_command_line(command_line);
        let mut tokens = scanned.tokens;
        let name = tokens.remove(0);
        assert(tokens.deep_view() =~= scan_line(command_line@).tokens.drop_first());
        Ok(
            ShellCommand {
                name,
                args: tokens,
                stdout: scanned.stdout,
                stderr: scanned.stderr,
                append: scanned.append,
            },
        )
    }
}

} // verus!
