use vstd::prelude::*;

use rustyline::history::{FileHistory, History, SearchDirection};

use crate::numbers::{decimal, parse_count, parse_count_spec, push_decimal};
use crate::text::{char_seqs, chars_of, chars_of_all, copy_chars, extend_chars, strings_of_all};

verus! {

#[verifier::external_type_specification]
#[verifier::external_body]
pub struct ExFileHistory(rustyline::history::FileHistory);

/// The entries that a line-editor history holds, oldest first.
pub uninterp spec fn history_contents(h: FileHistory) -> Seq<Seq<char>>;

/// The entries of a history, oldest first.
///
/// Trusted: calls `FileHistory::iter`, whose source walks the history's
/// entries from the oldest, and copies each entry.
#[verifier::external_body]
fn history_records(h: &FileHistory) -> (r: Vec<String>)
    ensures
        r.deep_view() == history_contents(*h),
{
    h.iter().cloned().collect()
}

/// Whether `needle` occurs in `hay`.
pub open spec fn occurs_in(needle: Seq<char>, hay: Seq<char>) -> bool {
    exists|p: int| 0 <= p <= hay.len() - needle.len() && #[trigger] hay.subrange(p, p + needle.len()) == needle
}

/// The last entry at or before `start` in which `term` occurs, or -1.
pub open spec fn last_occurrence(entries: Seq<Seq<char>>, term: Seq<char>, start: int) -> int
    decreases start + 1,
{
    if start < 0 {
        -1
    } else if occurs_in(term, entries[start]) {
        start
    } else {
        last_occurrence(entries, term, start - 1)
    }
}

proof fn lemma_last_occurrence_bounds(entries: Seq<Seq<char>>, term: Seq<char>, start: int)
    ensures
        -1 <= last_occurrence(entries, term, start),
        start >= 0 ==> last_occurrence(entries, term, start) <= start,
    decreases start + 1,
{
    if start >= 0 && !occurs_in(term, entries[start]) {
        lemma_last_occurrence_bounds(entries, term, start - 1);
    }
}

/// What a backward search of `entries` for `term` from `start` finds.
pub open spec fn reverse_search(entries: Seq<Seq<char>>, term: Seq<char>, start: int) -> Option<int> {
    if term.len() == 0 || start >= entries.len() || last_occurrence(entries, term, start) < 0 {
        None
    } else {
        Some(last_occurrence(entries, term, start))
    }
}

/// Searches the history backwards from entry `start` for an entry in which
/// `term` occurs, and gives its index.
///
/// Trusted: calls `History::search` of `FileHistory` with
/// `SearchDirection::Reverse`. Its source (without the optional
/// case-insensitive search) finds nothing for an empty term or a start past
/// the last entry, and otherwise gives the greatest index at or below
/// `start` of an entry that contains `term` (`str::find`); it never fails.
#[verifier::external_body]
fn search_back(h: &FileHistory, term: &str, start: usize) -> (r: Option<usize>)
    ensures
        r matches Some(i) ==> reverse_search(history_contents(*h), term@, start as int) == Some(
            i as int,
        ),
        r is None ==> reverse_search(history_contents(*h), term@, start as int) is None,
{
    match h.search(term, start, SearchDirection::Reverse) {
        Ok(Some(found)) => Some(found.idx),
        _ => None,
    }
}

/// What the `history` builtin does.
pub enum HistoryAction {
    /// Reads the history from a file.
    Load { path: String },
    /// Writes all of the history to a file, which it replaces.
    Write { path: String, records: Vec<String> },
    /// Appends the entries since the last `history -a` of the same file to it.
    Append { path: String, records: Vec<String> },
    /// Prints numbered entries.
    Print { lines: Vec<String> },
}

pub open spec fn is_flag(a: Seq<char>) -> bool {
    a == "-r"@ || a == "-w"@ || a == "-a"@
}

/// The arguments that the `history` builtin accepts: a flag with a file, a
/// count, or nothing.
pub open spec fn history_args_ok(args: Seq<Seq<char>>) -> bool {
    args.len() > 0 ==> if is_flag(args[0]) {
        args.len() >= 2
    } else {
        parse_count_spec(args[0]) is Some
    }
}

/// The index of the first entry that `history -a path` appends: the one
/// after the last `history -a path` command, searched for from the entry
/// before the last one, or 0.
pub open spec fn append_start(entries: Seq<Seq<char>>, path: Seq<char>) -> int {
    let start = if entries.len() >= 2 {
        entries.len() - 2
    } else {
        0
    };
    match reverse_search(entries, "history -a "@ + path, start) {
        Some(i) => i + 1,
        None => 0,
    }
}

proof fn lemma_last_occurrence_is_last(entries: Seq<Seq<char>>, term: Seq<char>, start: int)
    requires
        start < entries.len(),
    ensures
        last_occurrence(entries, term, start) >= 0 ==> occurs_in(
            term,
            entries[last_occurrence(entries, term, start)],
        ),
        forall|j: int|
            last_occurrence(entries, term, start) < j <= start ==> !occurs_in(
                term,
                #[trigger] entries[j],
            ),
    decreases start + 1,
{
    if start >= 0 && !occurs_in(term, entries[start]) {
        lemma_last_occurrence_is_last(entries, term, start - 1);
        lemma_last_occurrence_bounds(entries, term, start - 1);
    }
}

/// What `history -a path` appends: the entries after the last one, at or
/// before the entry before the last, in which the text `history -a path`
/// occurs, and all entries where there is none. An entry that does not hold
/// that text never bounds what is appended.
pub proof fn lemma_append_start_is_after_last_marker(entries: Seq<Seq<char>>, path: Seq<char>)
    ensures
        ({
            let term = "history -a "@ + path;
            let start = if entries.len() >= 2 {
                entries.len() - 2
            } else {
                0
            };
            let s = append_start(entries, path);
            &&& 0 <= s <= entries.len()
            &&& s > 0 ==> s - 1 <= start && occurs_in(term, entries[s - 1])
            &&& forall|j: int|
                s <= j <= start && j < entries.len() ==> !occurs_in(term, #[trigger] entries[j])
        }),
{
    reveal_strlit("history -a ");
    let term = "history -a "@ + path;
    let start = if entries.len() >= 2 {
        entries.len() - 2
    } else {
        0
    };
    assert(term.len() > 0);
    if start < entries.len() {
        lemma_last_occurrence_is_last(entries, term, start);
        lemma_last_occurrence_bounds(entries, term, start);
    }
}

/// The line that prints entry `i`: its number (counting from 1) and the entry.
pub open spec fn numbered_line(entries: Seq<Seq<char>>, i: int) -> Seq<char> {
    seq![' ', ' '] + decimal((i + 1) as nat) + seq![' '] + entries[i]
}

/// The lines that print the last `count` entries (all of them where there are fewer).
pub open spec fn listing_lines(entries: Seq<Seq<char>>, count: int) -> Seq<Seq<char>> {
    let shown = if count < entries.len() {
        count
    } else {
        entries.len() as int
    };
    let from = entries.len() - shown;
    Seq::new(shown as nat, |j: int| numbered_line(entries, from + j))
}

/// Printing with a count shows that many entries (all where there are
/// fewer), the last entry last, numbered with the number of entries.
pub proof fn lemma_listing_shows_last_entries(entries: Seq<Seq<char>>, count: int)
    requires
        count >= 0,
    ensures
        listing_lines(entries, count).len() == if count < entries.len() {
            count
        } else {
            entries.len() as int
        },
        count > 0 && entries.len() > 0 ==> listing_lines(entries, count).last() == seq![' ', ' ']
            + decimal(entries.len()) + seq![' '] + entries.last(),
{
    let l = listing_lines(entries, count);
    if count > 0 && entries.len() > 0 {
        assert(l.last() == l[l.len() - 1]);
        assert((entries.len() - 1 + 1) as nat == entries.len());
    }
}

/// Whether the arguments of the `history` builtin are ones it accepts.
pub fn history_args_valid(args: &Vec<String>) -> (b: bool)
    ensures
        b == history_args_ok(args.deep_view()),
{
    if args.len() == 0 {
        return true;
    }
    let first = chars_of(args[0].as_str());
    if flag_of(&first) != 0 {
        args.len() >= 2
    } else {
        parse_count(args[0].as_str()).is_some()
    }
}

/// Which flag an argument is: 1 for `-r`, 2 for `-w`, 3 for `-a`, 0 for none.
fn flag_of(a: &Vec<char>) -> (r: u8)
    ensures
        r == 1 <==> a@ == "-r"@,
        r == 2 <==> a@ == "-w"@,
        r == 3 <==> a@ == "-a"@,
        r == 0 <==> !is_flag(a@),
{
    proof {
        reveal_strlit("-r");
        reveal_strlit("-w");
        reveal_strlit("-a");
    }
    if a.len() == 2 && a[0] == '-' {
        if a[1] == 'r' {
            assert(a@ =~= "-r"@);
            return 1;
        } else if a[1] == 'w' {
            assert(a@ =~= "-w"@);
            return 2;
        } else if a[1] == 'a' {
            assert(a@ =~= "-a"@);
            return 3;
        }
        assert(a@[1] != "-r"@[1]);
        assert(a@[1] != "-w"@[1]);
        assert(a@[1] != "-a"@[1]);
        return 0;
    }
    if a.len() == 2 {
        assert(a@[0] != "-r"@[0]);
    }
    0
}

/// Decides what the `history` builtin does with its arguments: `-r file`
/// loads the history from the file, `-w file` writes all of it, `-a file`
/// appends the entries since the last `history -a file`, and otherwise it
/// prints the last `n` entries (all of them without a count), numbered
/// from 1.
pub fn plan_history(history: &FileHistory, args: &Vec<String>) -> (r: HistoryAction)
    requires
        history_args_ok(args.deep_view()),
    ensures
        ({
            let entries = history_contents(*history);
            let a = args.deep_view();
            if a.len() > 0 && a[0] == "-r"@ {
                r matches HistoryAction::Load { path } && path@ == a[1]
            } else if a.len() > 0 && a[0] == "-w"@ {
                r matches HistoryAction::Write { path, records } && path@ == a[1]
                    && records.deep_view() == entries
            } else if a.len() > 0 && a[0] == "-a"@ {
                r matches HistoryAction::Append { path, records } && path@ == a[1]
                    && records.deep_view() == entries.skip(append_start(entries, a[1]))
            } else {
                let count = if a.len() > 0 {
                    parse_count_spec(a[0])->0 as int
                } else {
                    entries.len() as int
                };
                r matches HistoryAction::Print { lines } && lines.deep_view() == listing_lines(
                    entries,
                    count,
                )
            }
        }),
{
    let records = history_records(history);
    let ghost entries = history_contents(*history);
    let flag = if args.len() > 0 {
        flag_of(&chars_of(args[0].as_str()))
    } else {
        0
    };
    if flag == 1 {
        return HistoryAction::Load { path: args[1].clone() };
    }
    if flag == 2 {
        return HistoryAction::Write { path: args[1].clone(), records };
    }
    if flag == 3 {
        let mut term = "history -a ".to_owned();
        term.append(args[1].as_str());
        let len = records.len();
        let start = if len >= 2 {
            len - 2
        } else {
            0
        };
        assert(records.deep_view().len() == records@.len());
        proof {
            lemma_last_occurrence_bounds(entries, term@, start as int);
        }
        let since = match search_back(history, term.as_str(), start) {
            Some(i) => i + 1,
            None => 0,
        };
        let all = chars_of_all(&records);
        assert(char_seqs(all@).len() == all@.len());
        let mut kept: Vec<Vec<char>> = Vec::new();
        let mut j = since;
        assert(since <= len);
        while j < len
            invariant
                since <= j <= len,
                len == all.len(),
                char_seqs(all@) == entries,
                char_seqs(kept@) == entries.subrange(since as int, j as int),
            decreases len - j,
        {
            let ghost prev = char_seqs(kept@);
            kept.push(copy_chars(&all[j]));
            assert(char_seqs(kept@) =~= prev.push(char_seqs(all@)[j as int]));
            j += 1;
            assert(char_seqs(kept@) =~= entries.subrange(since as int, j as int));
        }
        assert(entries.subrange(since as int, len as int) =~= entries.skip(since as int));
        return HistoryAction::Append { path: args[1].clone(), records: strings_of_all(&kept) };
    }
    let len = records.len();
    let count = if args.len() > 0 {
        match parse_count(args[0].as_str()) {
            Some(n) => n,
            None => len,
        }
    } else {
        len
    };
    let shown = if count < len {
        count
    } else {
        len
    };
    let from = len - shown;
    let all = chars_of_all(&records);
    assert(records.deep_view().len() == records@.len());
    assert(char_seqs(all@).len() == all@.len());
    let mut lines: Vec<Vec<char>> = Vec::new();
    assert(char_seqs(lines@) =~= Seq::new(0, |j: int| numbered_line(entries, from + j)));
    let mut i = from;
    while i < len
        invariant
            from <= i <= len,
            len == all.len(),
            shown == len - from,
            char_seqs(all@) == entries,
            char_seqs(lines@) == Seq::new((i - from) as nat, |j: int| numbered_line(entries, from + j)),
        decreases len - i,
    {
        let mut line = vec![' ', ' '];
        assert(line@ =~= seq![' ', ' ']);
        push_decimal(&mut line, i + 1);
        line.push(' ');
        assert(char_seqs(all@)[i as int] == all@[i as int]@);
        extend_chars(&mut line, &all[i]);
        assert(line@ =~= numbered_line(entries, i as int));
        let ghost prev = char_seqs(lines@);
        lines.push(line);
        assert(char_seqs(lines@) =~= prev.push(numbered_line(entries, i as int)));
        i += 1;
        assert(char_seqs(lines@) =~= Seq::new((i - from) as nat, |j: int| numbered_line(entries, from + j)));
    }
    HistoryAction::Print { lines: strings_of_all(&lines) }
}

} // verus!
