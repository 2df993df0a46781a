use vstd::prelude::*;

use crate::order::{sort_stable, sort_unique, sorted, strictly_sorted};
use crate::text::{
    lemma_concat_contains, lemma_push_contains, char_seqs, chars_of, chars_of_all, copy_chars, extend_chars, is_blank, is_space_char,
    string_of, strings_of_all,
};

verus! {

/// The names of the shell's builtin commands.
pub open spec fn builtin_names() -> Seq<Seq<char>> {
    seq![
        "cd"@,
        "echo"@,
        "exit"@,
        "pwd"@,
        "type"@,
        "history"@,
        "jobs"@,
        "savecheck"@,
        "runcheck"@,
        "listchecks"@,
        "delcheck"@,
    ]
}

/// The names of the shell's builtin commands, in the order the shell lists them.
pub fn builtin_list() -> (r: Vec<String>)
    ensures
        r.deep_view() == builtin_names(),
{
    let r = vec![
        "cd".to_owned(),
        "echo".to_owned(),
        "exit".to_owned(),
        "pwd".to_owned(),
        "type".to_owned(),
        "history".to_owned(),
        "jobs".to_owned(),
        "savecheck".to_owned(),
        "runcheck".to_owned(),
        "listchecks".to_owned(),
        "delcheck".to_owned(),
    ];
    assert(r.deep_view() =~= builtin_names());
    r
}

/// The number of bytes that the UTF-8 encoding of `c` takes.
pub open spec fn char_width(c: char) -> nat {
    if (c as u32) < 0x80 {
        1
    } else if (c as u32) < 0x800 {
        2
    } else if (c as u32) < 0x10000 {
        3
    } else {
        4
    }
}

/// The number of bytes that the UTF-8 encoding of `s` takes.
pub open spec fn utf8_len(s: Seq<char>) -> nat
    decreases s.len(),
{
    if s.len() == 0 {
        0
    } else {
        utf8_len(s.drop_last()) + char_width(s.last())
    }
}

/// Whether byte offset `pos` of the text `s` falls between two characters.
pub open spec fn is_char_offset(s: Seq<char>, pos: int) -> bool {
    exists|k: int| 0 <= k <= s.len() && utf8_len(s.take(k)) == pos
}

/// Where the word that ends at character `k` of `s` starts: right after the
/// last space before `k`, or at 0.
pub open spec fn word_start(s: Seq<char>, k: int) -> int
    decreases k,
{
    if k <= 0 {
        0
    } else if s[k - 1] == ' ' {
        k
    } else {
        word_start(s, k - 1)
    }
}

proof fn lemma_word_start_bounds(s: Seq<char>, k: int)
    requires
        0 <= k <= s.len(),
    ensures
        0 <= word_start(s, k) <= k,
    decreases k,
{
    if k > 0 {
        lemma_word_start_bounds(s, k - 1);
    }
}

proof fn lemma_utf8_len_step(s: Seq<char>, i: int)
    requires
        0 <= i < s.len(),
    ensures
        utf8_len(s.take(i + 1)) == utf8_len(s.take(i)) + char_width(s[i]),
{
    assert(s.take(i + 1).drop_last() =~= s.take(i));
}

/// Byte offsets grow with character offsets.
proof fn lemma_utf8_len_increasing(s: Seq<char>, i: int, j: int)
    requires
        0 <= i < j <= s.len(),
    ensures
        utf8_len(s.take(i)) < utf8_len(s.take(j)),
    decreases j - i,
{
    lemma_utf8_len_step(s, j - 1);
    if i < j - 1 {
        lemma_utf8_len_increasing(s, i, j - 1);
    }
}

proof fn lemma_char_offset_unique(s: Seq<char>, i: int, j: int)
    requires
        0 <= i <= s.len(),
        0 <= j <= s.len(),
        utf8_len(s.take(i)) == utf8_len(s.take(j)),
    ensures
        i == j,
{
    if i < j {
        lemma_utf8_len_increasing(s, i, j);
    } else if j < i {
        lemma_utf8_len_increasing(s, j, i);
    }
}

/// Whether a character ends a word for completion: a space.
pub fn is_word_break(c: char) -> (b: bool)
    ensures
        b == (c == ' '),
{
    c == ' '
}

/// The word before byte offset `pos` of `line`, and the byte offset where it starts.
///
/// Trusted: calls `rustyline::completion::extract_word` with no escape
/// character and the space as the only break character. Its source slices
/// `line` up to `pos` (which panics unless `pos` falls between two
/// characters), looks backwards for the last space, and returns the offset
/// right after it (or 0) with the text from there up to `pos`.
#[verifier::external_body]
fn extract_word_at<'a>(line: &'a str, pos: usize) -> (r: (usize, &'a str))
    requires
        is_char_offset(line@, pos as int),
    ensures
        forall|k: int|
            0 <= k <= line@.len() && utf8_len(line@.take(k)) == pos ==> {
                &&& r.0 == utf8_len(line@.take(word_start(line@, k)))
                &&& r.1@ == line@.subrange(word_start(line@, k), k)
            },
{
    rustyline::completion::extract_word(line, pos, None, is_word_break)
}

/// What is being completed: the word before the cursor, the byte offset where
/// it starts, and whether it is the line's first word (only white space
/// before it).
pub struct CompletionTarget {
    pub start: usize,
    pub word: String,
    pub first_word: bool,
}

/// The number of bytes that the UTF-8 encoding of `c` takes.
fn width_of(c: char) -> (n: usize)
    ensures
        n == char_width(c),
{
    let u = c as u32;
    if u < 0x80 {
        1
    } else if u < 0x800 {
        2
    } else if u < 0x10000 {
        3
    } else {
        4
    }
}

/// Finds the word to complete in `line` with the cursor at byte offset `pos`.
pub fn completion_target(line: &str, pos: usize) -> (r: CompletionTarget)
    requires
        is_char_offset(line@, pos as int),
    ensures
        forall|k: int|
            0 <= k <= line@.len() && utf8_len(line@.take(k)) == pos ==> {
                &&& r.start == utf8_len(line@.take(word_start(line@, k)))
                &&& r.word@ == line@.subrange(word_start(line@, k), k)
                &&& r.first_word == is_blank(line@.take(word_start(line@, k)))
            },
{
    let (start, word) = extract_word_at(line, pos);
    let ghost k = choose|k: int| 0 <= k <= line@.len() && utf8_len(line@.take(k)) == pos;
    let ghost ws = word_start(line@, k);
    proof {
        lemma_word_start_bounds(line@, k);
    }
    let chars = chars_of(line);
    let mut i: usize = 0;
    let mut offset: usize = 0;
    let mut all_space = true;
    assert(line@.take(0) =~= Seq::<char>::empty());
    while offset < start
        invariant
            chars@ == line@,
            0 <= ws <= line@.len(),
            start == utf8_len(line@.take(ws)),
            i <= ws,
            offset == utf8_len(line@.take(i as int)),
            all_space == is_blank(line@.take(i as int)),
        decreases ws - i,
    {
        assert(i < ws);
        let c = chars[i];
        proof {
            lemma_utf8_len_step(line@, i as int);
            if i + 1 < ws {
                lemma_utf8_len_increasing(line@, i as int + 1, ws);
            }
        }
        assert(i < chars.len());
        if !is_space_char(c) {
            all_space = false;
        }
        offset = offset + width_of(c);
        i += 1;
        assert(line@.take(i as int) =~= line@.take(i - 1).push(c));
    }
    proof {
        if (i as int) < ws {
            lemma_utf8_len_increasing(line@, i as int, ws);
        }
    }
    assert forall|k2: int|
        0 <= k2 <= line@.len() && utf8_len(line@.take(k2)) == pos implies k2 == k by {
        lemma_char_offset_unique(line@, k, k2);
    }
    CompletionTarget { start, word: word.to_owned(), first_word: all_space }
}

/// Where the last `/` of a word stands, or -1 where it has none.
pub open spec fn last_slash(w: Seq<char>) -> int
    decreases w.len(),
{
    if w.len() == 0 {
        -1
    } else if w.last() == '/' {
        w.len() - 1
    } else {
        last_slash(w.drop_last())
    }
}

proof fn lemma_last_slash_bounds(w: Seq<char>)
    ensures
        -1 <= last_slash(w) < w.len(),
    decreases w.len(),
{
    if w.len() > 0 {
        lemma_last_slash_bounds(w.drop_last());
    }
}

/// A path word split after its last `/`: the directory part (empty where
/// there is no `/`), and the start of the file name.
pub fn split_path_word(word: &str) -> (r: (String, String))
    ensures
        r.0@ == word@.take(last_slash(word@) + 1),
        r.1@ == word@.skip(last_slash(word@) + 1),
{
    let chars = chars_of(word);
    let mut i = chars.len();
    assert(word@.take(chars.len() as int) =~= word@);
    while i > 0 && chars[i - 1] != '/'
        invariant
            i <= chars.len(),
            chars@ == word@,
            last_slash(word@) == last_slash(word@.take(i as int)),
        decreases i,
    {
        assert(word@.take(i as int).drop_last() =~= word@.take(i - 1));
        i -= 1;
    }
    proof {
        if i > 0 {
            assert(word@.take(i as int).last() == '/');
        }
        assert(word@.take(0) =~= Seq::<char>::empty());
    }
    let mut base: Vec<char> = Vec::new();
    let mut j: usize = 0;
    while j < i
        invariant
            j <= i <= chars.len(),
            base@ == chars@.take(j as int),
        decreases i - j,
    {
        base.push(chars[j]);
        j += 1;
        assert(base@ =~= chars@.take(j as int));
    }
    let mut rest: Vec<char> = Vec::new();
    let mut j2 = i;
    while j2 < chars.len()
        invariant
            i <= j2 <= chars.len(),
            rest@ == chars@.subrange(i as int, j2 as int),
        decreases chars.len() - j2,
    {
        rest.push(chars[j2]);
        j2 += 1;
        assert(rest@ =~= chars@.subrange(i as int, j2 as int));
    }
    assert(rest@ =~= chars@.skip(i as int));
    (string_of(&base), string_of(&rest))
}

/// Whether `w` begins `c`.
fn begins_with(c: &Vec<char>, w: &Vec<char>) -> (r: bool)
    ensures
        r == w@.is_prefix_of(c@),
{
    if w.len() > c.len() {
        return false;
    }
    let mut i: usize = 0;
    while i < w.len()
        invariant
            w.len() <= c.len(),
            i <= w.len(),
            forall|j: int| 0 <= j < i ==> w@[j] == c@[j],
        decreases w.len() - i,
    {
        if w[i] != c[i] {
            assert(w@ != c@.subrange(0, w@.len() as int));
            return false;
        }
        i += 1;
    }
    assert(w@ =~= c@.subrange(0, w@.len() as int));
    true
}

/// Appends to `matches` each string of `from` that `w` begins.
fn collect_matching(matches: &mut Vec<Vec<char>>, from: &Vec<Vec<char>>, w: &Vec<char>)
    ensures
        forall|x: Seq<char>|
            #[trigger] char_seqs(final(matches)@).contains(x) <==> (char_seqs(
                old(matches)@,
            ).contains(x) || (char_seqs(from@).contains(x) && w@.is_prefix_of(x))),
{
    let ghost start = char_seqs(matches@);
    let mut i: usize = 0;
    while i < from.len()
        invariant
            i <= from.len(),
            start == char_seqs(old(matches)@),
            forall|x: Seq<char>|
                char_seqs(matches@).contains(x) <==> (start.contains(x) || (char_seqs(
                    from@,
                ).take(i as int).contains(x) && w@.is_prefix_of(x))),
        decreases from.len() - i,
    {
        let c = &from[i];
        let ghost prev = char_seqs(matches@);
        let ghost pre = char_seqs(from@).take(i as int);
        assert(char_seqs(from@).take(i + 1) =~= pre.push(c@));
        if begins_with(c, w) {
            matches.push(copy_chars(c));
            assert(char_seqs(matches@) =~= prev.push(c@));
        }
        assert forall|x: Seq<char>|
            #[trigger] char_seqs(matches@).contains(x) <==> (start.contains(x) || (char_seqs(
                from@,
            ).take(i + 1).contains(x) && w@.is_prefix_of(x))) by {
            lemma_push_contains(pre, c@, x);
            lemma_push_contains(prev, c@, x);
        }
        i += 1;
    }
    assert(char_seqs(from@).take(from.len() as int) =~= char_seqs(from@));
    assert forall|x: Seq<char>|
        #[trigger] char_seqs(matches@).contains(x) <==> (start.contains(x) || (char_seqs(
            from@,
        ).contains(x) && w@.is_prefix_of(x))) by {}
}

/// A directory entry, as path completion sees it.
pub struct DirEntryName {
    pub name: String,
    pub is_dir: bool,
}

/// The text that completing a directory entry puts in place of the word: the
/// directory part and the entry's name, then `/` after a directory or a space
/// after anything else, unless the text already ends that way.
pub open spec fn path_replacement(base: Seq<char>, name: Seq<char>, is_dir: bool) -> Seq<char> {
    let r = base + name;
    if is_dir {
        if r.len() > 0 && r.last() == '/' {
            r
        } else {
            r.push('/')
        }
    } else {
        if r.len() > 0 && r.last() == ' ' {
            r
        } else {
            r.push(' ')
        }
    }
}

/// The replacements for the entries whose name begins with `prefix`, in the entries' order.
pub open spec fn path_matches(base: Seq<char>, prefix: Seq<char>, entries: Seq<DirEntryName>) -> Seq<
    Seq<char>,
>
    decreases entries.len(),
{
    if entries.len() == 0 {
        seq![]
    } else {
        let rest = path_matches(base, prefix, entries.drop_last());
        let e = entries.last();
        if prefix.is_prefix_of(e.name@) {
            rest.push(path_replacement(base, e.name@, e.is_dir))
        } else {
            rest
        }
    }
}

/// A replacement is the directory part followed by the entry's name, and at
/// most one more character: `/` at the end for a directory, a space for
/// anything else.
pub proof fn lemma_path_replacement_shape(base: Seq<char>, name: Seq<char>, is_dir: bool)
    ensures
        (base + name).is_prefix_of(path_replacement(base, name, is_dir)),
        path_replacement(base, name, is_dir).len() <= base.len() + name.len() + 1,
        is_dir ==> path_replacement(base, name, is_dir).last() == '/',
        !is_dir ==> path_replacement(base, name, is_dir).last() == ' ',
{
    let r = base + name;
    assert(r =~= r.subrange(0, r.len() as int));
    assert(r.push('/').subrange(0, r.len() as int) =~= r);
    assert(r.push(' ').subrange(0, r.len() as int) =~= r);
}

/// The completions of a path are exactly the replacements of the entries
/// whose name the typed prefix begins: each completion comes from such an
/// entry, and each such entry gives one.
pub proof fn lemma_path_matches_are_matching_entries(
    base: Seq<char>,
    prefix: Seq<char>,
    entries: Seq<DirEntryName>,
)
    ensures
        forall|x: Seq<char>|
            #[trigger] path_matches(base, prefix, entries).contains(x) <==> exists|i: int|
                0 <= i < entries.len() && prefix.is_prefix_of(entries[i].name@) && x
                    == path_replacement(base, entries[i].name@, entries[i].is_dir),
    decreases entries.len(),
{
    if entries.len() > 0 {
        let front = entries.drop_last();
        lemma_path_matches_are_matching_entries(base, prefix, front);
        let rest = path_matches(base, prefix, front);
        let e = entries.last();
        let last_r = path_replacement(base, e.name@, e.is_dir);
        assert forall|x: Seq<char>|
            #[trigger] path_matches(base, prefix, entries).contains(x) <==> exists|i: int|
                0 <= i < entries.len() && prefix.is_prefix_of(entries[i].name@) && x
                    == path_replacement(base, entries[i].name@, entries[i].is_dir) by {
            if prefix.is_prefix_of(e.name@) {
                lemma_push_contains(rest, last_r, x);
            }
            if rest.contains(x) {
                let i = choose|i: int|
                    0 <= i < front.len() && prefix.is_prefix_of(front[i].name@) && x
                        == path_replacement(base, front[i].name@, front[i].is_dir);
                assert(entries[i] == front[i]);
            }
            if exists|i: int|
                0 <= i < entries.len() && prefix.is_prefix_of(entries[i].name@) && x
                    == path_replacement(base, entries[i].name@, entries[i].is_dir) {
                let i = choose|i: int|
                    0 <= i < entries.len() && prefix.is_prefix_of(entries[i].name@) && x
                        == path_replacement(base, entries[i].name@, entries[i].is_dir);
                if i < front.len() {
                    assert(entries[i] == front[i]);
                    assert(rest.contains(x));
                } else {
                    assert(entries[i] == e);
                }
            }
        }
    }
}

/// The completions of a path word whose directory part is `base_dir` and
/// whose file name begins with `prefix`, among the entries of that directory:
/// the replacement for each matching entry, sorted.
pub fn path_completions(base_dir: &str, prefix: &str, entries: &Vec<DirEntryName>) -> (r: Vec<
    String,
>)
    ensures
        sorted(r.deep_view()),
        r.deep_view().to_multiset() == path_matches(base_dir@, prefix@, entries@).to_multiset(),
        forall|x: Seq<char>|
            #[trigger] r.deep_view().contains(x) <==> exists|i: int|
                0 <= i < entries@.len() && prefix@.is_prefix_of(entries@[i].name@) && x
                    == path_replacement(base_dir@, entries@[i].name@, entries@[i].is_dir),
{
    let base = chars_of(base_dir);
    let pre = chars_of(prefix);
    let mut found: Vec<Vec<char>> = Vec::new();
    let mut i: usize = 0;
    while i < entries.len()
        invariant
            i <= entries.len(),
            base@ == base_dir@,
            pre@ == prefix@,
            char_seqs(found@) == path_matches(base_dir@, prefix@, entries@.take(i as int)),
        decreases entries.len() - i,
    {
        let e = &entries[i];
        let name = chars_of(e.name.as_str());
        assert(entries@.take(i + 1).drop_last() =~= entries@.take(i as int));
        assert(entries@.take(i + 1).last() == entries@[i as int]);
        if begins_with(&name, &pre) {
            let mut r = copy_chars(&base);
            extend_chars(&mut r, &name);
            let n = r.len();
            if e.is_dir {
                if !(n > 0 && r[n - 1] == '/') {
                    r.push('/');
                }
            } else {
                if !(n > 0 && r[n - 1] == ' ') {
                    r.push(' ');
                }
            }
            assert(r@ == path_replacement(base_dir@, e.name@, e.is_dir));
            let ghost prev = found@;
            found.push(r);
            assert(char_seqs(found@) =~= char_seqs(prev).push(r@));
        }
        i += 1;
    }
    assert(entries@.take(entries.len() as int) =~= entries@);
    let sorted_found = sort_stable(&found);
    let r = strings_of_all(&sorted_found);
    proof {
        lemma_path_matches_are_matching_entries(base_dir@, prefix@, entries@);
        let m = path_matches(base_dir@, prefix@, entries@);
        assert forall|x: Seq<char>| #[trigger] r.deep_view().contains(x) <==> m.contains(x) by {
            vstd::seq_lib::to_multiset_contains(r.deep_view(), x);
            vstd::seq_lib::to_multiset_contains(m, x);
        }
    }
    r
}

/// Each string without its last character (a command completion without its final space).
pub open spec fn without_last(s: Seq<Seq<char>>) -> Seq<Seq<char>> {
    s.map_values(|x: Seq<char>| x.drop_last())
}

/// The shell's completion state: the executables found on the search path.
pub struct ShellHelper {
    path_executables: Vec<String>,
}

impl ShellHelper {
    /// The executables that this helper completes, without repeats and in order.
    pub closed spec fn executables(&self) -> Seq<Seq<char>> {
        self.path_executables.deep_view()
    }

    /// A helper for the executables found on the search path: their names,
    /// sorted and without repeats.
    pub fn new(found: Vec<String>) -> (h: ShellHelper)
        ensures
            strictly_sorted(h.executables()),
            forall|x: Seq<char>| h.executables().contains(x) <==> found.deep_view().contains(x),
    {
        let chars = chars_of_all(&found);
        let unique = sort_unique(&chars);
        ShellHelper { path_executables: strings_of_all(&unique) }
    }

    /// The completions of a command name that begins with `word`: each
    /// builtin or executable that `word` begins, once, in order, followed by
    /// a space.
    pub fn command_completions(&self, word: &str) -> (r: Vec<String>)
        ensures
            forall|i: int|
                0 <= i < r.len() ==> #[trigger] r.deep_view()[i].len() > 0
                    && r.deep_view()[i].last() == ' ',
            strictly_sorted(without_last(r.deep_view())),
            forall|x: Seq<char>|
                without_last(r.deep_view()).contains(x) <==> ((builtin_names()
                    + self.executables()).contains(x) && word@.is_prefix_of(x)),
    {
        let w = chars_of(word);
        let builtins = chars_of_all(&builtin_list());
        let execs = chars_of_all(&self.path_executables);
        let mut matches: Vec<Vec<char>> = Vec::new();
        assert(char_seqs(matches@) =~= Seq::<Seq<char>>::empty());
        collect_matching(&mut matches, &builtins, &w);
        let ghost m1 = char_seqs(matches@);
        collect_matching(&mut matches, &execs, &w);
        assert(char_seqs(builtins@) == builtin_names());
        assert(char_seqs(execs@) == self.executables());
        assert forall|x: Seq<char>|
            #[trigger] char_seqs(matches@).contains(x) <==> ((builtin_names()
                + self.executables()).contains(x) && word@.is_prefix_of(x)) by {
            lemma_concat_contains(builtin_names(), self.executables(), x);
            assert(m1.contains(x) <==> (char_seqs(builtins@).contains(x) && w@.is_prefix_of(x)));
        }
        let unique = sort_unique(&matches);
        let mut out: Vec<Vec<char>> = Vec::new();
        let mut j: usize = 0;
        while j < unique.len()
            invariant
                j <= unique.len(),
                out@.len() == j,
                forall|q: int|
                    0 <= q < j ==> #[trigger] out@[q]@ == unique@[q]@.push(' '),
            decreases unique.len() - j,
        {
            let mut item = copy_chars(&unique[j]);
            item.push(' ');
            out.push(item);
            j += 1;
        }
        let r = strings_of_all(&out);
        assert(without_last(r.deep_view()) =~= char_seqs(unique@)) by {
            assert forall|q: int| 0 <= q < unique.len() implies without_last(r.deep_view())[q]
                == char_seqs(unique@)[q] by {
                assert(out@[q]@.drop_last() =~= unique@[q]@);
            }
        }
        assert forall|q: int| 0 <= q < r.len() implies #[trigger] r.deep_view()[q].len() > 0
            && r.deep_view()[q].last() == ' ' by {
            assert(r.deep_view()[q] == out@[q]@);
        }
        r
    }
}

} // verus!
