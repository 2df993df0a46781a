use vstd::prelude::*;

use crate::text::{
    blank, char_seqs, chars_of, copy_chars, extend_chars, is_blank, join_chars, join_with,
    same_chars, string_of, strings_of_all,
};

verus! {

// The checks file holds one check per line, written `name|command`.
/// A line ending's carriage return, which reading lines drops.
pub open spec fn strip_cr(l: Seq<char>) -> Seq<char> {
    if l.len() > 0 && l.last() == '\r' {
        l.drop_last()
    } else {
        l
    }
}

/// Reading a text up to its end: the lines ended so far, and the line under way.
pub open spec fn line_scan(s: Seq<char>) -> (Seq<Seq<char>>, Seq<char>)
    decreases s.len(),
{
    if s.len() == 0 {
        (seq![], seq![])
    } else {
        let (done, cur) = line_scan(s.drop_last());
        if s.last() == '\n' {
            (done.push(strip_cr(cur)), seq![])
        } else {
            (done, cur.push(s.last()))
        }
    }
}

/// The lines of a text (`str::lines`): split at each `\n`, a `\r` right
/// before a `\n` dropped, and no line after a final `\n`.
pub open spec fn text_lines(s: Seq<char>) -> Seq<Seq<char>> {
    let (done, cur) = line_scan(s);
    if cur.len() > 0 {
        done.push(cur)
    } else {
        done
    }
}

/// The text that `lines` joined by `\n`, with a final `\n`, makes.
pub open spec fn file_text(lines: Seq<Seq<char>>) -> Seq<char> {
    join_with(lines, seq!['\n']) + seq!['\n']
}

/// The position of the first `|` in a line, or -1 where there is none.
pub open spec fn bar_index(l: Seq<char>) -> int
    decreases l.len(),
{
    if l.len() == 0 {
        -1
    } else if bar_index(l.drop_last()) >= 0 {
        bar_index(l.drop_last())
    } else if l.last() == '|' {
        l.len() - 1
    } else {
        -1
    }
}

/// Whether a line is a check with the given name: its text before the first `|`.
pub open spec fn line_has_name(l: Seq<char>, name: Seq<char>) -> bool {
    bar_index(l) >= 0 && l.take(bar_index(l)) == name
}

/// The command of a check line: its text after the first `|`.
pub open spec fn entry_command(l: Seq<char>) -> Seq<char> {
    l.skip(bar_index(l) + 1)
}

/// The lines that saving a check keeps: those that are not blank and do not
/// name the check being saved.
pub open spec fn lines_kept_by_save(ls: Seq<Seq<char>>, name: Seq<char>) -> Seq<Seq<char>>
    decreases ls.len(),
{
    if ls.len() == 0 {
        seq![]
    } else {
        let rest = lines_kept_by_save(ls.drop_last(), name);
        if !is_blank(ls.last()) && !line_has_name(ls.last(), name) {
            rest.push(ls.last())
        } else {
            rest
        }
    }
}

/// The lines that deleting a check keeps: those that do not name it.
pub open spec fn lines_kept_by_delete(ls: Seq<Seq<char>>, name: Seq<char>) -> Seq<Seq<char>>
    decreases ls.len(),
{
    if ls.len() == 0 {
        seq![]
    } else {
        let rest = lines_kept_by_delete(ls.drop_last(), name);
        if !line_has_name(ls.last(), name) {
            rest.push(ls.last())
        } else {
            rest
        }
    }
}

/// The command of the first line that names the check, if a line does.
pub open spec fn find_entry(ls: Seq<Seq<char>>, name: Seq<char>) -> Option<Seq<char>>
    decreases ls.len(),
{
    if ls.len() == 0 {
        None
    } else {
        match find_entry(ls.drop_last(), name) {
            Some(c) => Some(c),
            None => if line_has_name(ls.last(), name) {
                Some(entry_command(ls.last()))
            } else {
                None
            },
        }
    }
}

/// The `name -> command` lines that listing shows, one per line that holds a `|`.
pub open spec fn listing(ls: Seq<Seq<char>>) -> Seq<Seq<char>>
    decreases ls.len(),
{
    if ls.len() == 0 {
        seq![]
    } else {
        let rest = listing(ls.drop_last());
        let l = ls.last();
        if bar_index(l) >= 0 {
            rest.push(l.take(bar_index(l)) + seq![' ', '-', '>', ' '] + entry_command(l))
        } else {
            rest
        }
    }
}

/// The checks file after saving the check `name` with `command`.
pub open spec fn saved_text(content: Seq<char>, name: Seq<char>, command: Seq<char>) -> Seq<char> {
    file_text(lines_kept_by_save(text_lines(content), name).push(name + seq!['|'] + command))
}

/// The checks file after deleting the check `name`.
pub open spec fn deleted_text(content: Seq<char>, name: Seq<char>) -> Seq<char> {
    file_text(lines_kept_by_delete(text_lines(content), name))
}

/// The command that the checks file holds for `name`: that of its first line
/// with this name.
pub open spec fn lookup_check(content: Seq<char>, name: Seq<char>) -> Option<Seq<char>> {
    find_entry(text_lines(content), name)
}

/// What listing the checks shows.
pub open spec fn checks_listing(content: Seq<char>) -> Seq<Seq<char>> {
    listing(text_lines(content))
}

/// A new checks file and the message that reports the change.
pub struct CheckUpdate {
    pub content: String,
    pub message: String,
}

/// The lines of a text.
pub fn split_lines(s: &str) -> (r: Vec<Vec<char>>)
    ensures
        char_seqs(r@) == text_lines(s@),
{
    let chars = chars_of(s);
    let mut done: Vec<Vec<char>> = Vec::new();
    let mut cur: Vec<char> = Vec::new();
    let mut i: usize = 0;
    while i < chars.len()
        invariant
            i <= chars.len(),
            chars@ == s@,
            line_scan(chars@.take(i as int)) == (char_seqs(done@), cur@),
        decreases chars.len() - i,
    {
        let c = chars[i];
        let ghost prev = chars@.take(i as int);
        let ghost prev_done = done@;
        if c == '\n' {
            let len = cur.len();
            if len > 0 && cur[len - 1] == '\r' {
                cur.pop();
            }
            done.push(cur);
            cur = Vec::new();
            assert(char_seqs(done@) =~= char_seqs(prev_done).push(strip_cr(line_scan(prev).1)));
        } else {
            cur.push(c);
        }
        i += 1;
        assert(chars@.take(i as int).drop_last() =~= prev);
    }
    assert(chars@.take(chars.len() as int) =~= chars@);
    if cur.len() > 0 {
        let ghost prev_done = done@;
        done.push(cur);
        assert(char_seqs(done@) =~= char_seqs(prev_done).push(line_scan(s@).1));
    }
    done
}

pub(crate) proof fn lemma_bar_index_bounds(l: Seq<char>)
    ensures
        -1 <= bar_index(l) < l.len(),
        bar_index(l) >= 0 ==> l[bar_index(l)] == '|',
        forall|j: int| 0 <= j < bar_index(l) ==> l[j] != '|',
        bar_index(l) < 0 ==> forall|j: int| 0 <= j < l.len() ==> l[j] != '|',
    decreases l.len(),
{
    if l.len() > 0 {
        lemma_bar_index_bounds(l.drop_last());
        assert(forall|j: int| 0 <= j < l.len() - 1 ==> l.drop_last()[j] == l[j]);
    }
}

/// The first `|` of a line is where the scan from the left meets one.
pub(crate) proof fn lemma_bar_index_first(l: Seq<char>, i: int)
    requires
        0 <= i < l.len(),
        l[i] == '|',
        forall|j: int| 0 <= j < i ==> l[j] != '|',
    ensures
        bar_index(l) == i,
    decreases l.len(),
{
    if i < l.len() - 1 {
        lemma_bar_index_first(l.drop_last(), i);
    } else {
        lemma_bar_index_bounds(l.drop_last());
    }
}

/// The position of the first `|` in a line.
fn bar_position(l: &Vec<char>) -> (r: Option<usize>)
    ensures
        r matches Some(k) ==> bar_index(l@) == k,
        r is None ==> bar_index(l@) == -1,
{
    let mut i: usize = 0;
    while i < l.len()
        invariant
            i <= l.len(),
            forall|j: int| 0 <= j < i ==> l@[j] != '|',
        decreases l.len() - i,
    {
        if l[i] == '|' {
            proof {
                lemma_bar_index_first(l@, i as int);
            }
            return Some(i);
        }
        i += 1;
    }
    proof {
        lemma_bar_index_bounds(l@);
    }
    None
}

/// The characters `from..` of `l`.
fn chars_from(l: &Vec<char>, from: usize) -> (r: Vec<char>)
    requires
        from <= l.len(),
    ensures
        r@ == l@.skip(from as int),
{
    let mut r: Vec<char> = Vec::new();
    let mut i = from;
    while i < l.len()
        invariant
            from <= i <= l.len(),
            r@ == l@.subrange(from as int, i as int),
        decreases l.len() - i,
    {
        r.push(l[i]);
        i += 1;
        assert(r@ =~= l@.subrange(from as int, i as int));
    }
    assert(r@ =~= l@.skip(from as int));
    r
}

/// The characters `..to` of `l`.
fn chars_to(l: &Vec<char>, to: usize) -> (r: Vec<char>)
    requires
        to <= l.len(),
    ensures
        r@ == l@.take(to as int),
{
    let mut r: Vec<char> = Vec::new();
    let mut i: usize = 0;
    while i < to
        invariant
            i <= to <= l.len(),
            r@ == l@.take(i as int),
        decreases to - i,
    {
        r.push(l[i]);
        i += 1;
        assert(r@ =~= l@.take(i as int));
    }
    r
}

/// Whether a line is a check with the given name.
fn names_check(l: &Vec<char>, name: &Vec<char>) -> (r: bool)
    ensures
        r == line_has_name(l@, name@),
{
    proof {
        lemma_bar_index_bounds(l@);
    }
    match bar_position(l) {
        None => false,
        Some(k) => {
            let prefix = chars_to(l, k);
            same_chars(&prefix, name)
        },
    }
}

/// The text of the given lines joined by `\n`, with a final `\n`.
fn file_chars(lines: &Vec<Vec<char>>) -> (r: Vec<char>)
    ensures
        r@ == file_text(char_seqs(lines@)),
{
    let sep = vec!['\n'];
    assert(sep@ =~= seq!['\n']);
    let mut r = join_chars(lines, &sep);
    r.push('\n');
    r
}

/// Saves the check named by the first argument with the command that the
/// other arguments, joined by spaces, make: `content` is the checks file
/// as it stands, and the result the file as it becomes, without blank
/// lines and with the new check as its last line in place of any earlier
/// check of that name.
pub fn save_check(args: &Vec<String>, content: &str) -> (r: Result<CheckUpdate, String>)
    ensures
        args.len() < 2 ==> (r matches Err(e) && e@ == "usage: savecheck <name> <command>"@),
        args.len() >= 2 && args[0]@.contains('|') ==> (r matches Err(e) && e@
            == "check name cannot contain |"@),
        args.len() >= 2 && !args[0]@.contains('|') ==> (r matches Ok(u) && u.content@
            == saved_text(content@, args[0]@, join_with(args.deep_view().skip(1), seq![' ']))
            && u.message@ == "saved check "@ + args[0]@),
{
    if args.len() < 2 {
        return Err("usage: savecheck <name> <command>".to_owned());
    }
    let name = chars_of(args[0].as_str());
    let mut rest: Vec<Vec<char>> = Vec::new();
    let mut i: usize = 1;
    while i < args.len()
        invariant
            1 <= i <= args.len(),
            char_seqs(rest@) == args.deep_view().subrange(1, i as int),
        decreases args.len() - i,
    {
        let ghost prev = rest@;
        let word = chars_of(args[i].as_str());
        rest.push(word);
        assert(args.deep_view()[i as int] == word@);
        i += 1;
        assert(char_seqs(rest@) =~= char_seqs(prev).push(word@));
        assert(char_seqs(rest@) =~= args.deep_view().subrange(1, i as int));
    }
    assert(args.deep_view().subrange(1, args.len() as int) =~= args.deep_view().skip(1));
    let space = vec![' '];
    assert(space@ =~= seq![' ']);
    let command = join_chars(&rest, &space);
    match bar_position(&name) {
        Some(_) => {
            proof {
                lemma_bar_index_bounds(name@);
            }
            return Err("check name cannot contain |".to_owned());
        },
        None => {},
    }
    proof {
        lemma_bar_index_bounds(name@);
    }
    let lines = split_lines(content);
    let mut kept: Vec<Vec<char>> = Vec::new();
    let mut j: usize = 0;
    while j < lines.len()
        invariant
            j <= lines.len(),
            char_seqs(kept@) == lines_kept_by_save(char_seqs(lines@).take(j as int), name@),
        decreases lines.len() - j,
    {
        let ghost prev = kept@;
        assert(char_seqs(lines@).take(j + 1).drop_last() =~= char_seqs(lines@).take(j as int));
        if !blank(&lines[j]) && !names_check(&lines[j], &name) {
            kept.push(copy_chars(&lines[j]));
            assert(char_seqs(kept@) =~= char_seqs(prev).push(lines@[j as int]@));
        }
        j += 1;
    }
    assert(char_seqs(lines@).take(lines.len() as int) =~= char_seqs(lines@));
    let mut entry = copy_chars(&name);
    entry.push('|');
    assert(entry@ =~= name@ + seq!['|']);
    extend_chars(&mut entry, &command);
    assert(entry@ =~= name@ + seq!['|'] + command@);
    let ghost prev = kept@;
    kept.push(entry);
    assert(char_seqs(kept@) =~= char_seqs(prev).push(name@ + seq!['|'] + command@));
    let text = file_chars(&kept);
    let mut message = "saved check ".to_owned();
    message.append(args[0].as_str());
    Ok(CheckUpdate { content: string_of(&text), message })
}

/// Lists the checks of a checks file, one `name -> command` line for each
/// line that holds a `|`.
pub fn list_checks(content: &str) -> (r: Vec<String>)
    ensures
        r.deep_view() == checks_listing(content@),
{
    let lines = split_lines(content);
    let mut out: Vec<Vec<char>> = Vec::new();
    let mut j: usize = 0;
    while j < lines.len()
        invariant
            j <= lines.len(),
            char_seqs(out@) == listing(char_seqs(lines@).take(j as int)),
        decreases lines.len() - j,
    {
        let ghost prev = out@;
        assert(char_seqs(lines@).take(j + 1).drop_last() =~= char_seqs(lines@).take(j as int));
        match bar_position(&lines[j]) {
            Some(k) => {
                proof {
                    lemma_bar_index_bounds(lines@[j as int]@);
                }
                let ghost l = lines@[j as int]@;
                assert(bar_index(l) == k);
                assert(k < lines[j as int]@.len());
                let mut item = chars_to(&lines[j], k);
                item.push(' ');
                item.push('-');
                item.push('>');
                item.push(' ');
                assert(item@ =~= l.take(k as int) + seq![' ', '-', '>', ' ']);
                let cmd = chars_from(&lines[j], k + 1);
                assert(cmd@ == entry_command(l));
                extend_chars(&mut item, &cmd);
                out.push(item);
                assert(char_seqs(out@) =~= char_seqs(prev).push(
                    lines@[j as int]@.take(k as int) + seq![' ', '-', '>', ' '] + entry_command(
                        lines@[j as int]@,
                    ),
                ));
            },
            None => {},
        }
        j += 1;
    }
    assert(char_seqs(lines@).take(lines.len() as int) =~= char_seqs(lines@));
    strings_of_all(&out)
}

/// Once a prefix of the lines holds the check, so does the whole file, with the same command.
proof fn lemma_find_entry_prefix(ls: Seq<Seq<char>>, name: Seq<char>, k: int)
    requires
        0 <= k <= ls.len(),
        find_entry(ls.take(k), name) is Some,
    ensures
        find_entry(ls, name) == find_entry(ls.take(k), name),
    decreases ls.len(),
{
    if k < ls.len() {
        assert(ls.drop_last().take(k) =~= ls.take(k));
        lemma_find_entry_prefix(ls.drop_last(), name, k);
    } else {
        assert(ls.take(k) =~= ls);
    }
}

/// Deletes the check named by the first argument: every line of that name
/// leaves the checks file. Fails where no line has that name.
pub fn delete_check(args: &Vec<String>, content: &str) -> (r: Result<CheckUpdate, String>)
    ensures
        args.len() == 0 ==> (r matches Err(e) && e@ == "usage: delcheck <name>"@),
        args.len() > 0 && lookup_check(content@, args[0]@) is None ==> (r matches Err(e) && e@
            == "check "@ + args[0]@ + " not found"@),
        args.len() > 0 && lookup_check(content@, args[0]@) is Some ==> (r matches Ok(u)
            && u.content@ == deleted_text(content@, args[0]@) && u.message@ == "deleted check "@
            + args[0]@),
{
    if args.len() == 0 {
        return Err("usage: delcheck <name>".to_owned());
    }
    let name = chars_of(args[0].as_str());
    let lines = split_lines(content);
    let mut kept: Vec<Vec<char>> = Vec::new();
    let mut found = false;
    let mut j: usize = 0;
    while j < lines.len()
        invariant
            j <= lines.len(),
            name@ == args[0]@,
            char_seqs(kept@) == lines_kept_by_delete(char_seqs(lines@).take(j as int), name@),
            found == find_entry(char_seqs(lines@).take(j as int), name@) is Some,
        decreases lines.len() - j,
    {
        let ghost prev = kept@;
        assert(char_seqs(lines@).take(j + 1).drop_last() =~= char_seqs(lines@).take(j as int));
        if names_check(&lines[j], &name) {
            found = true;
        } else {
            kept.push(copy_chars(&lines[j]));
            assert(char_seqs(kept@) =~= char_seqs(prev).push(lines@[j as int]@));
        }
        j += 1;
    }
    assert(char_seqs(lines@).take(lines.len() as int) =~= char_seqs(lines@));
    if !found {
        let mut e = "check ".to_owned();
        e.append(args[0].as_str());
        e.append(" not found");
        return Err(e);
    }
    let text = file_chars(&kept);
    let mut message = "deleted check ".to_owned();
    message.append(args[0].as_str());
    Ok(CheckUpdate { content: string_of(&text), message })
}

/// The position of the first line that names the check.
fn first_named(lines: &Vec<Vec<char>>, name: &Vec<char>) -> (r: Option<usize>)
    ensures
        r matches Some(j) ==> j < lines.len() && line_has_name(lines@[j as int]@, name@)
            && find_entry(char_seqs(lines@).take(j as int), name@) is None,
        r is None ==> find_entry(char_seqs(lines@), name@) is None,
{
    let mut j: usize = 0;
    while j < lines.len()
        invariant
            j <= lines.len(),
            find_entry(char_seqs(lines@).take(j as int), name@) is None,
        decreases lines.len() - j,
    {
        assert(char_seqs(lines@).take(j + 1).drop_last() =~= char_seqs(lines@).take(j as int));
        if names_check(&lines[j], name) {
            return Some(j);
        }
        j += 1;
    }
    assert(char_seqs(lines@).take(lines.len() as int) =~= char_seqs(lines@));
    None
}

/// The command of the check named by the first argument: that of the first
/// line with this name. Fails where there is no such line, or where its
/// command is empty.
pub fn find_check(args: &Vec<String>, content: &str) -> (r: Result<String, String>)
    ensures
        args.len() == 0 ==> (r matches Err(e) && e@ == "usage: runcheck <name>"@),
        args.len() > 0 ==> match lookup_check(content@, args[0]@) {
            Some(c) if c.len() > 0 => r matches Ok(cmd) && cmd@ == c,
            _ => r matches Err(e) && e@ == "check "@ + args[0]@ + " not found"@,
        },
{
    if args.len() == 0 {
        return Err("usage: runcheck <name>".to_owned());
    }
    let name = chars_of(args[0].as_str());
    let lines = split_lines(content);
    let command = match first_named(&lines, &name) {
        Some(j) => {
            let ghost l = lines@[j as int]@;
            proof {
                lemma_bar_index_bounds(l);
                lemma_find_entry_prefix(char_seqs(lines@), name@, j + 1);
                assert(char_seqs(lines@).take(j + 1).drop_last() =~= char_seqs(lines@).take(
                    j as int,
                ));
            }
            let k = match bar_position(&lines[j]) {
                Some(k) => k,
                None => 0,
            };
            let len = lines[j].len();
            assert(k < len);
            chars_from(&lines[j], k + 1)
        },
        None => Vec::new(),
    };
    if command.len() == 0 {
        let mut e = "check ".to_owned();
        e.append(args[0].as_str());
        e.append(" not found");
        return Err(e);
    }
    Ok(string_of(&command))
}

} // verus!
