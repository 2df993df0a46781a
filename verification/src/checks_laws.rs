use vstd::prelude::*;

use crate::checks::{
    lemma_bar_index_bounds, lemma_bar_index_first, bar_index, checks_listing, deleted_text, entry_command, file_text, find_entry, line_has_name,
    line_scan, lines_kept_by_delete, lines_kept_by_save, lookup_check, saved_text,
    strip_cr, text_lines,
};
use crate::text::{is_blank, join_with};

verus! {

/// No line that deleting the check `name` keeps ends in a carriage return.
pub open spec fn delete_kept_lines_end_clean(content: Seq<char>, name: Seq<char>) -> bool {
    forall|i: int|
        0 <= i < lines_kept_by_delete(text_lines(content), name).len() ==> strip_cr(
            #[trigger] lines_kept_by_delete(text_lines(content), name)[i],
        ) == lines_kept_by_delete(text_lines(content), name)[i]
}

/// No line that saving the check `name` keeps ends in a carriage return
/// (lines of that name, and blank lines, may).
pub open spec fn kept_lines_end_clean(content: Seq<char>, name: Seq<char>) -> bool {
    forall|i: int|
        0 <= i < lines_kept_by_save(text_lines(content), name).len() ==> strip_cr(
            #[trigger] lines_kept_by_save(text_lines(content), name)[i],
        ) == lines_kept_by_save(text_lines(content), name)[i]
}

pub open spec fn no_newline(s: Seq<char>) -> bool {
    !s.contains('\n')
}

pub open spec fn all_without_newline(ls: Seq<Seq<char>>) -> bool {
    forall|i: int| 0 <= i < ls.len() ==> no_newline(#[trigger] ls[i])
}

pub open spec fn none_named(ls: Seq<Seq<char>>, name: Seq<char>) -> bool {
    forall|i: int| 0 <= i < ls.len() ==> !line_has_name(#[trigger] ls[i], name)
}

pub open spec fn strip_all(ls: Seq<Seq<char>>) -> Seq<Seq<char>> {
    ls.map_values(|l: Seq<char>| strip_cr(l))
}

proof fn lemma_scan_no_newline(a: Seq<char>, w: Seq<char>)
    requires
        no_newline(w),
    ensures
        line_scan(a + w) == (line_scan(a).0, line_scan(a).1 + w),
    decreases w.len(),
{
    if w.len() == 0 {
        assert(a + w =~= a);
        assert(line_scan(a).1 + w =~= line_scan(a).1);
    } else {
        assert(no_newline(w.drop_last())) by {
            if w.drop_last().contains('\n') {
                let i = choose|i: int| 0 <= i < w.drop_last().len() && w.drop_last()[i] == '\n';
                assert(w[i] == '\n');
            }
        }
        lemma_scan_no_newline(a, w.drop_last());
        assert((a + w).drop_last() =~= a + w.drop_last());
        assert(w.last() != '\n') by {
            assert(w[w.len() - 1] == w.last());
        }
        assert(line_scan(a).1 + w =~= (line_scan(a).1 + w.drop_last()).push(w.last()));
    }
}

proof fn lemma_scan_newline(a: Seq<char>)
    ensures
        line_scan(a + seq!['\n']) == (line_scan(a).0.push(strip_cr(line_scan(a).1)), Seq::<
            char,
        >::empty()),
{
    assert((a + seq!['\n']).drop_last() =~= a);
}

proof fn lemma_scan_joined(ls: Seq<Seq<char>>)
    requires
        ls.len() > 0,
        all_without_newline(ls),
    ensures
        line_scan(join_with(ls, seq!['\n'])) == (strip_all(ls.drop_last()), ls.last()),
    decreases ls.len(),
{
    if ls.len() == 1 {
        lemma_scan_no_newline(Seq::<char>::empty(), ls[0]);
        assert(Seq::<char>::empty() + ls[0] =~= ls[0]);
        assert(line_scan(Seq::<char>::empty()) == (Seq::<Seq<char>>::empty(), Seq::<char>::empty()));
        assert(Seq::<char>::empty() + ls[0] =~= ls[0]);
        assert(strip_all(ls.drop_last()) =~= Seq::<Seq<char>>::empty());
    } else {
        let prev = join_with(ls.drop_last(), seq!['\n']);
        lemma_scan_joined(ls.drop_last());
        lemma_scan_newline(prev);
        assert(no_newline(ls.last())) by {
            assert(ls[ls.len() - 1] == ls.last());
        }
        lemma_scan_no_newline(prev + seq!['\n'], ls.last());
        assert(Seq::<char>::empty() + ls.last() =~= ls.last());
        assert(strip_all(ls.drop_last().drop_last()).push(strip_cr(ls.drop_last().last()))
            =~= strip_all(ls.drop_last()));
    }
}

/// Reading back the file that a list of lines makes gives those lines, each
/// without a final carriage return; no lines make a file of one empty line.
pub proof fn lemma_lines_of_file_text(ls: Seq<Seq<char>>)
    requires
        all_without_newline(ls),
    ensures
        ls.len() > 0 ==> text_lines(file_text(ls)) == strip_all(ls),
        ls.len() == 0 ==> text_lines(file_text(ls)) == seq![Seq::<char>::empty()],
{
    if ls.len() == 0 {
        assert(file_text(ls) =~= Seq::<char>::empty() + seq!['\n']);
        lemma_scan_newline(Seq::<char>::empty());
        assert(line_scan(Seq::<char>::empty()) == (Seq::<Seq<char>>::empty(), Seq::<char>::empty()));
        assert(strip_cr(Seq::<char>::empty()) =~= Seq::<char>::empty());
        assert(text_lines(file_text(ls)) =~= seq![Seq::<char>::empty()]);
    } else {
        lemma_scan_joined(ls);
        lemma_scan_newline(join_with(ls, seq!['\n']));
        assert(strip_all(ls.drop_last()).push(strip_cr(ls.last())) =~= strip_all(ls));
    }
}

proof fn lemma_scan_lines_without_newline(s: Seq<char>)
    ensures
        all_without_newline(line_scan(s).0),
        no_newline(line_scan(s).1),
    decreases s.len(),
{
    if s.len() > 0 {
        lemma_scan_lines_without_newline(s.drop_last());
        let (done, cur) = line_scan(s.drop_last());
        if s.last() == '\n' {
            assert(no_newline(strip_cr(cur))) by {
                if strip_cr(cur).contains('\n') {
                    let i = choose|i: int| 0 <= i < strip_cr(cur).len() && strip_cr(cur)[i] == '\n';
                    assert(cur[i] == '\n');
                }
            }
            assert(no_newline(Seq::<char>::empty()));
        } else {
            assert(no_newline(cur.push(s.last()))) by {
                if cur.push(s.last()).contains('\n') {
                    let i = choose|i: int|
                        0 <= i < cur.push(s.last()).len() && cur.push(s.last())[i] == '\n';
                    if i < cur.len() {
                        assert(cur[i] == '\n');
                    }
                }
            }
        }
    }
}

/// No line of a text holds a newline.
proof fn lemma_text_lines_without_newline(s: Seq<char>)
    ensures
        all_without_newline(text_lines(s)),
{
    lemma_scan_lines_without_newline(s);
}

/// Dropping a final carriage return changes neither the name of a check line
/// nor whether it is one; its command loses the carriage return too.
proof fn lemma_strip_cr_keeps_entry(l: Seq<char>, name: Seq<char>)
    ensures
        bar_index(strip_cr(l)) == bar_index(l),
        line_has_name(strip_cr(l), name) == line_has_name(l, name),
        bar_index(l) >= 0 ==> entry_command(strip_cr(l)) == strip_cr(entry_command(l)),
{
    lemma_bar_index_bounds(l);
    if l.len() > 0 && l.last() == '\r' {
        lemma_bar_index_bounds(l.drop_last());
        if bar_index(l.drop_last()) < 0 {
            assert(bar_index(l) == -1);
        }
        let b = bar_index(l);
        if b >= 0 {
            assert(l.drop_last().take(b) =~= l.take(b));
            assert(l.drop_last().skip(b + 1) =~= l.skip(b + 1).drop_last());
        }
    }
}

/// A line with the bar right after `name` (which holds no bar) is a check of that name.
proof fn lemma_new_entry(name: Seq<char>, command: Seq<char>)
    requires
        !name.contains('|'),
    ensures
        bar_index(name + seq!['|'] + command) == name.len(),
        line_has_name(name + seq!['|'] + command, name),
        entry_command(name + seq!['|'] + command) == command,
{
    let l = name + seq!['|'] + command;
    assert forall|j: int| 0 <= j < name.len() implies l[j] != '|' by {
        assert(l[j] == name[j]);
    }
    lemma_bar_index_first(l, name.len() as int);
    assert(l.take(name.len() as int) =~= name);
    assert(l.skip(name.len() as int + 1) =~= command);
}

proof fn lemma_none_named_find(ls: Seq<Seq<char>>, name: Seq<char>)
    requires
        none_named(ls, name),
    ensures
        find_entry(ls, name) is None,
    decreases ls.len(),
{
    if ls.len() > 0 {
        lemma_none_named_find(ls.drop_last(), name);
        assert(!line_has_name(ls[ls.len() - 1], name));
    }
}

proof fn lemma_strip_all_none_named(ls: Seq<Seq<char>>, name: Seq<char>)
    requires
        none_named(ls, name),
    ensures
        none_named(strip_all(ls), name),
{
    assert forall|i: int| 0 <= i < strip_all(ls).len() implies !line_has_name(
        #[trigger] strip_all(ls)[i],
        name,
    ) by {
        lemma_strip_cr_keeps_entry(ls[i], name);
    }
}

proof fn lemma_save_drops_name(ls: Seq<Seq<char>>, name: Seq<char>)
    ensures
        none_named(lines_kept_by_save(ls, name), name),
        all_without_newline(ls) ==> all_without_newline(lines_kept_by_save(ls, name)),
    decreases ls.len(),
{
    if ls.len() > 0 {
        lemma_save_drops_name(ls.drop_last(), name);
        if all_without_newline(ls) {
            assert(all_without_newline(ls.drop_last())) by {
                assert forall|i: int| 0 <= i < ls.drop_last().len() implies no_newline(
                    #[trigger] ls.drop_last()[i],
                ) by {
                    assert(ls.drop_last()[i] == ls[i]);
                }
            }
            assert(no_newline(ls[ls.len() - 1]));
        }
    }
}

proof fn lemma_delete_drops_name(ls: Seq<Seq<char>>, name: Seq<char>)
    ensures
        none_named(lines_kept_by_delete(ls, name), name),
        all_without_newline(ls) ==> all_without_newline(lines_kept_by_delete(ls, name)),
    decreases ls.len(),
{
    if ls.len() > 0 {
        lemma_delete_drops_name(ls.drop_last(), name);
        if all_without_newline(ls) {
            assert(all_without_newline(ls.drop_last())) by {
                assert forall|i: int| 0 <= i < ls.drop_last().len() implies no_newline(
                    #[trigger] ls.drop_last()[i],
                ) by {
                    assert(ls.drop_last()[i] == ls[i]);
                }
            }
            assert(no_newline(ls[ls.len() - 1]));
        }
    }
}

/// A blank line is no check: it holds no bar.
proof fn lemma_blank_has_no_name(l: Seq<char>, name: Seq<char>)
    requires
        is_blank(l),
    ensures
        !line_has_name(l, name),
{
    lemma_bar_index_bounds(l);
    if bar_index(l) >= 0 {
        assert(crate::text::is_space(l[bar_index(l)]));
    }
}

proof fn lemma_save_keeps_other_lookup(ls: Seq<Seq<char>>, name: Seq<char>, other: Seq<char>)
    requires
        other != name,
    ensures
        find_entry(lines_kept_by_save(ls, name), other) == find_entry(ls, other),
    decreases ls.len(),
{
    if ls.len() > 0 {
        lemma_save_keeps_other_lookup(ls.drop_last(), name, other);
        let l = ls.last();
        let rest = lines_kept_by_save(ls.drop_last(), name);
        lemma_find_after_push(rest, l, other);
        if is_blank(l) {
            lemma_blank_has_no_name(l, other);
        }
        if line_has_name(l, name) {
            assert(!line_has_name(l, other));
        }
    }
}

proof fn lemma_delete_keeps_other_lookup(ls: Seq<Seq<char>>, name: Seq<char>, other: Seq<char>)
    requires
        other != name,
    ensures
        find_entry(lines_kept_by_delete(ls, name), other) == find_entry(ls, other),
    decreases ls.len(),
{
    if ls.len() > 0 {
        lemma_delete_keeps_other_lookup(ls.drop_last(), name, other);
        let l = ls.last();
        let rest = lines_kept_by_delete(ls.drop_last(), name);
        lemma_find_after_push(rest, l, other);
        if line_has_name(l, name) {
            assert(!line_has_name(l, other));
        }
    }
}

proof fn lemma_find_after_push(ls: Seq<Seq<char>>, l: Seq<char>, name: Seq<char>)
    ensures
        find_entry(ls.push(l), name) == match find_entry(ls, name) {
            Some(c) => Some(c),
            None => if line_has_name(l, name) {
                Some(entry_command(l))
            } else {
                None
            },
        },
{
    assert(ls.push(l).drop_last() =~= ls);
}

/// Lines that already end without a carriage return read back unchanged.
proof fn lemma_strip_all_clean(ls: Seq<Seq<char>>)
    requires
        forall|i: int| 0 <= i < ls.len() ==> strip_cr(#[trigger] ls[i]) == ls[i],
    ensures
        strip_all(ls) == ls,
{
    assert(strip_all(ls) =~= ls);
}

/// The lines of the file after saving a check: the kept lines, read back, then the new check.
proof fn lemma_saved_lines(content: Seq<char>, name: Seq<char>, command: Seq<char>)
    requires
        !name.contains('|'),
        no_newline(name),
        no_newline(command),
    ensures
        text_lines(saved_text(content, name, command)) == strip_all(
            lines_kept_by_save(text_lines(content), name),
        ).push(strip_cr(name + seq!['|'] + command)),
{
    let ls = text_lines(content);
    let kept = lines_kept_by_save(ls, name);
    let new_line = name + seq!['|'] + command;
    lemma_text_lines_without_newline(content);
    lemma_save_drops_name(ls, name);
    assert(no_newline(new_line)) by {
        if new_line.contains('\n') {
            let i = choose|i: int| 0 <= i < new_line.len() && new_line[i] == '\n';
            if i < name.len() {
                assert(name[i] == '\n');
            } else if i > name.len() {
                assert(command[i - name.len() - 1] == '\n');
            }
        }
    }
    assert(all_without_newline(kept.push(new_line))) by {
        assert forall|i: int| 0 <= i < kept.push(new_line).len() implies no_newline(
            #[trigger] kept.push(new_line)[i],
        ) by {
            if i < kept.len() {
                assert(kept.push(new_line)[i] == kept[i]);
            }
        }
    }
    lemma_lines_of_file_text(kept.push(new_line));
    assert(strip_all(kept.push(new_line)) =~= strip_all(kept).push(strip_cr(new_line)));
}

/// Read after write: once a check is saved, looking its name up gives back
/// its command (for a name without `|` or newline, and a command without
/// newline that does not end in a carriage return).
pub proof fn lemma_saved_check_is_found(content: Seq<char>, name: Seq<char>, command: Seq<char>)
    requires
        !name.contains('|'),
        no_newline(name),
        no_newline(command),
        !(command.len() > 0 && command.last() == '\r'),
    ensures
        lookup_check(saved_text(content, name, command), name) == Some(command),
{
    let kept = lines_kept_by_save(text_lines(content), name);
    let new_line = name + seq!['|'] + command;
    lemma_saved_lines(content, name, command);
    lemma_new_entry(name, command);
    lemma_strip_cr_keeps_entry(new_line, name);
    assert(strip_cr(command) == command);
    lemma_save_drops_name(text_lines(content), name);
    lemma_strip_all_none_named(kept, name);
    lemma_none_named_find(strip_all(kept), name);
    lemma_find_after_push(strip_all(kept), strip_cr(new_line), name);
}

/// Saving a check leaves every other check as it was, where no line that
/// the save keeps ends in a carriage return.
pub proof fn lemma_save_keeps_other_checks(
    content: Seq<char>,
    name: Seq<char>,
    command: Seq<char>,
    other: Seq<char>,
)
    requires
        !name.contains('|'),
        no_newline(name),
        no_newline(command),
        other != name,
        kept_lines_end_clean(content, name),
    ensures
        lookup_check(saved_text(content, name, command), other) == lookup_check(content, other),
{
    let ls = text_lines(content);
    let kept = lines_kept_by_save(ls, name);
    let new_line = name + seq!['|'] + command;
    lemma_saved_lines(content, name, command);
    lemma_new_entry(name, command);
    lemma_strip_cr_keeps_entry(new_line, other);
    assert(!line_has_name(new_line, other));
    lemma_strip_all_clean(kept);
    lemma_find_after_push(kept, strip_cr(new_line), other);
    lemma_save_keeps_other_lookup(ls, name, other);
}

/// The lines of the file after deleting a check.
proof fn lemma_deleted_lines(content: Seq<char>, name: Seq<char>)
    ensures
        lines_kept_by_delete(text_lines(content), name).len() > 0 ==> text_lines(
            deleted_text(content, name),
        ) == strip_all(lines_kept_by_delete(text_lines(content), name)),
        lines_kept_by_delete(text_lines(content), name).len() == 0 ==> text_lines(
            deleted_text(content, name),
        ) == seq![Seq::<char>::empty()],
{
    lemma_text_lines_without_newline(content);
    lemma_delete_drops_name(text_lines(content), name);
    lemma_lines_of_file_text(lines_kept_by_delete(text_lines(content), name));
}

/// Once a check is deleted, looking its name up finds nothing.
pub proof fn lemma_deleted_check_is_gone(content: Seq<char>, name: Seq<char>)
    ensures
        lookup_check(deleted_text(content, name), name) is None,
{
    let kept = lines_kept_by_delete(text_lines(content), name);
    lemma_deleted_lines(content, name);
    lemma_delete_drops_name(text_lines(content), name);
    if kept.len() > 0 {
        lemma_strip_all_none_named(kept, name);
        lemma_none_named_find(strip_all(kept), name);
    } else {
        let ls = seq![Seq::<char>::empty()];
        lemma_bar_index_bounds(Seq::<char>::empty());
        assert(none_named(ls, name));
        lemma_none_named_find(ls, name);
    }
}

/// Deleting a check leaves every other check as it was, where no line that
/// the delete keeps ends in a carriage return.
pub proof fn lemma_delete_keeps_other_checks(content: Seq<char>, name: Seq<char>, other: Seq<char>)
    requires
        other != name,
        delete_kept_lines_end_clean(content, name),
    ensures
        lookup_check(deleted_text(content, name), other) == lookup_check(content, other),
{
    let ls = text_lines(content);
    let kept = lines_kept_by_delete(ls, name);
    lemma_deleted_lines(content, name);
    lemma_delete_keeps_other_lookup(ls, name, other);
    if kept.len() > 0 {
        lemma_strip_all_clean(kept);
    } else {
        lemma_none_named_find(kept, other);
        let ls1 = seq![Seq::<char>::empty()];
        lemma_bar_index_bounds(Seq::<char>::empty());
        assert(none_named(ls1, other));
        lemma_none_named_find(ls1, other);
    }
}

/// After a check is saved, the listing of checks ends with `name -> command`.
pub proof fn lemma_saved_check_is_listed_last(
    content: Seq<char>,
    name: Seq<char>,
    command: Seq<char>,
)
    requires
        !name.contains('|'),
        no_newline(name),
        no_newline(command),
        !(command.len() > 0 && command.last() == '\r'),
    ensures
        checks_listing(saved_text(content, name, command)).len() > 0,
        checks_listing(saved_text(content, name, command)).last() == name + seq![' ', '-', '>', ' ']
            + command,
{
    let kept = lines_kept_by_save(text_lines(content), name);
    let new_line = name + seq!['|'] + command;
    lemma_saved_lines(content, name, command);
    lemma_new_entry(name, command);
    lemma_strip_cr_keeps_entry(new_line, name);
    assert(strip_cr(command) == command);
    let ls = strip_all(kept).push(strip_cr(new_line));
    assert(ls.drop_last() =~= strip_all(kept));
    assert(strip_cr(new_line).take(name.len() as int) == name);
}

proof fn lemma_save_output_nonblank(ls: Seq<Seq<char>>, name: Seq<char>)
    ensures
        forall|i: int|
            0 <= i < lines_kept_by_save(ls, name).len() ==> !is_blank(
                #[trigger] lines_kept_by_save(ls, name)[i],
            ),
    decreases ls.len(),
{
    if ls.len() > 0 {
        lemma_save_output_nonblank(ls.drop_last(), name);
        let rest = lines_kept_by_save(ls.drop_last(), name);
        let kept = lines_kept_by_save(ls, name);
        assert forall|i: int| 0 <= i < kept.len() implies !is_blank(#[trigger] kept[i]) by {
            if i < rest.len() {
                assert(kept[i] == rest[i]);
            }
        }
    }
}

/// Saving keeps every line of a file that holds no blank line and no check of that name.
proof fn lemma_save_keeps_clean_lines(ls: Seq<Seq<char>>, name: Seq<char>)
    requires
        forall|i: int| 0 <= i < ls.len() ==> !is_blank(#[trigger] ls[i]),
        none_named(ls, name),
    ensures
        lines_kept_by_save(ls, name) == ls,
    decreases ls.len(),
{
    if ls.len() > 0 {
        assert(forall|i: int| 0 <= i < ls.drop_last().len() ==> ls.drop_last()[i] == ls[i]);
        lemma_save_keeps_clean_lines(ls.drop_last(), name);
        assert(!is_blank(ls[ls.len() - 1]));
        assert(!line_has_name(ls[ls.len() - 1], name));
        assert(ls.drop_last().push(ls.last()) =~= ls);
    }
}

/// The last save of a check wins: saving `name` with `first` and then with
/// `second` leaves the same file as saving it with `second` alone (where the
/// name holds no `|` or newline, the commands no newline, and no line that
/// the save keeps ends in a carriage return).
pub proof fn lemma_later_save_replaces_earlier(
    content: Seq<char>,
    name: Seq<char>,
    first: Seq<char>,
    second: Seq<char>,
)
    requires
        !name.contains('|'),
        no_newline(name),
        no_newline(first),
        no_newline(second),
        kept_lines_end_clean(content, name),
    ensures
        saved_text(saved_text(content, name, first), name, second) == saved_text(
            content,
            name,
            second,
        ),
{
    let ls = text_lines(content);
    let kept = lines_kept_by_save(ls, name);
    let new_line = name + seq!['|'] + first;
    lemma_saved_lines(content, name, first);
    lemma_strip_all_clean(kept);
    lemma_new_entry(name, first);
    lemma_strip_cr_keeps_entry(new_line, name);
    let lines1 = kept.push(strip_cr(new_line));
    assert(text_lines(saved_text(content, name, first)) == lines1);
    assert(lines1.drop_last() =~= kept);
    assert(lines_kept_by_save(lines1, name) == lines_kept_by_save(kept, name));
    lemma_save_output_nonblank(ls, name);
    lemma_save_drops_name(ls, name);
    lemma_save_keeps_clean_lines(kept, name);
}

/// Saving the same check twice leaves the file as saving it once (where the
/// name holds no `|` or newline, the command no newline, and no line that the
/// save keeps ends in a carriage return).
pub proof fn lemma_save_is_idempotent(content: Seq<char>, name: Seq<char>, command: Seq<char>)
    requires
        !name.contains('|'),
        no_newline(name),
        no_newline(command),
        kept_lines_end_clean(content, name),
    ensures
        saved_text(saved_text(content, name, command), name, command) == saved_text(
            content,
            name,
            command,
        ),
{
    lemma_later_save_replaces_earlier(content, name, command, command);
}

/// No two check lines share a name: a line that holds a `|` names no later line's check.
pub open spec fn names_unique(ls: Seq<Seq<char>>) -> bool {
    forall|i: int, j: int|
        0 <= i < j < ls.len() && bar_index(ls[i]) >= 0 ==> !line_has_name(
            #[trigger] ls[j],
            #[trigger] ls[i].take(bar_index(ls[i])),
        )
}

proof fn lemma_kept_by_save_from(ls: Seq<Seq<char>>, name: Seq<char>)
    ensures
        forall|i: int|
            0 <= i < lines_kept_by_save(ls, name).len() ==> exists|k: int|
                0 <= k < ls.len() && ls[k] == #[trigger] lines_kept_by_save(ls, name)[i],
    decreases ls.len(),
{
    if ls.len() > 0 {
        lemma_kept_by_save_from(ls.drop_last(), name);
        let rest = lines_kept_by_save(ls.drop_last(), name);
        let kept = lines_kept_by_save(ls, name);
        assert forall|i: int| 0 <= i < kept.len() implies exists|k: int|
            0 <= k < ls.len() && ls[k] == #[trigger] kept[i] by {
            if i < rest.len() {
                assert(kept[i] == rest[i]);
                let k = choose|k: int| 0 <= k < ls.drop_last().len() && ls.drop_last()[k] == rest[i];
                assert(ls[k] == kept[i]);
            } else {
                assert(ls[ls.len() - 1] == kept[i]);
            }
        }
    }
}

proof fn lemma_kept_by_save_unique(ls: Seq<Seq<char>>, name: Seq<char>)
    requires
        names_unique(ls),
    ensures
        names_unique(lines_kept_by_save(ls, name)),
    decreases ls.len(),
{
    if ls.len() > 0 {
        let front = ls.drop_last();
        assert(names_unique(front)) by {
            assert forall|i: int, j: int|
                0 <= i < j < front.len() && bar_index(front[i]) >= 0 implies !line_has_name(
                #[trigger] front[j],
                #[trigger] front[i].take(bar_index(front[i])),
            ) by {
                assert(front[i] == ls[i] && front[j] == ls[j]);
            }
        }
        lemma_kept_by_save_unique(front, name);
        lemma_kept_by_save_from(front, name);
        let rest = lines_kept_by_save(front, name);
        let kept = lines_kept_by_save(ls, name);
        assert forall|i: int, j: int|
            0 <= i < j < kept.len() && bar_index(kept[i]) >= 0 implies !line_has_name(
            #[trigger] kept[j],
            #[trigger] kept[i].take(bar_index(kept[i])),
        ) by {
            if j < rest.len() {
                assert(kept[i] == rest[i] && kept[j] == rest[j]);
            } else {
                assert(kept[i] == rest[i]);
                assert(kept[j] == ls[ls.len() - 1]);
                let k = choose|k: int| 0 <= k < front.len() && front[k] == rest[i];
                assert(ls[k] == kept[i]);
            }
        }
    }
}

proof fn lemma_entry_name_of_strip(l: Seq<char>)
    requires
        bar_index(l) >= 0,
    ensures
        bar_index(strip_cr(l)) == bar_index(l),
        strip_cr(l).take(bar_index(strip_cr(l))) == l.take(bar_index(l)),
{
    lemma_strip_cr_keeps_entry(l, l.take(bar_index(l)));
}

proof fn lemma_strip_keeps_nonblank(l: Seq<char>)
    requires
        !is_blank(l),
    ensures
        !is_blank(strip_cr(l)),
{
    let j = choose|j: int| 0 <= j < l.len() && !crate::text::is_space(#[trigger] l[j]);
    if l.len() > 0 && l.last() == '\r' {
        assert(j < l.len() - 1);
        assert(strip_cr(l)[j] == l[j]);
    }
}

/// After a save, where the file's checks had distinct names before, they
/// still have: exactly one line, the last, has the saved name, no two check
/// lines share a name, and no line is blank (for a name without `|` or
/// newline and a command without newline).
pub proof fn lemma_save_keeps_names_unique(content: Seq<char>, name: Seq<char>, command: Seq<char>)
    requires
        !name.contains('|'),
        no_newline(name),
        no_newline(command),
        names_unique(text_lines(content)),
    ensures
        ({
            let after = text_lines(saved_text(content, name, command));
            &&& after.len() > 0
            &&& names_unique(after)
            &&& line_has_name(after.last(), name)
            &&& forall|i: int| 0 <= i < after.len() - 1 ==> !line_has_name(#[trigger] after[i], name)
            &&& forall|i: int| 0 <= i < after.len() ==> !is_blank(#[trigger] after[i])
        }),
{
    let ls = text_lines(content);
    let kept = lines_kept_by_save(ls, name);
    let new_line = name + seq!['|'] + command;
    let sk = strip_all(kept);
    let sn = strip_cr(new_line);
    let after = text_lines(saved_text(content, name, command));
    lemma_saved_lines(content, name, command);
    assert(after == sk.push(sn));
    lemma_new_entry(name, command);
    lemma_strip_cr_keeps_entry(new_line, name);
    lemma_save_drops_name(ls, name);
    lemma_strip_all_none_named(kept, name);
    lemma_kept_by_save_unique(ls, name);
    lemma_save_output_nonblank(ls, name);
    // the kept lines, read back, still have distinct names
    assert(names_unique(sk)) by {
        assert forall|i: int, j: int|
            0 <= i < j < sk.len() && bar_index(sk[i]) >= 0 implies !line_has_name(
            #[trigger] sk[j],
            #[trigger] sk[i].take(bar_index(sk[i])),
        ) by {
            lemma_strip_cr_keeps_entry(kept[i], kept[i].take(bar_index(kept[i])));
            lemma_entry_name_of_strip(kept[i]);
            lemma_strip_cr_keeps_entry(kept[j], kept[i].take(bar_index(kept[i])));
        }
    }
    assert forall|i: int, j: int|
        0 <= i < j < after.len() && bar_index(after[i]) >= 0 implies !line_has_name(
        #[trigger] after[j],
        #[trigger] after[i].take(bar_index(after[i])),
    ) by {
        if j < sk.len() {
            assert(after[i] == sk[i] && after[j] == sk[j]);
        } else {
            assert(after[i] == sk[i]);
            assert(after[j] == sn);
            if line_has_name(sn, sk[i].take(bar_index(sk[i]))) {
                assert(sk[i].take(bar_index(sk[i])) == name);
                assert(line_has_name(sk[i], name));
            }
        }
    }
    assert(after.last() == sn);
    assert forall|i: int| 0 <= i < after.len() - 1 implies !line_has_name(#[trigger] after[i], name) by {
        assert(after[i] == sk[i]);
    }
    assert forall|i: int| 0 <= i < after.len() implies !is_blank(#[trigger] after[i]) by {
        if i < sk.len() {
            assert(after[i] == sk[i]);
            lemma_strip_keeps_nonblank(kept[i]);
        } else {
            assert(after[i] == sn);
            lemma_bar_index_bounds(sn);
            assert(sn[bar_index(sn)] == '|');
        }
    }
}

} // verus!
