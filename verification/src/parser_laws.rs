use vstd::prelude::*;

use crate::parser::{
    initial_model, scan_from, scan_line, scan_step, stream_digit, RedirectType, ScanMode,
    ScanModel,
};
use crate::text::join_with;

verus! {

/// Every word the scanner has produced, and every redirection target, is non-empty.
pub open spec fn words_nonempty(st: ScanModel) -> bool {
    &&& forall|i: int| 0 <= i < st.tokens.len() ==> #[trigger] st.tokens[i].len() > 0
    &&& st.stdout matches Some(t) ==> t.len() > 0
    &&& st.stderr matches Some(t) ==> t.len() > 0
}

proof fn lemma_step_keeps_words_nonempty(st: ScanModel, c: char)
    requires
        words_nonempty(st),
    ensures
        words_nonempty(scan_step(st, c)),
{
}

proof fn lemma_scan_from_keeps_words_nonempty(st: ScanModel, s: Seq<char>)
    requires
        words_nonempty(st),
    ensures
        words_nonempty(scan_from(st, s)),
    decreases s.len(),
{
    if s.len() > 0 {
        lemma_scan_from_keeps_words_nonempty(st, s.drop_last());
        lemma_step_keeps_words_nonempty(scan_from(st, s.drop_last()), s.last());
    }
}

/// A command line never yields an empty word or an empty redirection target:
/// quotes that enclose nothing, and separators that follow each other, add no word.
pub proof fn lemma_words_are_nonempty(line: Seq<char>)
    ensures
        words_nonempty(scan_line(line)),
{
    lemma_scan_from_keeps_words_nonempty(initial_model(), line);
}

/// Reading `a` and then `b` is reading `a + b`.
pub proof fn lemma_scan_concat(st: ScanModel, a: Seq<char>, b: Seq<char>)
    ensures
        scan_from(st, a + b) == scan_from(scan_from(st, a), b),
    decreases b.len(),
{
    if b.len() == 0 {
        assert(a + b =~= a);
    } else {
        lemma_scan_concat(st, a, b.drop_last());
        assert((a + b).drop_last() =~= a + b.drop_last());
        assert((a + b).last() == b.last());
    }
}

/// Reading a single character is one step.
proof fn lemma_scan_one(st: ScanModel, c: char)
    ensures
        scan_from(st, seq![c]) == scan_step(st, c),
{
    assert(seq![c].drop_last() =~= Seq::<char>::empty());
    assert(scan_from(st, seq![c].drop_last()) == st);
}

/// A character that has no special meaning to the scanner outside quotes.
pub open spec fn is_plain_char(c: char) -> bool {
    c != ' ' && c != '\t' && c != '\'' && c != '"' && c != '\\' && c != '1' && c != '2' && c
        != '>'
}

pub open spec fn is_plain_word(w: Seq<char>) -> bool {
    forall|i: int| 0 <= i < w.len() ==> is_plain_char(#[trigger] w[i])
}

proof fn lemma_plain_word(st: ScanModel, w: Seq<char>)
    requires
        st.mode == ScanMode::Normal,
        is_plain_word(w),
    ensures
        scan_from(st, w) == (ScanModel { current: st.current + w, ..st }),
    decreases w.len(),
{
    if w.len() == 0 {
        assert(st.current + w =~= st.current);
    } else {
        assert(is_plain_word(w.drop_last()));
        lemma_plain_word(st, w.drop_last());
        assert(is_plain_char(w[w.len() - 1]));
        assert(st.current + w =~= (st.current + w.drop_last()).push(w.last()));
    }
}

proof fn lemma_scan_joined_prefix(words: Seq<Seq<char>>, k: int)
    requires
        1 <= k <= words.len(),
        forall|i: int| 0 <= i < words.len() ==> #[trigger] words[i].len() > 0,
        forall|i: int| 0 <= i < words.len() ==> is_plain_word(#[trigger] words[i]),
    ensures
        scan_from(initial_model(), join_with(words.take(k), seq![' '])) == (ScanModel {
            tokens: words.take(k - 1),
            current: words[k - 1],
            ..initial_model()
        }),
    decreases k,
{
    let init = initial_model();
    if k == 1 {
        assert(words.take(1).len() == 1);
        assert(join_with(words.take(1), seq![' ']) == words[0]);
        lemma_plain_word(init, words[0]);
        assert(init.current + words[0] =~= words[0]);
        assert(words.take(0) =~= Seq::<Seq<char>>::empty());
    } else {
        lemma_scan_joined_prefix(words, k - 1);
        let prev = join_with(words.take(k - 1), seq![' ']);
        assert(words.take(k).drop_last() =~= words.take(k - 1));
        assert(join_with(words.take(k), seq![' ']) == prev + seq![' '] + words[k - 1]);
        lemma_scan_concat(init, prev + seq![' '], words[k - 1]);
        lemma_scan_concat(init, prev, seq![' ']);
        let s1 = scan_from(init, prev);
        lemma_scan_one(s1, ' ');
        let s2 = scan_step(s1, ' ');
        assert(s2 == (ScanModel { tokens: words.take(k - 1), current: seq![], ..init })) by {
            assert(words.take(k - 2).push(words[k - 2]) =~= words.take(k - 1));
        }
        lemma_plain_word(s2, words[k - 1]);
        assert(s2.current + words[k - 1] =~= words[k - 1]);
    }
}

/// Words without quotes, escapes, separators, redirection operators or the
/// digits `1` and `2`, joined by single spaces, are read back as exactly
/// those words, with no redirection.
pub proof fn lemma_plain_words_round_trip(words: Seq<Seq<char>>)
    requires
        forall|i: int| 0 <= i < words.len() ==> #[trigger] words[i].len() > 0,
        forall|i: int| 0 <= i < words.len() ==> is_plain_word(#[trigger] words[i]),
    ensures
        scan_line(join_with(words, seq![' '])).tokens == words,
        scan_line(join_with(words, seq![' '])).stdout is None,
        scan_line(join_with(words, seq![' '])).stderr is None,
        !scan_line(join_with(words, seq![' '])).append,
{
    if words.len() == 0 {
        assert(join_with(words, seq![' ']) =~= Seq::<char>::empty());
        assert(scan_line(join_with(words, seq![' '])).tokens =~= words);
    } else {
        let k = words.len() as int;
        lemma_scan_joined_prefix(words, k);
        assert(words.take(k) =~= words);
        assert(words.take(k - 1).push(words[k - 1]) =~= words);
    }
}

proof fn lemma_single_quoted_body(st: ScanModel, w: Seq<char>)
    requires
        st.mode == ScanMode::Single,
        !w.contains('\''),
    ensures
        scan_from(st, w) == (ScanModel { current: st.current + w, ..st }),
    decreases w.len(),
{
    if w.len() == 0 {
        assert(st.current + w =~= st.current);
    } else {
        assert(!w.drop_last().contains('\'')) by {
            if w.drop_last().contains('\'') {
                let i = choose|i: int| 0 <= i < w.drop_last().len() && w.drop_last()[i] == '\'';
                assert(w[i] == '\'');
            }
        }
        lemma_single_quoted_body(st, w.drop_last());
        assert(w[w.len() - 1] != '\'');
        assert(st.current + w =~= (st.current + w.drop_last()).push(w.last()));
    }
}

/// Text between single quotes is taken literally, whatever characters it holds
/// (other than a single quote): the quoted text is the one word of the line.
pub proof fn lemma_single_quotes_are_literal(w: Seq<char>)
    requires
        !w.contains('\''),
        w.len() > 0,
    ensures
        scan_line(seq!['\''] + w + seq!['\'']).tokens == seq![w],
        scan_line(seq!['\''] + w + seq!['\'']).stdout is None,
        scan_line(seq!['\''] + w + seq!['\'']).stderr is None,
{
    let init = initial_model();
    lemma_scan_concat(init, seq!['\''] + w, seq!['\'']);
    lemma_scan_concat(init, seq!['\''], w);
    lemma_scan_one(init, '\'');
    let s1 = scan_from(init, seq!['\'']);
    lemma_single_quoted_body(s1, w);
    let s2 = scan_from(s1, w);
    assert(s2.current =~= w);
    lemma_scan_one(s2, '\'');
    assert(seq![w] =~= Seq::<Seq<char>>::empty().push(w));
}

proof fn lemma_double_quoted_body(st: ScanModel, w: Seq<char>)
    requires
        st.mode == ScanMode::Double,
        !w.contains('"'),
        !w.contains('\\'),
    ensures
        scan_from(st, w) == (ScanModel { current: st.current + w, ..st }),
    decreases w.len(),
{
    if w.len() == 0 {
        assert(st.current + w =~= st.current);
    } else {
        assert(!w.drop_last().contains('"') && !w.drop_last().contains('\\')) by {
            if w.drop_last().contains('"') {
                let i = choose|i: int| 0 <= i < w.drop_last().len() && w.drop_last()[i] == '"';
                assert(w[i] == '"');
            }
            if w.drop_last().contains('\\') {
                let i = choose|i: int| 0 <= i < w.drop_last().len() && w.drop_last()[i] == '\\';
                assert(w[i] == '\\');
            }
        }
        lemma_double_quoted_body(st, w.drop_last());
        assert(w[w.len() - 1] != '"');
        assert(w[w.len() - 1] != '\\');
        assert(st.current + w =~= (st.current + w.drop_last()).push(w.last()));
    }
}

/// Text between double quotes that holds no double quote and no backslash is
/// taken literally, single quotes, spaces, tabs, `>` and digits included: the
/// quoted text is the one word of the line, and nothing is redirected.
pub proof fn lemma_double_quotes_are_literal(w: Seq<char>)
    requires
        !w.contains('"'),
        !w.contains('\\'),
        w.len() > 0,
    ensures
        scan_line(seq!['"'] + w + seq!['"']).tokens == seq![w],
        scan_line(seq!['"'] + w + seq!['"']).stdout is None,
        scan_line(seq!['"'] + w + seq!['"']).stderr is None,
        !scan_line(seq!['"'] + w + seq!['"']).append,
{
    let init = initial_model();
    lemma_scan_concat(init, seq!['"'] + w, seq!['"']);
    lemma_scan_concat(init, seq!['"'], w);
    lemma_scan_one(init, '"');
    let s1 = scan_from(init, seq!['"']);
    lemma_double_quoted_body(s1, w);
    let s2 = scan_from(s1, w);
    assert(s2.current =~= w);
    lemma_scan_one(s2, '"');
    assert(seq![w] =~= Seq::<Seq<char>>::empty().push(w));
}

/// The spellings of a redirection operator for a stream: `>` and `>>` for
/// stdout, and the stream's digit before either for both streams.
pub open spec fn is_redirect_operator(op: Seq<char>, stream: RedirectType, append: bool) -> bool {
    ||| stream == RedirectType::Stdout && !append && op == seq!['>']
    ||| stream == RedirectType::Stdout && append && op == seq!['>', '>']
    ||| !append && op == seq![stream_digit(stream), '>']
    ||| append && op == seq![stream_digit(stream), '>', '>']
}

proof fn lemma_scan_two(st: ScanModel, a: char, b: char)
    ensures
        scan_from(st, seq![a, b]) == scan_step(scan_step(st, a), b),
{
    lemma_scan_concat(st, seq![a], seq![b]);
    assert(seq![a] + seq![b] =~= seq![a, b]);
    lemma_scan_one(st, a);
    lemma_scan_one(scan_step(st, a), b);
}

proof fn lemma_scan_three(st: ScanModel, a: char, b: char, c: char)
    ensures
        scan_from(st, seq![a, b, c]) == scan_step(scan_step(scan_step(st, a), b), c),
{
    lemma_scan_concat(st, seq![a, b], seq![c]);
    assert(seq![a, b] + seq![c] =~= seq![a, b, c]);
    lemma_scan_two(st, a, b);
    lemma_scan_one(scan_step(scan_step(st, a), b), c);
}

/// Reading a redirection operator after a finished word leaves the redirection
/// pending, with the append flag that the operator asks for.
proof fn lemma_scan_operator(st: ScanModel, op: Seq<char>, stream: RedirectType, append: bool)
    requires
        is_redirect_operator(op, stream, append),
        st.mode == ScanMode::Normal,
        st.current.len() == 0,
        st.pending is None,
        !st.append,
    ensures
        ({
            let after = scan_from(st, op + seq![' ']);
            after == ScanModel {
                pending: Some(stream),
                append,
                mode: ScanMode::Normal,
                ..st
            }
        }),
{
    let d = stream_digit(stream);
    if op == seq!['>'] && stream == RedirectType::Stdout && !append {
        assert(op + seq![' '] =~= seq!['>', ' ']);
        lemma_scan_two(st, '>', ' ');
    } else if op == seq!['>', '>'] && stream == RedirectType::Stdout && append {
        assert(op + seq![' '] =~= seq!['>', '>', ' ']);
        lemma_scan_three(st, '>', '>', ' ');
    } else if !append && op == seq![d, '>'] {
        assert(op + seq![' '] =~= seq![d, '>', ' ']);
        lemma_scan_three(st, d, '>', ' ');
    } else {
        assert(op + seq![' '] =~= seq![d, '>', '>'] + seq![' ']);
        lemma_scan_concat(st, seq![d, '>', '>'], seq![' ']);
        lemma_scan_three(st, d, '>', '>');
        lemma_scan_one(scan_from(st, seq![d, '>', '>']), ' ');
    }
}

/// A command of plain words followed by a redirection operator and a plain
/// file name sends the stream to that file: the words are the command, the
/// file is the stream's target, and appending is what the operator says.
pub proof fn lemma_redirection(
    words: Seq<Seq<char>>,
    op: Seq<char>,
    stream: RedirectType,
    append: bool,
    target: Seq<char>,
)
    requires
        words.len() > 0,
        forall|i: int| 0 <= i < words.len() ==> #[trigger] words[i].len() > 0,
        forall|i: int| 0 <= i < words.len() ==> is_plain_word(#[trigger] words[i]),
        is_redirect_operator(op, stream, append),
        target.len() > 0,
        is_plain_word(target),
    ensures
        ({
            let m = scan_line(join_with(words, seq![' ']) + seq![' '] + op + seq![' '] + target);
            &&& m.tokens == words
            &&& m.append == append
            &&& stream == RedirectType::Stdout ==> m.stdout == Some(target) && m.stderr is None
            &&& stream == RedirectType::Stderr ==> m.stderr == Some(target) && m.stdout is None
        }),
{
    let init = initial_model();
    let joined = join_with(words, seq![' ']);
    let k = words.len() as int;
    lemma_scan_joined_prefix(words, k);
    assert(words.take(k) =~= words);
    let s0 = scan_from(init, joined);
    lemma_scan_one(s0, ' ');
    lemma_scan_concat(init, joined, seq![' ']);
    let s1 = scan_step(s0, ' ');
    assert(words.take(k - 1).push(words[k - 1]) =~= words);
    assert(s1 == (ScanModel { tokens: words, ..init }));
    lemma_scan_operator(s1, op, stream, append);
    lemma_scan_concat(init, joined + seq![' '], op + seq![' ']);
    assert(joined + seq![' '] + (op + seq![' ']) =~= joined + seq![' '] + op + seq![' ']);
    let s2 = scan_from(s1, op + seq![' ']);
    lemma_plain_word(s2, target);
    lemma_scan_concat(init, joined + seq![' '] + op + seq![' '], target);
    let s3 = scan_from(s2, target);
    assert(s2.current + target =~= target);
    assert(s3 == ScanModel { current: target, ..s2 });
}

/// A run of one or more separators (spaces and tabs).
pub open spec fn is_blank_run(r: Seq<char>) -> bool {
    forall|i: int| 0 <= i < r.len() ==> #[trigger] r[i] == ' ' || r[i] == '\t'
}

/// A scanner state in which a separator is read as a separator: outside
/// quotes and escapes.
pub open spec fn separates(st: ScanModel) -> bool {
    st.mode != ScanMode::Single && st.mode != ScanMode::Double && st.mode != ScanMode::DoubleEscape
        && st.mode != ScanMode::Escape
}

proof fn lemma_separator_step(st: ScanModel, c: char)
    requires
        separates(st),
        c == ' ' || c == '\t',
    ensures
        scan_step(st, c) == scan_step(st, ' '),
        scan_step(st, c).mode == ScanMode::Normal,
        scan_step(st, c).current.len() == 0,
{
}

/// Separators read where no word is under way change nothing.
proof fn lemma_separators_at_rest(st: ScanModel, r: Seq<char>)
    requires
        st.mode == ScanMode::Normal,
        st.current.len() == 0,
        is_blank_run(r),
    ensures
        scan_from(st, r) == st,
    decreases r.len(),
{
    if r.len() > 0 {
        assert(is_blank_run(r.drop_last())) by {
            assert forall|i: int| 0 <= i < r.drop_last().len() implies #[trigger] r.drop_last()[i]
                == ' ' || r.drop_last()[i] == '\t' by {
                assert(r.drop_last()[i] == r[i]);
            }
        }
        lemma_separators_at_rest(st, r.drop_last());
        assert(r.last() == r[r.len() - 1]);
    }
}

/// Reading a run of separators does what reading one space does.
proof fn lemma_separator_run(st: ScanModel, r: Seq<char>)
    requires
        separates(st),
        r.len() > 0,
        is_blank_run(r),
    ensures
        scan_from(st, r) == scan_step(st, ' '),
{
    let rest = r.drop_first();
    assert(seq![r[0]] + rest =~= r);
    lemma_scan_concat(st, seq![r[0]], rest);
    lemma_scan_one(st, r[0]);
    lemma_separator_step(st, r[0]);
    assert(is_blank_run(rest)) by {
        assert forall|i: int| 0 <= i < rest.len() implies #[trigger] rest[i] == ' ' || rest[i]
            == '\t' by {
            assert(rest[i] == r[i + 1]);
        }
    }
    lemma_separators_at_rest(scan_step(st, r[0]), rest);
}

/// Widening an unquoted, unescaped separator into any run of separators
/// leaves the reading of the line as it was: where the text `before` leaves
/// the scanner outside quotes and escapes, `before + r1 + after` and
/// `before + r2 + after` read the same for any two non-empty runs of spaces
/// and tabs.
pub proof fn lemma_separator_runs_are_equivalent(
    before: Seq<char>,
    r1: Seq<char>,
    r2: Seq<char>,
    after: Seq<char>,
)
    requires
        separates(scan_from(initial_model(), before)),
        r1.len() > 0,
        r2.len() > 0,
        is_blank_run(r1),
        is_blank_run(r2),
    ensures
        scan_line(before + r1 + after) == scan_line(before + r2 + after),
{
    let init = initial_model();
    let st = scan_from(init, before);
    lemma_scan_concat(init, before + r1, after);
    lemma_scan_concat(init, before, r1);
    lemma_scan_concat(init, before + r2, after);
    lemma_scan_concat(init, before, r2);
    lemma_separator_run(st, r1);
    lemma_separator_run(st, r2);
}

/// Separators before the first word change nothing.
pub proof fn lemma_leading_separators(r: Seq<char>, line: Seq<char>)
    requires
        is_blank_run(r),
    ensures
        scan_line(r + line) == scan_line(line),
{
    let init = initial_model();
    lemma_scan_concat(init, r, line);
    lemma_separators_at_rest(init, r);
}

} // verus!
