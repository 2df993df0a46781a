use vstd::prelude::*;

use crate::text::{char_seqs, copy_chars};

verus! {

broadcast use vstd::seq_lib::to_multiset_insert;

/// The order of strings: by code point, character after character, a proper
/// prefix first. UTF-8 keeps code point order, so this is also the byte
/// order by which `String` compares.
pub open spec fn lex_lt(a: Seq<char>, b: Seq<char>) -> bool
    decreases a.len(),
{
    if b.len() == 0 {
        false
    } else if a.len() == 0 {
        true
    } else if a[0] != b[0] {
        (a[0] as u32) < (b[0] as u32)
    } else {
        lex_lt(a.drop_first(), b.drop_first())
    }
}

/// Each string comes strictly before the next: sorted, and without repeats.
pub open spec fn strictly_sorted(s: Seq<Seq<char>>) -> bool {
    forall|i: int, j: int| 0 <= i < j < s.len() ==> lex_lt(#[trigger] s[i], #[trigger] s[j])
}

/// No string comes before one that precedes it.
pub open spec fn sorted(s: Seq<Seq<char>>) -> bool {
    forall|i: int, j: int| 0 <= i < j < s.len() ==> !lex_lt(#[trigger] s[j], #[trigger] s[i])
}

pub proof fn lemma_lex_irreflexive(a: Seq<char>)
    ensures
        !lex_lt(a, a),
    decreases a.len(),
{
    if a.len() > 0 {
        lemma_lex_irreflexive(a.drop_first());
    }
}

pub proof fn lemma_lex_transitive(a: Seq<char>, b: Seq<char>, c: Seq<char>)
    requires
        lex_lt(a, b),
        lex_lt(b, c),
    ensures
        lex_lt(a, c),
    decreases a.len(),
{
    if a.len() > 0 && a[0] == b[0] && b[0] == c[0] {
        lemma_lex_transitive(a.drop_first(), b.drop_first(), c.drop_first());
    }
}

pub proof fn lemma_lex_total(a: Seq<char>, b: Seq<char>)
    ensures
        a == b || lex_lt(a, b) || lex_lt(b, a),
    decreases a.len(),
{
    if a.len() > 0 && b.len() > 0 {
        if a[0] == b[0] {
            lemma_lex_total(a.drop_first(), b.drop_first());
            if a.drop_first() == b.drop_first() {
                assert(a =~= seq![a[0]] + a.drop_first());
                assert(b =~= seq![b[0]] + b.drop_first());
            }
        } else {
            vstd::utf8::char_u32_cast(a[0], a[0] as u32);
            vstd::utf8::char_u32_cast(b[0], b[0] as u32);
        }
    } else if a.len() == 0 && b.len() == 0 {
        assert(a =~= b);
    }
}

pub proof fn lemma_lex_asymmetric(a: Seq<char>, b: Seq<char>)
    requires
        lex_lt(a, b),
    ensures
        !lex_lt(b, a),
{
    if lex_lt(b, a) {
        lemma_lex_transitive(a, b, a);
        lemma_lex_irreflexive(a);
    }
}

/// Comparing after a common prefix.
proof fn lemma_lex_skip(a: Seq<char>, b: Seq<char>, i: int)
    requires
        0 <= i <= a.len(),
        i <= b.len(),
        a.take(i) == b.take(i),
    ensures
        lex_lt(a, b) == lex_lt(a.skip(i), b.skip(i)),
    decreases i,
{
    if i > 0 {
        assert(a[0] == a.take(i)[0]);
        assert(b[0] == b.take(i)[0]);
        assert(a.drop_first().take(i - 1) =~= a.take(i).drop_first());
        assert(b.drop_first().take(i - 1) =~= b.take(i).drop_first());
        lemma_lex_skip(a.drop_first(), b.drop_first(), i - 1);
        assert(a.drop_first().skip(i - 1) =~= a.skip(i));
        assert(b.drop_first().skip(i - 1) =~= b.skip(i));
    } else {
        assert(a.skip(0) =~= a);
        assert(b.skip(0) =~= b);
    }
}

/// Whether `a` comes strictly before `b`.
pub fn lex_less(a: &Vec<char>, b: &Vec<char>) -> (r: bool)
    ensures
        r == lex_lt(a@, b@),
{
    let mut i: usize = 0;
    while i < a.len() && i < b.len() && a[i] == b[i]
        invariant
            i <= a.len(),
            i <= b.len(),
            a@.take(i as int) == b@.take(i as int),
        decreases a.len() - i,
    {
        assert(a@.take(i + 1) =~= a@.take(i as int).push(a@[i as int]));
        assert(b@.take(i + 1) =~= b@.take(i as int).push(b@[i as int]));
        i += 1;
    }
    proof {
        lemma_lex_skip(a@, b@, i as int);
    }
    if i == b.len() {
        false
    } else if i == a.len() {
        true
    } else {
        assert(a@.skip(i as int)[0] == a@[i as int]);
        assert(b@.skip(i as int)[0] == b@[i as int]);
        (a[i] as u32) < (b[i] as u32)
    }
}

/// The distinct strings of `items`, in increasing order (`sort` then `dedup`).
pub fn sort_unique(items: &Vec<Vec<char>>) -> (r: Vec<Vec<char>>)
    ensures
        strictly_sorted(char_seqs(r@)),
        forall|x: Seq<char>| char_seqs(r@).contains(x) <==> char_seqs(items@).contains(x),
{
    let mut out: Vec<Vec<char>> = Vec::new();
    let mut i: usize = 0;
    while i < items.len()
        invariant
            i <= items.len(),
            strictly_sorted(char_seqs(out@)),
            forall|x: Seq<char>|
                char_seqs(out@).contains(x) <==> char_seqs(items@).take(i as int).contains(x),
        decreases items.len() - i,
    {
        let x = &items[i];
        let mut p: usize = 0;
        while p < out.len() && lex_less(&out[p], x)
            invariant
                p <= out.len(),
                forall|q: int| 0 <= q < p ==> lex_lt(#[trigger] char_seqs(out@)[q], x@),
            decreases out.len() - p,
        {
            p += 1;
        }
        let ghost old_out = char_seqs(out@);
        let ghost prefix = char_seqs(items@).take(i as int);
        assert(char_seqs(items@).take(i + 1) =~= prefix.push(x@));
        if p < out.len() && crate::text::same_chars(&out[p], x) {
            assert(old_out[p as int] == x@);
            assert(old_out.contains(x@));
        } else {
            proof {
                if p < out.len() {
                    lemma_lex_total(old_out[p as int], x@);
                }
            }
            out.insert(p, copy_chars(x));
            let ghost new_out = char_seqs(out@);
            assert(new_out =~= old_out.insert(p as int, x@));
            assert forall|a: int, b: int| 0 <= a < b < new_out.len() implies lex_lt(
                #[trigger] new_out[a],
                #[trigger] new_out[b],
            ) by {
                if b < p {
                } else if b == p {
                } else if a < p {
                    assert(lex_lt(old_out[a], old_out[b - 1]));
                } else if a == p {
                    if b - 1 > p {
                        lemma_lex_transitive(x@, old_out[p as int], old_out[b - 1]);
                    }
                } else {
                    assert(lex_lt(old_out[a - 1], old_out[b - 1]));
                }
            }
            assert forall|y: Seq<char>| new_out.contains(y) <==> prefix.push(x@).contains(y) by {
                if new_out.contains(y) {
                    let k = choose|k: int| 0 <= k < new_out.len() && new_out[k] == y;
                    if k < p {
                        assert(old_out[k] == y);
                    } else if k > p {
                        assert(old_out[k - 1] == y);
                    }
                    if y != x@ {
                        assert(old_out.contains(y));
                        let m = choose|m: int| 0 <= m < prefix.len() && prefix[m] == y;
                        assert(prefix.push(x@)[m] == y);
                    } else {
                        assert(prefix.push(x@)[prefix.len() as int] == y);
                    }
                }
                if prefix.push(x@).contains(y) {
                    let m = choose|m: int| 0 <= m < prefix.push(x@).len() && prefix.push(x@)[m] == y;
                    if m < prefix.len() {
                        assert(prefix[m] == y);
                        assert(old_out.contains(y));
                        let k = choose|k: int| 0 <= k < old_out.len() && old_out[k] == y;
                        if k < p {
                            assert(new_out[k] == y);
                        } else {
                            assert(new_out[k + 1] == y);
                        }
                    } else {
                        assert(new_out[p as int] == y);
                    }
                }
            }
        }
        proof {
            let new_out = char_seqs(out@);
            assert forall|y: Seq<char>| new_out.contains(y) <==> prefix.push(x@).contains(y) by {
                if new_out == old_out {
                    if prefix.push(x@).contains(y) {
                        let m = choose|m: int|
                            0 <= m < prefix.push(x@).len() && prefix.push(x@)[m] == y;
                        if m < prefix.len() {
                            assert(prefix[m] == y);
                        }
                    }
                    if new_out.contains(y) {
                        let m = choose|m: int| 0 <= m < prefix.len() && prefix[m] == y;
                        assert(prefix.push(x@)[m] == y);
                    }
                }
            }
        }
        i += 1;
    }
    assert(char_seqs(items@).take(items.len() as int) =~= char_seqs(items@));
    out
}

/// The strings of `items` in non-decreasing order; equal strings keep their
/// relative order, as a stable sort keeps it.
pub fn sort_stable(items: &Vec<Vec<char>>) -> (r: Vec<Vec<char>>)
    ensures
        sorted(char_seqs(r@)),
        char_seqs(r@).to_multiset() == char_seqs(items@).to_multiset(),
{
    let mut out: Vec<Vec<char>> = Vec::new();
    let mut i: usize = 0;
    assert(char_seqs(out@) =~= char_seqs(items@).take(0));
    while i < items.len()
        invariant
            i <= items.len(),
            sorted(char_seqs(out@)),
            char_seqs(out@).to_multiset() == char_seqs(items@).take(i as int).to_multiset(),
        decreases items.len() - i,
    {
        let x = &items[i];
        let mut p: usize = 0;
        while p < out.len() && !lex_less(x, &out[p])
            invariant
                p <= out.len(),
                forall|q: int| 0 <= q < p ==> !lex_lt(x@, #[trigger] char_seqs(out@)[q]),
            decreases out.len() - p,
        {
            p += 1;
        }
        let ghost old_out = char_seqs(out@);
        let ghost prefix = char_seqs(items@).take(i as int);
        assert(char_seqs(items@).take(i + 1) =~= prefix.push(x@));
        out.insert(p, copy_chars(x));
        let ghost new_out = char_seqs(out@);
        assert(new_out =~= old_out.insert(p as int, x@));
        assert forall|a: int, b: int| 0 <= a < b < new_out.len() implies !lex_lt(
            #[trigger] new_out[b],
            #[trigger] new_out[a],
        ) by {
            if b < p {
            } else if b == p {
            } else if a < p {
                assert(!lex_lt(old_out[b - 1], old_out[a]));
            } else if a == p {
                // x < out[p] <= out[b - 1]
                assert(lex_lt(x@, old_out[p as int]));
                if b - 1 > p {
                    assert(!lex_lt(old_out[b - 1], old_out[p as int]));
                    lemma_lex_total(old_out[p as int], old_out[b - 1]);
                    if old_out[p as int] != old_out[b - 1] {
                        lemma_lex_transitive(x@, old_out[p as int], old_out[b - 1]);
                    }
                }
                lemma_lex_asymmetric(x@, old_out[b - 1]);
            } else {
                assert(!lex_lt(old_out[b - 1], old_out[a - 1]));
            }
        }
        assert(new_out.to_multiset() == old_out.to_multiset().insert(x@));
        assert(prefix.push(x@).to_multiset() == prefix.to_multiset().insert(x@)) by {
            vstd::seq_lib::to_multiset_build(prefix, x@);
        }
        i += 1;
    }
    assert(char_seqs(items@).take(items.len() as int) =~= char_seqs(items@));
    out
}

} // verus!
