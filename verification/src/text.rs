use vstd::prelude::*;

verus! {

/// The words of `words` with `sep` between each two of them.
pub open spec fn join_with(words: Seq<Seq<char>>, sep: Seq<char>) -> Seq<char>
    decreases words.len(),
{
    if words.len() == 0 {
        seq![]
    } else if words.len() == 1 {
        words[0]
    } else {
        join_with(words.drop_last(), sep) + sep + words.last()
    }
}

pub proof fn lemma_push_contains<A>(s: Seq<A>, a: A, x: A)
    ensures
        s.push(a).contains(x) == (s.contains(x) || x == a),
{
    if s.contains(x) {
        let m = choose|m: int| 0 <= m < s.len() && s[m] == x;
        assert(s.push(a)[m] == x);
    }
    if x == a {
        assert(s.push(a)[s.len() as int] == x);
    }
    if s.push(a).contains(x) {
        let m = choose|m: int| 0 <= m < s.push(a).len() && s.push(a)[m] == x;
        if m < s.len() {
            assert(s[m] == x);
        }
    }
}

pub proof fn lemma_concat_contains<A>(s: Seq<A>, t: Seq<A>, x: A)
    ensures
        (s + t).contains(x) == (s.contains(x) || t.contains(x)),
{
    if s.contains(x) {
        let m = choose|m: int| 0 <= m < s.len() && s[m] == x;
        assert((s + t)[m] == x);
    }
    if t.contains(x) {
        let m = choose|m: int| 0 <= m < t.len() && t[m] == x;
        assert((s + t)[m + s.len()] == x);
    }
    if (s + t).contains(x) {
        let m = choose|m: int| 0 <= m < (s + t).len() && (s + t)[m] == x;
        if m < s.len() {
            assert(s[m] == x);
        } else {
            assert(t[m - s.len()] == x);
        }
    }
}

/// Appends one character to a string.
///
/// Trusted: calls `String::push`, which std documents as appending the
/// given `char` to the end of the string.
#[verifier::external_body]
pub(crate) fn push_char(s: &mut String, c: char)
    ensures
        final(s)@ == old(s)@.push(c),
{
    s.push(c);
}

/// The characters of a string slice, in order.
pub fn chars_of(s: &str) -> (v: Vec<char>)
    ensures
        v@ == s@,
{
    let mut v: Vec<char> = Vec::new();
    for c in it: s.chars()
        invariant
            v@ == it.seq().take(it.index() as int),
    {
        v.push(c);
    }
    v
}

/// A string holding exactly the given characters.
pub fn string_of(v: &Vec<char>) -> (s: String)
    ensures
        s@ == v@,
{
    let mut s = String::new();
    let mut i: usize = 0;
    while i < v.len()
        invariant
            i <= v.len(),
            s@ == v@.take(i as int),
        decreases v.len() - i,
    {
        push_char(&mut s, v[i]);
        i += 1;
        assert(s@ =~= v@.take(i as int));
    }
    assert(v@.take(v.len() as int) =~= v@);
    s
}

/// Unicode's White_Space property, the one that `char::is_whitespace` tests.
pub open spec fn is_space(c: char) -> bool {
    let u = c as u32;
    ||| 0x09 <= u <= 0x0d
    ||| u == 0x20
    ||| u == 0x85
    ||| u == 0xa0
    ||| u == 0x1680
    ||| 0x2000 <= u <= 0x200a
    ||| u == 0x2028
    ||| u == 0x2029
    ||| u == 0x202f
    ||| u == 0x205f
    ||| u == 0x3000
}

/// Whether `c` has Unicode's White_Space property.
pub fn is_space_char(c: char) -> (b: bool)
    ensures
        b == is_space(c),
{
    let u = c as u32;
    (0x09 <= u && u <= 0x0d) || u == 0x20 || u == 0x85 || u == 0xa0 || u == 0x1680 || (0x2000 <= u
        && u <= 0x200a) || u == 0x2028 || u == 0x2029 || u == 0x202f || u == 0x205f || u == 0x3000
}

/// A text that trimming reduces to nothing: all of it is white space.
pub open spec fn is_blank(s: Seq<char>) -> bool {
    forall|i: int| 0 <= i < s.len() ==> is_space(#[trigger] s[i])
}

/// Whether all of `s` is white space (`s.trim().is_empty()`).
pub fn blank(s: &Vec<char>) -> (b: bool)
    ensures
        b == is_blank(s@),
{
    let mut i: usize = 0;
    while i < s.len()
        invariant
            i <= s.len(),
            forall|j: int| 0 <= j < i ==> is_space(#[trigger] s@[j]),
        decreases s.len() - i,
    {
        if !is_space_char(s[i]) {
            return false;
        }
        i += 1;
    }
    true
}

/// Appends the characters of `t` to `v`.
pub fn extend_chars(v: &mut Vec<char>, t: &Vec<char>)
    ensures
        final(v)@ == old(v)@ + t@,
{
    let mut i: usize = 0;
    while i < t.len()
        invariant
            i <= t.len(),
            v@ == old(v)@ + t@.take(i as int),
        decreases t.len() - i,
    {
        v.push(t[i]);
        i += 1;
        assert(old(v)@ + t@.take(i as int) =~= (old(v)@ + t@.take((i - 1) as int)).push(t@[i - 1]));
    }
    assert(t@.take(t.len() as int) =~= t@);
}

/// A copy of a character vector.
pub fn copy_chars(t: &Vec<char>) -> (v: Vec<char>)
    ensures
        v@ == t@,
{
    let mut v: Vec<char> = Vec::new();
    extend_chars(&mut v, t);
    assert(Seq::<char>::empty() + t@ =~= t@);
    v
}

/// Whether two character vectors hold the same characters.
pub fn same_chars(a: &Vec<char>, b: &Vec<char>) -> (r: bool)
    ensures
        r == (a@ == b@),
{
    if a.len() != b.len() {
        return false;
    }
    let mut i: usize = 0;
    while i < a.len()
        invariant
            a.len() == b.len(),
            i <= a.len(),
            forall|j: int| 0 <= j < i ==> a@[j] == b@[j],
        decreases a.len() - i,
    {
        if a[i] != b[i] {
            return false;
        }
        i += 1;
    }
    assert(a@ =~= b@);
    true
}

/// The characters of each string, in order.
pub fn chars_of_all(v: &Vec<String>) -> (r: Vec<Vec<char>>)
    ensures
        char_seqs(r@) == v.deep_view(),
{
    let mut r: Vec<Vec<char>> = Vec::new();
    let mut i: usize = 0;
    while i < v.len()
        invariant
            i <= v.len(),
            char_seqs(r@) == v.deep_view().take(i as int),
        decreases v.len() - i,
    {
        let ghost prev = r@;
        let cs = chars_of(v[i].as_str());
        r.push(cs);
        assert(r@ == prev.push(cs));
        assert(cs@ == v.deep_view()[i as int]);
        i += 1;
        assert(char_seqs(r@) =~= char_seqs(prev).push(cs@));
        assert(char_seqs(r@) =~= v.deep_view().take(i as int));
    }
    assert(v.deep_view().take(v.len() as int) =~= v.deep_view());
    r
}

/// Strings holding the given character vectors.
pub fn strings_of_all(v: &Vec<Vec<char>>) -> (r: Vec<String>)
    ensures
        r.deep_view() == char_seqs(v@),
{
    let mut r: Vec<String> = Vec::new();
    let mut i: usize = 0;
    while i < v.len()
        invariant
            i <= v.len(),
            r.deep_view() == char_seqs(v@).take(i as int),
        decreases v.len() - i,
    {
        let ghost prev = r@;
        assert(r.deep_view().len() == prev.len());
        assert(prev.len() == i);
        let st = string_of(&v[i]);
        r.push(st);
        assert(r@ == prev.push(st));
        assert(st@ == char_seqs(v@)[i as int]);
        i += 1;
        assert(r.deep_view() =~= char_seqs(v@).take(i as int)) by {
            assert forall|j: int| 0 <= j < i implies r.deep_view()[j] == char_seqs(v@).take(
                i as int,
            )[j] by {
                if j < i - 1 {
                    assert(r@[j] == prev[j]);
                    assert(prev[j].deep_view() == char_seqs(v@).take((i - 1) as int)[j]);
                }
            }
        }
    }
    assert(char_seqs(v@).take(v.len() as int) =~= char_seqs(v@));
    r
}

/// The character sequences that a vector of character vectors holds.
pub open spec fn char_seqs(v: Seq<Vec<char>>) -> Seq<Seq<char>> {
    v.map_values(|l: Vec<char>| l@)
}

/// `words` joined with `sep` between each two of them (`join` on a slice of strings).
pub fn join_chars(words: &Vec<Vec<char>>, sep: &Vec<char>) -> (r: Vec<char>)
    ensures
        r@ == join_with(char_seqs(words@), sep@),
{
    let mut r: Vec<char> = Vec::new();
    if words.len() == 0 {
        return r;
    }
    extend_chars(&mut r, &words[0]);
    let mut i: usize = 1;
    assert(char_seqs(words@).take(1).drop_last() =~= Seq::<Seq<char>>::empty());
    while i < words.len()
        invariant
            1 <= i <= words.len(),
            r@ == join_with(char_seqs(words@).take(i as int), sep@),
        decreases words.len() - i,
    {
        extend_chars(&mut r, sep);
        extend_chars(&mut r, &words[i]);
        i += 1;
        assert(char_seqs(words@).take(i as int).drop_last() =~= char_seqs(words@).take(
            (i - 1) as int,
        ));
    }
    assert(char_seqs(words@).take(words.len() as int) =~= char_seqs(words@));
    r
}

} // verus!
