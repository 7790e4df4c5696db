//! Character-level text helpers: lowercasing, whitespace trimming, tokenising
//! and substring search over sequences of characters.
//!
//! The case tables of Unicode stay with the standard library: two of its
//! functions are given names here (`lowercase_of`, `uppercase_of`). Which
//! characters are whitespace is written out (`is_space`): the code points with
//! the Unicode property `White_Space`, which `char::is_whitespace` tests too.
//! Everything built on top of them is verified.

use vstd::prelude::*;

verus! {

/// The lowercase form of a string, as `str::to_lowercase` computes it.
pub uninterp spec fn lowercase_of(s: Seq<char>) -> Seq<char>;

/// The uppercase expansion of one character, as `char::to_uppercase` yields it.
pub uninterp spec fn uppercase_of(c: char) -> Seq<char>;

/// Whether a character is whitespace: whether it is one of the code points
/// with the Unicode property `White_Space`.
pub open spec fn is_space(c: char) -> bool {
    let u = c as u32;
    ||| 0x09 <= u <= 0x0d
    ||| u == 0x20
    ||| u == 0x85
    ||| u == 0xa0
    ||| u == 0x1680
    ||| 0x2000 <= u <= 0x200a
    ||| u == 0x2028
    ||| u == 0x2029
    ||| u == 0x202f
    ||| u == 0x205f
    ||| u == 0x3000
}

/// Calls `str::to_lowercase`. Trusted: the result is the string's lowercase
/// form, which depends on the characters alone.
#[verifier::external_body]
pub(crate) fn to_lowercase(s: &str) -> (r: String)
    ensures
        r@ == lowercase_of(s@),
{
    s.to_lowercase()
}

/// Calls `char::to_uppercase` and collects what it yields. Trusted: the result
/// is the character's uppercase expansion, which may be longer than one
/// character.
#[verifier::external_body]
pub(crate) fn to_uppercase(c: char) -> (r: String)
    ensures
        r@ == uppercase_of(c),
{
    c.to_uppercase().collect()
}


/// Calls `String::push`. Trusted: the character is appended and nothing else
/// changes.
#[verifier::external_body]
pub(crate) fn push_char(s: &mut String, c: char)
    ensures
        final(s)@ == old(s)@.push(c),
{
    s.push(c)
}

/// `s` without its leading whitespace.
pub open spec fn skip_spaces(s: Seq<char>) -> Seq<char>
    decreases s.len(),
{
    if s.len() > 0 && is_space(s[0]) {
        skip_spaces(s.drop_first())
    } else {
        s
    }
}

/// `s` without its trailing whitespace.
pub open spec fn drop_trailing_spaces(s: Seq<char>) -> Seq<char>
    decreases s.len(),
{
    if s.len() > 0 && is_space(s.last()) {
        drop_trailing_spaces(s.drop_last())
    } else {
        s
    }
}

/// `s` without leading and trailing whitespace.
pub open spec fn trimmed(s: Seq<char>) -> Seq<char> {
    drop_trailing_spaces(skip_spaces(s))
}

/// Length of the run of non-whitespace characters that `s` starts with.
pub open spec fn word_len(s: Seq<char>) -> nat
    decreases s.len(),
{
    if s.len() > 0 && !is_space(s[0]) {
        1 + word_len(s.drop_first())
    } else {
        0
    }
}

/// The first whitespace-separated token of `s`; empty when `s` holds none.
pub open spec fn first_token(s: Seq<char>) -> Seq<char> {
    let t = skip_spaces(s);
    t.take(word_len(t) as int)
}

/// What follows the first token of `s`.
pub open spec fn after_first_token(s: Seq<char>) -> Seq<char> {
    let t = skip_spaces(s);
    t.skip(word_len(t) as int)
}

/// The whitespace-separated tokens of `s`, in order.
pub open spec fn tokens(s: Seq<char>) -> Seq<Seq<char>>
    decreases s.len(),
    via tokens_decreases
{
    let tok = first_token(s);
    if tok.len() == 0 {
        Seq::empty()
    } else {
        seq![tok] + tokens(after_first_token(s))
    }
}

#[via_fn]
proof fn tokens_decreases(s: Seq<char>) {
    lemma_skip_spaces_is_suffix(s);
    lemma_word_len_bound(skip_spaces(s));
}

/// The character sequences that a vector of character vectors holds.
pub open spec fn views(vs: Seq<Vec<char>>) -> Seq<Seq<char>> {
    vs.map_values(|t: Vec<char>| t@)
}

/// The texts of a list of strings.
pub open spec fn texts(v: Seq<String>) -> Seq<Seq<char>> {
    v.map_values(|s: String| s@)
}

/// `needle` occurs in `hay` as a contiguous run.
pub open spec fn contains_run(hay: Seq<char>, needle: Seq<char>) -> bool {
    exists|i: int| occurs_at(hay, needle, i)
}

/// `needle` occurs in `hay` at offset `i`.
pub open spec fn occurs_at(hay: Seq<char>, needle: Seq<char>, i: int) -> bool {
    0 <= i && i + needle.len() <= hay.len() && hay.subrange(i, i + needle.len()) == needle
}

/// Skipping leading whitespace leaves a suffix.
pub proof fn lemma_skip_spaces_is_suffix(s: Seq<char>)
    ensures
        skip_spaces(s).len() <= s.len(),
        skip_spaces(s) == s.skip(s.len() - skip_spaces(s).len()),
    decreases s.len(),
{
    if s.len() > 0 && is_space(s[0]) {
        let r = s.drop_first();
        lemma_skip_spaces_is_suffix(r);
        assert(r.skip(r.len() - skip_spaces(r).len()) =~= s.skip(s.len() - skip_spaces(r).len()));
    } else {
        assert(s.skip(0) =~= s);
    }
}

/// A leading word is no longer than the text, and not empty where the text
/// starts with a character that is no whitespace.
pub proof fn lemma_word_len_bound(s: Seq<char>)
    ensures
        word_len(s) <= s.len(),
        s.len() > 0 && !is_space(s[0]) ==> word_len(s) > 0,
    decreases s.len(),
{
    if s.len() > 0 && !is_space(s[0]) {
        lemma_word_len_bound(s.drop_first());
    }
}

/// Whether a character is whitespace.
pub fn is_whitespace(c: char) -> (b: bool)
    ensures
        b == is_space(c),
{
    let u = c as u32;
    (0x09 <= u && u <= 0x0d) || u == 0x20 || u == 0x85 || u == 0xa0 || u == 0x1680 || (0x2000
        <= u && u <= 0x200a) || u == 0x2028 || u == 0x2029 || u == 0x202f || u == 0x205f || u
        == 0x3000
}

/// Collects the characters of a string slice.
pub fn chars_of(s: &str) -> (v: Vec<char>)
    ensures
        v@ == s@,
{
    let mut v: Vec<char> = Vec::new();
    for c in it: s.chars()
        invariant
            v@ == it.seq().take(it.index()),
            it.seq() == s@,
    {
        v.push(c);
    }
    v
}

/// Builds a string from characters `v[from..to]`.
pub fn string_of(v: &Vec<char>, from: usize, to: usize) -> (s: String)
    requires
        from <= to <= v.len(),
    ensures
        s@ == v@.subrange(from as int, to as int),
{
    let mut s = String::new();
    let mut i: usize = from;
    while i < to
        invariant
            from <= i <= to <= v.len(),
            s@ == v@.subrange(from as int, i as int),
        decreases to - i,
    {
        push_char(&mut s, v[i]);
        i += 1;
        assert(v@.subrange(from as int, i as int) =~= v@.subrange(from as int, i - 1).push(
            v@[i - 1],
        ));
    }
    s
}

/// Copies characters `v[from..to]` into a vector of their own.
pub fn copy_range(v: &Vec<char>, from: usize, to: usize) -> (out: Vec<char>)
    requires
        from <= to <= v.len(),
    ensures
        out@ == v@.subrange(from as int, to as int),
{
    let mut out: Vec<char> = Vec::new();
    let mut i: usize = from;
    while i < to
        invariant
            from <= i <= to <= v.len(),
            out@ == v@.subrange(from as int, i as int),
        decreases to - i,
    {
        out.push(v[i]);
        i += 1;
        assert(v@.subrange(from as int, i as int) =~= v@.subrange(from as int, i - 1).push(
            v@[i - 1],
        ));
    }
    out
}

/// Index of the first non-whitespace character at or after `start`.
pub fn skip_spaces_from(v: &Vec<char>, start: usize) -> (pos: usize)
    requires
        start <= v.len(),
    ensures
        start <= pos <= v.len(),
        v@.skip(pos as int) == skip_spaces(v@.skip(start as int)),
{
    let mut pos: usize = start;
    while pos < v.len() && is_whitespace(v[pos])
        invariant
            start <= pos <= v.len(),
            skip_spaces(v@.skip(pos as int)) == skip_spaces(v@.skip(start as int)),
        decreases v.len() - pos,
    {
        assert(v@.skip(pos as int).drop_first() =~= v@.skip(pos + 1));
        pos += 1;
    }
    pos
}

/// Index just past the run of non-whitespace characters that begins at `start`.
pub fn word_end_from(v: &Vec<char>, start: usize) -> (pos: usize)
    requires
        start <= v.len(),
    ensures
        start <= pos <= v.len(),
        pos - start == word_len(v@.skip(start as int)),
{
    let mut pos: usize = start;
    while pos < v.len() && !is_whitespace(v[pos])
        invariant
            start <= pos <= v.len(),
            (pos - start) + word_len(v@.skip(pos as int)) == word_len(v@.skip(start as int)),
        decreases v.len() - pos,
    {
        assert(v@.skip(pos as int).drop_first() =~= v@.skip(pos + 1));
        pos += 1;
    }
    pos
}

/// Bounds of `v` without its leading and trailing whitespace.
pub fn trim_bounds(v: &Vec<char>) -> (b: (usize, usize))
    ensures
        b.0 <= b.1 <= v.len(),
        v@.subrange(b.0 as int, b.1 as int) == trimmed(v@),
{
    let lo = skip_spaces_from(v, 0);
    assert(v@.skip(0) =~= v@);
    let mut hi: usize = v.len();
    assert(v@.subrange(lo as int, hi as int) =~= v@.skip(lo as int));
    while hi > lo && is_whitespace(v[hi - 1])
        invariant
            lo <= hi <= v.len(),
            drop_trailing_spaces(v@.subrange(lo as int, hi as int)) == trimmed(v@),
        decreases hi - lo,
    {
        assert(v@.subrange(lo as int, hi as int).drop_last() =~= v@.subrange(
            lo as int,
            hi - 1,
        ));
        hi -= 1;
    }
    (lo, hi)
}

/// Splits `v` into its whitespace-separated tokens.
pub fn split_whitespace(v: &Vec<char>) -> (out: Vec<Vec<char>>)
    ensures
        views(out@) == tokens(v@),
{
    let mut out: Vec<Vec<char>> = Vec::new();
    let mut pos: usize = 0;
    assert(v@.skip(0) =~= v@);
    assert(views(out@) =~= Seq::<Seq<char>>::empty());
    loop
        invariant
            pos <= v.len(),
            tokens(v@) == views(out@) + tokens(v@.skip(pos as int)),
        decreases v.len() - pos,
    {
        let a = skip_spaces_from(v, pos);
        let b = word_end_from(v, a);
        proof {
            let rest = v@.skip(pos as int);
            assert(v@.skip(a as int).take(b - a) =~= v@.subrange(a as int, b as int));
            assert(v@.skip(a as int).skip(b - a) =~= v@.skip(b as int));
            assert(first_token(rest) == v@.subrange(a as int, b as int));
            assert(after_first_token(rest) == v@.skip(b as int));
        }
        if a == b {
            assert(tokens(v@.skip(pos as int)) =~= Seq::<Seq<char>>::empty());
            assert(tokens(v@) =~= views(out@));
            return out;
        }
        let ghost before = views(out@);
        let tok = copy_range(v, a, b);
        out.push(tok);
        proof {
            assert(views(out@) =~= before.push(v@.subrange(a as int, b as int)));
            assert(tokens(v@) =~= views(out@) + tokens(v@.skip(b as int)));
        }
        pos = b;
    }
}

/// Whether `needle` occurs in `hay` as a contiguous run of characters.
pub fn contains_chars(hay: &Vec<char>, needle: &Vec<char>) -> (found: bool)
    ensures
        found == contains_run(hay@, needle@),
{
    if needle.len() > hay.len() {
        assert(forall|i: int| !occurs_at(hay@, needle@, i));
        return false;
    }
    let last: usize = hay.len() - needle.len();
    let mut i: usize = 0;
    while i <= last
        invariant
            needle.len() <= hay.len(),
            last == hay.len() - needle.len(),
            i <= last + 1,
            forall|k: int| 0 <= k < i ==> !occurs_at(hay@, needle@, k),
        decreases last + 1 - i,
    {
        let mut j: usize = 0;
        while j < needle.len() && hay[i + j] == needle[j]
            invariant
                i <= last,
                last == hay.len() - needle.len(),
                needle.len() <= hay.len(),
                j <= needle.len(),
                forall|k: int| 0 <= k < j ==> hay@[i + k] == needle@[k],
            decreases needle.len() - j,
        {
            j += 1;
        }
        if j == needle.len() {
            assert(hay@.subrange(i as int, i + needle.len()) =~= needle@);
            assert(occurs_at(hay@, needle@, i as int));
            return true;
        }
        assert(!occurs_at(hay@, needle@, i as int)) by {
            if occurs_at(hay@, needle@, i as int) {
                assert(hay@.subrange(i as int, i + needle.len())[j as int] == needle@[j as int]);
            }
        }
        i += 1;
    }
    assert(forall|k: int| !occurs_at(hay@, needle@, k));
    false
}

/// Whether two string slices hold the same characters.
pub fn str_eq(a: &str, b: &str) -> (eq: bool)
    ensures
        eq == (a@ == b@),
{
    let av = chars_of(a);
    let bv = chars_of(b);
    assert(av@.subrange(0, av.len() as int) =~= av@);
    same_chars(&av, 0, av.len(), &bv)
}

/// Whether two character vectors hold the same characters between the given
/// bounds.
pub fn same_chars(a: &Vec<char>, a_from: usize, a_to: usize, b: &Vec<char>) -> (eq: bool)
    requires
        a_from <= a_to <= a.len(),
    ensures
        eq == (a@.subrange(a_from as int, a_to as int) == b@),
{
    if a_to - a_from != b.len() {
        return false;
    }
    let mut i: usize = 0;
    while i < b.len()
        invariant
            a_from <= a_to <= a.len(),
            a_to - a_from == b.len(),
            i <= b.len(),
            forall|k: int| 0 <= k < i ==> a@[a_from + k] == b@[k],
        decreases b.len() - i,
    {
        if a[a_from + i] != b[i] {
            assert(a@.subrange(a_from as int, a_to as int)[i as int] != b@[i as int]);
            return false;
        }
        i += 1;
    }
    assert(a@.subrange(a_from as int, a_to as int) =~= b@);
    true
}

} // verus!
