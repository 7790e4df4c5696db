//! Grading of free-text answers: umlaut folding, plain spelling comparison and
//! the two-token comparison used for perfect-tense verb forms.

use crate::text::{
    after_first_token, chars_of, contains_chars, contains_run, copy_range, lowercase_of,
    same_chars, skip_spaces_from, split_whitespace, string_of, to_lowercase, tokens, trim_bounds,
    trimmed, views, word_end_from,
};
use vstd::prelude::*;

verus! {

/// The ASCII transcription of one character: the three lowercase umlauts and
/// the sharp s become two letters, every other character stays as it is.
pub open spec fn fold_char(c: char) -> Seq<char> {
    if c == '\u{fc}' {
        seq!['u', 'e']
    } else if c == '\u{e4}' {
        seq!['a', 'e']
    } else if c == '\u{f6}' {
        seq!['o', 'e']
    } else if c == '\u{df}' {
        seq!['s', 's']
    } else {
        seq![c]
    }
}

/// The ASCII transcription of a word, character by character.
pub open spec fn umlaut_folded(s: Seq<char>) -> Seq<char>
    decreases s.len(),
{
    if s.len() == 0 {
        Seq::empty()
    } else {
        umlaut_folded(s.drop_last()) + fold_char(s.last())
    }
}

/// Whether a lowercased answer matches a lowercased expected spelling: after
/// trimming both, the answer equals the expected spelling or its ASCII
/// transcription. The answer itself is never transcribed.
pub open spec fn lowered_match(answer: Seq<char>, expected: Seq<char>) -> bool {
    let a = trimmed(answer);
    let e = trimmed(expected);
    a == e || a == umlaut_folded(e)
}

/// Whether an answer matches an expected spelling, ignoring case and
/// surrounding whitespace.
pub open spec fn spelling_matches(answer: Seq<char>, expected: Seq<char>) -> bool {
    lowered_match(lowercase_of(answer), lowercase_of(expected))
}

/// Whether an answer matches an expected perfect form "auxiliary participle":
/// the answer has exactly two tokens, the first is literally `hat` or `ist` and
/// occurs in the expected form, and the second matches what follows the
/// auxiliary in the expected form.
pub open spec fn perfect_matches(answer: Seq<char>, expected: Seq<char>) -> bool {
    let toks = tokens(answer);
    &&& toks.len() == 2
    &&& (toks[0] == "hat"@ || toks[0] == "ist"@)
    &&& contains_run(expected, toks[0])
    &&& spelling_matches(toks[1], after_first_token(expected))
}

/// Transcribes characters `v[from..to]` to ASCII.
pub fn fold_umlauts(v: &Vec<char>, from: usize, to: usize) -> (out: Vec<char>)
    requires
        from <= to <= v.len(),
    ensures
        out@ == umlaut_folded(v@.subrange(from as int, to as int)),
{
    let mut out: Vec<char> = Vec::new();
    let mut i: usize = from;
    while i < to
        invariant
            from <= i <= to <= v.len(),
            out@ == umlaut_folded(v@.subrange(from as int, i as int)),
        decreases to - i,
    {
        let c = v[i];
        let ghost before = out@;
        if c == '\u{fc}' {
            out.push('u');
            out.push('e');
        } else if c == '\u{e4}' {
            out.push('a');
            out.push('e');
        } else if c == '\u{f6}' {
            out.push('o');
            out.push('e');
        } else if c == '\u{df}' {
            out.push('s');
            out.push('s');
        } else {
            out.push(c);
        }
        i += 1;
        proof {
            let s = v@.subrange(from as int, i as int);
            assert(s.drop_last() =~= v@.subrange(from as int, i - 1));
            assert(s.last() == c);
            assert(out@ =~= before + fold_char(c));
        }
    }
    out
}

/// Replaces each umlaut and sharp s of `word` by its two-letter ASCII
/// transcription.
pub fn umlaut_normalize(word: &str) -> (out: String)
    ensures
        out@ == umlaut_folded(word@),
{
    let v = chars_of(word);
    let folded = fold_umlauts(&v, 0, v.len());
    assert(v@.subrange(0, v.len() as int) =~= v@);
    let out = string_of(&folded, 0, folded.len());
    assert(folded@.subrange(0, folded.len() as int) =~= folded@);
    out
}

/// Compares two strings that are already lowercased.
pub fn check_lowered(answer: &Vec<char>, expected: &Vec<char>) -> (ok: bool)
    ensures
        ok == lowered_match(answer@, expected@),
{
    let (a_lo, a_hi) = trim_bounds(answer);
    let (e_lo, e_hi) = trim_bounds(expected);
    let plain = copy_range(expected, e_lo, e_hi);
    if same_chars(answer, a_lo, a_hi, &plain) {
        return true;
    }
    let folded = fold_umlauts(expected, e_lo, e_hi);
    same_chars(answer, a_lo, a_hi, &folded)
}

/// Grades a free-text answer against the expected spelling. Case and
/// surrounding whitespace are ignored, and an answer written in ASCII
/// transcription is accepted for an expected spelling with umlauts.
pub fn check_spelling_simple(answer: &str, expected: &str) -> (ok: bool)
    ensures
        ok == spelling_matches(answer@, expected@),
{
    let low_answer = to_lowercase(answer);
    let low_expected = to_lowercase(expected);
    let a = chars_of(low_answer.as_str());
    let e = chars_of(low_expected.as_str());
    check_lowered(&a, &e)
}

/// Grades a perfect-tense answer once it has been split into tokens.
pub fn check_perfect_tokens(toks: &Vec<Vec<char>>, expected: &str) -> (ok: bool)
    ensures
        ok == {
            &&& toks.len() == 2
            &&& (toks[0]@ == "hat"@ || toks[0]@ == "ist"@)
            &&& contains_run(expected@, toks[0]@)
            &&& spelling_matches(toks[1]@, after_first_token(expected@))
        },
{
    if toks.len() != 2 {
        return false;
    }
    let first = &toks[0];
    let second = &toks[1];
    let hat = chars_of("hat");
    let ist = chars_of("ist");
    assert(first@.subrange(0, first.len() as int) =~= first@);
    if !same_chars(first, 0, first.len(), &hat) && !same_chars(first, 0, first.len(), &ist) {
        return false;
    }
    let e = chars_of(expected);
    if !contains_chars(&e, first) {
        return false;
    }
    let aux_start = skip_spaces_from(&e, 0);
    let aux_end = word_end_from(&e, aux_start);
    proof {
        assert(e@.skip(0) =~= e@);
        assert(e@.skip(aux_start as int).skip(aux_end - aux_start) =~= e@.subrange(
            aux_end as int,
            e.len() as int,
        ));
        assert(second@.subrange(0, second.len() as int) =~= second@);
    }
    let participle = string_of(&e, aux_end, e.len());
    let given = string_of(second, 0, second.len());
    check_spelling_simple(given.as_str(), participle.as_str())
}

/// Grades an answer against an expected perfect form such as `hat gegessen`.
/// An answer that does not split into exactly two tokens is wrong.
pub fn check_spelling_perfect(answer: &str, expected: &str) -> (ok: bool)
    ensures
        ok == perfect_matches(answer@, expected@),
{
    let a = chars_of(answer);
    let toks = split_whitespace(&a);
    proof {
        if toks.len() == 2 {
            assert(views(toks@)[0] == toks[0]@);
            assert(views(toks@)[1] == toks[1]@);
        }
    }
    check_perfect_tokens(&toks, expected)
}

} // verus!
