//! Unpacking the word list from what the file host answers: either the file
//! as it is, or a JSON document that holds the file in base64, one line of
//! base64 after the other.
//!
//! Parsing JSON and decoding base64 are left to the `json` and `base64`
//! crates; their results are named here, and what is done with them is
//! verified.

use crate::text::{chars_of, contains_chars, contains_run, string_of, views};
use base64::Engine;
use vstd::prelude::*;

verus! {

/// The error of the base64 decoder, carried through as an opaque value.
#[verifier::external_type_specification]
#[verifier::external_body]
pub struct ExDecodeError(base64::DecodeError);

/// The error of the JSON parser, carried through as an opaque value.
#[verifier::external_type_specification]
#[verifier::external_body]
pub struct ExJsonError(json::Error);

/// The bytes that a line of standard base64 stands for; nothing where the
/// line is not valid base64.
pub uninterp spec fn base64_decoded(line: Seq<char>) -> Option<Seq<u8>>;

/// The text under a key of a JSON document: nothing where the text is not
/// JSON, and nothing inside where the document has no text under the key.
pub uninterp spec fn json_text_field(text: Seq<char>, key: Seq<char>) -> Option<Option<Seq<char>>>;

/// Calls `Engine::decode` of the `base64` crate on its standard engine.
/// Trusted: whether a line decodes, and to which bytes, depends on the line
/// alone.
#[verifier::external_body]
pub(crate) fn base64_decode(line: &str) -> (r: Result<Vec<u8>, base64::DecodeError>)
    ensures
        match r {
            Ok(bytes) => base64_decoded(line@) == Some(bytes@),
            Err(_) => base64_decoded(line@) is None,
        },
{
    base64::engine::general_purpose::STANDARD.decode(line)
}

/// The longest run of digits that a text may hold to be handed to the JSON
/// parser.
pub const MAX_DIGIT_RUN: usize = 32768;

/// Whether a character is one of the digits `0` to `9`.
pub open spec fn is_digit(c: char) -> bool {
    0x30 <= c as u32 <= 0x39
}

/// Length of the run of digits that `s` ends in.
pub open spec fn trailing_digits(s: Seq<char>) -> nat
    decreases s.len(),
{
    if s.len() > 0 && is_digit(s.last()) {
        1 + trailing_digits(s.drop_last())
    } else {
        0
    }
}

/// No run of digits in `s` is longer than `limit`.
pub open spec fn digit_runs_within(s: Seq<char>, limit: nat) -> bool {
    forall|n: int| 0 <= n <= s.len() ==> trailing_digits(#[trigger] s.take(n)) <= limit
}

/// Calls `json::parse` and reads the text under a key of the document.
/// Trusted: whether the text parses, and what it holds under the key, depends
/// on the text and the key alone. Indexing a JSON value by a key gives null
/// where there is no such key, and null is no text. The parser counts the
/// digits of a fraction down from zero in sixteen bits without a check, so a
/// text with a longer run of digits than that can hold is left out.
#[verifier::external_body]
pub(crate) fn parse_text_field(text: &str, key: &str) -> (r: Result<Option<String>, json::Error>)
    requires
        digit_runs_within(text@, MAX_DIGIT_RUN as nat),
    ensures
        json_text_field(text@, key@) == match r {
            Ok(Some(s)) => Some(Some(s@)),
            Ok(None) => Some(None::<Seq<char>>),
            Err(_) => None,
        },
{
    match json::parse(text) {
        Ok(document) => Ok(document[key].as_str().map(|s| s.to_owned())),
        Err(e) => Err(e),
    }
}

/// The key under which the file host's answer holds the file.
pub open spec fn content_key() -> Seq<char> {
    "content"@
}

/// Why a JSON answer could not be unpacked.
#[derive(Debug, Clone, Copy, PartialEq, Eq, Structural)]
pub enum PayloadError {
    /// The answer is not a JSON document.
    NotJson,
    /// The document holds no text under the key `content`.
    NoContent,
    /// A line of the content is not valid base64.
    BadBase64,
    /// The answer holds a run of more digits than can be read.
    TooManyDigits,
}

/// The pieces of a text between its line feeds. A text without a line feed is
/// one piece, and a text that ends in a line feed ends in an empty piece.
pub open spec fn lines(s: Seq<char>) -> Seq<Seq<char>>
    decreases s.len(),
{
    if s.len() == 0 {
        seq![Seq::empty()]
    } else {
        let earlier = lines(s.drop_last());
        if s.last() == '\n' {
            earlier.push(Seq::empty())
        } else {
            earlier.drop_last().push(earlier.last().push(s.last()))
        }
    }
}

/// The bytes that the lines stand for, one line's bytes after the other;
/// nothing where a line is not valid base64.
pub open spec fn decoded_lines(ls: Seq<Seq<char>>) -> Option<Seq<u8>>
    decreases ls.len(),
{
    if ls.len() == 0 {
        Some(Seq::empty())
    } else {
        match (decoded_lines(ls.drop_last()), base64_decoded(ls.last())) {
            (Some(earlier), Some(bytes)) => Some(earlier + bytes),
            _ => None,
        }
    }
}

/// The file that a JSON answer holds, or why it holds none.
pub open spec fn payload_of(text: Seq<char>) -> Result<Seq<u8>, PayloadError> {
    if !digit_runs_within(text, MAX_DIGIT_RUN as nat) {
        Err(PayloadError::TooManyDigits)
    } else {
        match json_text_field(text, content_key()) {
            None => Err(PayloadError::NotJson),
            Some(None) => Err(PayloadError::NoContent),
            Some(Some(content)) => match decoded_lines(lines(content)) {
                Some(bytes) => Ok(bytes),
                None => Err(PayloadError::BadBase64),
            },
        }
    }
}

/// Whether no run of digits in a text is longer than the parser can read.
pub fn digit_runs_ok(text: &Vec<char>) -> (ok: bool)
    ensures
        ok == digit_runs_within(text@, MAX_DIGIT_RUN as nat),
{
    let mut run: usize = 0;
    let mut i: usize = 0;
    assert(text@.take(0) =~= Seq::<char>::empty());
    while i < text.len()
        invariant
            i <= text.len(),
            run == trailing_digits(text@.take(i as int)),
            run <= MAX_DIGIT_RUN,
            forall|n: int| 0 <= n <= i ==> trailing_digits(#[trigger] text@.take(n)) <= MAX_DIGIT_RUN,
        decreases text.len() - i,
    {
        let c = text[i];
        proof {
            assert(text@.take(i + 1).drop_last() =~= text@.take(i as int));
            assert(text@.take(i + 1).last() == c);
        }
        let code = c as u32;
        if 0x30 <= code && code <= 0x39 {
            run += 1;
            if run > MAX_DIGIT_RUN {
                assert(trailing_digits(text@.take(i + 1)) > MAX_DIGIT_RUN);
                return false;
            }
        } else {
            run = 0;
        }
        i += 1;
    }
    true
}

/// Whether the answer of the host is a JSON document, going by its content
/// type.
pub fn is_json_response(content_type: Option<&str>) -> (json: bool)
    ensures
        json == match content_type {
            Some(t) => contains_run(t@, "application/json"@),
            None => false,
        },
{
    match content_type {
        None => false,
        Some(t) => contains_chars(&chars_of(t), &chars_of("application/json")),
    }
}

/// Splits a text at its line feeds.
pub fn split_lines(text: &Vec<char>) -> (out: Vec<Vec<char>>)
    ensures
        views(out@) == lines(text@),
{
    let mut done: Vec<Vec<char>> = Vec::new();
    let mut current: Vec<char> = Vec::new();
    let mut i: usize = 0;
    assert(text@.take(0) =~= Seq::<char>::empty());
    assert(views(done@).push(current@) =~= seq![Seq::<char>::empty()]);
    while i < text.len()
        invariant
            i <= text.len(),
            lines(text@.take(i as int)) == views(done@).push(current@),
        decreases text.len() - i,
    {
        let c = text[i];
        let ghost before = views(done@);
        let ghost piece = current@;
        proof {
            assert(text@.take(i + 1).drop_last() =~= text@.take(i as int));
            assert(before.push(piece).drop_last() =~= before);
        }
        if c == '\n' {
            done.push(current);
            current = Vec::new();
            assert(views(done@) =~= before.push(piece));
        } else {
            current.push(c);
        }
        i += 1;
    }
    let ghost before = views(done@);
    assert(text@.take(i as int) =~= text@);
    done.push(current);
    assert(views(done@) =~= before.push(current@));
    done
}

/// Decodes a content of base64 lines into the bytes it stands for.
pub fn decode_content(content: &str) -> (r: Result<Vec<u8>, PayloadError>)
    ensures
        match r {
            Ok(bytes) => decoded_lines(lines(content@)) == Some(bytes@),
            Err(e) => e == PayloadError::BadBase64 && decoded_lines(lines(content@)) is None,
        },
{
    let pieces = split_lines(&chars_of(content));
    let mut binary: Vec<u8> = Vec::new();
    let mut k: usize = 0;
    assert(views(pieces@).take(0) =~= Seq::<Seq<char>>::empty());
    while k < pieces.len()
        invariant
            k <= pieces.len(),
            views(pieces@) == lines(content@),
            decoded_lines(views(pieces@).take(k as int)) == Some(binary@),
        decreases pieces.len() - k,
    {
        let line = string_of(&pieces[k], 0, pieces[k].len());
        proof {
            assert(pieces[k as int]@.subrange(0, pieces[k as int].len() as int) =~= pieces[k as int]@);
            assert(views(pieces@).take(k + 1).drop_last() =~= views(pieces@).take(k as int));
            assert(views(pieces@).take(k + 1).last() == line@);
        }
        match base64_decode(line.as_str()) {
            Ok(mut bytes) => {
                binary.append(&mut bytes);
            },
            Err(_) => {
                proof {
                    assert(decoded_lines(views(pieces@).take(k + 1)) is None);
                    lemma_decoding_fails(views(pieces@), k + 1);
                }
                return Err(PayloadError::BadBase64);
            },
        }
        k += 1;
    }
    assert(views(pieces@).take(k as int) =~= views(pieces@));
    Ok(binary)
}

/// Once a line has failed to decode, the lines as a whole fail.
pub proof fn lemma_decoding_fails(ls: Seq<Seq<char>>, n: int)
    requires
        0 <= n <= ls.len(),
        decoded_lines(ls.take(n)) is None,
    ensures
        decoded_lines(ls) is None,
    decreases ls.len() - n,
{
    if n < ls.len() {
        assert(ls.take(n + 1).drop_last() =~= ls.take(n));
        lemma_decoding_fails(ls, n + 1);
    } else {
        assert(ls.take(n) =~= ls);
    }
}

/// Unpacks the file that a JSON answer of the host holds.
pub fn decode_payload(text: &str) -> (r: Result<Vec<u8>, PayloadError>)
    ensures
        match r {
            Ok(bytes) => payload_of(text@) == Ok::<Seq<u8>, PayloadError>(bytes@),
            Err(e) => payload_of(text@) == Err::<Seq<u8>, PayloadError>(e),
        },
{
    if !digit_runs_ok(&chars_of(text)) {
        return Err(PayloadError::TooManyDigits);
    }
    match parse_text_field(text, "content") {
        Err(_) => Err(PayloadError::NotJson),
        Ok(None) => Err(PayloadError::NoContent),
        Ok(Some(content)) => decode_content(content.as_str()),
    }
}

} // verus!
