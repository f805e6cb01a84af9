//! Language detection for automatic backend choice, by `whatlang`.

use vstd::prelude::*;
use vstd::string::StrSliceExecFns;

use crate::segmenter::Language;

verus! {

broadcast use vstd::string::group_string_axioms;

/// How many characters of a text are examined: detection converges quickly, and this
/// keeps the cost flat for long documents.
pub const SAMPLE_CHARS: usize = 1024;

/// The ISO 639-3 code of the language `whatlang` detects in `sample`, if any.
pub uninterp spec fn whatlang_language_code(sample: Seq<char>) -> Option<Seq<char>>;

/// `whatlang::detect`, with the detected `Lang` given by its ISO 639-3 code
/// (`Lang::code`). Claims only that the result is a function of the sample.
#[verifier::external_body]
fn detect_language_code(sample: &str) -> (r: Option<&'static str>)
    ensures
        match r {
            Some(code) => whatlang_language_code(sample@) == Some(code@),
            None => whatlang_language_code(sample@) is None,
        },
{
    match whatlang::detect(sample) {
        Some(info) => Some(info.lang().code()),
        None => None,
    }
}

/// The language with a Punkt model whose ISO 639-3 code is `code`, if any.
pub open spec fn language_of_code(code: Seq<char>) -> Option<Language> {
    if code == seq!['c', 'e', 's'] {
        Some(Language::Czech)
    } else if code == seq!['d', 'a', 'n'] {
        Some(Language::Danish)
    } else if code == seq!['n', 'l', 'd'] {
        Some(Language::Dutch)
    } else if code == seq!['e', 'n', 'g'] {
        Some(Language::English)
    } else if code == seq!['e', 's', 't'] {
        Some(Language::Estonian)
    } else if code == seq!['f', 'i', 'n'] {
        Some(Language::Finnish)
    } else if code == seq!['f', 'r', 'a'] {
        Some(Language::French)
    } else if code == seq!['d', 'e', 'u'] {
        Some(Language::German)
    } else if code == seq!['e', 'l', 'l'] {
        Some(Language::Greek)
    } else if code == seq!['i', 't', 'a'] {
        Some(Language::Italian)
    } else if code == seq!['n', 'o', 'b'] {
        Some(Language::Norwegian)
    } else if code == seq!['p', 'o', 'l'] {
        Some(Language::Polish)
    } else if code == seq!['p', 'o', 'r'] {
        Some(Language::Portuguese)
    } else if code == seq!['s', 'l', 'v'] {
        Some(Language::Slovene)
    } else if code == seq!['s', 'p', 'a'] {
        Some(Language::Spanish)
    } else if code == seq!['s', 'w', 'e'] {
        Some(Language::Swedish)
    } else if code == seq!['t', 'u', 'r'] {
        Some(Language::Turkish)
    } else {
        None
    }
}

/// The first `SAMPLE_CHARS` characters of a text (all of them if it is shorter).
pub open spec fn detection_sample(text: Seq<char>) -> Seq<char> {
    if text.len() <= SAMPLE_CHARS {
        text
    } else {
        text.take(SAMPLE_CHARS as int)
    }
}

/// The language detected in a text, if it is one Punkt has a model for.
pub open spec fn spec_detect(text: Seq<char>) -> Option<Language> {
    match whatlang_language_code(detection_sample(text)) {
        Some(code) => language_of_code(code),
        None => None,
    }
}

/// The language with a Punkt model whose ISO 639-3 code is `code`, if any.
pub fn language_from_code(code: &str) -> (r: Option<Language>)
    ensures
        r == language_of_code(code@),
{
    if code.unicode_len() != 3 {
        assert(code@.len() != 3);
        return None;
    }
    let c0 = code.get_char(0);
    let c1 = code.get_char(1);
    let c2 = code.get_char(2);
    assert(code@ =~= seq![c0, c1, c2]);
    match (c0, c1, c2) {
        ('c', 'e', 's') => Some(Language::Czech),
        ('d', 'a', 'n') => Some(Language::Danish),
        ('n', 'l', 'd') => Some(Language::Dutch),
        ('e', 'n', 'g') => Some(Language::English),
        ('e', 's', 't') => Some(Language::Estonian),
        ('f', 'i', 'n') => Some(Language::Finnish),
        ('f', 'r', 'a') => Some(Language::French),
        ('d', 'e', 'u') => Some(Language::German),
        ('e', 'l', 'l') => Some(Language::Greek),
        ('i', 't', 'a') => Some(Language::Italian),
        ('n', 'o', 'b') => Some(Language::Norwegian),
        ('p', 'o', 'l') => Some(Language::Polish),
        ('p', 'o', 'r') => Some(Language::Portuguese),
        ('s', 'l', 'v') => Some(Language::Slovene),
        ('s', 'p', 'a') => Some(Language::Spanish),
        ('s', 'w', 'e') => Some(Language::Swedish),
        ('t', 'u', 'r') => Some(Language::Turkish),
        _ => None,
    }
}

/// Number of characters in the detection sample of `text`.
fn sample_len(text: &str) -> (n: usize)
    ensures
        n == detection_sample(text@).len(),
{
    let mut chars = text.chars();
    let mut n: usize = 0;
    while n < SAMPLE_CHARS
        invariant
            n <= SAMPLE_CHARS,
            n <= text@.len(),
            vstd::std_specs::iter::IteratorSpec::remaining(&chars) == text@.skip(n as int),
        decreases SAMPLE_CHARS - n,
    {
        match chars.next() {
            Some(_) => {
                n += 1;
            },
            None => {
                return n;
            },
        }
    }
    n
}

/// The language of `text` as detected from its first `SAMPLE_CHARS` characters, or
/// `None` if it is not one Punkt has a model for.
pub fn detect(text: &str) -> (r: Option<Language>)
    ensures
        r == spec_detect(text@),
{
    let n = sample_len(text);
    let sample = text.substring_char(0, n);
    assert(sample@ =~= detection_sample(text@));
    match detect_language_code(sample) {
        Some(code) => language_from_code(code),
        None => None,
    }
}

} // verus!
