//! The ICU backend: Unicode text segmentation (UAX#29).

use vstd::prelude::*;
use vstd::string::StringSliceAdditionalSpecFns;
use vstd::utf8::*;

use icu_segmenter::options::SentenceBreakInvariantOptions;
use icu_segmenter::SentenceSegmenter;

use crate::segmenter::Newlines;
use crate::tiling::ascending_boundaries;
use crate::utf8::{flatten_newlines, lemma_flatten_boundaries, lemma_flatten_valid};

verus! {

broadcast use vstd::string::group_string_axioms;

/// The sentence break positions ICU's invariant-locale segmenter finds in a string.
pub uninterp spec fn icu_breaks_str(text: Seq<char>) -> Seq<usize>;

/// The sentence break positions ICU's invariant-locale segmenter finds in a
/// potentially ill-formed UTF-8 byte string.
pub uninterp spec fn icu_breaks_utf8(bytes: Seq<u8>) -> Seq<usize>;

/// Breaks as ICU documents them for an input of `len` code units: strictly ascending,
/// from 0 to `len`, and only 0 for an empty input.
pub open spec fn well_formed_breaks(breaks: Seq<usize>, len: nat) -> bool {
    &&& breaks.len() > 0
    &&& breaks[0] == 0
    &&& breaks.last() == len
    &&& len == 0 ==> breaks.len() == 1
    &&& forall|i: int, j: int| 0 <= i < j < breaks.len() ==> breaks[i] < breaks[j]
}

/// `SentenceSegmenter::new` with invariant options, then `segment_str`, collected.
/// Claims: the result is a function of the text; it starts at 0, ends at the text's
/// byte length (only 0 for empty text), ascends strictly, and every break is a
/// character boundary.
#[verifier::external_body]
fn icu_sentence_breaks(text: &str) -> (r: Vec<usize>)
    ensures
        r@ == icu_breaks_str(text@),
        well_formed_breaks(r@, text.spec_bytes().len()),
        forall|i: int| 0 <= i < r@.len() ==> is_char_boundary(text.spec_bytes(), #[trigger] r@[i] as int),
{
    SentenceSegmenter::new(SentenceBreakInvariantOptions::default()).segment_str(text).collect()
}

/// `SentenceSegmenter::new` with invariant options, then `segment_utf8`, collected.
/// Claims: the result is a function of the bytes; it starts at 0, ends at their length
/// (only 0 for no bytes), ascends strictly; and on valid UTF-8, whose characters it walks
/// exactly as `segment_str` walks those of the decoded string, it gives what
/// `segment_str` gives for that string, so every break is a character boundary.
#[verifier::external_body]
fn icu_sentence_breaks_utf8(bytes: &[u8]) -> (r: Vec<usize>)
    ensures
        r@ == icu_breaks_utf8(bytes@),
        well_formed_breaks(r@, bytes@.len()),
        valid_utf8(bytes@) ==> r@ == icu_breaks_str(decode_utf8(bytes@)),
        valid_utf8(bytes@) ==> forall|i: int|
            0 <= i < r@.len() ==> is_char_boundary(bytes@, #[trigger] r@[i] as int),
{
    SentenceSegmenter::new(SentenceBreakInvariantOptions::default()).segment_utf8(bytes).collect()
}

/// Break positions without the leading 0, which starts the first sentence rather than
/// ending one.
pub open spec fn drop_leading_zero(breaks: Seq<usize>) -> Seq<usize> {
    if breaks.len() > 0 && breaks[0] == 0 {
        breaks.drop_first()
    } else {
        breaks
    }
}

/// The sentence ends the ICU backend reports for `text`: with [`Newlines::Space`], those
/// of the text in which every line feed is a space.
pub open spec fn spec_boundaries(text: &str, newlines: Newlines) -> Seq<usize> {
    match newlines {
        Newlines::Separator => drop_leading_zero(icu_breaks_str(text@)),
        Newlines::Space => drop_leading_zero(
            icu_breaks_str(decode_utf8(flatten_newlines(text.spec_bytes()))),
        ),
    }
}

/// Segmenting with [`Newlines::Space`] is segmenting, with [`Newlines::Separator`], the
/// text in which every line feed is a space.
pub proof fn law_space_is_separator_on_flattened_text(text: &str, flat: &str)
    requires
        flat.spec_bytes() == flatten_newlines(text.spec_bytes()),
    ensures
        spec_boundaries(text, Newlines::Space) == spec_boundaries(flat, Newlines::Separator),
{
    broadcast use encode_utf8_decode_utf8;

    assert(decode_utf8(flat.spec_bytes()) == flat@);
}

/// Sentence ends from ICU's break positions: the positions without a leading 0.
pub fn sentence_ends_from_breaks(breaks: Vec<usize>) -> (r: Vec<usize>)
    ensures
        r@ == drop_leading_zero(breaks@),
{
    let mut ends = breaks;
    if ends.len() > 0 && ends[0] == 0 {
        ends.remove(0);
    }
    ends
}

/// A copy of the text's bytes with each line feed replaced by a space.
fn flatten(text: &str) -> (r: Vec<u8>)
    ensures
        r@ == flatten_newlines(text.spec_bytes()),
{
    let bytes = text.as_bytes();
    let mut out: Vec<u8> = Vec::new();
    let mut i: usize = 0;
    while i < bytes.len()
        invariant
            i <= bytes@.len(),
            bytes@ == text.spec_bytes(),
            out@ == flatten_newlines(bytes@).take(i as int),
        decreases bytes@.len() - i,
    {
        let b = bytes[i];
        if b == 10u8 {
            out.push(32u8);
        } else {
            out.push(b);
        }
        assert(flatten_newlines(bytes@).take(i + 1) =~= flatten_newlines(bytes@).take(i as int).push(
            if b == 10u8 { 32u8 } else { b },
        ));
        i += 1;
    }
    assert(flatten_newlines(bytes@).take(bytes@.len() as int) =~= flatten_newlines(bytes@));
    out
}

/// Sentence-end offsets according to UAX#29. With [`Newlines::Space`] a copy in which
/// each line feed is a space is segmented; it has the same length and character
/// boundaries, so its offsets hold for `text` itself.
pub fn boundaries(text: &str, newlines: Newlines) -> (r: Vec<usize>)
    ensures
        r@ == spec_boundaries(text, newlines),
        ascending_boundaries(r@, text.spec_bytes()),
        text.spec_bytes().len() > 0 ==> r@.len() > 0 && r@.last() == text.spec_bytes().len(),
{
    broadcast use encode_utf8_valid_utf8;

    let ghost bytes = text.spec_bytes();
    let breaks = match newlines {
        Newlines::Separator => icu_sentence_breaks(text),
        Newlines::Space => {
            let flattened = flatten(text);
            proof {
                lemma_flatten_valid(bytes);
            }
            let r = icu_sentence_breaks_utf8(flattened.as_slice());
            proof {
                assert forall|i: int| 0 <= i < r@.len() implies is_char_boundary(
                    bytes,
                    #[trigger] r@[i] as int,
                ) by {
                    lemma_flatten_boundaries(bytes, r@[i] as int);
                }
            }
            r
        },
    };
    assert(forall|i: int| 0 <= i < breaks@.len() ==> is_char_boundary(bytes, #[trigger] breaks@[i] as int));
    let ends = sentence_ends_from_breaks(breaks);
    proof {
        assert forall|i: int| 0 <= i < ends@.len() implies 0 < #[trigger] ends@[i] <= bytes.len()
            && is_char_boundary(bytes, ends@[i] as int) by {
            assert(ends@[i] == breaks@[i + 1]);
            assert(breaks@[0] < breaks@[i + 1]);
            if i + 1 < breaks@.len() - 1 {
                assert(breaks@[i + 1] < breaks@[breaks@.len() - 1]);
            }
        }
        assert forall|i: int, j: int| 0 <= i < j < ends@.len() implies ends@[i] < ends@[j] by {
            assert(breaks@[i + 1] < breaks@[j + 1]);
        }
    }
    ends
}

} // verus!
