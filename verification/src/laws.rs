//! Properties that relate several operations of the segmenter.

use vstd::prelude::*;

use vstd::string::StringSliceAdditionalSpecFns;

use crate::icu::law_space_is_separator_on_flattened_text;
use crate::detect::spec_detect;
use crate::punkt::english::english_model;
use crate::punkt::tokenizer::{
    blank_whitespace, law_punkt_newline_is_space, law_punkt_whitespace_is_space,
};
use crate::segmenter::{
    spec_backend_for, spec_boundaries, spec_is_available, Backend, Error, Language, Mode,
    Newlines, Segmenter, Span,
};
use crate::tiling::spec_close;
use crate::utf8::flatten_newlines;

verus! {

/// The newline policy only affects ICU: two segmenters that use Punkt with the same
/// language segment every text identically, whatever their newline policies.
pub proof fn law_newline_policy_does_not_affect_punkt(a: Segmenter, b: Segmenter, text: &str)
    requires
        a.mode() == b.mode(),
        a.mode() is Punkt,
    ensures
        spec_boundaries(a, text) == spec_boundaries(b, text),
{
}

/// Whatever the mode, when the backend chosen for a text is Punkt, the newline policy
/// does not change how that text is segmented.
pub proof fn law_newline_policy_irrelevant_when_punkt_chosen(a: Segmenter, b: Segmenter, text: &str)
    requires
        a.mode() == b.mode(),
        spec_backend_for(a, text@) matches Ok(Backend::Punkt(_)),
    ensures
        spec_boundaries(a, text) == spec_boundaries(b, text),
{
}

/// With ICU, segmenting a text with newlines as spaces is segmenting, with newlines as
/// separators, the copy in which every line feed is a space; the copy has the same
/// length, so its offsets hold for the text.
pub proof fn law_icu_space_is_separator_on_flattened_text(
    a: Segmenter,
    b: Segmenter,
    text: &str,
    flat: &str,
)
    requires
        a.mode() is Icu,
        b.mode() is Icu,
        a.newline_policy() == Newlines::Space,
        b.newline_policy() == Newlines::Separator,
        flat.spec_bytes() == flatten_newlines(text.spec_bytes()),
    ensures
        spec_boundaries(a, text) == spec_boundaries(b, flat),
{
    law_space_is_separator_on_flattened_text(text, flat);
    assert(text@.len() == 0 <==> text.spec_bytes().len() == 0) by {
        reveal_with_fuel(vstd::utf8::encode_utf8, 1);
    }
    assert(flat@.len() == 0 <==> flat.spec_bytes().len() == 0) by {
        reveal_with_fuel(vstd::utf8::encode_utf8, 1);
    }
}

/// In auto mode the backend follows the detected language: Punkt with that language's
/// model exactly when a language is detected and its model is available, ICU otherwise.
/// Whatever the mode, a Punkt backend uses either the language asked for or the one
/// detected in the text.
pub proof fn law_auto_backend_follows_detection(seg: Segmenter, text: Seq<char>, l: Language)
    ensures
        spec_backend_for(seg, text) == Ok::<Backend, Error>(Backend::Punkt(l)) ==> seg.mode()
            == Mode::Punkt(l) || (seg.mode() is Auto && spec_detect(text) == Some(l)
            && spec_is_available(l)),
        seg.mode() is Auto ==> (spec_backend_for(seg, text) == Ok::<Backend, Error>(
            Backend::Punkt(l),
        ) <==> spec_detect(text) == Some(l) && spec_is_available(l)),
        seg.mode() is Auto && (spec_detect(text) is None || (spec_detect(text) matches Some(d)
            && !spec_is_available(d))) ==> spec_backend_for(seg, text) == Ok::<Backend, Error>(
            Backend::Icu,
        ),
{
}

/// Punkt treats a line feed as a space: a text and its copy in which every line feed is
/// a space have the same sentence ends, whatever the language and newline policy.
pub proof fn law_punkt_treats_newlines_as_spaces(seg: Segmenter, text: &str, flat: &str)
    requires
        seg.mode() is Punkt,
        flat.spec_bytes() == flatten_newlines(text.spec_bytes()),
    ensures
        spec_boundaries(seg, text) == spec_boundaries(seg, flat),
{
    law_punkt_newline_is_space(text.spec_bytes(), english_model());
    assert(text@.len() == 0 <==> text.spec_bytes().len() == 0) by {
        reveal_with_fuel(vstd::utf8::encode_utf8, 1);
    }
    assert(flat@.len() == 0 <==> flat.spec_bytes().len() == 0) by {
        reveal_with_fuel(vstd::utf8::encode_utf8, 1);
    }
}

/// Punkt treats every ASCII whitespace byte as a space: a text and its copy in which
/// tabs, line feeds, vertical tabs, form feeds and carriage returns are spaces have the
/// same sentence ends.
pub proof fn law_punkt_treats_whitespace_as_spaces(seg: Segmenter, text: &str, blank: &str)
    requires
        seg.mode() is Punkt,
        blank.spec_bytes() == blank_whitespace(text.spec_bytes()),
    ensures
        spec_boundaries(seg, text) == spec_boundaries(seg, blank),
{
    law_punkt_whitespace_is_space(text.spec_bytes(), english_model());
    assert(text@.len() == 0 <==> text.spec_bytes().len() == 0) by {
        reveal_with_fuel(vstd::utf8::encode_utf8, 1);
    }
    assert(blank@.len() == 0 <==> blank.spec_bytes().len() == 0) by {
        reveal_with_fuel(vstd::utf8::encode_utf8, 1);
    }
}

/// The backend is the same for every text, except in auto mode.
pub proof fn law_backend_constant_unless_auto(seg: Segmenter, t1: Seq<char>, t2: Seq<char>)
    requires
        !(seg.mode() is Auto),
    ensures
        spec_backend_for(seg, t1) == spec_backend_for(seg, t2),
{
}

/// Auto mode only picks Punkt for a language whose model is available, and it always
/// picks some backend.
pub proof fn law_auto_picks_only_available_models(seg: Segmenter, text: Seq<char>)
    requires
        seg.mode() is Auto,
    ensures
        spec_backend_for(seg, text) is Ok,
        spec_backend_for(seg, text) matches Ok(Backend::Punkt(l)) ==> spec_is_available(l),
{
}

/// An explicit choice of backend is honoured for every text.
pub proof fn law_explicit_backend_is_used(seg: Segmenter, text: Seq<char>)
    ensures
        seg.mode() matches Mode::Punkt(l) ==> spec_backend_for(seg, text) == Ok::<
            Backend,
            crate::segmenter::Error,
        >(Backend::Punkt(l)),
        seg.mode() is Icu ==> spec_backend_for(seg, text) == Ok::<Backend, crate::segmenter::Error>(
            Backend::Icu,
        ),
{
}

/// Empty text has no sentences, whatever the segmenter.
pub proof fn law_empty_text_has_no_sentences(seg: Segmenter, text: &str)
    requires
        text@.len() == 0,
    ensures
        spec_boundaries(seg, text) == Ok::<Seq<usize>, crate::segmenter::Error>(Seq::empty()),
{
}

/// Closing the last sentence twice is closing it once.
pub proof fn law_close_is_idempotent(ends: Seq<usize>, len: usize)
    ensures
        spec_close(spec_close(ends, len), len) == spec_close(ends, len),
        spec_close(ends, len).len() > 0 && spec_close(ends, len).last() == len,
{
}

/// A span's length is the distance between its ends, and it is empty exactly when
/// that distance is 0.
pub proof fn law_span_len_and_emptiness(s: Span)
    requires
        s.start <= s.end,
    ensures
        (s.start == s.end) <==> (s.end - s.start == 0),
{
}

} // verus!
