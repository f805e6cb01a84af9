//! Punkt's sentence boundary decision over a trained model: a token whose last
//! non-closing character ends a sentence is a boundary unless the model and the next
//! token say it is an abbreviation, an initial, an ordinal or part of a collocation.

use vstd::prelude::*;
use vstd::string::StringSliceAdditionalSpecFns;
use vstd::utf8::*;

use crate::punkt::collections::bucket;
use crate::punkt::english::{english_abbrevs, english_model, english_sentence_starters};
use crate::punkt::trainer::{lowercase, to_lowercase, ModelContents, TrainingData};
use crate::tiling::{ascending_boundaries, lemma_boundary_in_prefix};
use crate::utf8::flatten_newlines;

verus! {

broadcast use vstd::string::group_string_axioms;

/// ASCII whitespace: space, tab, line feed, vertical tab, form feed, carriage return.
pub open spec fn is_ws(b: u8) -> bool {
    b == 32u8 || (9u8 <= b && b <= 13u8)
}

/// Punctuation that may close a sentence after its terminator: quotes and brackets.
pub open spec fn is_closer(b: u8) -> bool {
    b == 34u8 || b == 39u8 || b == 41u8 || b == 93u8 || b == 125u8
}

/// `.`, `?` or `!`.
pub open spec fn is_terminator(b: u8) -> bool {
    b == 46u8 || b == 63u8 || b == 33u8
}

pub open spec fn is_upper(b: u8) -> bool {
    65u8 <= b && b <= 90u8
}

pub open spec fn is_lower(b: u8) -> bool {
    97u8 <= b && b <= 122u8
}

pub open spec fn is_digit(b: u8) -> bool {
    48u8 <= b && b <= 57u8
}

/// A token that is a single one of `; : , . ! ?`.
pub open spec fn is_punct(b: u8) -> bool {
    b == 59u8 || b == 58u8 || b == 44u8 || b == 46u8 || b == 33u8 || b == 63u8
}

/// The first position at or after `p` that is not whitespace (or the end).
pub open spec fn skip_ws(bytes: Seq<u8>, p: int) -> int
    decreases bytes.len() - p,
{
    if p < 0 || p >= bytes.len() || !is_ws(bytes[p]) {
        p
    } else {
        skip_ws(bytes, p + 1)
    }
}

/// The first position at or after `p` that is whitespace (or the end).
pub open spec fn tok_end(bytes: Seq<u8>, p: int) -> int
    decreases bytes.len() - p,
{
    if p < 0 || p >= bytes.len() || is_ws(bytes[p]) {
        p
    } else {
        tok_end(bytes, p + 1)
    }
}

/// The end of the token `[s, e)` without its trailing closing punctuation.
pub open spec fn core_end(bytes: Seq<u8>, s: int, e: int) -> int
    decreases e - s,
{
    if e > s && is_closer(bytes[e - 1]) {
        core_end(bytes, s, e - 1)
    } else {
        e
    }
}

/// The end of the token's word: its core without a final period.
pub open spec fn word_end(bytes: Seq<u8>, s: int, e: int) -> int {
    let c = core_end(bytes, s, e);
    if c > s && bytes[c - 1] == 46u8 {
        c - 1
    } else {
        c
    }
}

/// The type of the word `[s, w)`: `##number##` when it starts with a digit, else its
/// lowercase form.
pub open spec fn word_type(bytes: Seq<u8>, s: int, w: int) -> Seq<char> {
    if w > s && is_digit(bytes[s]) {
        "##number##"@
    } else {
        lowercase(decode_utf8(bytes.subrange(s, w)))
    }
}

/// The orthographic context the model records for a word type, or 0.
pub open spec fn ortho_context(m: ModelContents, typ: Seq<char>) -> u8 {
    if m.3.contains_key(typ) {
        m.3[typ]
    } else {
        0u8
    }
}

/// What the orthography of a token says about whether it starts a sentence.
#[derive(PartialEq, Eq, Structural, Clone, Copy)]
pub enum Ortho {
    Starts,
    DoesNotStart,
    Unknown,
}

/// The orthographic heuristic for the token `[s2, e2)` whose word type is `t2`: a
/// capitalized word seen in lowercase but never capitalized mid-sentence starts one; a
/// lowercase word seen capitalized, or never seen lowercase at a sentence start, does not.
pub open spec fn ortho_of_type(bytes: Seq<u8>, m: ModelContents, s2: int, e2: int, t2: Seq<char>) -> Ortho {
    if e2 == s2 + 1 && is_punct(bytes[s2]) {
        Ortho::DoesNotStart
    } else {
        let ctx = ortho_context(m, t2);
        if is_upper(bytes[s2]) && ctx & 112u8 != 0u8 && ctx & 4u8 == 0u8 {
            Ortho::Starts
        } else if is_lower(bytes[s2]) && (ctx & 14u8 != 0u8 || ctx & 16u8 == 0u8) {
            Ortho::DoesNotStart
        } else {
            Ortho::Unknown
        }
    }
}

/// The type of the word of the token `[s, e)` that ends in a period.
pub open spec fn first_word_type(bytes: Seq<u8>, s: int, e: int) -> Seq<char> {
    word_type(bytes, s, core_end(bytes, s, e) - 1)
}

/// The type of the word of the token `[s2, e2)`.
pub open spec fn next_word_type(bytes: Seq<u8>, s2: int, e2: int) -> Seq<char> {
    word_type(bytes, s2, word_end(bytes, s2, e2))
}

/// Whether a sentence ends with the token `[s, e)`, followed by the token `[s2, e2)`
/// when `has_next`, given the type `t1` of the first token's word (when it ends in a
/// period) and the type `t2` of the next token's word.
pub open spec fn decide(
    bytes: Seq<u8>,
    m: ModelContents,
    s: int,
    e: int,
    s2: int,
    e2: int,
    has_next: bool,
    t1: Seq<char>,
    t2: Seq<char>,
) -> bool {
    let c = core_end(bytes, s, e);
    if !(c > s && is_terminator(bytes[c - 1])) {
        false
    } else if bytes[c - 1] != 46u8 {
        true
    } else {
        let w = c - 1;
        let ellipsis = w > s && bytes[w - 1] == 46u8;
        let abbr = !ellipsis && m.0.contains(t1);
        let first = !ellipsis && !abbr;
        let initial = w == s + 1 && (is_upper(bytes[s]) || is_lower(bytes[s]));
        let numeric = w > s && is_digit(bytes[s]);
        if !has_next {
            first
        } else if bucket(m.2, t1).contains(t2) {
            false
        } else if (abbr || ellipsis) && !initial {
            ortho_of_type(bytes, m, s2, e2, t2) == Ortho::Starts || (is_upper(bytes[s2])
                && m.1.contains(t2))
        } else if initial || numeric {
            let o = ortho_of_type(bytes, m, s2, e2, t2);
            if o == Ortho::DoesNotStart {
                false
            } else if o == Ortho::Unknown && initial && is_upper(bytes[s2]) && ortho_context(
                m,
                t2,
            ) & 112u8 == 0u8 {
                false
            } else {
                first
            }
        } else {
            first
        }
    }
}

/// A token whose last character before any closing quotes or brackets is `?` or `!`
/// always ends a sentence; one that ends in no terminator never does.
pub proof fn law_terminators_decide_alone(
    bytes: Seq<u8>,
    m: ModelContents,
    s: int,
    e: int,
    s2: int,
    e2: int,
    has_next: bool,
    t1: Seq<char>,
    t2: Seq<char>,
)
    requires
        0 <= s < e <= bytes.len(),
    ensures
        ({
            let c = core_end(bytes, s, e);
            c > s && (bytes[c - 1] == 63u8 || bytes[c - 1] == 33u8) ==> decide(
                bytes,
                m,
                s,
                e,
                s2,
                e2,
                has_next,
                t1,
                t2,
            )
        }),
        ({
            let c = core_end(bytes, s, e);
            !(c > s && is_terminator(bytes[c - 1])) ==> !decide(bytes, m, s, e, s2, e2, has_next, t1, t2)
        }),
{
}

/// A period followed by a word that the model knows to follow the period's word never
/// ends a sentence: the two words form a collocation.
pub proof fn law_known_collocation_never_breaks(
    bytes: Seq<u8>,
    m: ModelContents,
    s: int,
    e: int,
    s2: int,
    e2: int,
    t1: Seq<char>,
    t2: Seq<char>,
)
    requires
        0 <= s < e <= bytes.len(),
        core_end(bytes, s, e) > s,
        bytes[core_end(bytes, s, e) - 1] == 46u8,
        bucket(m.2, t1).contains(t2),
    ensures
        !decide(bytes, m, s, e, s2, e2, true, t1, t2),
{
}

/// A period after a word the model does not know as an abbreviation ends the text's
/// last sentence, unless it ends an ellipsis.
pub proof fn law_last_period_breaks_unless_abbreviation(
    bytes: Seq<u8>,
    m: ModelContents,
    s: int,
    e: int,
    t1: Seq<char>,
    t2: Seq<char>,
)
    requires
        0 <= s < e <= bytes.len(),
        core_end(bytes, s, e) > s,
        bytes[core_end(bytes, s, e) - 1] == 46u8,
    ensures
        decide(bytes, m, s, e, 0, 0, false, t1, t2) == (!m.0.contains(t1) && !(core_end(bytes, s, e)
            - 1 > s && bytes[core_end(bytes, s, e) - 2] == 46u8)),
{
}

/// A number ending in a period, followed by a capitalized word the model has never seen
/// (no orthographic context) and that forms no collocation with it, ends a sentence;
/// an initial in the same place does not. The number is not an abbreviation and does
/// not end an ellipsis.
pub proof fn law_number_or_initial_before_unknown_capitalized_word(
    bytes: Seq<u8>,
    m: ModelContents,
    s: int,
    e: int,
    s2: int,
    e2: int,
    t1: Seq<char>,
    t2: Seq<char>,
)
    requires
        0 <= s < e <= bytes.len(),
        0 <= s2 < bytes.len(),
        core_end(bytes, s, e) > s,
        bytes[core_end(bytes, s, e) - 1] == 46u8,
        !(core_end(bytes, s, e) - 1 > s && bytes[core_end(bytes, s, e) - 2] == 46u8),
        !m.0.contains(t1),
        is_upper(bytes[s2]),
        ortho_context(m, t2) == 0u8,
        !bucket(m.2, t1).contains(t2),
    ensures
        is_digit(bytes[s]) ==> decide(bytes, m, s, e, s2, e2, true, t1, t2),
        core_end(bytes, s, e) == s + 2 && is_upper(bytes[s]) ==> !decide(
            bytes,
            m,
            s,
            e,
            s2,
            e2,
            true,
            t1,
            t2,
        ),
{
    lemma_core_end(bytes, s, e);
    assert(0u8 & 112u8 == 0u8 && 0u8 & 4u8 == 0u8 && 0u8 & 14u8 == 0u8 && 0u8 & 16u8 == 0u8) by (bit_vector);
}

/// With the English model, a word it knows as an abbreviation, ending in a single
/// period and no initial, does not end a sentence unless the next word is a capitalized
/// sentence starter: a title before a name stays in its sentence.
pub proof fn law_english_abbreviation_keeps_its_sentence(
    bytes: Seq<u8>,
    s: int,
    e: int,
    s2: int,
    e2: int,
    t1: Seq<char>,
    t2: Seq<char>,
)
    requires
        0 <= s < e <= bytes.len(),
        0 <= s2 < bytes.len(),
        core_end(bytes, s, e) > s + 2,
        bytes[core_end(bytes, s, e) - 1] == 46u8,
        bytes[core_end(bytes, s, e) - 2] != 46u8,
        english_abbrevs().contains(t1),
        !(is_upper(bytes[s2]) && english_sentence_starters().contains(t2)),
    ensures
        !decide(bytes, english_model(), s, e, s2, e2, true, t1, t2),
{
    lemma_core_end(bytes, s, e);
    assert(0u8 & 112u8 == 0u8 && 0u8 & 4u8 == 0u8 && 0u8 & 14u8 == 0u8 && 0u8 & 16u8 == 0u8) by (bit_vector);
    assert(ortho_context(english_model(), t2) == 0u8);
}

/// The English model knows the common titles, Latin abbreviations and times of day as
/// abbreviations.
pub proof fn law_english_knows_common_abbreviations()
    ensures
        english_abbrevs().contains("mr"@),
        english_abbrevs().contains("mrs"@),
        english_abbrevs().contains("ms"@),
        english_abbrevs().contains("dr"@),
        english_abbrevs().contains("prof"@),
        english_abbrevs().contains("rev"@),
        english_abbrevs().contains("st"@),
        english_abbrevs().contains("jr"@),
        english_abbrevs().contains("sr"@),
        english_abbrevs().contains("gen"@),
        english_abbrevs().contains("capt"@),
        english_abbrevs().contains("etc"@),
        english_abbrevs().contains("e.g"@),
        english_abbrevs().contains("i.e"@),
        english_abbrevs().contains("vs"@),
        english_abbrevs().contains("a.m"@),
        english_abbrevs().contains("p.m"@),
        english_abbrevs().contains("inc"@),
        english_abbrevs().contains("ltd"@),
        english_abbrevs().contains("u.s"@),
        english_model().0 == english_abbrevs(),
{
}

/// Whether a sentence ends with the token `[s, e)`, followed by the token `[s2, e2)`
/// when `has_next`.
pub open spec fn breaks_after(
    bytes: Seq<u8>,
    m: ModelContents,
    s: int,
    e: int,
    s2: int,
    e2: int,
    has_next: bool,
) -> bool {
    decide(
        bytes,
        m,
        s,
        e,
        s2,
        e2,
        has_next,
        first_word_type(bytes, s, e),
        next_word_type(bytes, s2, e2),
    )
}

/// The sentence ends Punkt finds in `bytes` from position `p` on: the end of each
/// token after which a sentence ends.
pub open spec fn ends_from(bytes: Seq<u8>, m: ModelContents, p: int) -> Seq<usize>
    decreases bytes.len() - p,
{
    let s = skip_ws(bytes, p);
    let e = tok_end(bytes, s);
    if s >= bytes.len() || e <= p || e > bytes.len() {
        Seq::empty()
    } else {
        let s2 = skip_ws(bytes, e);
        let e2 = tok_end(bytes, s2);
        let rest = ends_from(bytes, m, e);
        if breaks_after(bytes, m, s, e, s2, e2, s2 < bytes.len()) {
            seq![e as usize] + rest
        } else {
            rest
        }
    }
}

proof fn lemma_skip_ws(bytes: Seq<u8>, p: int)
    requires
        0 <= p <= bytes.len(),
    ensures
        p <= skip_ws(bytes, p) <= bytes.len(),
        skip_ws(bytes, p) < bytes.len() ==> !is_ws(bytes[skip_ws(bytes, p)]),
        skip_ws(bytes, p) == p || is_ws(bytes[skip_ws(bytes, p) - 1]),
    decreases bytes.len() - p,
{
    if p < bytes.len() && is_ws(bytes[p]) {
        lemma_skip_ws(bytes, p + 1);
    }
}

proof fn lemma_tok_end(bytes: Seq<u8>, p: int)
    requires
        0 <= p <= bytes.len(),
    ensures
        p <= tok_end(bytes, p) <= bytes.len(),
        tok_end(bytes, p) < bytes.len() ==> is_ws(bytes[tok_end(bytes, p)]),
        p < bytes.len() && !is_ws(bytes[p]) ==> tok_end(bytes, p) > p,
    decreases bytes.len() - p,
{
    if p < bytes.len() && !is_ws(bytes[p]) {
        lemma_tok_end(bytes, p + 1);
    }
}

proof fn lemma_core_end(bytes: Seq<u8>, s: int, e: int)
    requires
        0 <= s <= e <= bytes.len(),
    ensures
        s <= core_end(bytes, s, e) <= e,
        core_end(bytes, s, e) == e || is_closer(bytes[core_end(bytes, s, e)]),
    decreases e - s,
{
    if e > s && is_closer(bytes[e - 1]) {
        lemma_core_end(bytes, s, e - 1);
    }
}

/// In valid UTF-8, an ASCII byte is a whole character: it starts at a boundary and the
/// next position is one too.
pub proof fn lemma_ascii_boundaries(bytes: Seq<u8>, j: int)
    requires
        valid_utf8(bytes),
        0 <= j < bytes.len(),
        bytes[j] < 128u8,
    ensures
        is_char_boundary(bytes, j),
        is_char_boundary(bytes, j + 1),
    decreases bytes.len(),
{
    broadcast use is_char_boundary_iff_not_is_continuation_byte, is_char_boundary_start_end_of_seq;

    assert(is_char_boundary(bytes, j) <==> !is_continuation_byte(bytes[j]));
    let n = length_of_first_scalar(bytes);
    let rest = pop_first_scalar(bytes);
    if j == 0 {
        assert(n == 1);
        assert(valid_utf8(rest));
        assert(is_char_boundary(rest, 0));
    } else {
        if j < n {
            assert(is_continuation_byte(bytes[j]));
        }
        assert(rest.len() < bytes.len());
        assert(rest[j - n] == bytes[j]);
        lemma_ascii_boundaries(rest, j - n);
        reveal_with_fuel(is_char_boundary, 2);
    }
}

/// A position at the end of the bytes, or at whitespace, is a character boundary.
proof fn lemma_ws_or_end_boundary(bytes: Seq<u8>, i: int)
    requires
        valid_utf8(bytes),
        0 <= i <= bytes.len(),
        i == bytes.len() || is_ws(bytes[i]) || is_closer(bytes[i]) || bytes[i] == 46u8,
    ensures
        is_char_boundary(bytes, i),
{
    broadcast use is_char_boundary_start_end_of_seq;

    if i < bytes.len() {
        lemma_ascii_boundaries(bytes, i);
    }
}

/// The start of the token found from `p` is a character boundary, when `p` is one.
proof fn lemma_token_start_boundary(bytes: Seq<u8>, p: int)
    requires
        valid_utf8(bytes),
        0 <= p <= bytes.len(),
        is_char_boundary(bytes, p),
    ensures
        is_char_boundary(bytes, skip_ws(bytes, p)),
{
    lemma_skip_ws(bytes, p);
    let s = skip_ws(bytes, p);
    if s != p {
        lemma_ascii_boundaries(bytes, s - 1);
    }
}

/// The sentence ends found from `p` ascend strictly, exceed `p`, and are character
/// boundaries within the bytes.
pub proof fn lemma_ends_from(bytes: Seq<u8>, m: ModelContents, p: int)
    requires
        valid_utf8(bytes),
        bytes.len() <= usize::MAX,
        0 <= p <= bytes.len(),
    ensures
        forall|i: int|
            0 <= i < ends_from(bytes, m, p).len() ==> p < #[trigger] ends_from(bytes, m, p)[i]
                <= bytes.len() && is_char_boundary(bytes, ends_from(bytes, m, p)[i] as int),
        forall|i: int, j: int|
            0 <= i < j < ends_from(bytes, m, p).len() ==> ends_from(bytes, m, p)[i] < ends_from(
                bytes,
                m,
                p,
            )[j],
    decreases bytes.len() - p,
{
    let s = skip_ws(bytes, p);
    let e = tok_end(bytes, s);
    lemma_skip_ws(bytes, p);
    if s < bytes.len() {
        lemma_tok_end(bytes, s);
        lemma_ws_or_end_boundary(bytes, e);
        lemma_ends_from(bytes, m, e);
        let rest = ends_from(bytes, m, e);
        let r = ends_from(bytes, m, p);
        if r != rest {
            assert(r == seq![e as usize] + rest);
            assert forall|i: int| 0 <= i < r.len() implies p < #[trigger] r[i] <= bytes.len()
                && is_char_boundary(bytes, r[i] as int) by {
                if i > 0 {
                    assert(r[i] == rest[i - 1]);
                }
            }
            assert forall|i: int, j: int| 0 <= i < j < r.len() implies r[i] < r[j] by {
                assert(r[j] == rest[j - 1]);
                if i > 0 {
                    assert(r[i] == rest[i - 1]);
                }
            }
        }
    }
}

/// Whether `b` and `f` have the same length, whitespace at the same positions, and the
/// same bytes everywhere else.
pub open spec fn same_but_whitespace(b: Seq<u8>, f: Seq<u8>) -> bool {
    &&& b.len() == f.len()
    &&& forall|i: int| 0 <= i < b.len() ==> is_ws(#[trigger] b[i]) == is_ws(f[i])
    &&& forall|i: int| 0 <= i < b.len() && !is_ws(#[trigger] b[i]) ==> f[i] == b[i]
}

/// `bytes` with every ASCII whitespace byte (tab, line feed, vertical tab, form feed,
/// carriage return) replaced by a space.
pub open spec fn blank_whitespace(bytes: Seq<u8>) -> Seq<u8> {
    Seq::new(bytes.len(), |i: int| if 9u8 <= bytes[i] && bytes[i] <= 13u8 { 32u8 } else { bytes[i] })
}

proof fn lemma_tok_interior(bytes: Seq<u8>, p: int)
    requires
        0 <= p <= bytes.len(),
    ensures
        forall|i: int| p <= i < tok_end(bytes, p) ==> !is_ws(#[trigger] bytes[i]),
    decreases bytes.len() - p,
{
    if p < bytes.len() && !is_ws(bytes[p]) {
        lemma_tok_interior(bytes, p + 1);
    }
}

proof fn lemma_same_scan(b: Seq<u8>, f: Seq<u8>, p: int)
    requires
        same_but_whitespace(b, f),
        0 <= p <= b.len(),
    ensures
        skip_ws(b, p) == skip_ws(f, p),
        tok_end(b, p) == tok_end(f, p),
    decreases b.len() - p,
{
    if p < b.len() {
        assert(is_ws(b[p]) == is_ws(f[p]));
        lemma_same_scan(b, f, p + 1);
    }
}

proof fn lemma_same_core_end(b: Seq<u8>, f: Seq<u8>, s: int, e: int)
    requires
        0 <= s <= e <= b.len(),
        b.len() == f.len(),
        forall|i: int| s <= i < e ==> #[trigger] b[i] == f[i],
    ensures
        core_end(b, s, e) == core_end(f, s, e),
    decreases e - s,
{
    if e > s {
        assert(b[e - 1] == f[e - 1]);
        lemma_same_core_end(b, f, s, e - 1);
    }
}

proof fn lemma_same_decide(
    b: Seq<u8>,
    f: Seq<u8>,
    m: ModelContents,
    s: int,
    e: int,
    s2: int,
    e2: int,
    has_next: bool,
    t1: Seq<char>,
    t2: Seq<char>,
)
    requires
        0 <= s < e <= b.len(),
        b.len() == f.len(),
        forall|i: int| s <= i < e ==> #[trigger] b[i] == f[i],
        has_next ==> 0 <= s2 < e2 <= b.len() && forall|i: int| s2 <= i < e2 ==> #[trigger] b[i] == f[i],
    ensures
        decide(b, m, s, e, s2, e2, has_next, t1, t2) == decide(f, m, s, e, s2, e2, has_next, t1, t2),
{
    lemma_same_core_end(b, f, s, e);
    lemma_core_end(b, s, e);
    let c = core_end(b, s, e);
    if c > s {
        assert(b[c - 1] == f[c - 1]);
        assert(b[s] == f[s]);
        if c - 1 > s {
            assert(b[c - 2] == f[c - 2]);
        }
    }
    if has_next {
        assert(b[s2] == f[s2]);
    }
}

proof fn lemma_same_breaks_after(
    b: Seq<u8>,
    f: Seq<u8>,
    m: ModelContents,
    s: int,
    e: int,
    s2: int,
    e2: int,
    has_next: bool,
)
    requires
        0 <= s < e <= b.len(),
        b.len() == f.len(),
        forall|i: int| s <= i < e ==> #[trigger] b[i] == f[i],
        has_next ==> 0 <= s2 < e2 <= b.len() && forall|i: int| s2 <= i < e2 ==> #[trigger] b[i] == f[i],
    ensures
        breaks_after(b, m, s, e, s2, e2, has_next) == breaks_after(f, m, s, e, s2, e2, has_next),
{
    let t1b = first_word_type(b, s, e);
    let t2b = next_word_type(b, s2, e2);
    lemma_same_decide(b, f, m, s, e, s2, e2, has_next, t1b, t2b);
    lemma_same_core_end(b, f, s, e);
    lemma_core_end(b, s, e);
    let c = core_end(b, s, e);
    if c > s && is_terminator(b[c - 1]) && b[c - 1] == 46u8 {
        assert(b.subrange(s, c - 1) =~= f.subrange(s, c - 1));
        assert(t1b == first_word_type(f, s, e));
        if has_next {
            lemma_same_core_end(b, f, s2, e2);
            lemma_core_end(b, s2, e2);
            let c2 = core_end(b, s2, e2);
            if c2 > s2 {
                assert(b[c2 - 1] == f[c2 - 1]);
            }
            let w2 = word_end(b, s2, e2);
            assert(w2 == word_end(f, s2, e2));
            if w2 > s2 {
                assert(b[s2] == f[s2]);
            }
            assert(b.subrange(s2, w2) =~= f.subrange(s2, w2));
            assert(t2b == next_word_type(f, s2, e2));
        }
    }
}

/// Punkt finds the same sentence ends in two byte strings that differ only in which
/// whitespace bytes they have.
pub proof fn lemma_ends_same_but_whitespace(b: Seq<u8>, f: Seq<u8>, m: ModelContents, p: int)
    requires
        same_but_whitespace(b, f),
        0 <= p <= b.len(),
    ensures
        ends_from(b, m, p) == ends_from(f, m, p),
    decreases b.len() - p,
{
    lemma_same_scan(b, f, p);
    lemma_skip_ws(b, p);
    let s = skip_ws(b, p);
    let e = tok_end(b, s);
    if s < b.len() {
        lemma_same_scan(b, f, s);
        lemma_tok_end(b, s);
        lemma_tok_interior(b, s);
        lemma_same_scan(b, f, e);
        lemma_skip_ws(b, e);
        let s2 = skip_ws(b, e);
        lemma_same_scan(b, f, s2);
        lemma_tok_end(b, s2);
        lemma_tok_interior(b, s2);
        let e2 = tok_end(b, s2);
        assert forall|i: int| s <= i < e implies #[trigger] b[i] == f[i] by {
            assert(!is_ws(b[i]));
        }
        if s2 < b.len() {
            assert forall|i: int| s2 <= i < e2 implies #[trigger] b[i] == f[i] by {
                assert(!is_ws(b[i]));
            }
        }
        lemma_same_breaks_after(b, f, m, s, e, s2, e2, s2 < b.len());
        lemma_ends_same_but_whitespace(b, f, m, e);
    }
}

/// Punkt treats every ASCII whitespace byte as a space: replacing tabs, line feeds,
/// vertical tabs, form feeds and carriage returns by spaces changes no sentence end.
pub proof fn law_punkt_whitespace_is_space(bytes: Seq<u8>, m: ModelContents)
    ensures
        ends_from(bytes, m, 0) == ends_from(blank_whitespace(bytes), m, 0),
{
    lemma_ends_same_but_whitespace(bytes, blank_whitespace(bytes), m, 0);
}

/// Punkt treats a line feed as a space: replacing every line feed by a space changes no
/// sentence end.
pub proof fn law_punkt_newline_is_space(bytes: Seq<u8>, m: ModelContents)
    ensures
        ends_from(bytes, m, 0) == ends_from(flatten_newlines(bytes), m, 0),
{
    lemma_ends_same_but_whitespace(bytes, flatten_newlines(bytes), m, 0);
}

/// The bytes `[a, b)` of `text`, as a string slice.
fn substring<'t>(text: &'t str, a: usize, b: usize) -> (r: &'t str)
    requires
        a <= b <= text.spec_bytes().len(),
        is_char_boundary(text.spec_bytes(), a as int),
        is_char_boundary(text.spec_bytes(), b as int),
    ensures
        r.spec_bytes() == text.spec_bytes().subrange(a as int, b as int),
        r@ == decode_utf8(text.spec_bytes().subrange(a as int, b as int)),
{
    broadcast use encode_utf8_valid_utf8, encode_utf8_decode_utf8;

    proof {
        lemma_boundary_in_prefix(text.spec_bytes(), a as int, b as int);
    }
    let (head, _) = text.split_at(b);
    let (_, piece) = head.split_at(a);
    assert(piece.spec_bytes() =~= text.spec_bytes().subrange(a as int, b as int));
    assert(decode_utf8(encode_utf8(piece@)) == piece@);
    piece
}

fn skip_ws_exec(b: &[u8], p: usize) -> (q: usize)
    requires
        p <= b@.len(),
    ensures
        q == skip_ws(b@, p as int),
{
    let mut q = p;
    while q < b.len() && (b[q] == 32u8 || (9u8 <= b[q] && b[q] <= 13u8))
        invariant
            p <= q <= b@.len(),
            skip_ws(b@, q as int) == skip_ws(b@, p as int),
        decreases b@.len() - q,
    {
        q += 1;
    }
    q
}

fn tok_end_exec(b: &[u8], p: usize) -> (q: usize)
    requires
        p <= b@.len(),
    ensures
        q == tok_end(b@, p as int),
{
    let mut q = p;
    while q < b.len() && !(b[q] == 32u8 || (9u8 <= b[q] && b[q] <= 13u8))
        invariant
            p <= q <= b@.len(),
            tok_end(b@, q as int) == tok_end(b@, p as int),
        decreases b@.len() - q,
    {
        q += 1;
    }
    q
}

fn core_end_exec(b: &[u8], s: usize, e: usize) -> (c: usize)
    requires
        s <= e <= b@.len(),
    ensures
        c == core_end(b@, s as int, e as int),
{
    let mut c = e;
    while c > s && (b[c - 1] == 34u8 || b[c - 1] == 39u8 || b[c - 1] == 41u8 || b[c - 1] == 93u8
        || b[c - 1] == 125u8)
        invariant
            s <= c <= e <= b@.len(),
            core_end(b@, s as int, c as int) == core_end(b@, s as int, e as int),
        decreases c,
    {
        c -= 1;
    }
    c
}

/// The type of the word `[s, w)` of `text`.
fn word_type_exec(text: &str, b: &[u8], s: usize, w: usize) -> (t: String)
    requires
        b@ == text.spec_bytes(),
        s <= w <= b@.len(),
        is_char_boundary(b@, s as int),
        is_char_boundary(b@, w as int),
    ensures
        t@ == word_type(b@, s as int, w as int),
{
    if w > s && 48u8 <= b[s] && b[s] <= 57u8 {
        String::from_str("##number##")
    } else {
        let piece = substring(text, s, w);
        to_lowercase(piece)
    }
}

/// The end of the word of the token `[s, e)`, which is a character boundary.
fn word_end_exec(b: &[u8], s: usize, e: usize) -> (w: usize)
    requires
        valid_utf8(b@),
        s <= e <= b@.len(),
        is_char_boundary(b@, e as int),
    ensures
        w == word_end(b@, s as int, e as int),
        s <= w <= e,
        is_char_boundary(b@, w as int),
{
    let c = core_end_exec(b, s, e);
    proof {
        lemma_core_end(b@, s as int, e as int);
        if c != e {
            lemma_ws_or_end_boundary(b@, c as int);
        }
    }
    if c > s && b[c - 1] == 46u8 {
        proof {
            lemma_ws_or_end_boundary(b@, c - 1);
        }
        c - 1
    } else {
        c
    }
}

/// The orthographic heuristic for the token `[s2, e2)` whose word type is `t2`.
fn ortho_of_type_exec(b: &[u8], d: &TrainingData, s2: usize, e2: usize, t2: &str) -> (o: Ortho)
    requires
        s2 < e2 <= b@.len(),
    ensures
        o == ortho_of_type(b@, d.contents(), s2 as int, e2 as int, t2@),
{
    let first = b[s2];
    if e2 == s2 + 1 && (first == 59u8 || first == 58u8 || first == 44u8 || first == 46u8 || first
        == 33u8 || first == 63u8) {
        return Ortho::DoesNotStart;
    }
    let ctx = d.get_orthographic_context(t2);
    if 65u8 <= first && first <= 90u8 && ctx & 112u8 != 0u8 && ctx & 4u8 == 0u8 {
        Ortho::Starts
    } else if 97u8 <= first && first <= 122u8 && (ctx & 14u8 != 0u8 || ctx & 16u8 == 0u8) {
        Ortho::DoesNotStart
    } else {
        Ortho::Unknown
    }
}

/// Whether a sentence of `text` ends with the token `[s, e)`, followed by the token
/// `[s2, e2)` when `s2` is within the text, given the lowercased type `t1` of the first
/// token's word and the type `t2` of the next token's word (`##number##` for a word that
/// starts with a digit).
pub fn decide_break(
    text: &str,
    d: &TrainingData,
    s: usize,
    e: usize,
    s2: usize,
    e2: usize,
    t1: &str,
    t2: &str,
) -> (r: bool)
    requires
        s < e <= text.spec_bytes().len(),
        s2 < text.spec_bytes().len() ==> s2 < e2 <= text.spec_bytes().len(),
    ensures
        r == decide(
            text.spec_bytes(),
            d.contents(),
            s as int,
            e as int,
            s2 as int,
            e2 as int,
            s2 < text.spec_bytes().len(),
            t1@,
            t2@,
        ),
{
    let b = text.as_bytes();
    let c = core_end_exec(b, s, e);
    proof {
        lemma_core_end(b@, s as int, e as int);
    }
    if !(c > s && (b[c - 1] == 46u8 || b[c - 1] == 63u8 || b[c - 1] == 33u8)) {
        return false;
    }
    if b[c - 1] != 46u8 {
        return true;
    }
    let w = c - 1;
    let ellipsis = w > s && b[w - 1] == 46u8;
    let abbr = !ellipsis && d.contains_abbrev(t1);
    let first = !ellipsis && !abbr;
    let initial = w == s + 1 && ((65u8 <= b[s] && b[s] <= 90u8) || (97u8 <= b[s] && b[s] <= 122u8));
    let numeric = w > s && 48u8 <= b[s] && b[s] <= 57u8;
    if s2 >= b.len() {
        return first;
    }
    if d.contains_collocation(t1, t2) {
        false
    } else if (abbr || ellipsis) && !initial {
        let o = ortho_of_type_exec(b, d, s2, e2, t2);
        o == Ortho::Starts || (65u8 <= b[s2] && b[s2] <= 90u8 && d.contains_sentence_starter(t2))
    } else if initial || numeric {
        let o = ortho_of_type_exec(b, d, s2, e2, t2);
        if o == Ortho::DoesNotStart {
            false
        } else if o == Ortho::Unknown && initial && 65u8 <= b[s2] && b[s2] <= 90u8
            && d.get_orthographic_context(t2) & 112u8 == 0u8 {
            false
        } else {
            first
        }
    } else {
        first
    }
}

/// Whether a sentence ends with the token `[s, e)`, followed by the token `[s2, e2)`
/// when there is one.
fn breaks_after_exec(
    text: &str,
    b: &[u8],
    d: &TrainingData,
    s: usize,
    e: usize,
    s2: usize,
    e2: usize,
) -> (r: bool)
    requires
        b@ == text.spec_bytes(),
        valid_utf8(b@),
        s < e <= b@.len(),
        is_char_boundary(b@, s as int),
        is_char_boundary(b@, e as int),
        s2 < b@.len() ==> s2 < e2 <= b@.len() && is_char_boundary(b@, s2 as int)
            && is_char_boundary(b@, e2 as int),
    ensures
        r == breaks_after(b@, d.contents(), s as int, e as int, s2 as int, e2 as int, s2 < b@.len()),
{
    let c = core_end_exec(b, s, e);
    proof {
        lemma_core_end(b@, s as int, e as int);
    }
    if !(c > s && b[c - 1] == 46u8) {
        let empty = String::new();
        return decide_break(text, d, s, e, s2, e2, empty.as_str(), empty.as_str());
    }
    let w = c - 1;
    proof {
        lemma_ws_or_end_boundary(b@, w as int);
    }
    let t1 = word_type_exec(text, b, s, w);
    if s2 >= b.len() {
        return decide_break(text, d, s, e, s2, e2, t1.as_str(), t1.as_str());
    }
    let w2 = word_end_exec(b, s2, e2);
    let t2 = word_type_exec(text, b, s2, w2);
    decide_break(text, d, s, e, s2, e2, t1.as_str(), t2.as_str())
}

/// The sentence ends Punkt finds in `text` with the model `d`.
pub fn sentence_ends(text: &str, d: &TrainingData) -> (r: Vec<usize>)
    ensures
        r@ == ends_from(text.spec_bytes(), d.contents(), 0),
        ascending_boundaries(r@, text.spec_bytes()),
        text.spec_bytes().len() <= usize::MAX,
{
    broadcast use encode_utf8_valid_utf8, is_char_boundary_start_end_of_seq;

    let b = text.as_bytes();
    let ghost bytes = b@;
    let ghost m = d.contents();
    assert(valid_utf8(bytes));
    let mut out: Vec<usize> = Vec::new();
    let mut p: usize = 0;
    while p < b.len()
        invariant
            bytes == b@,
            bytes == text.spec_bytes(),
            m == d.contents(),
            valid_utf8(bytes),
            p <= bytes.len(),
            is_char_boundary(bytes, p as int),
            out@ + ends_from(bytes, m, p as int) == ends_from(bytes, m, 0),
        decreases bytes.len() - p,
    {
        let s = skip_ws_exec(b, p);
        proof {
            lemma_skip_ws(bytes, p as int);
            lemma_token_start_boundary(bytes, p as int);
        }
        if s >= b.len() {
            proof {
                assert(ends_from(bytes, m, p as int) =~= Seq::<usize>::empty());
                assert(ends_from(bytes, m, bytes.len() as int) =~= Seq::<usize>::empty());
                assert(out@ + Seq::<usize>::empty() =~= out@);
            }
            p = b.len();
        } else {
            let e = tok_end_exec(b, s);
            proof {
                lemma_tok_end(bytes, s as int);
                lemma_ws_or_end_boundary(bytes, e as int);
                lemma_skip_ws(bytes, e as int);
                lemma_token_start_boundary(bytes, e as int);
            }
            let s2 = skip_ws_exec(b, e);
            let e2 = tok_end_exec(b, s2);
            proof {
                lemma_tok_end(bytes, s2 as int);
                lemma_ws_or_end_boundary(bytes, e2 as int);
            }
            let ghost old_out = out@;
            if breaks_after_exec(text, b, d, s, e, s2, e2) {
                out.push(e);
                assert(out@ + ends_from(bytes, m, e as int) =~= old_out + ends_from(bytes, m, p as int));
            } else {
                assert(out@ + ends_from(bytes, m, e as int) =~= old_out + ends_from(bytes, m, p as int));
            }
            p = e;
        }
    }
    proof {
        assert(ends_from(bytes, m, p as int) =~= Seq::<usize>::empty());
        assert(out@ =~= out@ + Seq::<usize>::empty());
        assert(bytes.len() == b@.len());
        lemma_ends_from(bytes, m, 0);
    }
    out
}

} // verus!
