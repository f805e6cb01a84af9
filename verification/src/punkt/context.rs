//! The orthographic context of tokens during training: where in a sentence each token
//! stands, and with which case it starts, recorded as one bit per combination.

use vstd::prelude::*;

verus! {

/// Where in a sentence a token stands, as far as the tokens before it tell.
#[derive(Debug, Clone, Copy, PartialEq, Eq, Structural)]
pub enum OrthographyPosition {
    Initial,
    Internal,
    Unknown,
}

/// The case of a token's first character.
#[derive(Debug, Clone, Copy, PartialEq, Eq, Structural)]
pub enum LetterCase {
    Upper,
    Lower,
    Unknown,
}

/// What the training pass knows of a token.
#[derive(Debug, Clone, Copy, PartialEq, Eq, Structural)]
pub struct TokenFlags {
    pub is_paragraph_start: bool,
    pub is_newline_start: bool,
    pub first_case: LetterCase,
    pub is_sentence_break: bool,
    pub is_numeric: bool,
    pub is_initial: bool,
    pub is_ellipsis: bool,
    pub is_abbrev: bool,
    pub is_alphabetic: bool,
    pub is_non_punct: bool,
}

/// Seen capitalized at the beginning of a sentence.
pub const BEG_UC: u8 = 2u8;
/// Seen capitalized in the middle of a sentence.
pub const MID_UC: u8 = 4u8;
/// Seen capitalized where the position is unknown.
pub const UNK_UC: u8 = 8u8;
/// Seen in lowercase at the beginning of a sentence.
pub const BEG_LC: u8 = 16u8;
/// Seen in lowercase in the middle of a sentence.
pub const MID_LC: u8 = 32u8;
/// Seen in lowercase where the position is unknown.
pub const UNK_LC: u8 = 64u8;

/// The context flag for a token starting with `case` at `pos`; 0 when its case is unknown.
pub open spec fn ortho_flag(pos: OrthographyPosition, case: LetterCase) -> u8 {
    match (pos, case) {
        (OrthographyPosition::Initial, LetterCase::Upper) => BEG_UC,
        (OrthographyPosition::Internal, LetterCase::Upper) => MID_UC,
        (OrthographyPosition::Unknown, LetterCase::Upper) => UNK_UC,
        (OrthographyPosition::Initial, LetterCase::Lower) => BEG_LC,
        (OrthographyPosition::Internal, LetterCase::Lower) => MID_LC,
        (OrthographyPosition::Unknown, LetterCase::Lower) => UNK_LC,
        _ => 0u8,
    }
}

/// The position of a token that follows `pos`: a paragraph start makes a known position
/// initial, and a line start makes an internal one unknown.
pub open spec fn token_position(pos: OrthographyPosition, tok: TokenFlags) -> OrthographyPosition {
    let p = if tok.is_paragraph_start && pos != OrthographyPosition::Unknown {
        OrthographyPosition::Initial
    } else {
        pos
    };
    if tok.is_newline_start && p == OrthographyPosition::Internal {
        OrthographyPosition::Unknown
    } else {
        p
    }
}

/// The position after a token: initial after a sentence break that is neither a number
/// nor an initial, unknown after any other break, an ellipsis or an abbreviation, and
/// internal otherwise.
pub open spec fn position_after(tok: TokenFlags) -> OrthographyPosition {
    if tok.is_sentence_break {
        if !(tok.is_numeric || tok.is_initial) {
            OrthographyPosition::Initial
        } else {
            OrthographyPosition::Unknown
        }
    } else if tok.is_ellipsis || tok.is_abbrev {
        OrthographyPosition::Unknown
    } else {
        OrthographyPosition::Internal
    }
}

/// One step over a token met at `pos`: the position after it, and its context flag.
pub open spec fn spec_context_step(pos: OrthographyPosition, tok: TokenFlags) -> (OrthographyPosition, u8) {
    (position_after(tok), ortho_flag(token_position(pos, tok), tok.first_case))
}

/// The context flag of each token, the first met at `pos`.
pub open spec fn spec_contexts(tokens: Seq<TokenFlags>, pos: OrthographyPosition) -> Seq<u8>
    decreases tokens.len(),
{
    if tokens.len() == 0 {
        Seq::empty()
    } else {
        let (next, flag) = spec_context_step(pos, tokens[0]);
        seq![flag] + spec_contexts(tokens.drop_first(), next)
    }
}

/// The position of a token that follows `pos`.
fn token_position_exec(pos: OrthographyPosition, tok: &TokenFlags) -> (p: OrthographyPosition)
    ensures
        p == token_position(pos, *tok),
{
    let mut p = pos;
    if tok.is_paragraph_start && p != OrthographyPosition::Unknown {
        p = OrthographyPosition::Initial;
    }
    if tok.is_newline_start && p == OrthographyPosition::Internal {
        p = OrthographyPosition::Unknown;
    }
    p
}

/// The context flag for a token starting with `case` at `pos`.
pub fn context_flag(pos: OrthographyPosition, case: LetterCase) -> (f: u8)
    ensures
        f == ortho_flag(pos, case),
{
    match (pos, case) {
        (OrthographyPosition::Initial, LetterCase::Upper) => BEG_UC,
        (OrthographyPosition::Internal, LetterCase::Upper) => MID_UC,
        (OrthographyPosition::Unknown, LetterCase::Upper) => UNK_UC,
        (OrthographyPosition::Initial, LetterCase::Lower) => BEG_LC,
        (OrthographyPosition::Internal, LetterCase::Lower) => MID_LC,
        (OrthographyPosition::Unknown, LetterCase::Lower) => UNK_LC,
        _ => 0u8,
    }
}

/// One step over a token met at `pos`: the position after it, and its context flag.
pub fn next_context(pos: OrthographyPosition, tok: &TokenFlags) -> (r: (OrthographyPosition, u8))
    ensures
        r == spec_context_step(pos, *tok),
{
    let p = token_position_exec(pos, tok);
    let flag = context_flag(p, tok.first_case);
    let after = if tok.is_sentence_break {
        if !(tok.is_numeric || tok.is_initial) {
            OrthographyPosition::Initial
        } else {
            OrthographyPosition::Unknown
        }
    } else if tok.is_ellipsis || tok.is_abbrev {
        OrthographyPosition::Unknown
    } else {
        OrthographyPosition::Internal
    };
    (after, flag)
}

/// The context flag of each token of a document, the first met mid-sentence.
pub fn token_contexts(tokens: &[TokenFlags]) -> (r: Vec<u8>)
    ensures
        r@ == spec_contexts(tokens@, OrthographyPosition::Internal),
{
    let mut out: Vec<u8> = Vec::new();
    let mut pos = OrthographyPosition::Internal;
    let mut i: usize = 0;
    assert(tokens@.skip(0) =~= tokens@);
    assert(out@ + spec_contexts(tokens@, pos) =~= spec_contexts(tokens@, pos));
    while i < tokens.len()
        invariant
            i <= tokens@.len(),
            out@ + spec_contexts(tokens@.skip(i as int), pos) == spec_contexts(
                tokens@,
                OrthographyPosition::Internal,
            ),
        decreases tokens@.len() - i,
    {
        let ghost rest = tokens@.skip(i as int);
        let ghost old_out = out@;
        let (next, flag) = next_context(pos, &tokens[i]);
        assert(rest[0] == tokens@[i as int]);
        assert(rest.drop_first() =~= tokens@.skip(i + 1));
        assert(spec_contexts(rest, pos) == seq![flag] + spec_contexts(tokens@.skip(i + 1), next));
        out.push(flag);
        assert(out@ + spec_contexts(tokens@.skip(i + 1), next) =~= old_out + (seq![flag]
            + spec_contexts(tokens@.skip(i + 1), next)));
        pos = next;
        i += 1;
    }
    proof {
        assert(tokens@.skip(i as int) =~= Seq::<TokenFlags>::empty());
        assert(out@ + Seq::<u8>::empty() =~= out@);
    }
    out
}

/// Whether `cur`, following `prev`, may start a sentence: `prev` ends a sentence without
/// being a number or an initial, and `cur` is alphabetic.
pub fn is_potential_sentence_starter(cur: &TokenFlags, prev: &TokenFlags) -> (b: bool)
    ensures
        b == (prev.is_sentence_break && !(prev.is_numeric || prev.is_initial) && cur.is_alphabetic),
{
    prev.is_sentence_break && !(prev.is_numeric || prev.is_initial) && cur.is_alphabetic
}

/// Whether `tok0` followed by `tok1` may be a collocation: always when all collocations
/// are included; when `tok0` is an abbreviation and abbreviation collocations are
/// included; or when `tok0` is a sentence break that is a number or an initial and
/// neither token is punctuation.
pub fn is_potential_collocation(
    include_all: bool,
    include_abbrev: bool,
    tok0: &TokenFlags,
    tok1: &TokenFlags,
) -> (b: bool)
    ensures
        b == (include_all || (include_abbrev && tok0.is_abbrev) || (tok0.is_sentence_break && (
        tok0.is_numeric || tok0.is_initial) && tok0.is_non_punct && tok1.is_non_punct)),
{
    include_all || (include_abbrev && tok0.is_abbrev) || (tok0.is_sentence_break && (
    tok0.is_numeric || tok0.is_initial)) && tok0.is_non_punct && tok1.is_non_punct
}

/// Each item with the item after it, if any.
pub fn consecutive_items<'a, T>(items: &'a [T]) -> (r: Vec<(&'a T, Option<&'a T>)>)
    ensures
        r@.len() == items@.len(),
        forall|i: int|
            0 <= i < items@.len() ==> (#[trigger] r@[i]).0 == &items@[i] && r@[i].1 == (if i + 1
                < items@.len() {
                Some(&items@[i + 1])
            } else {
                None
            }),
{
    let mut out: Vec<(&'a T, Option<&'a T>)> = Vec::new();
    let mut i: usize = 0;
    while i < items.len()
        invariant
            i <= items@.len(),
            out@.len() == i,
            forall|j: int|
                0 <= j < i ==> (#[trigger] out@[j]).0 == &items@[j] && out@[j].1 == (if j + 1
                    < items@.len() {
                    Some(&items@[j + 1])
                } else {
                    None
                }),
        decreases items@.len() - i,
    {
        let next = if i + 1 < items.len() {
            Some(&items[i + 1])
        } else {
            None
        };
        out.push((&items[i], next));
        i += 1;
    }
    out
}

/// Where the token after `tok` stands: at the start of a sentence after a sentence break
/// that is neither a number nor an initial; at an unknown position after any other
/// sentence break, an ellipsis or an abbreviation; mid-sentence after anything else.
pub proof fn law_position_after_each_kind_of_token(pos: OrthographyPosition, tok: TokenFlags)
    ensures
        tok.is_sentence_break && !tok.is_numeric && !tok.is_initial ==> spec_context_step(
            pos,
            tok,
        ).0 == OrthographyPosition::Initial,
        tok.is_sentence_break && (tok.is_numeric || tok.is_initial) ==> spec_context_step(
            pos,
            tok,
        ).0 == OrthographyPosition::Unknown,
        !tok.is_sentence_break && tok.is_ellipsis ==> spec_context_step(pos, tok).0
            == OrthographyPosition::Unknown,
        !tok.is_sentence_break && tok.is_abbrev ==> spec_context_step(pos, tok).0
            == OrthographyPosition::Unknown,
        !tok.is_sentence_break && !tok.is_ellipsis && !tok.is_abbrev ==> spec_context_step(
            pos,
            tok,
        ).0 == OrthographyPosition::Internal,
{
}

/// A word that follows an ellipsis or an abbreviation (that is no sentence break) on
/// the same line of the same paragraph is recorded at an unknown position: as seen
/// capitalized, or in lowercase, where the position is unknown.
pub proof fn law_word_after_ellipsis_or_abbreviation(
    pos: OrthographyPosition,
    prev: TokenFlags,
    tok: TokenFlags,
)
    requires
        !prev.is_sentence_break,
        prev.is_ellipsis || prev.is_abbrev,
        !tok.is_paragraph_start,
    ensures
        tok.first_case == LetterCase::Upper ==> spec_context_step(
            spec_context_step(pos, prev).0,
            tok,
        ).1 == UNK_UC,
        tok.first_case == LetterCase::Lower ==> spec_context_step(
            spec_context_step(pos, prev).0,
            tok,
        ).1 == UNK_LC,
{
}

/// Each token of a document gets one flag, and each flag is that of the token met at
/// the position the tokens before it leave: the first token mid-sentence, every later
/// one at the position after its predecessor.
pub proof fn law_contexts_follow_the_tokens(tokens: Seq<TokenFlags>, pos: OrthographyPosition)
    ensures
        spec_contexts(tokens, pos).len() == tokens.len(),
        tokens.len() > 0 ==> spec_contexts(tokens, pos)[0] == spec_context_step(pos, tokens[0]).1,
        tokens.len() > 1 ==> spec_contexts(tokens, pos)[1] == spec_context_step(
            spec_context_step(pos, tokens[0]).0,
            tokens[1],
        ).1,
    decreases tokens.len(),
{
    if tokens.len() > 0 {
        law_contexts_follow_the_tokens(tokens.drop_first(), spec_context_step(pos, tokens[0]).0);
    }
}

/// A token whose first character's case is known gets exactly one context flag, and
/// different positions or cases get different flags.
pub proof fn law_one_flag_per_position_and_case(
    p1: OrthographyPosition,
    c1: LetterCase,
    p2: OrthographyPosition,
    c2: LetterCase,
)
    ensures
        c1 != LetterCase::Unknown ==> ortho_flag(p1, c1) != 0u8,
        c1 == LetterCase::Unknown ==> ortho_flag(p1, c1) == 0u8,
        c1 != LetterCase::Unknown && c2 != LetterCase::Unknown && (p1 != p2 || c1 != c2)
            ==> ortho_flag(p1, c1) != ortho_flag(p2, c2),
{
}

/// After a sentence break that is neither a number nor an initial, the next token is
/// taken to start a sentence, whether or not it starts a line or a paragraph.
pub proof fn law_break_makes_next_initial(tok: TokenFlags, next: TokenFlags)
    requires
        tok.is_sentence_break,
        !(tok.is_numeric || tok.is_initial),
    ensures
        token_position(spec_context_step(OrthographyPosition::Internal, tok).0, next)
            == OrthographyPosition::Initial,
{
}

} // verus!
