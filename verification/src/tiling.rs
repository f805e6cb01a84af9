//! The views of a segmentation and why they tile the input: sentence ends, the spans
//! between them, and the sentence texts those spans select.

use vstd::prelude::*;
use vstd::string::StringSliceAdditionalSpecFns;
use vstd::utf8::*;

use crate::segmenter::Span;

verus! {

broadcast use vstd::string::group_string_axioms;

/// `ends` with the last sentence closed at `len`: unchanged when it already ends
/// there, else with `len` appended.
pub open spec fn spec_close(ends: Seq<usize>, len: usize) -> Seq<usize> {
    if ends.len() > 0 && ends.last() == len {
        ends
    } else {
        ends.push(len)
    }
}

/// The span of each sentence: from the previous end (or 0) to its own end.
pub open spec fn spec_spans(ends: Seq<usize>) -> Seq<Span> {
    Seq::new(
        ends.len(),
        |i: int| Span { start: if i == 0 { 0 } else { ends[i - 1] }, end: ends[i] },
    )
}

/// The bytes each span selects.
pub open spec fn spec_pieces(bytes: Seq<u8>, ends: Seq<usize>) -> Seq<Seq<u8>> {
    Seq::new(
        ends.len(),
        |i: int| bytes.subrange(spec_spans(ends)[i].start as int, spec_spans(ends)[i].end as int),
    )
}

/// The concatenation of byte strings, in order.
pub open spec fn concat(parts: Seq<Seq<u8>>) -> Seq<u8>
    decreases parts.len(),
{
    if parts.len() == 0 {
        Seq::empty()
    } else {
        concat(parts.drop_last()) + parts.last()
    }
}

/// Offsets that are strictly ascending, positive, no greater than `bytes.len()`, and
/// on character boundaries of `bytes`.
pub open spec fn ascending_boundaries(ends: Seq<usize>, bytes: Seq<u8>) -> bool {
    &&& forall|i: int, j: int| 0 <= i < j < ends.len() ==> ends[i] < ends[j]
    &&& forall|i: int|
        0 <= i < ends.len() ==> 0 < #[trigger] ends[i] <= bytes.len() && is_char_boundary(
            bytes,
            ends[i] as int,
        )
}

/// `ends` tiles `bytes`: ascending boundaries, none for empty input, and otherwise the
/// last at the end of the input.
pub open spec fn tiles(ends: Seq<usize>, bytes: Seq<u8>) -> bool {
    &&& ascending_boundaries(ends, bytes)
    &&& (ends.len() == 0 <==> bytes.len() == 0)
    &&& ends.len() > 0 ==> ends.last() == bytes.len()
}

/// Spans that are each ordered, within `bytes`, and start and end on character boundaries.
pub open spec fn valid_spans(spans: Seq<Span>, bytes: Seq<u8>) -> bool {
    forall|i: int|
        0 <= i < spans.len() ==> {
            &&& (#[trigger] spans[i]).start <= spans[i].end <= bytes.len()
            &&& is_char_boundary(bytes, spans[i].start as int)
            &&& is_char_boundary(bytes, spans[i].end as int)
        }
}

/// Closes the last sentence at `len` unless it already ends there.
pub fn close_last_sentence(ends: Vec<usize>, len: usize) -> (r: Vec<usize>)
    ensures
        r@ == spec_close(ends@, len),
{
    let mut ends = ends;
    let n = ends.len();
    if n > 0 && ends[n - 1] == len {
        ends
    } else {
        ends.push(len);
        ends
    }
}

/// The span of each sentence, given the sentence ends.
pub fn spans_from_boundaries(ends: &Vec<usize>) -> (r: Vec<Span>)
    ensures
        r@ == spec_spans(ends@),
{
    let mut spans: Vec<Span> = Vec::new();
    let mut start: usize = 0;
    let mut i: usize = 0;
    while i < ends.len()
        invariant
            i <= ends@.len(),
            spans@.len() == i,
            start == if i == 0 { 0 } else { ends@[i - 1] },
            forall|k: int| 0 <= k < i ==> #[trigger] spans@[k] == spec_spans(ends@)[k],
        decreases ends@.len() - i,
    {
        let end = ends[i];
        spans.push(Span::new(start, end));
        start = end;
        i += 1;
    }
    assert(spans@ == spec_spans(ends@));
    spans
}

/// A character boundary of `bytes` no greater than another one is a character
/// boundary of the prefix that the other one ends.
pub proof fn lemma_boundary_in_prefix(bytes: Seq<u8>, start: int, end: int)
    requires
        valid_utf8(bytes),
        0 <= start <= end <= bytes.len(),
        is_char_boundary(bytes, start),
        is_char_boundary(bytes, end),
    ensures
        valid_utf8(bytes.subrange(0, end)),
        is_char_boundary(bytes.subrange(0, end), start),
{
    broadcast use valid_utf8_split, is_char_boundary_start_end_of_seq, is_char_boundary_iff_not_is_continuation_byte;

    let prefix = bytes.subrange(0, end);
    assert(valid_utf8(prefix));
    if start == end {
        assert(is_char_boundary(prefix, prefix.len() as int));
    } else if start > 0 {
        assert(is_char_boundary(bytes, start) <==> !is_continuation_byte(bytes[start]));
        assert(is_char_boundary(prefix, start) <==> !is_continuation_byte(prefix[start]));
    }
}

/// The text each span selects, borrowed from `text`.
pub fn sentences_from_spans<'t>(text: &'t str, spans: &Vec<Span>) -> (r: Vec<&'t str>)
    requires
        valid_spans(spans@, text.spec_bytes()),
    ensures
        r@.len() == spans@.len(),
        forall|i: int|
            0 <= i < r@.len() ==> (#[trigger] r@[i]).spec_bytes() == text.spec_bytes().subrange(
                spans@[i].start as int,
                spans@[i].end as int,
            ),
{
    broadcast use encode_utf8_valid_utf8;

    let ghost bytes = text.spec_bytes();
    let mut out: Vec<&'t str> = Vec::new();
    let mut i: usize = 0;
    while i < spans.len()
        invariant
            i <= spans@.len(),
            bytes == text.spec_bytes(),
            valid_spans(spans@, bytes),
            out@.len() == i,
            forall|k: int|
                0 <= k < i ==> (#[trigger] out@[k]).spec_bytes() == bytes.subrange(
                    spans@[k].start as int,
                    spans@[k].end as int,
                ),
        decreases spans@.len() - i,
    {
        let span = spans[i];
        proof {
            encode_utf8_valid_utf8(text@);
            lemma_boundary_in_prefix(bytes, span.start as int, span.end as int);
        }
        let (head, _) = text.split_at(span.end);
        let (_, piece) = head.split_at(span.start);
        assert(piece.spec_bytes() =~= bytes.subrange(span.start as int, span.end as int));
        out.push(piece);
        i += 1;
    }
    out
}

/// Closing the last sentence of ascending boundaries yields a tiling of a non-empty input.
pub proof fn lemma_close_tiles(ends: Seq<usize>, bytes: Seq<u8>)
    requires
        bytes.len() > 0,
        bytes.len() <= usize::MAX,
        valid_utf8(bytes),
        ascending_boundaries(ends, bytes),
    ensures
        tiles(spec_close(ends, bytes.len() as usize), bytes),
{
    broadcast use is_char_boundary_start_end_of_seq;

    let r = spec_close(ends, bytes.len() as usize);
    assert(is_char_boundary(bytes, bytes.len() as int));
    if !(ends.len() > 0 && ends.last() == bytes.len()) {
        assert forall|i: int, j: int| 0 <= i < j < r.len() implies r[i] < r[j] by {
            if j == r.len() - 1 {
                assert(ends[i] <= bytes.len());
                assert(ends[i] != bytes.len() || ends.last() == bytes.len()) by {
                    if ends[i] == bytes.len() && i < ends.len() - 1 {
                        assert(ends[i] < ends[ends.len() - 1]);
                    }
                }
            }
        }
        assert(forall|i: int| 0 <= i < ends.len() ==> r[i] == ends[i]);
    }
}

/// The spans of a tiling are contiguous, each non-empty, and start at 0 and end at
/// the end of the input, on character boundaries.
pub proof fn lemma_spans_of_tiling(ends: Seq<usize>, bytes: Seq<u8>)
    requires
        valid_utf8(bytes),
        tiles(ends, bytes),
    ensures
        valid_spans(spec_spans(ends), bytes),
        spec_spans(ends).len() > 0 ==> spec_spans(ends)[0].start == 0
            && spec_spans(ends).last().end == bytes.len(),
        forall|i: int|
            0 <= i < spec_spans(ends).len() ==> (#[trigger] spec_spans(ends)[i]).start
                < spec_spans(ends)[i].end,
        forall|i: int|
            0 <= i < spec_spans(ends).len() - 1 ==> (#[trigger] spec_spans(ends)[i]).end
                == spec_spans(ends)[i + 1].start,
{
    broadcast use is_char_boundary_start_end_of_seq;

    let s = spec_spans(ends);
    assert(is_char_boundary(bytes, 0));
    assert forall|i: int| 0 <= i < s.len() implies {
        &&& (#[trigger] s[i]).start <= s[i].end <= bytes.len()
        &&& is_char_boundary(bytes, s[i].start as int)
        &&& is_char_boundary(bytes, s[i].end as int)
    } by {
        if i > 0 {
            assert(ends[i - 1] < ends[i]);
            assert(is_char_boundary(bytes, ends[i - 1] as int));
        }
        assert(is_char_boundary(bytes, ends[i] as int));
    }
    assert forall|i: int| 0 <= i < s.len() implies (#[trigger] s[i]).start < s[i].end by {
        if i > 0 {
            assert(ends[i - 1] < ends[i]);
        }
    }
}

/// The pieces of the first `k` spans of a tiling concatenate to the prefix of the input
/// that the `k`-th end closes.
proof fn lemma_concat_prefix(bytes: Seq<u8>, ends: Seq<usize>, k: int)
    requires
        tiles(ends, bytes),
        0 <= k <= ends.len(),
    ensures
        concat(spec_pieces(bytes, ends).take(k)) == bytes.subrange(
            0,
            if k == 0 { 0 } else { ends[k - 1] as int },
        ),
    decreases k,
{
    let p = spec_pieces(bytes, ends);
    if k == 0 {
        assert(p.take(0) =~= Seq::<Seq<u8>>::empty());
        assert(bytes.subrange(0, 0) =~= Seq::<u8>::empty());
    } else {
        lemma_concat_prefix(bytes, ends, k - 1);
        assert(p.take(k).drop_last() =~= p.take(k - 1));
        let prev = if k == 1 { 0 } else { ends[k - 2] as int };
        if k > 1 {
            assert(ends[k - 2] < ends[k - 1]);
        }
        assert(bytes.subrange(0, prev) + bytes.subrange(prev, ends[k - 1] as int) =~= bytes.subrange(
            0,
            ends[k - 1] as int,
        ));
    }
}

/// The pieces of a tiling concatenate to the whole input, byte for byte.
pub proof fn lemma_pieces_concat(bytes: Seq<u8>, ends: Seq<usize>)
    requires
        tiles(ends, bytes),
    ensures
        concat(spec_pieces(bytes, ends)) == bytes,
{
    let p = spec_pieces(bytes, ends);
    lemma_concat_prefix(bytes, ends, ends.len() as int);
    assert(p.take(ends.len() as int) =~= p);
    if ends.len() == 0 {
        assert(bytes =~= bytes.subrange(0, 0));
    } else {
        assert(bytes =~= bytes.subrange(0, bytes.len() as int));
    }
}

/// The three views of a segmentation agree: each span ends at its sentence's end and
/// starts where the previous one ended, and each sentence is the bytes of its span.
pub proof fn law_views_agree(bytes: Seq<u8>, ends: Seq<usize>, i: int)
    requires
        0 <= i < ends.len(),
    ensures
        spec_spans(ends)[i].end == ends[i],
        spec_spans(ends)[i].start == if i == 0 { 0 } else { ends[i - 1] },
        spec_pieces(bytes, ends)[i] == bytes.subrange(
            spec_spans(ends)[i].start as int,
            spec_spans(ends)[i].end as int,
        ),
{
}

} // verus!
