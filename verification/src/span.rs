//! Mapping a range of bytes of a text to a range of its characters.
//!
//! Diagnostics point into a text by byte offsets, while a report underlines
//! by character positions. With characters of more than one byte the two
//! differ, so every offset is resolved by walking the character boundaries.
use crate::offsets::{
    byte_offset, continuation_count, extra_bytes, lemma_ascii_offsets, lemma_byte_offset_bounds,
    lemma_byte_offset_ends, lemma_byte_offset_increasing, lemma_byte_offset_shift,
    lemma_byte_offset_step, lemma_continuation_count, lemma_continuation_count_at_character,
    lemma_encode_injective, lemma_offset_is_boundary, lemma_suffix_encoding,
};
use std::ops::Range;
use vstd::prelude::*;
use vstd::std_specs::ops::AddSpecImpl;
use vstd::string::*;
use vstd::utf8::*;
use vstd::wrapping::usize_specs;

verus! {

/// A character boundary of a text, in both coordinates: the byte at which
/// the character starts and the number of characters before it.
#[derive(Debug, Clone, Copy, PartialEq, Eq, Structural)]
pub struct CharIndex {
    /// The offset of the first byte of the character.
    pub first_byte: usize,
    /// The number of characters before it.
    pub char_index: usize,
}

/// A character boundary as a pair of mathematical integers.
pub struct Boundary {
    /// The offset of the first byte of the character.
    pub first_byte: int,
    /// The number of characters before it.
    pub char_index: int,
}

impl View for CharIndex {
    type V = Boundary;

    open spec fn view(&self) -> Boundary {
        Boundary { first_byte: self.first_byte as int, char_index: self.char_index as int }
    }
}

impl std::ops::Add for CharIndex {
    type Output = CharIndex;

    /// Shifts a boundary that is relative to a suffix by the boundary at
    /// which the suffix starts. Both coordinates move together.
    fn add(self, other: Self) -> (sum: Self) {
        Self {
            first_byte: self.first_byte + other.first_byte,
            char_index: self.char_index + other.char_index,
        }
    }
}

impl AddSpecImpl for CharIndex {
    open spec fn obeys_add_spec() -> bool {
        true
    }

    open spec fn add_req(self, other: Self) -> bool {
        &&& self.first_byte + other.first_byte <= usize::MAX
        &&& self.char_index + other.char_index <= usize::MAX
    }

    open spec fn add_spec(self, other: Self) -> Self {
        CharIndex {
            first_byte: (self.first_byte + other.first_byte) as usize,
            char_index: (self.char_index + other.char_index) as usize,
        }
    }
}

/// Scanning the characters of `chars` in order, from character `k` on: the
/// first one that starts at or after `byte_index`.
pub open spec fn scan_boundaries(chars: Seq<char>, k: int, byte_index: int) -> Option<Boundary>
    decreases chars.len() - k,
{
    if k < 0 || k >= chars.len() {
        None
    } else if byte_offset(chars, k) >= byte_index {
        Some(Boundary { first_byte: byte_offset(chars, k), char_index: k })
    } else {
        scan_boundaries(chars, k + 1, byte_index)
    }
}

/// The first character of `chars` that starts at or after `byte_index`, if
/// there is one.
pub open spec fn boundary_at_or_after(chars: Seq<char>, byte_index: int) -> Option<Boundary> {
    scan_boundaries(chars, 0, byte_index)
}

/// What a scan from character `k` finds: the least character from `k` on
/// that starts at or after `byte_index`, and nothing exactly if all of them
/// start before it.
pub proof fn lemma_scan_finds_least(chars: Seq<char>, k: int, byte_index: int)
    requires
        0 <= k <= chars.len(),
    ensures
        match scan_boundaries(chars, k, byte_index) {
            Some(found) => {
                &&& k <= found.char_index < chars.len()
                &&& found.first_byte == byte_offset(chars, found.char_index)
                &&& found.first_byte >= byte_index
                &&& forall|j: int|
                    k <= j < found.char_index ==> #[trigger] byte_offset(chars, j) < byte_index
            },
            None => forall|j: int|
                k <= j < chars.len() ==> #[trigger] byte_offset(chars, j) < byte_index,
        },
    decreases chars.len() - k,
{
    if k < chars.len() && byte_offset(chars, k) < byte_index {
        lemma_scan_finds_least(chars, k + 1, byte_index);
    }
}

/// No character starts at or beyond the end of the text, so an offset
/// there has no boundary at or after it.
pub proof fn lemma_no_boundary_beyond_text(chars: Seq<char>, byte_index: int)
    requires
        byte_index >= encode_utf8(chars).len(),
    ensures
        boundary_at_or_after(chars, byte_index) is None,
{
    lemma_scan_finds_least(chars, 0, byte_index);
    if let Some(found) = boundary_at_or_after(chars, byte_index) {
        lemma_byte_offset_bounds(chars, found.char_index);
    }
}

/// The boundary found for an offset at which a character starts is that
/// character.
pub proof fn lemma_boundary_at_character(chars: Seq<char>, k: int)
    requires
        0 <= k < chars.len(),
    ensures
        boundary_at_or_after(chars, byte_offset(chars, k)) == Some(
            Boundary { first_byte: byte_offset(chars, k), char_index: k },
        ),
{
    let byte_index = byte_offset(chars, k);
    lemma_scan_finds_least(chars, 0, byte_index);
    match boundary_at_or_after(chars, byte_index) {
        Some(found) => {
            if found.char_index < k {
                lemma_byte_offset_increasing(chars, found.char_index, k);
            }
        },
        None => {},
    }
}

/// The character index of the boundary found for an offset is less than
/// the offset by the bytes before it that continue a character: the extra
/// bytes that the characters have taken up to there.
pub proof fn lemma_boundary_behind_by_continuation_bytes(chars: Seq<char>, byte_index: int)
    requires
        0 <= byte_index,
    ensures
        boundary_at_or_after(chars, byte_index) matches Some(found) ==> found.char_index
            == byte_index - continuation_count(encode_utf8(chars).take(byte_index)),
{
    lemma_scan_finds_least(chars, 0, byte_index);
    if let Some(found) = boundary_at_or_after(chars, byte_index) {
        if found.char_index > 0 {
            lemma_continuation_count(chars, found.char_index - 1, byte_index);
        } else {
            lemma_byte_offset_ends(chars);
            assert(continuation_count(encode_utf8(chars).take(0)) == 0);
        }
    }
}

/// In a text of ASCII characters every byte starts a character, and a
/// boundary has the same number in both coordinates: that of the offset
/// asked for.
pub proof fn lemma_ascii_boundary(chars: Seq<char>, byte_index: int)
    requires
        is_ascii_chars(chars),
        0 <= byte_index,
    ensures
        boundary_at_or_after(chars, byte_index) == if byte_index < chars.len() {
            Some(Boundary { first_byte: byte_index, char_index: byte_index })
        } else {
            None
        },
{
    lemma_ascii_offsets(chars, chars.len() as int);
    if byte_index < chars.len() {
        lemma_ascii_offsets(chars, byte_index);
        lemma_boundary_at_character(chars, byte_index);
    } else {
        lemma_byte_offset_ends(chars);
        lemma_no_boundary_beyond_text(chars, byte_index);
    }
}

/// The number of bytes of the character whose encoding starts with `lead`.
pub open spec fn lead_width(lead: u8) -> int {
    if is_leading_byte_width_1(lead) {
        1
    } else if is_leading_byte_width_2(lead) {
        2
    } else if is_leading_byte_width_3(lead) {
        3
    } else {
        4
    }
}

/// Reads the number of bytes of a character off its first byte.
fn encoded_width(lead: u8) -> (width: usize)
    ensures
        width == lead_width(lead),
{
    if lead <= 0x7f {
        1
    } else if 0xc0 <= lead && lead <= 0xdf {
        2
    } else if 0xe0 <= lead && lead <= 0xef {
        3
    } else {
        4
    }
}

/// Finds the first character boundary of `source` at or after `byte_index`.
///
/// The boundaries are the starts of the characters, in order; the end of
/// the text is not one of them. The result is `None` when every character
/// starts before `byte_index`, in particular when `byte_index` is at or
/// beyond the end of the text.
pub fn byte_index_to_char_index(source: &str, byte_index: usize) -> (result: Option<CharIndex>)
    ensures
        match result {
            Some(found) => boundary_at_or_after(source@, byte_index as int) == Some(found@),
            None => boundary_at_or_after(source@, byte_index as int) is None,
        },
        match result {
            Some(found) => {
                &&& found.char_index < source@.len()
                &&& found.first_byte == byte_offset(source@, found.char_index as int)
                &&& found.first_byte >= byte_index
                &&& forall|j: int|
                    0 <= j < found.char_index ==> #[trigger] byte_offset(source@, j) < byte_index
            },
            None => forall|j: int|
                0 <= j < source@.len() ==> #[trigger] byte_offset(source@, j) < byte_index,
        },
        byte_index >= source.spec_bytes().len() ==> result is None,
        result matches Some(found) ==> found.char_index == byte_index - continuation_count(
            source.spec_bytes().take(byte_index as int),
        ),
{
    let bytes = source.as_bytes();
    let len = bytes.len();
    let ghost chars = source@;
    let mut first_byte: usize = 0;
    let mut char_index: usize = 0;
    proof {
        lemma_byte_offset_ends(chars);
        lemma_scan_finds_least(chars, 0, byte_index as int);
        if byte_index >= len && chars.len() > 0 {
            lemma_byte_offset_bounds(chars, chars.len() - 1);
        }
    }
    while first_byte < len
        invariant
            chars == source@,
            bytes@ == encode_utf8(chars),
            len == bytes@.len(),
            char_index <= chars.len(),
            first_byte == byte_offset(chars, char_index as int),
            boundary_at_or_after(chars, byte_index as int) == scan_boundaries(
                chars,
                char_index as int,
                byte_index as int,
            ),
            forall|j: int|
                0 <= j < char_index ==> #[trigger] byte_offset(chars, j) < byte_index,
        decreases len - first_byte,
    {
        proof {
            lemma_byte_offset_ends(chars);
            assert(char_index < chars.len());
        }
        if first_byte >= byte_index {
            proof {
                lemma_boundary_behind_by_continuation_bytes(chars, byte_index as int);
            }
            return Some(CharIndex { first_byte, char_index });
        }
        let width = encoded_width(bytes[first_byte]);
        proof {
            let rest = chars.skip(char_index as int);
            lemma_suffix_encoding(chars, char_index as int);
            encode_utf8_first_scalar(rest);
            lemma_byte_offset_step(chars, char_index as int);
            lemma_byte_offset_bounds(chars, char_index + 1);
        }
        first_byte += width;
        char_index += 1;
    }
    proof {
        lemma_byte_offset_bounds(chars, char_index as int);
    }
    None
}

/// The bounds of `span` in the order in which the mapping takes them: the
/// two are exchanged when the start lies before the end, so the first of
/// the pair is never the smaller one.
pub open spec fn normalized(span: Range<usize>) -> (usize, usize) {
    if span.start < span.end {
        (span.end, span.start)
    } else {
        (span.start, span.end)
    }
}

/// The range of characters that a range of bytes maps to.
///
/// The first bound of the normalized range is resolved in the whole text.
/// The distance from it to the second bound, as the machine subtracts the
/// two, is then resolved in the text from that boundary on, and the outcome
/// is shifted back by the boundary.
pub open spec fn char_span(chars: Seq<char>, span: Range<usize>) -> Option<(int, int)> {
    let (start, end) = normalized(span);
    match boundary_at_or_after(chars, start as int) {
        None => None,
        Some(from) => match boundary_at_or_after(
            chars.skip(from.char_index),
            usize_specs::wrapping_sub(end, start) as int,
        ) {
            None => None,
            Some(to) => Some((from.char_index, from.char_index + to.char_index)),
        },
    }
}

/// A range of bytes maps to a range of characters only if it is empty, and
/// then to the empty range at the first boundary at or after it.
///
/// After normalization the second bound is never the larger one. If it is
/// smaller, the distance wraps around to more than any text has bytes, and
/// nothing is found that far into the text.
pub proof fn lemma_char_span_of_empty_only(chars: Seq<char>, span: Range<usize>)
    requires
        encode_utf8(chars).len() <= usize::MAX,
    ensures
        char_span(chars, span) == if span.start == span.end {
            match boundary_at_or_after(chars, span.start as int) {
                Some(at) => Some((at.char_index, at.char_index)),
                None => None,
            }
        } else {
            None
        },
{
    let (start, end) = normalized(span);
    lemma_scan_finds_least(chars, 0, start as int);
    if let Some(from) = boundary_at_or_after(chars, start as int) {
        let suffix = chars.skip(from.char_index);
        let distance = usize_specs::wrapping_sub(end, start) as int;
        lemma_byte_offset_ends(suffix);
        lemma_scan_finds_least(suffix, 0, distance);
        if start != end {
            lemma_suffix_encoding(chars, from.char_index);
            lemma_byte_offset_bounds(chars, from.char_index);
            assert(encode_utf8(suffix).len() == encode_utf8(chars).len() - from.first_byte);
            assert(distance == end - start + usize::MAX + 1);
            assert forall|j: int| 0 <= j < suffix.len() implies #[trigger] byte_offset(suffix, j)
                < distance by {
                lemma_byte_offset_bounds(suffix, j);
            }
        }
    }
}

/// A range with a bound at or beyond the end of the text maps to nothing.
pub proof fn lemma_char_span_beyond_text(chars: Seq<char>, span: Range<usize>)
    requires
        span.start >= encode_utf8(chars).len() || span.end >= encode_utf8(chars).len(),
    ensures
        char_span(chars, span) is None,
{
    lemma_no_boundary_beyond_text(chars, normalized(span).0 as int);
}

/// In a text of ASCII characters, the character offsets that a range maps
/// to are the byte offsets that were given.
pub proof fn lemma_char_span_ascii(chars: Seq<char>, span: Range<usize>)
    requires
        is_ascii_chars(chars),
        encode_utf8(chars).len() <= usize::MAX,
    ensures
        char_span(chars, span) matches Some(range) ==> range.0 == span.start && range.1
            == span.end,
        char_span(chars, span) is Some <==> span.start == span.end && span.start < chars.len(),
{
    lemma_char_span_of_empty_only(chars, span);
    lemma_ascii_boundary(chars, span.start as int);
}

/// The character offsets that a range maps to are less than its byte
/// offsets by the bytes before them that continue a character: the extra
/// bytes that the characters have taken up to there.
pub proof fn lemma_char_span_behind_by_continuation_bytes(chars: Seq<char>, span: Range<usize>)
    requires
        encode_utf8(chars).len() <= usize::MAX,
    ensures
        char_span(chars, span) matches Some(range) ==> {
            &&& range.0 == span.start - continuation_count(
                encode_utf8(chars).take(span.start as int),
            )
            &&& range.1 == span.end - continuation_count(encode_utf8(chars).take(span.end as int))
        },
{
    lemma_char_span_of_empty_only(chars, span);
    lemma_boundary_behind_by_continuation_bytes(chars, span.start as int);
}

/// Where a character starts at the offset given, the character offsets
/// that a range maps to are less than its byte offsets by the extra bytes
/// of the characters before it: one for every byte of a character after
/// its first. An empty range at such an offset does map.
pub proof fn lemma_char_span_behind_by_extra_bytes(chars: Seq<char>, span: Range<usize>, k: int)
    requires
        encode_utf8(chars).len() <= usize::MAX,
        0 <= k < chars.len(),
        byte_offset(chars, k) == span.start,
    ensures
        char_span(chars, span) matches Some(range) ==> {
            &&& range.0 == span.start - extra_bytes(chars.take(k))
            &&& range.1 == span.end - extra_bytes(chars.take(k))
        },
        span.start == span.end ==> char_span(chars, span) is Some,
{
    lemma_char_span_of_empty_only(chars, span);
    lemma_char_span_behind_by_continuation_bytes(chars, span);
    lemma_boundary_at_character(chars, k);
    lemma_continuation_count_at_character(chars, k);
}

/// Maps a range of bytes of `source` to a range of its characters.
///
/// The bounds are exchanged first when the start lies before the end. The
/// larger bound is then resolved to the first character boundary at or
/// after it, and the other bound relative to that boundary, by the distance
/// between the two as the machine subtracts them. Only an empty range has
/// a distance that the text can hold: it maps to the empty range at its
/// boundary, and every other range, like every offset at or beyond the end
/// of the text, maps to `None`. A range given in the usual order, with its
/// start before its end, is thus one that maps to nothing.
pub fn byte_span_to_char_span(source: &str, span: Range<usize>) -> (result: Option<Range<usize>>)
    ensures
        match result {
            Some(range) => char_span(source@, span) == Some((range.start as int, range.end as int)),
            None => char_span(source@, span) is None,
        },
        result is Some <==> span.start == span.end && boundary_at_or_after(
            source@,
            span.start as int,
        ) is Some,
        result matches Some(range) ==> {
            &&& range.start == range.end
            &&& range.end < source@.len()
            &&& boundary_at_or_after(source@, span.start as int) matches Some(at)
            &&& at.char_index == range.start
        },
        span.start >= source.spec_bytes().len() || span.end >= source.spec_bytes().len()
            ==> result is None,
        result matches Some(range) ==> {
            &&& range.start == span.start - continuation_count(
                source.spec_bytes().take(span.start as int),
            )
            &&& range.end == span.end - continuation_count(
                source.spec_bytes().take(span.end as int),
            )
        },
        is_ascii_chars(source@) ==> (result matches Some(range) ==> range.start == span.start
            && range.end == span.end),
        is_ascii_chars(source@) ==> (result is Some <==> span.start == span.end && span.start
            < source@.len()),
{
    let ghost given = span;
    let ghost chars = source@;
    let total = source.as_bytes().len();
    let mut span = span;
    if span.start < span.end {
        std::mem::swap(&mut span.start, &mut span.end);
    }
    proof {
        assert(encode_utf8(chars).len() == total);
        lemma_char_span_of_empty_only(chars, given);
        lemma_char_span_behind_by_continuation_bytes(chars, given);
        if is_ascii_chars(chars) {
            lemma_char_span_ascii(chars, given);
        }
        if given.start >= total || given.end >= total {
            lemma_char_span_beyond_text(chars, given);
        }
    }
    let start = match byte_index_to_char_index(source, span.start) {
        Some(start) => start,
        None => {
            return None;
        },
    };
    proof {
        lemma_offset_is_boundary(chars, start.char_index as int);
        lemma_suffix_encoding(chars, start.char_index as int);
    }
    let (_, suffix) = source.split_at(start.first_byte);
    proof {
        lemma_encode_injective(suffix@, chars.skip(start.char_index as int));
    }
    let end = match byte_index_to_char_index(suffix, span.end.wrapping_sub(span.start)) {
        Some(relative) => {
            proof {
                lemma_byte_offset_shift(
                    chars,
                    start.char_index as int,
                    relative.char_index as int,
                );
                lemma_byte_offset_bounds(chars, start.char_index + relative.char_index);
            }
            relative + start
        },
        None => {
            return None;
        },
    };
    Some(start.char_index..end.char_index)
}

} // verus!
