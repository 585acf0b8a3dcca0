//! Where the characters of a text start in its UTF-8 encoding.
//!
//! A text is modelled as its sequence of characters. The byte offset of a
//! character is the length of the encoding of the characters before it.
use vstd::prelude::*;
use vstd::utf8::*;

verus! {

/// The number of bytes that `c` takes in UTF-8.
pub open spec fn char_width(c: char) -> int {
    encode_scalar(c as u32).len() as int
}

/// The byte offset at which character `k` of `chars` starts in the UTF-8
/// encoding of `chars`. For `k == chars.len()` this is the length of the whole
/// encoding.
pub open spec fn byte_offset(chars: Seq<char>, k: int) -> int {
    encode_utf8(chars.take(k)).len() as int
}

/// The bytes by which the encoding of `chars` is longer than `chars`: one for
/// each byte of a character after its first.
pub open spec fn extra_bytes(chars: Seq<char>) -> int
    decreases chars.len(),
{
    if chars.len() == 0 {
        0
    } else {
        char_width(chars[0]) - 1 + extra_bytes(chars.drop_first())
    }
}

/// A character takes between one and four bytes.
pub proof fn lemma_char_width_bounds(c: char)
    ensures
        1 <= char_width(c) <= 4,
{
}

/// Encoding distributes over concatenation.
pub proof fn lemma_encode_concat(a: Seq<char>, b: Seq<char>)
    ensures
        encode_utf8(a + b) =~= encode_utf8(a) + encode_utf8(b),
    decreases a.len(),
{
    if a.len() == 0 {
        assert(a + b =~= b);
    } else {
        assert((a + b).drop_first() =~= a.drop_first() + b);
        lemma_encode_concat(a.drop_first(), b);
    }
}

/// The encoding of a single character.
pub proof fn lemma_encode_single(c: char)
    ensures
        encode_utf8(seq![c]) =~= encode_scalar(c as u32),
{
    assert(seq![c].drop_first() =~= Seq::<char>::empty());
    reveal_with_fuel(encode_utf8, 2);
}

/// The first character starts at byte 0, and the offset past the last
/// character is the length of the encoding.
pub proof fn lemma_byte_offset_ends(chars: Seq<char>)
    ensures
        byte_offset(chars, 0) == 0,
        byte_offset(chars, chars.len() as int) == encode_utf8(chars).len(),
{
    assert(chars.take(0) =~= Seq::<char>::empty());
    assert(chars.take(chars.len() as int) =~= chars);
}

/// The next character starts where this one ends.
pub proof fn lemma_byte_offset_step(chars: Seq<char>, k: int)
    requires
        0 <= k < chars.len(),
    ensures
        byte_offset(chars, k + 1) == byte_offset(chars, k) + char_width(chars[k]),
{
    assert(chars.take(k + 1) =~= chars.take(k) + seq![chars[k]]);
    lemma_encode_concat(chars.take(k), seq![chars[k]]);
    lemma_encode_single(chars[k]);
}

/// Later characters start at later bytes, at least one byte per character
/// in between.
pub proof fn lemma_byte_offset_increasing(chars: Seq<char>, i: int, j: int)
    requires
        0 <= i <= j <= chars.len(),
    ensures
        byte_offset(chars, j) - byte_offset(chars, i) >= j - i,
    decreases j - i,
{
    if i < j {
        lemma_byte_offset_increasing(chars, i, j - 1);
        lemma_byte_offset_step(chars, j - 1);
        lemma_char_width_bounds(chars[j - 1]);
    }
}

/// Every offset lies within the encoding, and no character starts before
/// its own index.
pub proof fn lemma_byte_offset_bounds(chars: Seq<char>, k: int)
    requires
        0 <= k <= chars.len(),
    ensures
        k <= byte_offset(chars, k) <= encode_utf8(chars).len(),
        k < chars.len() ==> byte_offset(chars, k) < encode_utf8(chars).len(),
{
    lemma_byte_offset_ends(chars);
    lemma_byte_offset_increasing(chars, 0, k);
    lemma_byte_offset_increasing(chars, k, chars.len() as int);
}

/// The encoding from character `k` on is the encoding of the characters
/// from `k` on.
pub proof fn lemma_suffix_encoding(chars: Seq<char>, k: int)
    requires
        0 <= k <= chars.len(),
    ensures
        encode_utf8(chars.skip(k)) =~= encode_utf8(chars).subrange(
            byte_offset(chars, k),
            encode_utf8(chars).len() as int,
        ),
{
    assert(chars =~= chars.take(k) + chars.skip(k));
    lemma_encode_concat(chars.take(k), chars.skip(k));
}

/// Offsets in a suffix are offsets in the text, shifted by where the suffix
/// starts.
pub proof fn lemma_byte_offset_shift(chars: Seq<char>, k: int, j: int)
    requires
        0 <= k,
        0 <= j,
        k + j <= chars.len(),
    ensures
        byte_offset(chars, k + j) == byte_offset(chars, k) + byte_offset(chars.skip(k), j),
{
    assert(chars.take(k + j) =~= chars.take(k) + chars.skip(k).take(j));
    lemma_encode_concat(chars.take(k), chars.skip(k).take(j));
}

/// The start of every character, and the end of the text, is a character
/// boundary of the encoding.
pub proof fn lemma_offset_is_boundary(chars: Seq<char>, k: int)
    requires
        0 <= k <= chars.len(),
    ensures
        is_char_boundary(encode_utf8(chars), byte_offset(chars, k)),
    decreases k,
{
    let bytes = encode_utf8(chars);
    encode_utf8_valid_utf8(chars);
    lemma_byte_offset_ends(chars);
    if k > 0 {
        let rest = chars.drop_first();
        encode_utf8_first_scalar(chars);
        assert(pop_first_scalar(bytes) =~= encode_utf8(rest));
        assert(rest =~= chars.skip(1));
        lemma_byte_offset_shift(chars, 1, k - 1);
        lemma_byte_offset_step(chars, 0);
        lemma_byte_offset_bounds(chars, k);
        lemma_offset_is_boundary(rest, k - 1);
    }
}

/// Two texts with the same encoding are the same text.
pub proof fn lemma_encode_injective(a: Seq<char>, b: Seq<char>)
    requires
        encode_utf8(a) == encode_utf8(b),
    ensures
        a == b,
{
    encode_utf8_decode_utf8(a);
    encode_utf8_decode_utf8(b);
}

/// The extra bytes of a text are what its encoding has beyond one byte per
/// character.
pub proof fn lemma_extra_bytes(chars: Seq<char>)
    ensures
        extra_bytes(chars) == encode_utf8(chars).len() - chars.len(),
        extra_bytes(chars) >= 0,
    decreases chars.len(),
{
    if chars.len() > 0 {
        lemma_extra_bytes(chars.drop_first());
        lemma_char_width_bounds(chars[0]);
    }
}

/// The number of bytes among `bytes` that continue a character rather than
/// start one.
pub open spec fn continuation_count(bytes: Seq<u8>) -> int
    decreases bytes.len(),
{
    if bytes.len() == 0 {
        0
    } else {
        continuation_count(bytes.drop_last()) + if is_continuation_byte(bytes.last()) {
            1int
        } else {
            0int
        }
    }
}

/// Of the bytes of a character, the first starts it and the others
/// continue it.
pub proof fn lemma_continuation_within_char(chars: Seq<char>, k: int, p: int)
    requires
        0 <= k < chars.len(),
        byte_offset(chars, k) <= p < byte_offset(chars, k + 1),
    ensures
        0 <= p < encode_utf8(chars).len(),
        is_continuation_byte(encode_utf8(chars)[p]) <==> p != byte_offset(chars, k),
{
    let rest = chars.skip(k);
    lemma_suffix_encoding(chars, k);
    lemma_byte_offset_bounds(chars, k);
    lemma_byte_offset_bounds(chars, k + 1);
    lemma_byte_offset_step(chars, k);
    encode_utf8_first_scalar(rest);
    assert(encode_utf8(rest)[p - byte_offset(chars, k)] == encode_utf8(chars)[p]);
}

/// Among the bytes before an offset that lies after the start of
/// character `k` and not after its end, all but one for each character up
/// to `k` continue a character.
pub proof fn lemma_continuation_count(chars: Seq<char>, k: int, p: int)
    requires
        0 <= k < chars.len(),
        byte_offset(chars, k) < p <= byte_offset(chars, k + 1),
    ensures
        continuation_count(encode_utf8(chars).take(p)) == p - k - 1,
    decreases p,
{
    let bytes = encode_utf8(chars);
    lemma_continuation_within_char(chars, k, p - 1);
    lemma_byte_offset_bounds(chars, k + 1);
    assert(bytes.take(p).drop_last() =~= bytes.take(p - 1));
    assert(bytes.take(p).last() == bytes[p - 1]);
    if p - 1 > byte_offset(chars, k) {
        lemma_continuation_count(chars, k, p - 1);
    } else if k > 0 {
        lemma_byte_offset_increasing(chars, k - 1, k);
        lemma_continuation_count(chars, k - 1, p - 1);
    } else {
        lemma_byte_offset_ends(chars);
        assert(continuation_count(bytes.take(0)) == 0);
    }
}

/// Up to the start of a character, the bytes that continue a character are
/// the extra bytes of the characters before it.
pub proof fn lemma_continuation_count_at_character(chars: Seq<char>, k: int)
    requires
        0 <= k <= chars.len(),
    ensures
        continuation_count(encode_utf8(chars).take(byte_offset(chars, k))) == extra_bytes(
            chars.take(k),
        ),
{
    lemma_extra_bytes(chars.take(k));
    if k > 0 {
        lemma_byte_offset_increasing(chars, k - 1, k);
        lemma_continuation_count(chars, k - 1, byte_offset(chars, k));
    } else {
        lemma_byte_offset_ends(chars);
    }
}

/// In a text of ASCII characters, every character is one byte, so byte
/// offsets and character indices coincide.
pub proof fn lemma_ascii_offsets(chars: Seq<char>, k: int)
    requires
        is_ascii_chars(chars),
        0 <= k <= chars.len(),
    ensures
        byte_offset(chars, k) == k,
{
    assert(is_ascii_chars(chars.take(k)));
    is_ascii_chars_encode_utf8(chars.take(k));
}

} // verus!
