//! Character offsets and byte offsets in UTF-8 text.
//!
//! Runs are cut at character offsets, but a buffer is sliced at byte
//! offsets. The facts here connect the two.

use vstd::prelude::*;
use vstd::utf8::*;

verus! {

/// The number of characters counted when asked for `n` of `chars`: `n`, or all
/// of them where there are fewer.
pub open spec fn clamp_chars(chars: Seq<char>, n: int) -> int {
    if n < 0 {
        0
    } else if n < chars.len() {
        n
    } else {
        chars.len() as int
    }
}

/// The byte offset that follows the first `n` characters of `chars` in its
/// UTF-8 encoding (its whole length where `chars` has fewer than `n`).
pub open spec fn byte_offset(chars: Seq<char>, n: int) -> int {
    encode_utf8(chars.take(clamp_chars(chars, n))).len() as int
}

/// Whether `[start, end)` is a range of `bytes` that begins and ends on
/// character boundaries.
pub open spec fn range_on_boundaries(bytes: Seq<u8>, start: int, end: int) -> bool {
    &&& 0 <= start <= end <= bytes.len()
    &&& is_char_boundary(bytes, start)
    &&& is_char_boundary(bytes, end)
}

/// A prefix that ends on a character boundary is valid UTF-8 and has the
/// boundaries of the whole.
pub proof fn lemma_boundary_in_prefix(bytes: Seq<u8>, e: int, p: int)
    requires
        valid_utf8(bytes),
        0 <= p <= e <= bytes.len(),
        is_char_boundary(bytes, e),
    ensures
        valid_utf8(bytes.subrange(0, e)),
        is_char_boundary(bytes.subrange(0, e), p) <==> is_char_boundary(bytes, p),
{
    let x = bytes.subrange(0, e);
    valid_utf8_split(bytes, e);
    if p == e {
        is_char_boundary_start_end_of_seq(x);
    } else {
        is_char_boundary_iff_not_is_continuation_byte(bytes, p);
        is_char_boundary_iff_not_is_continuation_byte(x, p);
    }
}

/// A range between two character boundaries is valid UTF-8, and its
/// boundaries are those of the whole, shifted.
pub proof fn lemma_boundary_in_range(bytes: Seq<u8>, s: int, e: int, p: int)
    requires
        valid_utf8(bytes),
        range_on_boundaries(bytes, s, e),
        s <= p <= e,
    ensures
        valid_utf8(bytes.subrange(s, e)),
        is_char_boundary(bytes.subrange(s, e), p - s) <==> is_char_boundary(bytes, p),
{
    let x = bytes.subrange(0, e);
    lemma_boundary_in_prefix(bytes, e, s);
    lemma_boundary_in_prefix(bytes, e, p);
    valid_utf8_split(x, s);
    let y = x.subrange(s, x.len() as int);
    assert(y =~= bytes.subrange(s, e));
    if p == e {
        is_char_boundary_start_end_of_seq(y);
        is_char_boundary_start_end_of_seq(x);
    } else {
        is_char_boundary_iff_not_is_continuation_byte(x, p);
        is_char_boundary_iff_not_is_continuation_byte(y, p - s);
    }
}

/// Valid UTF-8 without a character boundary strictly inside it encodes
/// exactly one character.
pub proof fn lemma_single_char(x: Seq<u8>)
    requires
        valid_utf8(x),
        x.len() > 0,
        forall|p: int| 0 < p < x.len() ==> !is_char_boundary(x, p),
    ensures
        decode_utf8(x).len() == 1,
{
    reveal_with_fuel(valid_utf8, 2);
    reveal_with_fuel(decode_utf8, 2);
    reveal_with_fuel(is_char_boundary, 2);
    let l = length_of_first_scalar(x);
    assert(1 <= l <= x.len());
    if l < x.len() {
        assert(is_char_boundary(x, l));
    }
    assert(pop_first_scalar(x).len() == 0);
}

/// Moving from one character boundary to the next adds one character to the
/// decoded prefix.
pub proof fn lemma_next_boundary(bytes: Seq<u8>, i: int, j: int)
    requires
        valid_utf8(bytes),
        range_on_boundaries(bytes, i, j),
        i < j,
        forall|p: int| i < p < j ==> !is_char_boundary(bytes, p),
    ensures
        decode_utf8(bytes.subrange(0, j)).len() == decode_utf8(bytes.subrange(0, i)).len() + 1,
{
    let x = bytes.subrange(0, j);
    lemma_boundary_in_prefix(bytes, j, i);
    decode_utf8_split(x, i);
    assert(x.subrange(0, i) =~= bytes.subrange(0, i));
    let y = bytes.subrange(i, j);
    assert(x.subrange(i, x.len() as int) =~= y);
    assert forall|p: int| 0 < p < y.len() implies !is_char_boundary(y, p) by {
        lemma_boundary_in_range(bytes, i, j, p + i);
    }
    lemma_boundary_in_range(bytes, i, j, i);
    lemma_single_char(y);
}

/// A prefix of the encoding that ends on a character boundary and decodes to
/// `count` characters is the encoding of the first `count` characters.
pub proof fn lemma_prefix_is_take(chars: Seq<char>, i: int, count: int)
    requires
        0 <= i <= encode_utf8(chars).len(),
        is_char_boundary(encode_utf8(chars), i),
        decode_utf8(encode_utf8(chars).subrange(0, i)).len() == count,
    ensures
        count <= chars.len(),
        decode_utf8(encode_utf8(chars).subrange(0, i)) == chars.take(count),
        decode_utf8(encode_utf8(chars).subrange(i, encode_utf8(chars).len() as int)) == chars.skip(count),
        encode_utf8(chars.take(count)) == encode_utf8(chars).subrange(0, i),
        encode_utf8(chars.skip(count)) == encode_utf8(chars).subrange(i, encode_utf8(chars).len() as int),
{
    let bytes = encode_utf8(chars);
    encode_utf8_valid_utf8(chars);
    encode_utf8_decode_utf8(chars);
    decode_utf8_split(bytes, i);
    valid_utf8_split(bytes, i);
    let a = decode_utf8(bytes.subrange(0, i));
    let b = decode_utf8(bytes.subrange(i, bytes.len() as int));
    assert(chars =~= a + b);
    assert(a =~= chars.take(count));
    assert(b =~= chars.skip(count));
    decode_utf8_encode_utf8(bytes.subrange(0, i));
    decode_utf8_encode_utf8(bytes.subrange(i, bytes.len() as int));
}

/// The byte offset after a number of characters is a character boundary of
/// the encoding, and cuts it into the encodings of the two parts.
pub proof fn lemma_byte_offset_cuts(chars: Seq<char>, n: int)
    requires
        0 <= n <= chars.len(),
    ensures
        byte_offset(chars, n) == encode_utf8(chars.take(n)).len(),
        0 <= byte_offset(chars, n) <= encode_utf8(chars).len(),
        is_char_boundary(encode_utf8(chars), byte_offset(chars, n)),
        encode_utf8(chars).subrange(0, byte_offset(chars, n)) == encode_utf8(chars.take(n)),
        encode_utf8(chars).subrange(byte_offset(chars, n), encode_utf8(chars).len() as int)
            == encode_utf8(chars.skip(n)),
{
    lemma_encode_concat(chars.take(n), chars.skip(n));
    assert(chars.take(n) + chars.skip(n) =~= chars);
    let a = encode_utf8(chars.take(n));
    let b = encode_utf8(chars.skip(n));
    assert((a + b).subrange(0, a.len() as int) =~= a);
    assert((a + b).subrange(a.len() as int, (a + b).len() as int) =~= b);
}

/// Encoding distributes over concatenation, and the seam is a character
/// boundary.
pub proof fn lemma_encode_concat(a: Seq<char>, b: Seq<char>)
    ensures
        encode_utf8(a + b) == encode_utf8(a) + encode_utf8(b),
        is_char_boundary(encode_utf8(a + b), encode_utf8(a).len() as int),
    decreases a.len(),
{
    encode_utf8_valid_utf8(a + b);
    if a.len() == 0 {
        assert(a + b =~= b);
        assert(encode_utf8(a) + encode_utf8(b) =~= encode_utf8(b));
    } else {
        let rest = a.drop_first();
        lemma_encode_concat(rest, b);
        assert((a + b).drop_first() =~= rest + b);
        assert((a + b)[0] == a[0]);
        let head = encode_scalar(a[0] as u32);
        assert(encode_utf8(a + b) =~= head + (encode_utf8(rest) + encode_utf8(b)));
        assert(encode_utf8(a) + encode_utf8(b) =~= head + (encode_utf8(rest) + encode_utf8(b)));
        encode_utf8_first_scalar(a + b);
        let whole = encode_utf8(a + b);
        assert(pop_first_scalar(whole) =~= encode_utf8(rest + b));
        assert(head.len() > 0);
        reveal_with_fuel(is_char_boundary, 2);
    }
}

} // verus!
