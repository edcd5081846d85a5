//! Byte offsets of characters in the UTF-8 encoding of a text, and the facts
//! that slicing a `str` at such offsets needs.
use vstd::prelude::*;
use vstd::utf8::*;

verus! {

/// The byte offset, in the UTF-8 encoding of `src`, of the character at index `i`.
pub open spec fn byte_offset(src: Seq<char>, i: int) -> nat {
    encode_utf8(src.take(i)).len()
}

/// The number of bytes in the UTF-8 encoding of `c`.
pub open spec fn utf8_width(c: char) -> nat {
    encode_scalar(c as u32).len()
}

/// Encoding distributes over concatenation.
pub proof fn lemma_encode_concat(a: Seq<char>, b: Seq<char>)
    ensures
        encode_utf8(a + b) == encode_utf8(a) + encode_utf8(b),
    decreases a.len(),
{
    if a.len() == 0 {
        assert(a + b =~= b);
        assert(encode_utf8(a) + encode_utf8(b) =~= encode_utf8(b));
    } else {
        assert((a + b).drop_first() =~= a.drop_first() + b);
        lemma_encode_concat(a.drop_first(), b);
        assert((a + b)[0] == a[0]);
        assert(encode_utf8(a + b) =~= encode_utf8(a) + encode_utf8(b));
    }
}

/// The encoding of a single character is its scalar encoding.
pub proof fn lemma_encode_single(c: char)
    ensures
        encode_utf8(seq![c]) == encode_scalar(c as u32),
        1 <= utf8_width(c) <= 4,
{
    let one = seq![c];
    assert(one[0] == c);
    assert(one.drop_first() =~= Seq::<char>::empty());
    assert(encode_utf8(Seq::<char>::empty()) =~= Seq::<u8>::empty());
    assert(encode_utf8(one) =~= encode_scalar(c as u32) + encode_utf8(one.drop_first()));
    assert(encode_utf8(one) =~= encode_scalar(c as u32));
}

/// Stepping over one character moves the byte offset by its width.
pub proof fn lemma_byte_offset_step(src: Seq<char>, i: int)
    requires
        0 <= i < src.len(),
    ensures
        byte_offset(src, i + 1) == byte_offset(src, i) + utf8_width(src[i]),
{
    assert(src.take(i + 1) =~= src.take(i) + seq![src[i]]);
    lemma_encode_concat(src.take(i), seq![src[i]]);
    lemma_encode_single(src[i]);
}

/// Byte offsets start at zero and end at the length of the encoding.
pub proof fn lemma_byte_offset_ends(src: Seq<char>)
    ensures
        byte_offset(src, 0) == 0,
        byte_offset(src, src.len() as int) == encode_utf8(src).len(),
{
    assert(src.take(0) =~= Seq::<char>::empty());
    assert(src.take(src.len() as int) =~= src);
}

/// The bytes of a run of characters are the bytes between their offsets.
pub proof fn lemma_encode_subrange(src: Seq<char>, a: int, b: int)
    requires
        0 <= a <= b <= src.len(),
    ensures
        byte_offset(src, a) <= byte_offset(src, b) <= encode_utf8(src).len(),
        encode_utf8(src.subrange(a, b)) == encode_utf8(src).subrange(
            byte_offset(src, a) as int,
            byte_offset(src, b) as int,
        ),
{
    assert(src =~= src.take(a) + src.subrange(a, b) + src.skip(b));
    assert(src.take(b) =~= src.take(a) + src.subrange(a, b));
    lemma_encode_concat(src.take(a), src.subrange(a, b));
    lemma_encode_concat(src.take(a) + src.subrange(a, b), src.skip(b));
    assert(encode_utf8(src.subrange(a, b)) =~= encode_utf8(src).subrange(
        byte_offset(src, a) as int,
        byte_offset(src, b) as int,
    ));
}

/// Byte offsets never decrease.
pub proof fn lemma_byte_offset_monotone(src: Seq<char>, a: int, b: int)
    requires
        0 <= a <= b <= src.len(),
    ensures
        byte_offset(src, a) <= byte_offset(src, b),
        a < b ==> byte_offset(src, a) < byte_offset(src, b),
{
    lemma_encode_subrange(src, a, b);
    if a < b {
        assert(src.subrange(a, b) =~= seq![src[a]] + src.subrange(a + 1, b));
        lemma_encode_concat(seq![src[a]], src.subrange(a + 1, b));
        lemma_encode_single(src[a]);
        assert(encode_utf8(src.subrange(a, b)).len() >= 1);
    }
}

/// The offset of every character index is a character boundary of the encoding.
pub proof fn lemma_char_boundary(s: Seq<char>, k: int)
    requires
        0 <= k <= s.len(),
    ensures
        is_char_boundary(encode_utf8(s), byte_offset(s, k) as int),
    decreases s.len(),
{
    let bytes = encode_utf8(s);
    encode_utf8_valid_utf8(s);
    if k == 0 {
        assert(s.take(0) =~= Seq::<char>::empty());
    } else {
        let rest = s.drop_first();
        encode_utf8_first_scalar(s);
        assert(pop_first_scalar(bytes) =~= encode_utf8(rest));
        assert(s.take(k) =~= seq![s[0]] + rest.take(k - 1));
        lemma_encode_concat(seq![s[0]], rest.take(k - 1));
        lemma_encode_single(s[0]);
        lemma_encode_subrange(s, 0, k);
        lemma_char_boundary(rest, k - 1);
    }
}

/// Equal encodings come from equal texts.
pub proof fn lemma_encode_injective(a: Seq<char>, b: Seq<char>)
    requires
        encode_utf8(a) == encode_utf8(b),
    ensures
        a == b,
{
    encode_utf8_decode_utf8(a);
    encode_utf8_decode_utf8(b);
}

/// The width of a UTF-8 encoding, read off its first byte.
pub open spec fn width_of_lead(b: u8) -> nat {
    if b < 0x80 {
        1
    } else if b < 0xE0 {
        2
    } else if b < 0xF0 {
        3
    } else {
        4
    }
}

/// The first byte of a character's encoding is the character itself when it is
/// ASCII, is no ASCII byte otherwise, and gives the encoding's width.
pub proof fn lemma_lead_byte(c: char)
    ensures
        (c as u32) < 0x80 ==> encode_scalar(c as u32)[0] as u32 == c as u32,
        (c as u32) >= 0x80 ==> encode_scalar(c as u32)[0] >= 0x80,
        utf8_width(c) == width_of_lead(encode_scalar(c as u32)[0]),
{
    char_is_scalar(c);
    let v = c as u32;
    if has_width_1_encoding(v) {
        assert(((v & 0x7F) as u8) as u32 == v) by (bit_vector)
            requires v <= 0x7F;
    } else if has_width_2_encoding(v) {
        assert(0xC0 <= (0xC0 | ((v >> 6) & 0x1F) as u8) < 0xE0) by (bit_vector);
    } else if has_width_3_encoding(v) {
        assert(0xE0 <= (0xE0 | ((v >> 12) & 0x0F) as u8) < 0xF0) by (bit_vector);
    } else {
        assert(0xF0 <= (0xF0 | ((v >> 18) & 0x7) as u8)) by (bit_vector);
    }
}

/// A character index never exceeds its byte offset.
pub proof fn lemma_index_le_offset(src: Seq<char>, i: int)
    requires
        0 <= i <= src.len(),
    ensures
        i <= byte_offset(src, i),
    decreases i,
{
    if i > 0 {
        lemma_index_le_offset(src, i - 1);
        lemma_byte_offset_step(src, i - 1);
        lemma_encode_single(src[i - 1]);
    }
}

/// The byte at the offset of character `i` is the first byte of its encoding.
pub proof fn lemma_byte_at_offset(src: Seq<char>, i: int)
    requires
        0 <= i < src.len(),
    ensures
        byte_offset(src, i) < encode_utf8(src).len(),
        encode_utf8(src)[byte_offset(src, i) as int] == encode_scalar(src[i] as u32)[0],
{
    lemma_encode_subrange(src, i, i + 1);
    assert(src.subrange(i, i + 1) =~= seq![src[i]]);
    lemma_encode_single(src[i]);
    lemma_byte_offset_step(src, i);
}

/// The part of `s` between the byte offsets of character indices `a` and `b`.
pub fn slice_chars<'a>(s: &'a str, from: usize, to: usize, Ghost(a): Ghost<int>, Ghost(b): Ghost<int>) -> (r: &'a str)
    requires
        0 <= a <= b <= s@.len(),
        from == byte_offset(s@, a),
        to == byte_offset(s@, b),
    ensures
        r@ == s@.subrange(a, b),
{
    proof {
        lemma_char_boundary(s@, b);
    }
    let (head, _tail) = s.split_at(to);
    proof {
        lemma_encode_subrange(s@, 0, b);
        lemma_byte_offset_ends(s@);
        assert(s@.subrange(0, b) =~= s@.take(b));
        lemma_encode_injective(head@, s@.take(b));
        assert(head@.take(a) =~= s@.take(a));
        lemma_char_boundary(head@, a);
    }
    let (_front, mid) = head.split_at(from);
    proof {
        lemma_encode_subrange(head@, a, b);
        lemma_byte_offset_ends(head@);
        assert(head@.subrange(a, b) =~= s@.subrange(a, b));
        assert(head@.take(b) =~= head@);
        lemma_encode_injective(mid@, s@.subrange(a, b));
    }
    mid
}

} // verus!
