//! Characters against bytes: where a character of a text lies in its UTF-8
//! encoding, and how to cut a piece out of a `str` by byte offsets.
use vstd::prelude::*;
use vstd::string::*;
use vstd::utf8::*;

verus! {

/// Number of bytes that `c` takes in UTF-8.
pub open spec fn utf8_len(c: char) -> nat {
    encode_scalar(c as u32).len()
}

/// Byte offset at which character number `i` of `text` starts: the length of
/// the encoding of the `i` characters before it.
pub open spec fn byte_offset(text: Seq<char>, i: int) -> nat {
    encode_utf8(text.take(i)).len()
}

/// Every character takes between one and four bytes.
pub proof fn lemma_utf8_len_bounds(c: char)
    ensures
        1 <= utf8_len(c) <= 4,
        c as u32 <= 0x7F ==> utf8_len(c) == 1,
{
}

/// Encoding is a homomorphism: a text is encoded piece by piece.
pub proof fn lemma_encode_concat(a: Seq<char>, b: Seq<char>)
    ensures
        encode_utf8(a + b) == encode_utf8(a) + encode_utf8(b),
    decreases a.len(),
{
    if a.len() == 0 {
        assert(a + b == b);
        assert(encode_utf8(a) + encode_utf8(b) == encode_utf8(b));
    } else {
        lemma_encode_concat(a.drop_first(), b);
        assert((a + b).drop_first() == a.drop_first() + b);
        let first = encode_scalar(a[0] as u32);
        let rest = encode_utf8(a.drop_first());
        assert(first + (rest + encode_utf8(b)) == (first + rest) + encode_utf8(b));
    }
}

/// A text of one character is encoded as that character.
pub proof fn lemma_encode_single(c: char)
    ensures
        encode_utf8(seq![c]) == encode_scalar(c as u32),
{
    let s = seq![c];
    assert(s.drop_first() == Seq::<char>::empty());
    assert(encode_utf8(s.drop_first()) == Seq::<u8>::empty());
    assert(encode_scalar(c as u32) + Seq::<u8>::empty() == encode_scalar(c as u32));
}

/// The first character starts at byte 0, the end of the text lies at its
/// encoded length.
pub proof fn lemma_byte_offset_ends(text: Seq<char>)
    ensures
        byte_offset(text, 0) == 0,
        byte_offset(text, text.len() as int) == encode_utf8(text).len(),
{
    assert(text.take(0) == Seq::<char>::empty());
    assert(text.take(text.len() as int) == text);
}

/// Stepping over one character moves the offset by that character's width.
pub proof fn lemma_byte_offset_step(text: Seq<char>, i: int)
    requires
        0 <= i < text.len(),
    ensures
        byte_offset(text, i + 1) == byte_offset(text, i) + utf8_len(text[i]),
{
    assert(text.take(i + 1) == text.take(i) + seq![text[i]]);
    lemma_encode_concat(text.take(i), seq![text[i]]);
    lemma_encode_single(text[i]);
}

/// Later characters start at later bytes, at least one byte per character
/// apart.
pub proof fn lemma_byte_offset_grows(text: Seq<char>, i: int, j: int)
    requires
        0 <= i <= j <= text.len(),
    ensures
        byte_offset(text, i) + (j - i) <= byte_offset(text, j),
    decreases j - i,
{
    if i < j {
        lemma_byte_offset_grows(text, i, j - 1);
        lemma_byte_offset_step(text, j - 1);
        lemma_utf8_len_bounds(text[j - 1]);
    }
}

/// The bytes between the starts of two characters encode the characters
/// between them.
pub proof fn lemma_bytes_between(text: Seq<char>, i: int, j: int)
    requires
        0 <= i <= j <= text.len(),
    ensures
        byte_offset(text, i) <= byte_offset(text, j) <= encode_utf8(text).len(),
        encode_utf8(text).subrange(byte_offset(text, i) as int, byte_offset(text, j) as int)
            == encode_utf8(text.subrange(i, j)),
{
    let head = text.take(i);
    let mid = text.subrange(i, j);
    let tail = text.subrange(j, text.len() as int);
    assert(text.take(j) == head + mid);
    assert(text == text.take(j) + tail);
    lemma_encode_concat(head, mid);
    lemma_encode_concat(text.take(j), tail);
    let bytes = encode_utf8(text);
    assert(bytes == (encode_utf8(head) + encode_utf8(mid)) + encode_utf8(tail));
    assert(bytes.subrange(encode_utf8(head).len() as int, encode_utf8(text.take(j)).len() as int)
        == encode_utf8(mid));
}

/// Every character of a text starts on a character boundary of its encoding,
/// and so does the end of the text.
pub proof fn lemma_offset_is_boundary(text: Seq<char>, i: int)
    requires
        0 <= i <= text.len(),
    ensures
        is_char_boundary(encode_utf8(text), byte_offset(text, i) as int),
    decreases i,
{
    let bytes = encode_utf8(text);
    encode_utf8_valid_utf8(text);
    if i == 0 {
        lemma_byte_offset_ends(text);
    } else {
        let rest = text.drop_first();
        encode_utf8_first_scalar(text);
        assert(pop_first_scalar(bytes) == encode_utf8(rest));
        lemma_offset_is_boundary(rest, i - 1);
        assert(text.take(i) == seq![text[0]] + rest.take(i - 1));
        lemma_encode_concat(seq![text[0]], rest.take(i - 1));
        lemma_encode_single(text[0]);
        lemma_bytes_between(text, 0, i);
        lemma_utf8_len_bounds(text[0]);
    }
}

/// Two texts with the same encoding are the same text.
pub proof fn lemma_encoding_is_injective(a: Seq<char>, b: Seq<char>)
    requires
        encode_utf8(a) == encode_utf8(b),
    ensures
        a == b,
{
    encode_utf8_decode_utf8(a);
    encode_utf8_decode_utf8(b);
}

/// Number of bytes that `c` takes in UTF-8.
pub fn utf8_width(c: char) -> (width: usize)
    ensures
        width == utf8_len(c),
        1 <= width <= 4,
{
    let code: u32 = c as u32;
    if code <= 0x7F {
        1
    } else if code <= 0x7FF {
        2
    } else if code <= 0xFFFF {
        3
    } else {
        4
    }
}

/// Length of `text` in bytes: what `str::len` returns, stated without a
/// cast.
pub fn byte_len(text: &str) -> (len: usize)
    ensures
        len == text.spec_bytes().len(),
{
    text.as_bytes().len()
}

/// The characters of `text`, in order.
pub fn chars_of(text: &str) -> (chars: Vec<char>)
    ensures
        chars@ == text@,
{
    let mut chars: Vec<char> = Vec::new();
    for c in it: text.chars()
        invariant
            it.seq() == text@,
            chars@ == it.seq().take(it.index() as int),
    {
        chars.push(c);
        assert(it.seq().take(it.index() + 1) == it.seq().take(it.index() as int).push(c));
    }
    assert(text@.take(text@.len() as int) == text@);
    chars
}

/// The piece of `text` that lies between two byte offsets, both of which
/// fall on character boundaries.
pub fn slice_bytes<'a>(text: &'a str, from: usize, to: usize) -> (piece: &'a str)
    requires
        from <= to <= text.spec_bytes().len(),
        is_char_boundary(text.spec_bytes(), from as int),
        is_char_boundary(text.spec_bytes(), to as int),
    ensures
        piece.spec_bytes() == text.spec_bytes().subrange(from as int, to as int),
{
    let (head, _) = text.split_at(to);
    proof {
        let bytes = text.spec_bytes();
        let kept = head.spec_bytes();
        encode_utf8_valid_utf8(text@);
        encode_utf8_valid_utf8(head@);
        if from < to {
            is_char_boundary_iff_not_is_continuation_byte(bytes, from as int);
            is_char_boundary_iff_not_is_continuation_byte(kept, from as int);
        } else {
            is_char_boundary_start_end_of_seq(kept);
        }
    }
    let (_, piece) = head.split_at(from);
    assert(piece.spec_bytes() == text.spec_bytes().subrange(from as int, to as int));
    piece
}

/// Whether two texts hold the same characters.
pub fn same_text(a: &str, b: &str) -> (same: bool)
    ensures
        same == (a@ == b@),
{
    let left = a.as_bytes();
    let right = b.as_bytes();
    if left.len() != right.len() {
        return false;
    }
    let mut i: usize = 0;
    while i < left.len()
        invariant
            left@ == a.spec_bytes(),
            right@ == b.spec_bytes(),
            left@.len() == right@.len(),
            i <= left@.len(),
            forall|k: int| 0 <= k < i ==> left@[k] == right@[k],
        decreases left@.len() - i,
    {
        if left[i] != right[i] {
            return false;
        }
        i += 1;
    }
    proof {
        assert(left@ == right@);
        lemma_encoding_is_injective(a@, b@);
    }
    true
}

} // verus!
