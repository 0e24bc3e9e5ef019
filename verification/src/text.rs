//! Facts about the UTF-8 bytes of text that the segmenter relies on.

use vstd::prelude::*;
use vstd::utf8::*;
use crate::scan::occurs_at;

verus! {

/// The UTF-8 bytes of a text.
pub open spec fn bytes_of(text: Seq<char>) -> Seq<u8> {
    encode_utf8(text)
}

/// The text that a sequence of UTF-8 bytes encodes.
pub open spec fn text_of(bytes: Seq<u8>) -> Seq<char> {
    decode_utf8(bytes)
}

/// The bytes of a concatenation are the concatenation of the bytes.
pub proof fn lemma_bytes_of_concat(a: Seq<char>, b: Seq<char>)
    ensures
        bytes_of(a + b) == bytes_of(a) + bytes_of(b),
    decreases a.len(),
{
    if a.len() == 0 {
        assert(a + b =~= b);
        assert(bytes_of(a) + bytes_of(b) =~= bytes_of(b));
    } else {
        lemma_bytes_of_concat(a.drop_first(), b);
        assert((a + b).drop_first() =~= a.drop_first() + b);
        assert((a + b)[0] == a[0]);
        assert(bytes_of(a + b) =~= bytes_of(a) + bytes_of(b));
    }
}

/// Decoding undoes encoding.
pub proof fn lemma_text_of_bytes_of(text: Seq<char>)
    ensures
        text_of(bytes_of(text)) == text,
        valid_utf8(bytes_of(text)),
{
    encode_utf8_decode_utf8(text);
    encode_utf8_valid_utf8(text);
}

/// Just behind a one-byte character that starts at a character boundary lies
/// the next character boundary.
pub proof fn lemma_boundary_after_ascii(bytes: Seq<u8>, i: int)
    requires
        valid_utf8(bytes),
        0 <= i < bytes.len(),
        is_char_boundary(bytes, i),
        bytes[i] <= 0x7f,
    ensures
        is_char_boundary(bytes, i + 1),
    decreases bytes.len(),
{
    let width = length_of_first_scalar(bytes);
    let rest = pop_first_scalar(bytes);
    assert(valid_first_scalar(bytes) && valid_utf8(rest));
    if i == 0 {
        assert(width == 1);
        assert(is_char_boundary(rest, 0));
        assert(is_char_boundary(bytes, 1));
    } else {
        assert(is_char_boundary(rest, i - width));
        if i - width != 0 {
            assert(0 < i - width <= rest.len()) by {
                reveal_with_fuel(is_char_boundary, 2);
            }
        }
        if i - width < rest.len() {
            assert(rest[i - width] == bytes[i]);
            lemma_boundary_after_ascii(rest, i - width);
        }
        assert(is_char_boundary(bytes, i + 1));
    }
}

/// Behind a run of one-byte characters that starts at a character boundary lies
/// a character boundary.
pub proof fn lemma_boundary_after_ascii_run(bytes: Seq<u8>, i: int, n: int)
    requires
        valid_utf8(bytes),
        0 <= i,
        0 <= n,
        i + n <= bytes.len(),
        is_char_boundary(bytes, i),
        forall|k: int| i <= k < i + n ==> bytes[k] <= 0x7f,
    ensures
        is_char_boundary(bytes, i + n),
    decreases n,
{
    if n > 0 {
        lemma_boundary_after_ascii_run(bytes, i, n - 1);
        lemma_boundary_after_ascii(bytes, i + n - 1);
    }
}

/// A position whose byte is a one-byte character is a character boundary.
pub proof fn lemma_boundary_at_ascii(bytes: Seq<u8>, i: int)
    requires
        valid_utf8(bytes),
        0 <= i < bytes.len(),
        bytes[i] <= 0x7f,
    ensures
        is_char_boundary(bytes, i),
{
    is_char_boundary_iff_not_is_continuation_byte(bytes, i);
}

/// A character boundary of a text stays one when more text is appended.
pub proof fn lemma_boundary_append(b1: Seq<u8>, b2: Seq<u8>, i: int)
    requires
        valid_utf8(b1),
        valid_utf8(b2),
        is_char_boundary(b1, i),
    ensures
        valid_utf8(b1 + b2),
        is_char_boundary(b1 + b2, i),
{
    valid_utf8_concat(b1, b2);
    let all = b1 + b2;
    if i == 0 {
    } else if i < b1.len() {
        assert(0 < i) by {
            reveal_with_fuel(is_char_boundary, 2);
        }
        is_char_boundary_iff_not_is_continuation_byte(b1, i);
        is_char_boundary_iff_not_is_continuation_byte(all, i);
        assert(all[i] == b1[i]);
    } else {
        assert(i == b1.len()) by {
            reveal_with_fuel(is_char_boundary, 2);
        }
        if b2.len() == 0 {
            assert(all =~= b1);
        } else {
            is_char_boundary_start_end_of_seq(b2);
            is_char_boundary_iff_not_is_continuation_byte(b2, 0);
            is_char_boundary_iff_not_is_continuation_byte(all, i);
            assert(all[i] == b2[0]);
        }
    }
}

/// The characters of `pat` stand in `text` from character `k` on.
pub open spec fn text_occurs_at(text: Seq<char>, pat: Seq<char>, k: int) -> bool {
    &&& 0 <= k
    &&& k + pat.len() <= text.len()
    &&& text.subrange(k, k + pat.len()) == pat
}

/// Where a text holds the characters of `pat`, its bytes hold the bytes of
/// `pat`, at the offset that the bytes of the characters in front make up.
pub proof fn lemma_text_occurrence_in_bytes(text: Seq<char>, pat: Seq<char>, k: int)
    requires
        text_occurs_at(text, pat, k),
    ensures
        occurs_at(bytes_of(text), bytes_of(pat), bytes_of(text.subrange(0, k)).len() as int),
{
    let front = text.subrange(0, k);
    let back = text.subrange(k + pat.len(), text.len() as int);
    assert(text =~= (front + pat) + back);
    lemma_bytes_of_concat(front + pat, back);
    lemma_bytes_of_concat(front, pat);
    let offset = bytes_of(front).len() as int;
    assert(bytes_of(text).subrange(offset, offset + bytes_of(pat).len()) =~= bytes_of(pat));
}

/// Where the bytes of a text hold the bytes of a delimiter of one-byte
/// characters, the text holds the characters of the delimiter, and the offset
/// in the bytes is what the bytes of the characters in front make up. So a
/// delimiter is found in the bytes exactly where it stands in the text.
pub proof fn lemma_byte_occurrence_in_text(text: Seq<char>, pat: Seq<char>, j: int)
    requires
        is_ascii_chars(pat),
        pat.len() > 0,
        occurs_at(bytes_of(text), bytes_of(pat), j),
    ensures
        exists|k: int|
            text_occurs_at(text, pat, k) && j == bytes_of(#[trigger] text.subrange(0, k)).len(),
{
    let bytes = bytes_of(text);
    let mark = bytes_of(pat);
    let n = mark.len() as int;
    lemma_text_of_bytes_of(text);
    lemma_text_of_bytes_of(pat);
    is_ascii_chars_encode_utf8(pat);
    assert forall|i: int| j <= i < j + n implies bytes[i] <= 0x7f by {
        assert(bytes.subrange(j, j + n)[i - j] == bytes[i]);
        assert(mark[i - j] == pat[i - j] as u8);
    }
    lemma_boundary_at_ascii(bytes, j);
    let front = bytes.subrange(0, j);
    let rest = bytes.subrange(j, bytes.len() as int);
    valid_utf8_split(bytes, j);
    decode_utf8_split(bytes, j);
    is_char_boundary_start_end_of_seq(rest);
    assert forall|i: int| 0 <= i < n implies rest[i] <= 0x7f by {
        assert(rest[i] == bytes[j + i]);
    }
    lemma_boundary_after_ascii_run(rest, 0, n);
    valid_utf8_split(rest, n);
    decode_utf8_split(rest, n);
    assert(rest.subrange(0, n) =~= mark);
    let before = text_of(front);
    let after = text_of(rest.subrange(n, rest.len() as int));
    assert(text =~= before + (pat + after));
    let k = before.len() as int;
    assert(text.subrange(k, k + pat.len()) =~= pat);
    assert(text.subrange(0, k) =~= before);
    decode_utf8_encode_utf8(front);
    assert(text_occurs_at(text, pat, k) && j == bytes_of(text.subrange(0, k)).len());
}

} // verus!
