//! UTF-8 bookkeeping for the input engine's byte buffer.
//!
//! The engine stores its text as raw UTF-8 bytes and tracks two counters: the
//! number of characters and the number of characters whose encoding takes more
//! than one byte. This module holds the character-level accounting
//! ([`is_multi_byte`], [`multi_byte_count`]), the byte-offset theory that maps
//! a character index to its position in the encoded bytes ([`byte_offset`]),
//! and the small verified byte-surgery routines the engine edits with.

use vstd::prelude::*;

verus! {

use vstd::utf8::char_is_scalar;
use vstd::utf8::encode_scalar;
use vstd::utf8::encode_utf8;
use vstd::utf8::has_width_1_encoding;
use vstd::utf8::has_width_2_encoding;
use vstd::utf8::has_width_3_encoding;
use vstd::utf8::has_width_4_encoding;
use vstd::utf8::is_leading_byte_width_1;
use vstd::utf8::is_leading_byte_width_2;
use vstd::utf8::is_leading_byte_width_3;
use vstd::utf8::is_leading_byte_width_4;
use vstd::utf8::is_scalar;
use vstd::utf8::leading_byte_width_1;
use vstd::utf8::leading_byte_width_2;
use vstd::utf8::leading_byte_width_3;
use vstd::utf8::leading_byte_width_4;

/// True when the UTF-8 encoding of `c` occupies more than one byte.
pub open spec fn is_multi_byte(c: char) -> bool {
    c as u32 >= 0x80
}

/// Number of characters in `s` whose UTF-8 encoding occupies more than one
/// byte.
pub open spec fn multi_byte_count(s: Seq<char>) -> nat
    decreases s.len(),
{
    if s.len() == 0 {
        0
    } else {
        multi_byte_count(s.drop_last()) + if is_multi_byte(s.last()) {
            1nat
        } else {
            0nat
        }
    }
}

/// Byte position, in the UTF-8 encoding of `s`, where the encoding of the
/// character at index `i` begins (the total byte length when `i == s.len()`).
pub open spec fn byte_offset(s: Seq<char>, i: int) -> int {
    encode_utf8(s.take(i)).len() as int
}

pub proof fn lemma_multi_count_le_len(s: Seq<char>)
    ensures
        multi_byte_count(s) <= s.len(),
    decreases s.len(),
{
    if s.len() > 0 {
        lemma_multi_count_le_len(s.drop_last());
    }
}

pub proof fn lemma_multi_count_concat(a: Seq<char>, b: Seq<char>)
    ensures
        multi_byte_count(a + b) == multi_byte_count(a) + multi_byte_count(b),
    decreases b.len(),
{
    if b.len() == 0 {
        assert(a + b =~= a);
    } else {
        assert((a + b).drop_last() =~= a + b.drop_last());
        assert((a + b).last() == b.last());
        lemma_multi_count_concat(a, b.drop_last());
    }
}

pub proof fn lemma_multi_count_single(c: char)
    ensures
        multi_byte_count(seq![c]) == if is_multi_byte(c) {
            1nat
        } else {
            0nat
        },
{
    reveal_with_fuel(multi_byte_count, 2);
    assert(seq![c].drop_last() =~= Seq::<char>::empty());
    assert(seq![c].last() == c);
}

pub proof fn lemma_multi_count_insert(s: Seq<char>, i: int, c: char)
    requires
        0 <= i <= s.len(),
    ensures
        multi_byte_count(s.insert(i, c)) == multi_byte_count(s) + if is_multi_byte(c) {
            1nat
        } else {
            0nat
        },
{
    assert(s.insert(i, c) =~= (s.take(i) + seq![c]) + s.skip(i));
    assert(s =~= s.take(i) + s.skip(i));
    lemma_multi_count_concat(s.take(i) + seq![c], s.skip(i));
    lemma_multi_count_concat(s.take(i), seq![c]);
    lemma_multi_count_concat(s.take(i), s.skip(i));
    lemma_multi_count_single(c);
}

pub proof fn lemma_multi_count_remove(s: Seq<char>, i: int)
    requires
        0 <= i < s.len(),
    ensures
        multi_byte_count(s.remove(i)) + if is_multi_byte(s[i]) {
            1nat
        } else {
            0nat
        } == multi_byte_count(s),
{
    assert(s.remove(i) =~= s.take(i) + s.skip(i + 1));
    assert(s =~= (s.take(i) + seq![s[i]]) + s.skip(i + 1));
    lemma_multi_count_concat(s.take(i), s.skip(i + 1));
    lemma_multi_count_concat(s.take(i) + seq![s[i]], s.skip(i + 1));
    lemma_multi_count_concat(s.take(i), seq![s[i]]);
    lemma_multi_count_single(s[i]);
}

/// A buffer with no multi-byte characters encodes to one byte per character.
pub proof fn lemma_ascii_encode_len(s: Seq<char>)
    requires
        multi_byte_count(s) == 0,
    ensures
        encode_utf8(s).len() == s.len(),
    decreases s.len(),
{
    if s.len() > 0 {
        assert(s =~= seq![s[0]] + s.drop_first());
        lemma_multi_count_concat(seq![s[0]], s.drop_first());
        lemma_multi_count_single(s[0]);
        lemma_ascii_encode_len(s.drop_first());
        assert(!is_multi_byte(s[0]));
        assert(encode_scalar(s[0] as u32).len() == 1);
    }
}

pub proof fn lemma_encode_utf8_concat(a: Seq<char>, b: Seq<char>)
    ensures
        encode_utf8(a + b) == encode_utf8(a) + encode_utf8(b),
    decreases a.len(),
{
    if a.len() == 0 {
        assert(a + b =~= b);
        assert(encode_utf8(a) + encode_utf8(b) =~= encode_utf8(b));
    } else {
        assert((a + b).drop_first() =~= a.drop_first() + b);
        assert((a + b)[0] == a[0]);
        lemma_encode_utf8_concat(a.drop_first(), b);
        assert(encode_utf8(a + b) =~= encode_utf8(a) + encode_utf8(b));
    }
}

pub proof fn lemma_encode_single(c: char)
    ensures
        encode_utf8(seq![c]) == encode_scalar(c as u32),
{
    reveal_with_fuel(encode_utf8, 2);
    assert(seq![c].drop_first() =~= Seq::<char>::empty());
    assert(encode_utf8(seq![c]) =~= encode_scalar(c as u32));
}

/// The encoding of a character sequence splits at any character index.
pub proof fn lemma_encode_split(s: Seq<char>, i: int)
    requires
        0 <= i <= s.len(),
    ensures
        encode_utf8(s) == encode_utf8(s.take(i)) + encode_utf8(s.skip(i)),
{
    assert(s =~= s.take(i) + s.skip(i));
    lemma_encode_utf8_concat(s.take(i), s.skip(i));
}

pub proof fn lemma_encode_insert(s: Seq<char>, i: int, c: char)
    requires
        0 <= i <= s.len(),
    ensures
        encode_utf8(s.insert(i, c)) == encode_utf8(s.take(i)) + encode_scalar(c as u32)
            + encode_utf8(s.skip(i)),
{
    assert(s.insert(i, c) =~= (s.take(i) + seq![c]) + s.skip(i));
    lemma_encode_utf8_concat(s.take(i) + seq![c], s.skip(i));
    lemma_encode_utf8_concat(s.take(i), seq![c]);
    lemma_encode_single(c);
}

pub proof fn lemma_encode_remove(s: Seq<char>, i: int)
    requires
        0 <= i < s.len(),
    ensures
        encode_utf8(s.remove(i)) == encode_utf8(s.take(i)) + encode_utf8(s.skip(i + 1)),
{
    assert(s.remove(i) =~= s.take(i) + s.skip(i + 1));
    lemma_encode_utf8_concat(s.take(i), s.skip(i + 1));
}

pub proof fn lemma_encode_push(s: Seq<char>, c: char)
    ensures
        encode_utf8(s.push(c)) == encode_utf8(s) + encode_scalar(c as u32),
{
    assert(s.push(c) =~= s + seq![c]);
    lemma_encode_utf8_concat(s, seq![c]);
    lemma_encode_single(c);
}

/// Every character takes at least one byte to encode.
pub proof fn lemma_encode_len_ge(s: Seq<char>)
    ensures
        encode_utf8(s).len() >= s.len(),
    decreases s.len(),
{
    if s.len() > 0 {
        lemma_encode_len_ge(s.drop_first());
    }
}

pub proof fn lemma_byte_offset_step(s: Seq<char>, i: int)
    requires
        0 <= i < s.len(),
    ensures
        byte_offset(s, i + 1) == byte_offset(s, i) + encode_scalar(s[i] as u32).len(),
{
    assert(s.take(i + 1) =~= s.take(i) + seq![s[i]]);
    lemma_encode_utf8_concat(s.take(i), seq![s[i]]);
    lemma_encode_single(s[i]);
}

pub proof fn lemma_byte_offset_le(s: Seq<char>, i: int, j: int)
    requires
        0 <= i <= j <= s.len(),
    ensures
        byte_offset(s, i) <= byte_offset(s, j),
    decreases j - i,
{
    if i < j {
        lemma_byte_offset_le(s, i, j - 1);
        lemma_byte_offset_step(s, j - 1);
    }
}

pub proof fn lemma_byte_offset_total(s: Seq<char>)
    ensures
        byte_offset(s, s.len() as int) == encode_utf8(s).len(),
{
    assert(s.take(s.len() as int) =~= s);
}

/// In a pure-ASCII buffer the byte offset of a character equals its index.
pub proof fn lemma_ascii_byte_offset(s: Seq<char>, i: int)
    requires
        multi_byte_count(s) == 0,
        0 <= i <= s.len(),
    ensures
        byte_offset(s, i) == i,
{
    assert(s =~= s.take(i) + s.skip(i));
    lemma_multi_count_concat(s.take(i), s.skip(i));
    lemma_ascii_encode_len(s.take(i));
}

/// Splits the encoding of `s` around the character at index `i`: the bytes of
/// that one character's encoding stand contiguously at its byte offset.
pub proof fn lemma_encode_decompose(s: Seq<char>, i: int)
    requires
        0 <= i < s.len(),
    ensures
        encode_utf8(s) == encode_utf8(s.take(i)) + encode_scalar(s[i] as u32) + encode_utf8(
            s.skip(i + 1),
        ),
        byte_offset(s, i + 1) == byte_offset(s, i) + encode_scalar(s[i] as u32).len(),
        byte_offset(s, i) + encode_scalar(s[i] as u32).len() <= encode_utf8(s).len(),
        encode_utf8(s.take(i)).len() == byte_offset(s, i),
        forall|j: int|
            0 <= j < encode_scalar(s[i] as u32).len() ==> encode_utf8(s)[byte_offset(s, i) + j]
                == #[trigger] encode_scalar(s[i] as u32)[j],
{
    lemma_encode_split(s, i);
    lemma_byte_offset_step(s, i);
    lemma_byte_offset_le(s, i + 1, s.len() as int);
    lemma_byte_offset_total(s);
    assert(s.skip(i)[0] == s[i]);
    assert(s.skip(i).drop_first() =~= s.skip(i + 1));
    assert(encode_utf8(s.skip(i)) == encode_scalar(s[i] as u32) + encode_utf8(s.skip(i + 1)));
    assert(encode_utf8(s) =~= encode_utf8(s.take(i)) + encode_scalar(s[i] as u32) + encode_utf8(
        s.skip(i + 1),
    ));
}

/// The first byte of a character's encoding determines how many bytes the
/// encoding has.
pub proof fn lemma_encode_scalar_lead(v: u32)
    requires
        is_scalar(v),
    ensures
        1 <= encode_scalar(v).len() <= 4,
        encode_scalar(v).len() == 1 <==> is_leading_byte_width_1(encode_scalar(v)[0]),
        encode_scalar(v).len() == 2 <==> is_leading_byte_width_2(encode_scalar(v)[0]),
        encode_scalar(v).len() == 3 <==> is_leading_byte_width_3(encode_scalar(v)[0]),
        encode_scalar(v).len() == 4 <==> is_leading_byte_width_4(encode_scalar(v)[0]),
{
    if has_width_1_encoding(v) {
        assert(is_leading_byte_width_1(leading_byte_width_1(v))) by (bit_vector)
            requires
                has_width_1_encoding(v),
        ;
    } else if has_width_2_encoding(v) {
        assert(is_leading_byte_width_2(leading_byte_width_2(v))) by (bit_vector)
            requires
                has_width_2_encoding(v),
        ;
    } else if has_width_3_encoding(v) {
        assert(is_leading_byte_width_3(leading_byte_width_3(v))) by (bit_vector)
            requires
                has_width_3_encoding(v),
        ;
    } else {
        assert(is_leading_byte_width_4(leading_byte_width_4(v))) by (bit_vector)
            requires
                has_width_4_encoding(v),
        ;
    }
}

/// UTF-8 encoding of a single character, computed from its scalar value.
pub(crate) fn encode_char(c: char) -> (bytes: Vec<u8>)
    ensures
        bytes@ == encode_scalar(c as u32),
        1 <= bytes@.len() <= 4,
{
    proof {
        char_is_scalar(c);
    }
    let v = c as u32;
    let mut bytes: Vec<u8> = Vec::new();
    if v < 0x80 {
        bytes.push((v & 0x7F) as u8);
        proof {
            assert(bytes@ =~= encode_scalar(v));
        }
    } else if v < 0x800 {
        bytes.push(0xC0 | ((v >> 6) & 0x1F) as u8);
        bytes.push(0x80 | (v & 0x3F) as u8);
        proof {
            assert(bytes@ =~= encode_scalar(v));
        }
    } else if v < 0x10000 {
        bytes.push(0xE0 | ((v >> 12) & 0x0F) as u8);
        bytes.push(0x80 | ((v >> 6) & 0x3F) as u8);
        bytes.push(0x80 | (v & 0x3F) as u8);
        proof {
            assert(bytes@ =~= encode_scalar(v));
        }
    } else {
        bytes.push(0xF0 | ((v >> 18) & 0x7) as u8);
        bytes.push(0x80 | ((v >> 12) & 0x3F) as u8);
        bytes.push(0x80 | ((v >> 6) & 0x3F) as u8);
        bytes.push(0x80 | (v & 0x3F) as u8);
        proof {
            assert(bytes@ =~= encode_scalar(v));
        }
    }
    bytes
}

/// Width of a character's encoding, read off its leading byte.
pub(crate) fn width_from_lead(b: u8) -> (w: usize)
    requires
        is_leading_byte_width_1(b) || is_leading_byte_width_2(b) || is_leading_byte_width_3(b)
            || is_leading_byte_width_4(b),
    ensures
        w == if is_leading_byte_width_1(b) {
            1int
        } else if is_leading_byte_width_2(b) {
            2int
        } else if is_leading_byte_width_3(b) {
            3int
        } else {
            4int
        },
        1 <= w <= 4,
{
    if b < 0x80 {
        1
    } else if b < 0xE0 {
        2
    } else if b < 0xF0 {
        3
    } else {
        4
    }
}

/// Inserts `bytes` into `buf` starting at byte position `at`.
pub(crate) fn splice_bytes(buf: &mut Vec<u8>, at: usize, bytes: &Vec<u8>)
    requires
        at <= old(buf)@.len(),
    ensures
        final(buf)@ == old(buf)@.take(at as int) + bytes@ + old(buf)@.skip(at as int),
{
    let ghost orig = buf@;
    let mut t: usize = 0;
    while t < bytes.len()
        invariant
            t <= bytes@.len(),
            at <= orig.len(),
            buf@ == orig.take(at as int) + bytes@.take(t as int) + orig.skip(at as int),
        decreases bytes@.len() - t,
    {
        let n = buf.len();
        proof {
            assert(at + t <= n);
        }
        buf.insert(at + t, bytes[t]);
        t = t + 1;
        proof {
            assert(buf@ =~= orig.take(at as int) + bytes@.take(t as int) + orig.skip(at as int));
        }
    }
    proof {
        assert(bytes@.take(bytes@.len() as int) =~= bytes@);
    }
}

/// Removes `count` bytes from `buf` starting at byte position `at`.
pub(crate) fn remove_bytes(buf: &mut Vec<u8>, at: usize, count: usize)
    requires
        at + count <= old(buf)@.len(),
    ensures
        final(buf)@ == old(buf)@.take(at as int) + old(buf)@.skip(at + count),
{
    let ghost orig = buf@;
    let mut t: usize = 0;
    while t < count
        invariant
            t <= count,
            at + count <= orig.len(),
            buf@ == orig.take(at as int) + orig.skip(at + t),
        decreases count - t,
    {
        proof {
            assert(buf@.len() == orig.len() - t);
        }
        buf.remove(at);
        t = t + 1;
        proof {
            assert(buf@ =~= orig.take(at as int) + orig.skip(at + t));
        }
    }
}

} // verus!
