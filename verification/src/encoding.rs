//! UTF-8 byte widths of characters and the correspondence between character
//! positions and byte offsets of a string.
use vstd::prelude::*;
use vstd::utf8::*;

verus! {

/// Number of bytes that the UTF-8 encoding of `c` takes.
pub open spec fn char_width(c: char) -> nat {
    if (c as u32) < 0x80 {
        1
    } else if (c as u32) < 0x800 {
        2
    } else if (c as u32) < 0x10000 {
        3
    } else {
        4
    }
}

/// Number of bytes that the UTF-8 encoding of the characters `cs` takes.
pub open spec fn byte_len(cs: Seq<char>) -> nat
    decreases cs.len(),
{
    if cs.len() == 0 {
        0
    } else {
        char_width(cs[0]) + byte_len(cs.drop_first())
    }
}

/// Byte offset of the character at index `k` of `cs`.
pub open spec fn byte_pos(cs: Seq<char>, k: int) -> nat {
    byte_len(cs.take(k))
}

/// The width of a character is the length of its UTF-8 encoding.
pub proof fn lemma_char_width(c: char)
    ensures
        encode_scalar(c as u32).len() == char_width(c),
        1 <= char_width(c) <= 4,
{
    char_is_scalar(c);
}

/// The byte length of characters is the length of their UTF-8 encoding.
pub proof fn lemma_byte_len_encode(cs: Seq<char>)
    ensures
        encode_utf8(cs).len() == byte_len(cs),
    decreases cs.len(),
{
    if cs.len() > 0 {
        lemma_char_width(cs[0]);
        lemma_byte_len_encode(cs.drop_first());
    }
}

/// Byte length distributes over concatenation.
pub proof fn lemma_byte_len_concat(a: Seq<char>, b: Seq<char>)
    ensures
        byte_len(a + b) == byte_len(a) + byte_len(b),
    decreases a.len(),
{
    if a.len() == 0 {
        assert(a + b =~= b);
    } else {
        assert((a + b).drop_first() =~= a.drop_first() + b);
        lemma_byte_len_concat(a.drop_first(), b);
    }
}

/// Appending a character adds its width.
pub proof fn lemma_byte_len_push(a: Seq<char>, c: char)
    ensures
        byte_len(a.push(c)) == byte_len(a) + char_width(c),
{
    lemma_byte_len_concat(a, seq![c]);
    assert(a.push(c) =~= a + seq![c]);
    assert(seq![c].drop_first() =~= Seq::<char>::empty());
    assert(byte_len(seq![c]) == char_width(c) + byte_len(seq![c].drop_first()));
}

/// The byte length of a prefix grows by the width of the next character.
pub proof fn lemma_byte_pos_next(cs: Seq<char>, k: int)
    requires
        0 <= k < cs.len(),
    ensures
        byte_pos(cs, k + 1) == byte_pos(cs, k) + char_width(cs[k]),
{
    assert(cs.take(k + 1) =~= cs.take(k).push(cs[k]));
    lemma_byte_len_push(cs.take(k), cs[k]);
}

/// Byte positions grow with character positions.
pub proof fn lemma_byte_pos_mono(cs: Seq<char>, j: int, k: int)
    requires
        0 <= j <= k <= cs.len(),
    ensures
        byte_pos(cs, j) <= byte_pos(cs, k),
        j < k ==> byte_pos(cs, j) < byte_pos(cs, k),
        byte_pos(cs, k) == byte_pos(cs, j) + byte_len(cs.subrange(j, k)),
{
    assert(cs.take(k) =~= cs.take(j) + cs.subrange(j, k));
    lemma_byte_len_concat(cs.take(j), cs.subrange(j, k));
    if j < k {
        let r = cs.subrange(j, k);
        lemma_char_width(r[0]);
    }
}

/// Encoding distributes over concatenation.
pub proof fn lemma_encode_concat(a: Seq<char>, b: Seq<char>)
    ensures
        encode_utf8(a + b) == encode_utf8(a) + encode_utf8(b),
    decreases a.len(),
{
    if a.len() == 0 {
        assert(a + b =~= b);
        assert(encode_utf8(a) + encode_utf8(b) =~= encode_utf8(b));
    } else {
        assert((a + b).drop_first() =~= a.drop_first() + b);
        lemma_encode_concat(a.drop_first(), b);
        assert(encode_utf8(a + b) =~= encode_utf8(a) + encode_utf8(b));
    }
}

/// The byte offset of every character position is a character boundary.
pub proof fn lemma_char_boundary(cs: Seq<char>, k: int)
    requires
        0 <= k <= cs.len(),
    ensures
        is_char_boundary(encode_utf8(cs), byte_pos(cs, k) as int),
    decreases k,
{
    broadcast use encode_utf8_valid_utf8;

    lemma_byte_len_encode(cs.take(k));
    if k > 0 {
        let bytes = encode_utf8(cs);
        encode_utf8_first_scalar(cs);
        assert(pop_first_scalar(bytes) =~= encode_utf8(cs.drop_first()));
        lemma_char_boundary(cs.drop_first(), k - 1);
        assert(cs.drop_first().take(k - 1) =~= cs.take(k).drop_first());
        lemma_char_width(cs[0]);
        lemma_byte_len_encode(cs.drop_first().take(k - 1));
    }
}

/// The bytes between two character positions encode the characters between them.
pub proof fn lemma_encode_subrange(cs: Seq<char>, j: int, k: int)
    requires
        0 <= j <= k <= cs.len(),
    ensures
        encode_utf8(cs).subrange(byte_pos(cs, j) as int, byte_pos(cs, k) as int)
            == encode_utf8(cs.subrange(j, k)),
{
    assert(cs =~= cs.take(j) + cs.subrange(j, k) + cs.skip(k));
    lemma_encode_concat(cs.take(j) + cs.subrange(j, k), cs.skip(k));
    lemma_encode_concat(cs.take(j), cs.subrange(j, k));
    lemma_byte_len_encode(cs.take(j));
    lemma_byte_len_encode(cs.subrange(j, k));
    lemma_byte_pos_mono(cs, j, k);
    assert(encode_utf8(cs).subrange(byte_pos(cs, j) as int, byte_pos(cs, k) as int)
        =~= encode_utf8(cs.subrange(j, k)));
}

/// UTF-8 width of a character, as `char::len_utf8` computes it.
pub fn char_len_utf8(c: char) -> (n: usize)
    ensures
        n == char_width(c),
{
    let v = c as u32;
    if v < 0x80 {
        1
    } else if v < 0x800 {
        2
    } else if v < 0x10000 {
        3
    } else {
        4
    }
}

/// Whether `byte` is the byte offset of some character position of `cs`.
pub open spec fn is_char_pos(cs: Seq<char>, byte: int) -> bool {
    exists|k: int| 0 <= k <= cs.len() && byte_pos(cs, k) == byte
}

/// Two strings with the same UTF-8 encoding have the same characters.
pub proof fn lemma_encode_injective(x: Seq<char>, y: Seq<char>)
    requires
        encode_utf8(x) == encode_utf8(y),
    ensures
        x == y,
{
    encode_utf8_decode_utf8(x);
    encode_utf8_decode_utf8(y);
}

/// The part of `s` between the character positions `a` and `b`, whose byte
/// offsets are `start` and `end`.
pub fn str_slice<'a>(s: &'a str, start: usize, end: usize, Ghost(a): Ghost<int>, Ghost(b): Ghost<int>) -> (r: &'a str)
    requires
        0 <= a <= b <= s@.len(),
        byte_pos(s@, a) == start,
        byte_pos(s@, b) == end,
    ensures
        r@ == s@.subrange(a, b),
{
    let ghost cs = s@;
    proof {
        lemma_char_boundary(cs, b);
        assert(cs.take(0) =~= Seq::<char>::empty());
        lemma_encode_subrange(cs, 0, b);
        assert(cs.subrange(0, b) =~= cs.take(b));
        lemma_byte_len_encode(cs);
        lemma_byte_pos_mono(cs, b, cs.len() as int);
        assert(cs.take(cs.len() as int) =~= cs);
    }
    let (left, _) = s.split_at(end);
    proof {
        lemma_encode_injective(left@, cs.take(b));
        let l = cs.take(b);
        assert(l.take(a) =~= cs.take(a));
        lemma_char_boundary(l, a);
        lemma_encode_subrange(l, a, b);
        assert(l.take(b) =~= l);
        lemma_byte_len_encode(l);
    }
    let (_, mid) = left.split_at(start);
    proof {
        let l = cs.take(b);
        assert(l.subrange(a, b) =~= cs.subrange(a, b));
        lemma_encode_injective(mid@, cs.subrange(a, b));
    }
    mid
}

/// The characters of `s`, in order.
pub fn str_chars(s: &str) -> (v: Vec<char>)
    ensures
        v@ == s@,
{
    let mut v: Vec<char> = Vec::new();
    for c in it: s.chars()
        invariant
            v@ == it.seq().take(it.index() as int),
            it.seq() == s@,
    {
        v.push(c);
    }
    v
}

} // verus!
