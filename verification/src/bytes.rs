//! Places in a string given in bytes.
use vstd::prelude::*;
use vstd::string::StringSliceAdditionalSpecFns;
use vstd::utf8::*;

verus! {

/// An ASCII byte is a character by itself: the places before and behind it are
/// places of characters.
pub proof fn lemma_ascii_boundary(b: Seq<u8>, i: int)
    requires
        valid_utf8(b),
        0 <= i < b.len(),
        b[i] < 0x80,
    ensures
        is_char_boundary(b, i),
        is_char_boundary(b, i + 1),
    decreases b.len(),
{
    reveal_with_fuel(is_char_boundary, 2);
    broadcast use utf8_byte_ranges_bitwise;

    let n = length_of_first_scalar(b);
    if i == 0 {
        assert(n == 1);
    } else if i < n {
        assert(is_continuation_byte(b[i]));
    } else {
        lemma_ascii_boundary(pop_first_scalar(b), i - n);
    }
}

/// A place behind a place keeps being one in the text that begins there.
pub proof fn lemma_boundary_shift(b: Seq<u8>, from: int, to: int)
    requires
        valid_utf8(b),
        is_char_boundary(b, from),
        is_char_boundary(b, to),
        0 <= from <= to <= b.len(),
    ensures
        is_char_boundary(b.subrange(from, b.len() as int), to - from),
{
    let rest = b.subrange(from, b.len() as int);
    valid_utf8_split(b, from);
    if to == b.len() {
        is_char_boundary_start_end_of_seq(rest);
    } else {
        is_char_boundary_iff_not_is_continuation_byte(b, to);
        is_char_boundary_iff_not_is_continuation_byte(rest, to - from);
        assert(rest[to - from] == b[to]);
    }
}

/// The part of `s` between two places of characters.
pub fn slice_text<'a>(s: &'a str, from: usize, to: usize) -> (r: &'a str)
    requires
        is_char_boundary(encode_utf8(s@), from as int),
        is_char_boundary(encode_utf8(s@), to as int),
        from <= to <= encode_utf8(s@).len(),
    ensures
        encode_utf8(r@) == encode_utf8(s@).subrange(from as int, to as int),
        r@ == decode_utf8(encode_utf8(s@).subrange(from as int, to as int)),
{
    proof {
        encode_utf8_valid_utf8(s@);
        lemma_boundary_shift(encode_utf8(s@), from as int, to as int);
    }
    let tail = s.split_at(from).1;
    let r = tail.split_at(to - from).0;
    assert(encode_utf8(r@) =~= encode_utf8(s@).subrange(from as int, to as int));
    proof {
        encode_utf8_decode_utf8(r@);
    }
    r
}

/// Whether some bytes are those of a string.
pub fn bytes_are(b: &[u8], s: &str) -> (r: bool)
    ensures
        r == (b@ == encode_utf8(s@)),
{
    let t = s.as_bytes();
    if b.len() != t.len() {
        return false;
    }
    let mut i: usize = 0;
    while i < b.len()
        invariant
            b@.len() == t@.len(),
            i <= b@.len(),
            t@ == encode_utf8(s@),
            forall|j: int| 0 <= j < i ==> b@[j] == t@[j],
        decreases b@.len() - i,
    {
        if b[i] != t[i] {
            return false;
        }
        i = i + 1;
    }
    assert(b@ =~= t@);
    true
}

/// Encoding goes character by character.
pub proof fn lemma_encode_concat(a: Seq<char>, b: Seq<char>)
    ensures
        encode_utf8(a + b) == encode_utf8(a) + encode_utf8(b),
    decreases a.len(),
{
    if a.len() == 0 {
        assert(a + b =~= b);
        assert(encode_utf8(a) + encode_utf8(b) =~= encode_utf8(b));
    } else {
        assert((a + b).drop_first() =~= a.drop_first() + b);
        lemma_encode_concat(a.drop_first(), b);
        assert(encode_utf8(a + b) =~= encode_utf8(a) + encode_utf8(b));
    }
}

/// Whether some bytes end with those of a string.
pub fn bytes_end_with(b: &[u8], s: &str) -> (r: bool)
    ensures
        r == encode_utf8(s@).is_suffix_of(b@),
{
    let t = s.as_bytes();
    let n: usize = b.len();
    if t.len() > n {
        return false;
    }
    let d: usize = n - t.len();
    let mut i: usize = 0;
    while i < t.len()
        invariant
            n == b@.len(),
            t@.len() <= n,
            d == n - t@.len(),
            i <= t@.len(),
            t@ == encode_utf8(s@),
            forall|j: int| 0 <= j < i ==> b@[d + j] == t@[j],
        decreases t@.len() - i,
    {
        if b[d + i] != t[i] {
            assert(b@.subrange(d as int, n as int)[i as int] != t@[i as int]);
            return false;
        }
        i = i + 1;
    }
    assert(b@.subrange(d as int, n as int) =~= t@);
    true
}

} // verus!
