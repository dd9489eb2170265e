//! Facts about the UTF-8 bytes of character sequences that the frame codec
//! slices by byte position.
use vstd::prelude::*;
use vstd::utf8::*;

verus! {

/// Encoding a concatenation encodes each part in turn.
pub proof fn lemma_encode_concat(a: Seq<char>, c: Seq<char>)
    ensures
        encode_utf8(a + c) == encode_utf8(a) + encode_utf8(c),
    decreases a.len(),
{
    if a.len() == 0 {
        assert(a + c =~= c);
        assert(encode_utf8(a) + encode_utf8(c) =~= encode_utf8(c));
    } else {
        lemma_encode_concat(a.drop_first(), c);
        assert((a + c).drop_first() =~= a.drop_first() + c);
        assert((a + c)[0] == a[0]);
        assert(encode_utf8(a + c) =~= encode_utf8(a) + encode_utf8(c));
    }
}

/// Each character takes at least one byte.
pub proof fn lemma_encode_len(s: Seq<char>)
    ensures
        s.len() <= encode_utf8(s).len(),
    decreases s.len(),
{
    if s.len() > 0 {
        lemma_encode_len(s.drop_first());
        assert(encode_scalar(s[0] as u32).len() >= 1);
    }
}

/// Where the first `k` bytes of valid UTF-8 are ASCII, position `k` starts a character.
pub proof fn lemma_ascii_prefix_boundary(b: Seq<u8>, k: int)
    requires
        valid_utf8(b),
        0 <= k <= b.len(),
        forall|j: int| 0 <= j < k ==> b[j] <= 0x7f,
    ensures
        is_char_boundary(b, k),
    decreases k,
{
    if k > 0 {
        let rest = pop_first_scalar(b);
        assert(length_of_first_scalar(b) == 1);
        assert(rest =~= b.subrange(1, b.len() as int));
        assert(valid_utf8(rest));
        assert forall|j: int| 0 <= j < k - 1 implies rest[j] <= 0x7f by {
            assert(rest[j] == b[j + 1]);
        }
        lemma_ascii_prefix_boundary(rest, k - 1);
    }
}

/// The bytes of an ASCII sequence followed by any sequence: the ASCII part
/// comes out byte for byte, and the rest comes out encoded on its own.
pub proof fn lemma_ascii_then(p: Seq<char>, c: Seq<char>)
    requires
        is_ascii_chars(p),
    ensures
        encode_utf8(p + c).len() == p.len() + encode_utf8(c).len(),
        encode_utf8(p + c).subrange(p.len() as int, encode_utf8(p + c).len() as int)
            == encode_utf8(c),
        forall|j: int| 0 <= j < p.len() ==> #[trigger] encode_utf8(p + c)[j] == p[j] as u8,
        forall|j: int| 0 <= j < p.len() ==> #[trigger] encode_utf8(p + c)[j] <= 0x7f,
{
    lemma_encode_concat(p, c);
    is_ascii_chars_encode_utf8(p);
    let e = encode_utf8(p + c);
    assert(e.subrange(p.len() as int, e.len() as int) =~= encode_utf8(c));
    assert forall|j: int| 0 <= j < p.len() implies #[trigger] e[j] <= 0x7f by {
        assert(e[j] == encode_utf8(p)[j]);
        assert(p[j] as u8 == encode_utf8(p)[j]);
        assert('\0' <= p[j] <= '\u{7f}');
    }
}

} // verus!
