//! Conversion of text into boundary-safe, NUL-terminated byte buffers.
//!
//! An external storage engine expects NUL-terminated byte sequences, so a
//! path or key that carries an embedded NUL character cannot be handed to
//! it. This module holds the one conversion capability the aggregator uses
//! for both paths and keys: it rejects embedded NULs and otherwise yields
//! the UTF-8 bytes of the text followed by a single terminating zero byte.

use vstd::prelude::*;
use vstd::string::*;
use vstd::utf8::*;

verus! {

/// True exactly when `s` contains an embedded NUL character.
pub fn contains_nul(s: &str) -> (r: bool)
    ensures
        r == s@.contains('\0'),
{
    let n = s.unicode_len();
    let mut i: usize = 0;
    while i < n
        invariant
            n == s@.len(),
            i <= n,
            forall|j: int| 0 <= j < i ==> s@[j] != '\0',
        decreases n - i,
    {
        if s.get_char(i) == '\0' {
            proof {
                assert(s@[i as int] == '\0');
            }
            return true;
        }
        i += 1;
    }
    false
}

/// The UTF-8 encoding of a single character other than NUL never contains
/// a zero byte: a one-byte encoding is the nonzero code point itself, and
/// every byte of a longer encoding has high bits set.
proof fn lemma_encode_scalar_nul_free(c: char)
    requires
        c != '\0',
    ensures
        forall|i: int|
            0 <= i < encode_scalar(c as u32).len() ==> #[trigger] encode_scalar(c as u32)[i] != 0,
{
    let u = c as u32;
    assert(u != 0);
    if has_width_1_encoding(u) {
        assert(((u & 0x7F) as u8) != 0) by (bit_vector)
            requires
                u != 0 && u < 0x80,
        ;
    } else {
        assert((0xC0u8 | (((u >> 6) & 0x1F) as u8)) != 0) by (bit_vector);
        assert((0xE0u8 | (((u >> 12) & 0x0F) as u8)) != 0) by (bit_vector);
        assert((0xF0u8 | (((u >> 18) & 0x7) as u8)) != 0) by (bit_vector);
        assert((0x80u8 | ((u & 0x3F) as u8)) != 0) by (bit_vector);
        assert((0x80u8 | (((u >> 6) & 0x3F) as u8)) != 0) by (bit_vector);
        assert((0x80u8 | (((u >> 12) & 0x3F) as u8)) != 0) by (bit_vector);
    }
}

/// The UTF-8 encoding of NUL-free text is NUL-free: no byte of it is zero,
/// so the text is safe on a boundary that reads up to the first zero byte.
pub proof fn lemma_nul_free_encoding(s: Seq<char>)
    requires
        !s.contains('\0'),
    ensures
        forall|i: int| 0 <= i < encode_utf8(s).len() ==> #[trigger] encode_utf8(s)[i] != 0,
    decreases s.len(),
{
    if s.len() > 0 {
        assert(s[0] != '\0');
        lemma_encode_scalar_nul_free(s[0]);
        assert(!s.drop_first().contains('\0')) by {
            if s.drop_first().contains('\0') {
                let w = choose|i: int|
                    0 <= i < s.drop_first().len() && s.drop_first()[i] == '\0';
                assert(s[w + 1] == '\0');
            }
        }
        lemma_nul_free_encoding(s.drop_first());
        assert(encode_utf8(s) == encode_scalar(s[0] as u32) + encode_utf8(s.drop_first()));
    }
}

/// Converts `s` into a NUL-terminated byte buffer: its UTF-8 bytes followed
/// by one zero byte, so the terminator is the buffer's only zero byte.
/// Fails exactly when `s` contains an embedded NUL.
pub fn nul_terminated(s: &str) -> (r: Option<Vec<u8>>)
    ensures
        match r {
            Some(v) => {
                &&& !s@.contains('\0')
                &&& v@ == s.spec_bytes().push(0u8)
                &&& v@.len() >= 1 && v@[v@.len() - 1] == 0
                &&& forall|i: int| 0 <= i < v@.len() - 1 ==> #[trigger] v@[i] != 0
            },
            None => s@.contains('\0'),
        },
{
    if contains_nul(s) {
        None
    } else {
        let mut v = s.as_bytes_vec();
        v.push(0u8);
        proof {
            lemma_nul_free_encoding(s@);
            assert(v@ == s.spec_bytes().push(0u8));
            assert(forall|i: int|
                0 <= i < v@.len() - 1 ==> #[trigger] v@[i] == encode_utf8(s@)[i]);
        }
        Some(v)
    }
}

} // verus!
