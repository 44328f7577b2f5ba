//! Operations on string slices, proved on their UTF-8 encoding.

use vstd::prelude::*;
use vstd::utf8::{
    encode_scalar, encode_utf8, encode_utf8_decode_utf8, encode_utf8_first_scalar,
    encode_utf8_valid_utf8, is_char_boundary, pop_first_scalar,
};

verus! {

/// Whether two string slices hold the same characters, decided on their
/// bytes.
pub(crate) fn same_text(a: &str, b: &str) -> (same: bool)
    ensures
        same == (a@ == b@),
{
    let x = a.as_bytes();
    let y = b.as_bytes();
    proof {
        encode_utf8_decode_utf8(a@);
        encode_utf8_decode_utf8(b@);
    }
    if x.len() != y.len() {
        return false;
    }
    let mut i: usize = 0;
    while i < x.len()
        invariant
            x@ == encode_utf8(a@),
            y@ == encode_utf8(b@),
            x@.len() == y@.len(),
            i <= x@.len(),
            forall|k: int| 0 <= k < i ==> x@[k] == y@[k],
        decreases x.len() - i,
    {
        if x[i] != y[i] {
            return false;
        }
        i += 1;
    }
    assert(x@ =~= y@);
    true
}

/// The number of bytes that encode `c`.
fn encoded_len(c: char) -> (n: usize)
    ensures
        n == encode_scalar(c as u32).len(),
        1 <= n <= 4,
{
    let code = c as u32;
    if code <= 0x7F {
        1
    } else if code <= 0x7FF {
        2
    } else if code <= 0xFFFF {
        3
    } else {
        4
    }
}

/// The encoding of a text is cut cleanly after its first character.
proof fn lemma_first_char_boundary(s: Seq<char>)
    requires
        s.len() > 0,
    ensures
        is_char_boundary(encode_utf8(s), encode_scalar(s[0] as u32).len() as int),
        encode_utf8(s).subrange(0, encode_scalar(s[0] as u32).len() as int) == encode_utf8(
            seq![s[0]],
        ),
        encode_utf8(s).skip(encode_scalar(s[0] as u32).len() as int) == encode_utf8(
            s.drop_first(),
        ),
{
    let bytes = encode_utf8(s);
    encode_utf8_first_scalar(s);
    encode_utf8_valid_utf8(s);
    encode_utf8_valid_utf8(s.drop_first());
    // The bytes after the first character start at a boundary of their own.
    assert(is_char_boundary(pop_first_scalar(bytes), 0));
    // A text of one character is encoded as that character alone.
    assert(encode_utf8(seq![s[0]].drop_first()) =~= Seq::<u8>::empty());
}

/// The first character of `s`, the slice that holds just that character,
/// and the slice after it; `None` when `s` is empty.
pub(crate) fn split_first<'a>(s: &'a str) -> (parts: Option<(char, &'a str, &'a str)>)
    ensures
        match parts {
            Some((c, head, tail)) => {
                &&& s@.len() > 0
                &&& c == s@[0]
                &&& head@ == seq![c]
                &&& tail@ == s@.drop_first()
            },
            None => s@.len() == 0,
        },
{
    if s.is_empty() {
        return None;
    }
    let c = s.get_char(0);
    let n = encoded_len(c);
    proof {
        lemma_first_char_boundary(s@);
    }
    let (head, tail) = s.split_at(n);
    proof {
        encode_utf8_decode_utf8(head@);
        encode_utf8_decode_utf8(tail@);
        encode_utf8_decode_utf8(seq![c]);
        encode_utf8_decode_utf8(s@.drop_first());
    }
    Some((c, head, tail))
}

} // verus!
