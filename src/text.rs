use vstd::prelude::*;

verus! {

/// Every byte is an ASCII code (below 128).
pub open spec fn is_ascii_bytes(b: Seq<u8>) -> bool {
    forall|i: int| 0 <= i < b.len() ==> #[trigger] b[i] < 128
}

/// The characters whose codes are the bytes of `b`.
pub open spec fn ascii_chars(b: Seq<u8>) -> Seq<char> {
    Seq::new(b.len(), |i: int| b[i] as char)
}

/// The bytes whose codes are the characters of `s`.
pub open spec fn ascii_bytes(s: Seq<char>) -> Seq<u8> {
    Seq::new(s.len(), |i: int| s[i] as u8)
}

/// Turning ASCII characters into bytes and back gives the same characters.
pub proof fn lemma_ascii_chars_of_bytes(s: Seq<char>)
    requires
        vstd::utf8::is_ascii_chars(s),
    ensures
        ascii_chars(ascii_bytes(s)) == s,
        is_ascii_bytes(ascii_bytes(s)),
{
    assert forall|i: int| 0 <= i < s.len() implies ((s[i] as u8) as char) == s[i] && (s[i] as u8) < 128 by {
        assert('\0' <= s[i] <= '\u{7f}');
    }
    assert(ascii_chars(ascii_bytes(s)) =~= s);
}

/// Appends the bytes of `src` to `out`.
pub fn push_all(out: &mut Vec<u8>, src: &[u8])
    ensures
        final(out)@ == old(out)@ + src@,
{
    let ghost start = out@;
    let mut i: usize = 0;
    while i < src.len()
        invariant
            i <= src@.len(),
            out@ == start + src@.subrange(0, i as int),
        decreases src@.len() - i,
    {
        out.push(src[i]);
        i = i + 1;
        assert(out@ =~= start + src@.subrange(0, i as int));
    }
    assert(src@.subrange(0, i as int) =~= src@);
}

/// Whether every byte of `b` is an ASCII code.
pub fn all_ascii(b: &[u8]) -> (r: bool)
    ensures
        r == is_ascii_bytes(b@),
{
    let mut i: usize = 0;
    while i < b.len()
        invariant
            i <= b@.len(),
            forall|j: int| 0 <= j < i ==> #[trigger] b@[j] < 128,
        decreases b@.len() - i,
    {
        if b[i] >= 128 {
            return false;
        }
        i = i + 1;
    }
    true
}

/// The bytes of an ASCII string.
pub fn ascii_bytes_of(s: &str) -> (r: Vec<u8>)
    requires
        s.is_ascii(),
    ensures
        r@ == ascii_bytes(s@),
        is_ascii_bytes(r@),
        ascii_chars(r@) == s@,
{
    broadcast use vstd::string::is_ascii_spec_bytes;
    let r = vstd::slice::slice_to_vec(s.as_bytes());
    proof {
        assert(r@ =~= ascii_bytes(s@));
        lemma_ascii_chars_of_bytes(s@);
    }
    r
}

/// Relies on String::from_utf8: ASCII bytes are valid UTF-8, and each of them
/// decodes to the character of the same code.
#[verifier::external_body]
pub(crate) fn string_from_ascii(b: Vec<u8>) -> (r: String)
    requires
        is_ascii_bytes(b@),
    ensures
        r@ == ascii_chars(b@),
{
    String::from_utf8(b).unwrap_or_default()
}

} // verus!
