//! Content hashing.
//!
//! Every fingerprint in the crate is the BLAKE3 hash of a byte string,
//! written as 64 lower-case hexadecimal digits. The hash itself is computed
//! by the `blake3` crate; what is hashed, and what is done with the digits,
//! is decided here.

use vstd::prelude::*;
use vstd::string::*;
use vstd::utf8::*;

verus! {

/// The hexadecimal text of the BLAKE3 hash of `data`, as `blake3::hash`
/// followed by `Hash::to_hex` gives it.
pub uninterp spec fn blake3_hex(data: Seq<u8>) -> Seq<char>;

/// A lower-case hexadecimal digit.
pub open spec fn is_hex_digit(c: char) -> bool {
    ('0' <= c && c <= '9') || ('a' <= c && c <= 'f')
}

/// Whether `text` has the shape of a digest: 64 hexadecimal digits.
pub open spec fn is_digest_text(text: Seq<char>) -> bool {
    &&& text.len() == 64
    &&& forall|i: int| 0 <= i < text.len() ==> is_hex_digit(#[trigger] text[i])
}

/// The text of 64 zero digits that stands where no hash is available.
pub open spec fn zero_digest() -> Seq<char> {
    Seq::new(64, |i: int| '0')
}

/// The number of `'0'` characters at the front of `text`.
pub open spec fn leading_zeros(text: Seq<char>) -> nat
    decreases text.len(),
{
    if text.len() > 0 && text[0] == '0' {
        1 + leading_zeros(text.drop_first())
    } else {
        0
    }
}

/// The bytes of a text in UTF-8.
pub open spec fn text_bytes(text: Seq<char>) -> Seq<u8> {
    encode_utf8(text)
}

/// `blake3::hash` of `data`, shown by `Hash::to_hex`. The contract names the
/// text and states its shape: `to_hex` writes two lower-case hexadecimal
/// digits for each of the 32 bytes of the hash.
#[verifier::external_body]
pub(crate) fn digest_hex(data: &[u8]) -> (r: String)
    ensures
        r@ == blake3_hex(data@),
        is_digest_text(r@),
{
    blake3::hash(data).to_hex().to_string()
}

/// Appends the UTF-8 bytes of `text` to `buffer`.
pub(crate) fn append_text(buffer: &mut Vec<u8>, text: &str)
    ensures
        final(buffer)@ == old(buffer)@ + text_bytes(text@),
{
    let bytes = text.as_bytes();
    let ghost before = buffer@;
    buffer.extend_from_slice(bytes);
    assert(buffer@ =~= before + text_bytes(text@));
}

/// Appends `bytes` to `buffer`.
pub(crate) fn append_bytes(buffer: &mut Vec<u8>, bytes: &Vec<u8>)
    ensures
        final(buffer)@ == old(buffer)@ + bytes@,
{
    let ghost before = buffer@;
    buffer.extend_from_slice(bytes.as_slice());
    assert(buffer@ =~= before + bytes@);
}

/// The text of 64 zero digits.
pub fn zero_hash() -> (r: String)
    ensures
        r@ == zero_digest(),
{
    let text = "0000000000000000000000000000000000000000000000000000000000000000";
    proof {
        reveal_strlit("0000000000000000000000000000000000000000000000000000000000000000");
        assert(text@ =~= zero_digest());
    }
    text.to_owned()
}

/// Counts the `'0'` characters at the front of `text`.
pub fn count_leading_zeros(text: &str) -> (n: usize)
    ensures
        n == leading_zeros(text@),
{
    let len = text.unicode_len();
    let mut n: usize = 0;
    assert(text@.skip(0) =~= text@);
    while n < len
        invariant
            len == text@.len(),
            n <= len,
            leading_zeros(text@) == n + leading_zeros(text@.skip(n as int)),
        decreases len - n,
    {
        let c = text.get_char(n);
        let ghost rest = text@.skip(n as int);
        assert(rest.len() > 0 && rest[0] == c);
        if c != '0' {
            return n;
        }
        assert(rest.drop_first() =~= text@.skip(n + 1));
        n = n + 1;
    }
    assert(text@.skip(n as int).len() == 0);
    n
}

/// Whether `hash` begins with at least `difficulty` zero characters.
pub fn hash_meets_difficulty(hash: &str, difficulty: u32) -> (r: bool)
    ensures
        r == (leading_zeros(hash@) >= difficulty),
{
    count_leading_zeros(hash) >= difficulty as usize
}

} // verus!
