//! Opaque identifiers of triangles and transactions.
//!
//! An identifier is the 128-bit value of a UUID. Fresh ones are drawn at
//! random; the library never relies on two fresh identifiers being different.

use vstd::prelude::*;

verus! {

/// The sixteen bytes of `v`, most significant first.
pub open spec fn big_endian_bytes(v: u128) -> Seq<u8> {
    Seq::new(16, |i: int| ((v >> (((15 - i) * 8) as u128)) & 0xff) as u8)
}

/// The hexadecimal digit at place `k` of `v`, the most significant at
/// place zero: a number below sixteen.
pub open spec fn hex_digit(v: u128, k: int) -> int {
    ((v >> (((31 - k) * 4) as u128)) & 0xf) as int
}

/// The text of the identifier `v` as a UUID: its 32 hexadecimal digits in
/// lower case, the most significant first, in groups of 8, 4, 4, 4 and 12
/// with a hyphen between two groups.
pub open spec fn uuid_text(v: u128) -> Seq<char> {
    Seq::new(
        36,
        |i: int|
            if i == 8 || i == 13 || i == 18 || i == 23 {
                '-'
            } else {
                "0123456789abcdef"@[hex_digit(
                    v,
                    if i < 8 {
                        i
                    } else if i < 13 {
                        i - 1
                    } else if i < 18 {
                        i - 2
                    } else if i < 23 {
                        i - 3
                    } else {
                        i - 4
                    },
                )]
            },
    )
}

/// A fresh version-4 identifier from `uuid::Uuid::new_v4`. The value comes
/// from the operating system's random source, so nothing is promised of it.
#[verifier::external_body]
pub(crate) fn random_id() -> u128 {
    uuid::Uuid::new_v4().as_u128()
}

/// The sixteen bytes of the identifier `id`, most significant first, as a
/// UUID stores them.
pub(crate) fn id_bytes(id: u128) -> (r: Vec<u8>)
    ensures
        r@ == big_endian_bytes(id),
{
    let mut bytes: Vec<u8> = Vec::new();
    let mut i: u128 = 0;
    while i < 16
        invariant
            i <= 16,
            bytes@.len() == i,
            forall|k: int| 0 <= k < i ==> bytes@[k] == ((id >> (((15 - k) * 8) as u128)) & 0xff) as u8,
        decreases 16 - i,
    {
        let shift: u128 = (15 - i) * 8;
        let byte: u128 = (id >> shift) & 0xff;
        assert(byte <= 0xff) by (bit_vector)
            requires
                byte == (id >> shift) & 0xff,
        ;
        bytes.push(byte as u8);
        i = i + 1;
    }
    assert(bytes@ =~= big_endian_bytes(id));
    bytes
}

/// The text `uuid::Uuid` shows for `id`: its `Display`, which is the
/// hyphenated lower-case form of the sixteen bytes that `from_u128` stores
/// most significant first.
#[verifier::external_body]
pub(crate) fn id_text(id: u128) -> (r: String)
    ensures
        r@ == uuid_text(id),
{
    uuid::Uuid::from_u128(id).to_string()
}

} // verus!
