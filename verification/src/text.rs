//! Small helpers on strings and byte strings shared by the other modules.

use vstd::prelude::*;

verus! {

/// Compares two string slices character by character.
pub fn str_equals(a: &str, b: &str) -> (same: bool)
    ensures
        same == (a@ == b@),
{
    let left = a.to_owned();
    let right = b.to_owned();
    left == right
}

/// Compares two byte strings.
pub fn bytes_equal(a: &Vec<u8>, b: &Vec<u8>) -> (same: bool)
    ensures
        same == (a@ == b@),
{
    if a.len() != b.len() {
        return false;
    }
    let mut i: usize = 0;
    while i < a.len()
        invariant
            a.len() == b.len(),
            i <= a.len(),
            forall|j: int| 0 <= j < i ==> a@[j] == b@[j],
        decreases a.len() - i,
    {
        if a[i] != b[i] {
            return false;
        }
        i += 1;
    }
    assert(a@ =~= b@);
    true
}

/// Copies a byte string.
pub fn clone_bytes(bytes: &Vec<u8>) -> (copy: Vec<u8>)
    ensures
        copy@ == bytes@,
{
    let copy = bytes.clone();
    assert(copy@ =~= bytes@);
    copy
}

/// The lower-case hexadecimal digit of a value below sixteen.
pub open spec fn hex_digit(nibble: int) -> char {
    if nibble == 0 { '0' } else if nibble == 1 { '1' } else if nibble == 2 { '2' }
    else if nibble == 3 { '3' } else if nibble == 4 { '4' } else if nibble == 5 { '5' }
    else if nibble == 6 { '6' } else if nibble == 7 { '7' } else if nibble == 8 { '8' }
    else if nibble == 9 { '9' } else if nibble == 10 { 'a' } else if nibble == 11 { 'b' }
    else if nibble == 12 { 'c' } else if nibble == 13 { 'd' } else if nibble == 14 { 'e' }
    else { 'f' }
}

/// Lower-case hexadecimal rendering of a byte string: two digits per byte,
/// the high half first.
pub open spec fn hex_lower(bytes: Seq<u8>) -> Seq<char> {
    Seq::new(
        2 * bytes.len(),
        |i: int| if i % 2 == 0 { hex_digit(bytes[i / 2] as int / 16) } else { hex_digit(bytes[i / 2] as int % 16) },
    )
}

/// Calls `hex::encode` on the bytes. Trusted: the result is the lower-case
/// rendering of `hex_lower`, two digits per byte and the high half first, as
/// the crate documents and its digit table shows.
#[verifier::external_body]
pub(crate) fn hex_encode(bytes: &Vec<u8>) -> (text: String)
    ensures
        text@ == hex_lower(bytes@),
{
    hex::encode(bytes)
}

} // verus!
