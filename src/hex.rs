//! Upper-case hexadecimal rendering of byte strings.

use vstd::prelude::*;

verus! {

/// The ASCII code of the upper-case hex digit for a value below 16.
pub open spec fn hex_digit(n: u8) -> u8
    recommends
        n < 16,
{
    if n < 10 {
        (48 + n) as u8
    } else {
        (55 + n) as u8
    }
}

/// The two hex digits of every byte, high nibble first, as ASCII codes.
pub open spec fn hex_upper_bytes(b: Seq<u8>) -> Seq<u8>
    decreases b.len(),
{
    if b.len() == 0 {
        Seq::empty()
    } else {
        hex_upper_bytes(b.drop_last()).push(hex_digit(b.last() / 16)).push(hex_digit(b.last() % 16))
    }
}

/// The characters of an ASCII byte string.
pub open spec fn ascii_chars(b: Seq<u8>) -> Seq<char> {
    Seq::new(b.len(), |i: int| b[i] as char)
}

/// The upper-case hex rendering of a byte string, as characters.
pub open spec fn hex_upper(b: Seq<u8>) -> Seq<char> {
    ascii_chars(hex_upper_bytes(b))
}

proof fn lemma_hex_upper_bytes_len(b: Seq<u8>)
    ensures
        hex_upper_bytes(b).len() == 2 * b.len(),
        forall|i: int| 0 <= i < hex_upper_bytes(b).len() ==> #[trigger] hex_upper_bytes(b)[i] < 128,
    decreases b.len(),
{
    if b.len() > 0 {
        lemma_hex_upper_bytes_len(b.drop_last());
    }
}

/// Relies on `String::from_utf8`: a byte string that is all ASCII is valid UTF-8,
/// and each of its bytes becomes the character with that code.
#[verifier::external_body]
fn ascii_string(b: Vec<u8>) -> (r: String)
    requires
        forall|i: int| 0 <= i < b@.len() ==> b@[i] < 128,
    ensures
        r@ == ascii_chars(b@),
{
    match String::from_utf8(b) {
        Ok(s) => s,
        Err(_) => String::new(),
    }
}

fn hex_digit_exec(n: u8) -> (r: u8)
    requires
        n < 16,
    ensures
        r == hex_digit(n),
{
    if n < 10 {
        48 + n
    } else {
        55 + n
    }
}

/// Append the hex digits of the first `n` bytes to `out`.
fn push_hex_upper(out: &mut Vec<u8>, bytes: &[u8], n: usize)
    requires
        n <= bytes@.len(),
    ensures
        final(out)@ == old(out)@ + hex_upper_bytes(bytes@.subrange(0, n as int)),
{
    let ghost start = out@;
    let mut i: usize = 0;
    while i < n
        invariant
            n <= bytes@.len(),
            i <= n,
            out@ == start + hex_upper_bytes(bytes@.subrange(0, i as int)),
        decreases n - i,
    {
        let byte = bytes[i];
        out.push(hex_digit_exec(byte / 16));
        out.push(hex_digit_exec(byte % 16));
        proof {
            assert(bytes@.subrange(0, i + 1).drop_last() =~= bytes@.subrange(0, i as int));
            assert(out@ =~= start + hex_upper_bytes(bytes@.subrange(0, i + 1)));
        }
        i = i + 1;
    }
}

/// Render bytes as upper-case hex, two digits per byte, high nibble first.
pub fn bytes_to_hex_upper(bytes: &[u8]) -> (r: String)
    ensures
        r@ == hex_upper(bytes@),
        r@.len() == 2 * bytes@.len(),
{
    let mut out: Vec<u8> = Vec::new();
    push_hex_upper(&mut out, bytes, bytes.len());
    proof {
        assert(bytes@.subrange(0, bytes@.len() as int) =~= bytes@);
        assert(out@ =~= hex_upper_bytes(bytes@));
        lemma_hex_upper_bytes_len(bytes@);
    }
    ascii_string(out)
}

/// Render a 32-byte digest as 64 upper-case hex digits.
pub fn hash_to_hex_upper(hash: &[u8; 32]) -> (r: String)
    ensures
        r@ == hex_upper(hash@),
        r@.len() == 64,
{
    bytes_to_hex_upper(vstd::array::array_as_slice(hash))
}

} // verus!
