//! Deterministic identifiers: a dispute's identifier is derived from the split it
//! refers to and the ledger sequence number at the time it is raised.

use vstd::prelude::*;
use vstd::utf8::encode_utf8;

verus! {

/// The SHA-256 digest of a byte string.
pub uninterp spec fn sha256_of(data: Seq<u8>) -> Seq<u8>;

/// Largest input that the digest is asked for. The host meters hashing against
/// a fixed budget; inputs of this size stay far within it.
pub const MAX_DIGEST_INPUT: usize = 65536;

/// Largest split identifier, in UTF-8 bytes, from which a dispute identifier is
/// derived: the sequence number takes four more bytes of the digest input.
pub const MAX_SPLIT_ID_BYTES: usize = 65532;

/// Relies on soroban_sdk's `Crypto::sha256`: the SHA-256 digest of the bytes,
/// which depends on the bytes alone.
#[verifier::external_body]
fn sha256(data: &[u8]) -> (r: [u8; 32])
    requires
        data@.len() <= MAX_DIGEST_INPUT,
    ensures
        r@ == sha256_of(data@),
{
    let env = soroban_sdk::Env::default();
    env.crypto().sha256(&soroban_sdk::Bytes::from_slice(&env, data)).to_array()
}

/// The four bytes of a sequence number, most significant first.
pub open spec fn be_bytes(n: u32) -> Seq<u8> {
    seq![(n / 16777216) as u8, ((n / 65536) % 256) as u8, ((n / 256) % 256) as u8, (n % 256) as u8]
}

/// The ASCII codes of the prefix `dis_`.
pub open spec fn dispute_prefix() -> Seq<u8> {
    seq![100u8, 105u8, 115u8, 95u8]
}

/// The characters that carry a byte string, one per byte, each with the byte's
/// value as its code point.
pub open spec fn byte_chars(b: Seq<u8>) -> Seq<char> {
    Seq::new(b.len(), |i: int| b[i] as char)
}

/// The identifier of a dispute raised against `split_id` at ledger sequence
/// `sequence`: the bytes `dis_` followed by the first eight bytes of the SHA-256
/// digest of the split identifier's UTF-8 bytes and the sequence number, twelve
/// bytes in all, carried one character per byte.
pub open spec fn dispute_id_of(split_id: Seq<char>, sequence: u32) -> Seq<char> {
    byte_chars(
        dispute_prefix() + sha256_of(encode_utf8(split_id) + be_bytes(sequence)).subrange(0, 8),
    )
}

/// Relies on `String::push`: the character is appended.
#[verifier::external_body]
fn push_char(s: &mut String, c: char)
    ensures
        final(s)@ == old(s)@.push(c),
{
    s.push(c)
}

/// Derive a dispute identifier from the split it refers to and the ledger
/// sequence number.
pub fn generate_dispute_id(split_id: &String, sequence: u32) -> (r: String)
    requires
        encode_utf8(split_id@).len() <= MAX_SPLIT_ID_BYTES,
    ensures
        r@ == dispute_id_of(split_id@, sequence),
        r@.len() == 12,
{
    let text: &str = split_id.as_str();
    let raw: &[u8] = text.as_bytes();
    let mut input: Vec<u8> = Vec::new();
    let mut i: usize = 0;
    while i < raw.len()
        invariant
            i <= raw@.len(),
            input@ == raw@.subrange(0, i as int),
        decreases raw@.len() - i,
    {
        input.push(raw[i]);
        proof {
            assert(input@ =~= raw@.subrange(0, i + 1));
        }
        i = i + 1;
    }
    input.push((sequence / 16777216) as u8);
    input.push(((sequence / 65536) % 256) as u8);
    input.push(((sequence / 256) % 256) as u8);
    input.push((sequence % 256) as u8);
    proof {
        assert(raw@.subrange(0, raw@.len() as int) =~= raw@);
        assert(input@ =~= encode_utf8(split_id@) + be_bytes(sequence));
    }
    let digest = sha256(input.as_slice());
    let mut id_bytes: Vec<u8> = Vec::new();
    id_bytes.push(100u8);
    id_bytes.push(105u8);
    id_bytes.push(115u8);
    id_bytes.push(95u8);
    let mut k: usize = 0;
    while k < 8
        invariant
            k <= 8,
            digest@.len() == 32,
            id_bytes@ == dispute_prefix() + digest@.subrange(0, k as int),
        decreases 8 - k,
    {
        id_bytes.push(digest[k]);
        proof {
            assert(id_bytes@ =~= dispute_prefix() + digest@.subrange(0, k + 1));
        }
        k = k + 1;
    }
    let mut id = String::new();
    let mut j: usize = 0;
    while j < id_bytes.len()
        invariant
            j <= id_bytes@.len(),
            id@ == byte_chars(id_bytes@.subrange(0, j as int)),
        decreases id_bytes@.len() - j,
    {
        push_char(&mut id, id_bytes[j] as char);
        proof {
            assert(id@ =~= byte_chars(id_bytes@.subrange(0, j + 1)));
        }
        j = j + 1;
    }
    proof {
        assert(id_bytes@.subrange(0, id_bytes@.len() as int) =~= id_bytes@);
    }
    id
}

} // verus!
