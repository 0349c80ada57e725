use vstd::prelude::*;
use sha2::{Digest, Sha256};

verus! {

/// What SHA-256 returns for a byte string.
pub uninterp spec fn sha256(data: Seq<u8>) -> Seq<u8>;

/// SHA-256 of a byte string.
/// Wraps `sha2::Sha256::digest`; its result is named by `sha256`, and the
/// contract claims only that it is 32 bytes long, the output size of SHA-256.
#[verifier::external_body]
fn sha256_digest(data: &[u8]) -> (r: Vec<u8>)
    ensures
        r@ == sha256(data@),
        r@.len() == 32,
{
    Sha256::digest(data).to_vec()
}

/// The lower-case hexadecimal digit for a value below 16.
pub open spec fn hex_digit(d: nat) -> char {
    if d < 10 {
        ((d + 48) as u8) as char
    } else {
        ((d + 87) as u8) as char
    }
}

/// Lower-case hexadecimal encoding, two digits per byte, high nibble first.
pub open spec fn hex_lower(b: Seq<u8>) -> Seq<char>
    decreases b.len(),
{
    if b.len() == 0 {
        seq![]
    } else {
        hex_lower(b.drop_last()) + seq![hex_digit((b.last() / 16) as nat), hex_digit((b.last() % 16) as nat)]
    }
}

pub proof fn lemma_hex_lower_len(b: Seq<u8>)
    ensures
        hex_lower(b).len() == 2 * b.len(),
    decreases b.len(),
{
    if b.len() > 0 {
        lemma_hex_lower_len(b.drop_last());
    }
}

fn hex_digit_exec(d: u8) -> (c: char)
    requires
        d < 16,
    ensures
        c == hex_digit(d as nat),
{
    if d < 10 {
        ((d + 48) as u8) as char
    } else {
        ((d + 87) as u8) as char
    }
}

/// Lower-case hexadecimal encoding of bytes (what `hex::encode` returns).
pub fn hex_encode(b: &[u8]) -> (r: Vec<char>)
    ensures
        r@ == hex_lower(b@),
{
    let mut r: Vec<char> = Vec::new();
    let n = b.len();
    for i in 0..n
        invariant
            n == b@.len(),
            r@ == hex_lower(b@.take(i as int)),
    {
        let x = b[i];
        assert(b@.take(i + 1).drop_last() == b@.take(i as int));
        assert(b@.take(i + 1).last() == x);
        r.push(hex_digit_exec(x / 16));
        r.push(hex_digit_exec(x % 16));
    }
    assert(b@.take(n as int) == b@);
    r
}

/// The hexadecimal SHA-256 digest of a byte string.
pub open spec fn hash_hex(data: Seq<u8>) -> Seq<char> {
    hex_lower(sha256(data))
}

/// `hash_bytes`: the lower-case hexadecimal SHA-256 digest, 64 characters.
pub fn hash_chars(bytes: &[u8]) -> (r: Vec<char>)
    ensures
        r@ == hash_hex(bytes@),
        r@.len() == 64,
{
    let d = sha256_digest(bytes);
    proof {
        lemma_hex_lower_len(d@);
    }
    hex_encode(d.as_slice())
}

/// The lower-case hexadecimal SHA-256 digest of a byte string.
pub fn hash_bytes(bytes: &[u8]) -> (r: String)
    ensures
        r@ == hash_hex(bytes@),
        r@.len() == 64,
{
    let v = hash_chars(bytes);
    crate::text::string_of(v.as_slice())
}

/// The hexadecimal SHA-256 digest of a string's UTF-8 bytes.
pub fn hash_str(s: &str) -> (r: Vec<char>)
    ensures
        r@ == hash_hex(vstd::utf8::encode_utf8(s@)),
        r@.len() == 64,
{
    hash_chars(s.as_bytes())
}

} // verus!
