//! Digest engine: SHA-256 over byte streams, reported as a lowercase hex
//! string, and the comparison that verification is built on.

use vstd::prelude::*;
use vstd::string::*;

verus! {

/// The SHA-256 digest (32 bytes) of `data`. The function itself is the
/// outside library's; nothing here restates the algorithm.
pub uninterp spec fn sha256_of(data: Seq<u8>) -> Seq<u8>;

/// Relies on sha2::Sha256 (through the Digest trait): the digest is a
/// function of the input bytes alone, and is 32 bytes long.
#[verifier::external_body]
fn sha256_digest(data: &[u8]) -> (r: Vec<u8>)
    ensures
        r@ == sha256_of(data@),
        r@.len() == 32,
{
    <sha2::Sha256 as sha2::Digest>::digest(data).to_vec()
}

/// The lowercase hex digit characters, in order.
pub open spec fn hex_char(d: int) -> char {
    if d == 0 { '0' }
    else if d == 1 { '1' }
    else if d == 2 { '2' }
    else if d == 3 { '3' }
    else if d == 4 { '4' }
    else if d == 5 { '5' }
    else if d == 6 { '6' }
    else if d == 7 { '7' }
    else if d == 8 { '8' }
    else if d == 9 { '9' }
    else if d == 10 { 'a' }
    else if d == 11 { 'b' }
    else if d == 12 { 'c' }
    else if d == 13 { 'd' }
    else if d == 14 { 'e' }
    else { 'f' }
}

fn hex_char_exec(d: u8) -> (c: char)
    requires
        d < 16,
    ensures
        c == hex_char(d as int),
{
    if d == 0 { '0' }
    else if d == 1 { '1' }
    else if d == 2 { '2' }
    else if d == 3 { '3' }
    else if d == 4 { '4' }
    else if d == 5 { '5' }
    else if d == 6 { '6' }
    else if d == 7 { '7' }
    else if d == 8 { '8' }
    else if d == 9 { '9' }
    else if d == 10 { 'a' }
    else if d == 11 { 'b' }
    else if d == 12 { 'c' }
    else if d == 13 { 'd' }
    else if d == 14 { 'e' }
    else { 'f' }
}

/// The lowercase hex encoding of `data`: two digits per byte, high nibble
/// first.
pub open spec fn hex_of(data: Seq<u8>) -> Seq<char>
    decreases data.len(),
{
    if data.len() == 0 {
        Seq::empty()
    } else {
        seq![
            hex_char(data[0] as int / 16),
            hex_char(data[0] as int % 16),
        ] + hex_of(data.drop_first())
    }
}

/// The lowercase hex SHA-256 digest of `data`, as the manifest records it.
pub open spec fn digest_hex(data: Seq<u8>) -> Seq<char> {
    hex_of(sha256_of(data))
}

pub proof fn lemma_hex_len(data: Seq<u8>)
    ensures
        hex_of(data).len() == 2 * data.len(),
    decreases data.len(),
{
    if data.len() > 0 {
        lemma_hex_len(data.drop_first());
    }
}

/// Encodes bytes as lowercase hex.
pub fn to_hex(data: &Vec<u8>) -> (r: String)
    ensures
        r@ == hex_of(data@),
{
    let mut r = String::new();
    let ghost whole = data@;
    let mut i: usize = 0;
    proof {
        assert(whole.skip(0) =~= whole);
    }
    while i < data.len()
        invariant
            whole == data@,
            i <= whole.len(),
            hex_of(whole) =~= r@ + hex_of(whole.skip(i as int)),
        decreases whole.len() - i,
    {
        let ghost tail = whole.skip(i as int);
        proof {
            assert(tail[0] == whole[i as int]);
            assert(tail.drop_first() =~= whole.skip(i + 1));
        }
        let b = data[i];
        push_char_pair(&mut r, hex_char_exec(b / 16), hex_char_exec(b % 16));
        i = i + 1;
        proof {
            assert(hex_of(whole) =~= r@ + hex_of(whole.skip(i as int)));
        }
    }
    proof {
        assert(whole.skip(whole.len() as int) =~= Seq::<u8>::empty());
    }
    r
}

fn push_char_pair(s: &mut String, a: char, b: char)
    ensures
        final(s)@ == old(s)@.push(a).push(b),
{
    crate::strutil::push_char(s, a);
    crate::strutil::push_char(s, b);
}

/// The digest of `data`, as a 64-character lowercase hex string.
pub fn hash_bytes(data: &Vec<u8>) -> (r: String)
    ensures
        r@ == digest_hex(data@),
        r@.len() == 64,
{
    let d = sha256_digest(data.as_slice());
    proof {
        lemma_hex_len(d@);
    }
    to_hex(&d)
}

/// Whether `data` still hashes to the recorded digest `expected`.
///
/// This is the integrity check itself: it recomputes the digest and
/// compares, so a caller learns exactly `expected == digest_hex(data)`.
pub fn hash_matches(expected: &str, data: &Vec<u8>) -> (r: bool)
    ensures
        r == (expected@ == digest_hex(data@)),
{
    let computed = hash_bytes(data);
    crate::strutil::str_eq(expected, computed.as_str())
}

/// Hashing is deterministic: one input, one digest. Re-running the digest
/// engine over an unchanged file reports the same value.
pub proof fn lemma_digest_deterministic(data1: Seq<u8>, data2: Seq<u8>)
    requires
        data1 == data2,
    ensures
        digest_hex(data1) == digest_hex(data2),
{
}

} // verus!
