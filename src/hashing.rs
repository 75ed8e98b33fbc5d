//! Domain-separated SHA-256 and the big-endian, length-prefixed byte layout
//! that every hash input is built from.
use sha2::Digest;
use vstd::prelude::*;
use vstd::string::*;

verus! {

/// The SHA-256 digest of `data`.
pub uninterp spec fn sha256_of(data: Seq<u8>) -> Seq<u8>;

/// Relies on `sha2::Sha256::digest`: the 32-byte SHA-256 digest of the input,
/// which depends on the input bytes alone.
#[verifier::external_body]
fn sha256(data: &[u8]) -> (r: [u8; 32])
    ensures
        r@ == sha256_of(data@),
{
    sha2::Sha256::digest(data).into()
}

/// The bytes of an ASCII string.
pub open spec fn ascii_bytes(s: Seq<char>) -> Seq<u8> {
    Seq::new(s.len(), |i: int| s[i] as u8)
}

/// A domain separator: the length of the tag as one byte, then the tag.
pub open spec fn dsep(tag: Seq<char>) -> Seq<u8> {
    seq![tag.len() as u8] + ascii_bytes(tag)
}

/// Big-endian encoding of a `u32`.
pub open spec fn be_u32(x: u32) -> Seq<u8> {
    seq![(x >> 24u32) as u8, (x >> 16u32) as u8, (x >> 8u32) as u8, x as u8]
}

/// Big-endian encoding of a `u64`.
pub open spec fn be_u64(x: u64) -> Seq<u8> {
    be_u32((x >> 32u64) as u32) + be_u32(x as u32)
}

/// The hash of `payload` under the domain `tag`.
pub open spec fn domain_hash(tag: Seq<char>, payload: Seq<u8>) -> Seq<u8> {
    sha256_of(dsep(tag) + payload)
}

/// Appends the big-endian encoding of `x`.
pub fn push_u32(buf: &mut Vec<u8>, x: u32)
    ensures
        final(buf)@ == old(buf)@ + be_u32(x),
{
    buf.push((x >> 24u32) as u8);
    buf.push((x >> 16u32) as u8);
    buf.push((x >> 8u32) as u8);
    buf.push(x as u8);
    assert(final(buf)@ =~= old(buf)@ + be_u32(x));
}

/// Appends the big-endian encoding of `x`.
pub fn push_u64(buf: &mut Vec<u8>, x: u64)
    ensures
        final(buf)@ == old(buf)@ + be_u64(x),
{
    push_u32(buf, (x >> 32u64) as u32);
    push_u32(buf, x as u32);
    assert(final(buf)@ =~= old(buf)@ + be_u64(x));
}

/// Appends `bytes` as they are.
pub fn push_bytes(buf: &mut Vec<u8>, bytes: &[u8])
    ensures
        final(buf)@ == old(buf)@ + bytes@,
{
    let ghost start = buf@;
    let mut i: usize = 0;
    while i < bytes.len()
        invariant
            i <= bytes@.len(),
            buf@ == start + bytes@.subrange(0, i as int),
        decreases bytes@.len() - i,
    {
        buf.push(bytes[i]);
        i = i + 1;
        assert(buf@ =~= start + bytes@.subrange(0, i as int));
    }
    assert(bytes@.subrange(0, i as int) =~= bytes@);
}

/// Appends the domain separator of the ASCII tag `tag`.
pub fn push_dsep(buf: &mut Vec<u8>, tag: &str)
    requires
        is_ascii(tag),
        tag@.len() < 256,
    ensures
        final(buf)@ == old(buf)@ + dsep(tag@),
{
    let bytes = tag.as_bytes();
    proof {
        is_ascii_spec_bytes(tag);
    }
    buf.push(bytes.len() as u8);
    push_bytes(buf, bytes);
    assert(bytes@ =~= ascii_bytes(tag@));
    assert(final(buf)@ =~= old(buf)@ + dsep(tag@));
}

/// Hashes `payload` under the domain of the ASCII tag `tag`.
pub fn hash_with_domain(tag: &str, payload: &[u8]) -> (r: [u8; 32])
    requires
        is_ascii(tag),
        tag@.len() < 256,
    ensures
        r@ == domain_hash(tag@, payload@),
{
    let mut buf: Vec<u8> = Vec::new();
    push_dsep(&mut buf, tag);
    push_bytes(&mut buf, payload);
    assert(buf@ =~= dsep(tag@) + payload@);
    sha256(buf.as_slice())
}

} // verus!
