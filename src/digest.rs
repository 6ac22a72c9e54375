//! Content hashing: SHA-256 over the bytes, salted with the owner's id.
use sha2::{Digest, Sha256};
use vstd::prelude::*;
use vstd::string::StringSliceAdditionalSpecFns;

verus! {

/// The SHA-256 digest of `b`, written as lowercase hex.
pub uninterp spec fn sha256_hex(b: Seq<u8>) -> Seq<char>;

pub open spec fn is_lower_hex(c: char) -> bool {
    ('0' <= c && c <= '9') || ('a' <= c && c <= 'f')
}

/// A hex digest as the store keys objects by: 64 lowercase hex digits.
pub open spec fn is_digest(s: Seq<char>) -> bool {
    s.len() == 64 && forall|i: int| 0 <= i < s.len() ==> is_lower_hex(#[trigger] s[i])
}

/// Relies on sha2's `Sha256` (`new`, `update`, `finalize`) and on the
/// `LowerHex` formatting of the digest array: two lowercase hex digits for
/// each of the 32 digest bytes.
#[verifier::external_body]
fn sha256_hex_string(b: &[u8]) -> (r: String)
    ensures
        r@ == sha256_hex(b@),
        is_digest(r@),
{
    let mut hasher = Sha256::new();
    hasher.update(b);
    format!("{:x}", hasher.finalize())
}

/// The little-endian bytes of an id.
pub open spec fn le_bytes(v: i32) -> Seq<u8> {
    let u = v as u32;
    seq![(u & 0xff) as u8, ((u >> 8u32) & 0xff) as u8, ((u >> 16u32) & 0xff) as u8, ((u >> 24u32) & 0xff) as u8]
}

/// What an object's hash is taken over: its bytes, then the owner's id.
pub open spec fn salted(data: Seq<u8>, owner: Option<i32>) -> Seq<u8> {
    match owner {
        Some(id) => data + le_bytes(id),
        None => data,
    }
}

/// The key of an object: the same bytes from two owners give two keys.
pub open spec fn content_key(data: Seq<u8>, owner: Option<i32>) -> Seq<char> {
    sha256_hex(salted(data, owner))
}

/// The content hash of `data` uploaded by `owner`.
pub fn content_hash(data: &[u8], owner: Option<i32>) -> (r: String)
    ensures
        r@ == content_key(data@, owner),
        is_digest(r@),
{
    let mut buf: Vec<u8> = Vec::new();
    let mut i: usize = 0;
    while i < data.len()
        invariant
            i <= data@.len(),
            buf@ == data@.subrange(0, i as int),
        decreases data@.len() - i,
    {
        buf.push(data[i]);
        i = i + 1;
        assert(buf@ =~= data@.subrange(0, i as int));
    }
    assert(buf@ =~= data@);
    match owner {
        Some(id) => {
            let u = id as u32;
            buf.push((u & 0xff) as u8);
            buf.push(((u >> 8u32) & 0xff) as u8);
            buf.push(((u >> 16u32) & 0xff) as u8);
            buf.push(((u >> 24u32) & 0xff) as u8);
            assert(buf@ =~= data@ + le_bytes(id));
        },
        None => {},
    }
    sha256_hex_string(buf.as_slice())
}

/// The digest of a token's text, which is what the token table stores.
pub fn hash_text(text: &str) -> (r: String)
    ensures
        r@ == sha256_hex(text.spec_bytes()),
        is_digest(r@),
{
    sha256_hex_string(text.as_bytes())
}

/// What a cache key is taken over: the original's hash, `@`, the transform.
pub open spec fn cache_key_input(original: &str, transform: &str) -> Seq<u8> {
    original.spec_bytes() + seq![0x40u8] + transform.spec_bytes()
}

/// The key of the artifact that `transform` derives from an object.
pub fn cache_key(original: &str, transform: &str) -> (r: String)
    ensures
        r@ == sha256_hex(cache_key_input(original, transform)),
        is_digest(r@),
{
    let a = original.as_bytes();
    let b = transform.as_bytes();
    let mut buf: Vec<u8> = Vec::new();
    let mut i: usize = 0;
    while i < a.len()
        invariant
            i <= a@.len(),
            buf@ == a@.subrange(0, i as int),
        decreases a@.len() - i,
    {
        buf.push(a[i]);
        i = i + 1;
        assert(buf@ =~= a@.subrange(0, i as int));
    }
    buf.push(0x40u8);
    let ghost head = buf@;
    assert(head =~= a@ + seq![0x40u8]);
    let mut j: usize = 0;
    while j < b.len()
        invariant
            j <= b@.len(),
            buf@ == head + b@.subrange(0, j as int),
        decreases b@.len() - j,
    {
        buf.push(b[j]);
        j = j + 1;
        assert(buf@ =~= head + b@.subrange(0, j as int));
    }
    assert(buf@ =~= original.spec_bytes() + seq![0x40u8] + transform.spec_bytes());
    sha256_hex_string(buf.as_slice())
}

} // verus!
