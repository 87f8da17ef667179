//! The two digests of the backup: the metadata fingerprint that keys the
//! memo of content hashes, and the keyed content hash that identifies file
//! bytes for deduplication.
use vstd::prelude::*;
use hmac::Mac;
use sha2::Digest;
use crate::text::{encode_upper_hex, upper_hex};
use vstd::string::StringSliceAdditionalSpecFns;

verus! {

/// The SHA-512 digest of a byte sequence.
pub uninterp spec fn sha512_of(data: Seq<u8>) -> Seq<u8>;

/// The HMAC-SHA-512 of `data` under `key`.
pub uninterp spec fn hmac_sha512_of(key: Seq<u8>, data: Seq<u8>) -> Seq<u8>;

/// Relies on sha2's `Sha512::digest`: the SHA-512 digest of the bytes, 64
/// bytes long.
#[verifier::external_body]
fn sha512(data: &[u8]) -> (r: Vec<u8>)
    ensures
        r@ == sha512_of(data@),
        r@.len() == 64,
{
    sha2::Sha512::digest(data).to_vec()
}

/// Relies on hmac's `Hmac<Sha512>` (`new_from_slice`, `update`, `finalize`):
/// the HMAC-SHA-512 of the data under the key, 64 bytes long. A key of any
/// length is accepted, so `new_from_slice` does not fail.
#[verifier::external_body]
fn hmac_sha512(key: &[u8], data: &[u8]) -> (r: Vec<u8>)
    ensures
        r@ == hmac_sha512_of(key@, data@),
        r@.len() == 64,
{
    let mut mac = <hmac::Hmac<sha2::Sha512> as Mac>::new_from_slice(key)
        .expect("HMAC takes a key of any size");
    mac.update(data);
    mac.finalize().into_bytes().to_vec()
}

/// The `k` low-order bytes of `x`, least significant first.
pub open spec fn le_bytes(x: nat, k: nat) -> Seq<u8>
    decreases k,
{
    if k == 0 {
        Seq::empty()
    } else {
        seq![(x % 256) as u8] + le_bytes(x / 256, (k - 1) as nat)
    }
}

fn append_le_bytes(out: &mut Vec<u8>, x: u64, k: u64)
    ensures
        final(out)@ == old(out)@ + le_bytes(x as nat, k as nat),
    decreases k,
{
    if k > 0 {
        out.push((x % 256) as u8);
        let ghost mid = out@;
        append_le_bytes(out, x / 256, k - 1);
        assert(old(out)@ + le_bytes(x as nat, k as nat) == mid + le_bytes(
            (x / 256) as nat,
            (k - 1) as nat,
        ));
    } else {
        assert(old(out)@ + le_bytes(x as nat, k as nat) == old(out)@);
    }
}

/// The bytes that the fingerprint digests: the length and the modification
/// time as eight little-endian bytes each, then the path's bytes. Little-endian
/// is the native order of the hosts this runs on (x86-64, aarch64); writing it
/// out keeps fingerprints the same across machines.
pub open spec fn fingerprint_input(len: u64, mtime: i64, path: Seq<u8>) -> Seq<u8> {
    le_bytes(len as nat, 8) + le_bytes(mtime as u64 as nat, 8) + path
}

/// The metadata fingerprint of a file: upper-case hex SHA-512 of its length,
/// modification time and path.
pub open spec fn fingerprint(len: u64, mtime: i64, path: Seq<u8>) -> Seq<char> {
    upper_hex(sha512_of(fingerprint_input(len, mtime, path)))
}

/// The content hash of file bytes under a secret: upper-case hex
/// HMAC-SHA-512.
pub open spec fn content_hash(contents: Seq<u8>, secret: Seq<u8>) -> Seq<char> {
    upper_hex(hmac_sha512_of(secret, contents))
}

/// The metadata fingerprint of a file from its length, modification time
/// (seconds since the epoch) and the raw bytes of its path.
pub fn metadata(len: u64, mtime: i64, path: &[u8]) -> (r: String)
    ensures
        r@ == fingerprint(len, mtime, path@),
        r@.len() == 128,
{
    let mut input: Vec<u8> = Vec::new();
    append_le_bytes(&mut input, len, 8);
    append_le_bytes(&mut input, mtime as u64, 8);
    let mut i: usize = 0;
    let ghost head = input@;
    while i < path.len()
        invariant
            i <= path@.len(),
            input@ == head + path@.subrange(0, i as int),
        decreases path@.len() - i,
    {
        input.push(path[i]);
        assert(path@.subrange(0, i + 1) == path@.subrange(0, i as int).push(path@[i as int]));
        i = i + 1;
    }
    assert(path@.subrange(0, path@.len() as int) == path@);
    assert(input@ == fingerprint_input(len, mtime, path@));
    let digest = sha512(input.as_slice());
    encode_upper_hex(digest.as_slice())
}

/// The content hash of a file's bytes under the deployment's secret.
pub fn data(contents: &[u8], hmac_secret: &str) -> (r: String)
    ensures
        r@ == content_hash(contents@, hmac_secret.spec_bytes()),
        r@.len() == 128,
{
    let digest = hmac_sha512(hmac_secret.as_bytes(), contents);
    encode_upper_hex(digest.as_slice())
}

} // verus!
