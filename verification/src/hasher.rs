use vstd::prelude::*;

use crate::formats::{ext_of, extension, is_supported, kind_of, ImgKind};

verus! {

/// Largest input length the digest accepts, in bytes.
pub const MAX_DIGEST_INPUT: u64 = 0x2000000000000000;

/// The SHA-1 digest of the input: 20 bytes, a pure function of the input.
pub uninterp spec fn sha1_of(data: Seq<u8>) -> Seq<u8>;

/// Relies on ring::digest::digest with SHA1_FOR_LEGACY_USE_ONLY: a 20-byte
/// digest computed from the input bytes alone. The length bound keeps the
/// input under the algorithm's limit, past which ring panics.
#[verifier::external_body]
pub(crate) fn sha1(data: &Vec<u8>) -> (r: Vec<u8>)
    requires
        data@.len() < MAX_DIGEST_INPUT,
    ensures
        r@ == sha1_of(data@),
        r@.len() == 20,
{
    let digest = ring::digest::digest(&ring::digest::SHA1_FOR_LEGACY_USE_ONLY, data.as_slice());
    digest.as_ref().to_vec()
}

/// The lowercase hex digit for a value below 16, as an ASCII byte.
pub open spec fn hex_digit(n: int) -> u8
    recommends
        0 <= n < 16,
{
    if n < 10 {
        (48 + n) as u8
    } else {
        (87 + n) as u8
    }
}

/// Lowercase hexadecimal encoding: two digits per input byte, high nibble
/// first.
pub open spec fn hex_of(data: Seq<u8>) -> Seq<u8> {
    Seq::new(
        data.len() * 2,
        |i: int|
            if i % 2 == 0 {
                hex_digit(data[i / 2] as int / 16)
            } else {
                hex_digit(data[i / 2] as int % 16)
            },
    )
}

/// Relies on data_encoding::HEXLOWER.encode: lowercase hex, two digits per
/// byte, high nibble first.
#[verifier::external_body]
pub(crate) fn hex_lower(data: &Vec<u8>) -> (r: Vec<u8>)
    ensures
        r@ == hex_of(data@),
{
    data_encoding::HEXLOWER.encode(data.as_slice()).into_bytes()
}

/// The content-derived blob identifier: lowercase hex of the digest, a
/// dot, and the format's extension. Identical bytes and format always
/// yield the identical identifier; it doubles as the storage path suffix.
pub open spec fn blob_name_of(data: Seq<u8>, kind: ImgKind) -> Seq<u8> {
    hex_of(sha1_of(data)) + seq![46u8] + ext_of(kind)
}

/// Content Hasher: derive the blob identifier for a payload of a supported
/// format.
pub fn blob_identifier(data: &Vec<u8>, kind: ImgKind) -> (r: Vec<u8>)
    requires
        is_supported(kind),
        data@.len() < MAX_DIGEST_INPUT,
    ensures
        r@ == blob_name_of(data@, kind),
{
    let digest = sha1(data);
    let mut name = hex_lower(&digest);
    name.push(46);
    let mut ext = extension(kind);
    name.append(&mut ext);
    proof {
        assert(name@ =~= blob_name_of(data@, kind));
    }
    name
}

/// Detect the payload's format and, when it is supported, derive the blob
/// identifier it would be stored under. Mirrors exactly the accept test
/// that batch ingest applies per item.
pub fn blob_name_for(data: &Vec<u8>) -> (r: Option<Vec<u8>>)
    requires
        data@.len() < MAX_DIGEST_INPUT,
    ensures
        r is Some <==> (kind_of(data@) is Some && is_supported(kind_of(data@)->Some_0)),
        r matches Some(v) ==> v@ == blob_name_of(data@, kind_of(data@)->Some_0),
{
    match crate::formats::detect_format(data) {
        Some(kind) => {
            if crate::formats::supported(kind) {
                Some(blob_identifier(data, kind))
            } else {
                None
            }
        }
        None => None,
    }
}

} // verus!
