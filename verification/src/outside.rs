//! Trusted declarations for the outside crates the library leans on: zstd
//! compression, SHA-256 digests, and UTF-8 decoding from `std`.
//!
//! Each wrapper's contract states only what the called function's source or
//! documentation plainly gives; everything built on top of these contracts is
//! verified.

use vstd::prelude::*;

use vstd::utf8::{encode_utf8, valid_utf8};

verus! {

/// The `std::io::Error` type, declared so wrappers can return it; verified
/// code maps it to the library's own error kinds without reading it.
#[verifier::external_type_specification]
#[verifier::external_body]
pub struct ExIoError(std::io::Error);

/// The zstd frame produced by compressing the given bytes at the given
/// level. Compression at a fixed level is a function of its input alone for
/// the zstd build the crate pins; a different library version could emit a
/// different frame, so the dependency's version must stay pinned while this
/// name is relied on.
pub uninterp spec fn zstd_frame_of(level: int, data: Seq<u8>) -> Seq<u8>;

/// The SHA-256 digest of the given bytes.
pub uninterp spec fn sha256_of(data: Seq<u8>) -> Seq<u8>;

/// Relies on `zstd::stream::encode_all`: compresses the input into a zstd
/// frame; decompressing that frame yields the input again.
#[verifier::external_body]
pub fn zstd_compress(data: &Vec<u8>, level: i32) -> (r: Result<Vec<u8>, std::io::Error>)
    ensures
        r matches Ok(c) ==> c@ == zstd_frame_of(level as int, data@),
{
    zstd::stream::encode_all(data.as_slice(), level)
}

/// Relies on `zstd::stream::decode_all`: decompressing a zstd frame yields
/// exactly the bytes that were compressed into it.
#[verifier::external_body]
pub fn zstd_decompress(data: &Vec<u8>) -> (r: Result<Vec<u8>, std::io::Error>)
    ensures
        r matches Ok(b) ==> forall|level: int, orig: Seq<u8>|
            data@ == #[trigger] zstd_frame_of(level, orig) ==> b@ == orig,
        r is Err ==> forall|level: int, orig: Seq<u8>|
            data@ != #[trigger] zstd_frame_of(level, orig),
{
    zstd::stream::decode_all(data.as_slice())
}

/// Relies on `sha2::Sha256` (through `Digest::digest`): the 32-byte SHA-256
/// digest of the input, a function of the input alone.
#[verifier::external_body]
pub fn sha256(data: &Vec<u8>) -> (r: Vec<u8>)
    ensures
        r@ == sha256_of(data@),
        r@.len() == 32,
{
    <sha2::Sha256 as sha2::Digest>::digest(data.as_slice()).to_vec()
}

/// Relies on `char::from_u32`: a successful conversion returns the character
/// with the given code.
#[verifier::external_body]
pub fn char_from_u32(u: u32) -> (r: Option<char>)
    ensures
        r matches Some(c) ==> c as u32 == u,
{
    char::from_u32(u)
}

/// Relies on `String::from_utf8`: succeeds exactly on valid UTF-8 and
/// returns the string those bytes encode.
#[verifier::external_body]
pub fn string_from_utf8(bytes: Vec<u8>) -> (r: Option<String>)
    ensures
        match r {
            Some(s) => valid_utf8(bytes@) && encode_utf8(s@) == bytes@,
            None => !valid_utf8(bytes@),
        },
{
    String::from_utf8(bytes).ok()
}

} // verus!
