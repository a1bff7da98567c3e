//! Content codings: their wire tokens, which of them this server applies, and compression.
use std::io::Read;
use vstd::prelude::*;

use crate::bytes::range_eq;
use crate::text::{
    txt_aes128gcm, txt_aes128gcm_vec, txt_br, txt_br_vec, txt_compress, txt_compress_vec,
    txt_deflate, txt_deflate_vec, txt_exi, txt_exi_vec, txt_gzip, txt_gzip_vec, txt_identity,
    txt_identity_vec, txt_pack200_gzip, txt_pack200_gzip_vec, txt_zstd, txt_zstd_vec,
};

verus! {

/// The registered content codings.
#[derive(Debug, Clone, Copy, PartialEq, Eq, Structural)]
pub enum ContentEncoding {
    Aes128gcm,
    Br,
    Compress,
    Deflate,
    Exi,
    Gzip,
    Identity,
    Pack200gzip,
    Zstd,
}

pub const DEFAULT_ENCODING: ContentEncoding = ContentEncoding::Identity;

/// The codings this server can apply to a body.
pub open spec fn supported(e: ContentEncoding) -> bool {
    e == ContentEncoding::Gzip || e == ContentEncoding::Identity
}

/// The wire token of a coding.
pub open spec fn token_of(e: ContentEncoding) -> Seq<u8> {
    match e {
        ContentEncoding::Aes128gcm => txt_aes128gcm(),
        ContentEncoding::Br => txt_br(),
        ContentEncoding::Compress => txt_compress(),
        ContentEncoding::Deflate => txt_deflate(),
        ContentEncoding::Exi => txt_exi(),
        ContentEncoding::Gzip => txt_gzip(),
        ContentEncoding::Identity => txt_identity(),
        ContentEncoding::Pack200gzip => txt_pack200_gzip(),
        ContentEncoding::Zstd => txt_zstd(),
    }
}

/// The coding a token names; a token that starts with `*` names the default.
pub open spec fn coding_of_token(t: Seq<u8>) -> Option<ContentEncoding> {
    if t.len() > 0 && t[0] == 42 {
        Some(DEFAULT_ENCODING)
    } else if t == txt_aes128gcm() {
        Some(ContentEncoding::Aes128gcm)
    } else if t == txt_br() {
        Some(ContentEncoding::Br)
    } else if t == txt_compress() {
        Some(ContentEncoding::Compress)
    } else if t == txt_deflate() {
        Some(ContentEncoding::Deflate)
    } else if t == txt_exi() {
        Some(ContentEncoding::Exi)
    } else if t == txt_gzip() {
        Some(ContentEncoding::Gzip)
    } else if t == txt_identity() {
        Some(ContentEncoding::Identity)
    } else if t == txt_pack200_gzip() {
        Some(ContentEncoding::Pack200gzip)
    } else if t == txt_zstd() {
        Some(ContentEncoding::Zstd)
    } else {
        None
    }
}

impl ContentEncoding {
    pub fn is_supported(&self) -> (r: bool)
        ensures
            r == supported(*self),
    {
        match self {
            ContentEncoding::Gzip | ContentEncoding::Identity => true,
            _ => false,
        }
    }

    /// The wire token, as it stands in `content-encoding`.
    pub fn token(&self) -> (r: Vec<u8>)
        ensures
            r@ == token_of(*self),
    {
        match self {
            ContentEncoding::Aes128gcm => txt_aes128gcm_vec(),
            ContentEncoding::Br => txt_br_vec(),
            ContentEncoding::Compress => txt_compress_vec(),
            ContentEncoding::Deflate => txt_deflate_vec(),
            ContentEncoding::Exi => txt_exi_vec(),
            ContentEncoding::Gzip => txt_gzip_vec(),
            ContentEncoding::Identity => txt_identity_vec(),
            ContentEncoding::Pack200gzip => txt_pack200_gzip_vec(),
            ContentEncoding::Zstd => txt_zstd_vec(),
        }
    }

    /// The coding named by the token `s[lo..hi]`.
    pub fn from_token(s: &[u8], lo: usize, hi: usize) -> (r: Option<ContentEncoding>)
        requires
            lo <= hi <= s@.len(),
        ensures
            r == coding_of_token(s@.subrange(lo as int, hi as int)),
    {
        if lo < hi && s[lo] == 42 {
            return Some(DEFAULT_ENCODING);
        }
        if range_eq(s, lo, hi, txt_aes128gcm_vec().as_slice()) {
            Some(ContentEncoding::Aes128gcm)
        } else if range_eq(s, lo, hi, txt_br_vec().as_slice()) {
            Some(ContentEncoding::Br)
        } else if range_eq(s, lo, hi, txt_compress_vec().as_slice()) {
            Some(ContentEncoding::Compress)
        } else if range_eq(s, lo, hi, txt_deflate_vec().as_slice()) {
            Some(ContentEncoding::Deflate)
        } else if range_eq(s, lo, hi, txt_exi_vec().as_slice()) {
            Some(ContentEncoding::Exi)
        } else if range_eq(s, lo, hi, txt_gzip_vec().as_slice()) {
            Some(ContentEncoding::Gzip)
        } else if range_eq(s, lo, hi, txt_identity_vec().as_slice()) {
            Some(ContentEncoding::Identity)
        } else if range_eq(s, lo, hi, txt_pack200_gzip_vec().as_slice()) {
            Some(ContentEncoding::Pack200gzip)
        } else if range_eq(s, lo, hi, txt_zstd_vec().as_slice()) {
            Some(ContentEncoding::Zstd)
        } else {
            None
        }
    }
}

/// The gzip stream that flate2 writes for `data` at its fastest level.
pub uninterp spec fn gzip_of(data: Seq<u8>) -> Seq<u8>;

/// The raw deflate stream that flate2 writes for `data` at its fastest level.
pub uninterp spec fn deflate_of(data: Seq<u8>) -> Seq<u8>;

/// Relies on flate2's `read::GzEncoder` at `Compression::fast()`: reading it to the end
/// yields the gzip stream of `data`; its header has no time stamp, so the result depends
/// on `data` alone.
#[verifier::external_body]
fn gzip_fast(data: &[u8]) -> (r: Option<Vec<u8>>)
    ensures
        r matches Some(v) ==> v@ == gzip_of(data@),
{
    let mut out = Vec::new();
    match flate2::read::GzEncoder::new(data, flate2::Compression::fast()).read_to_end(&mut out) {
        Ok(_) => Some(out),
        Err(_) => None,
    }
}

/// Relies on flate2's `read::DeflateEncoder` at `Compression::fast()`: reading it to the
/// end yields the deflate stream of `data`.
#[verifier::external_body]
fn deflate_fast(data: &[u8]) -> (r: Option<Vec<u8>>)
    ensures
        r matches Some(v) ==> v@ == deflate_of(data@),
{
    let mut out = Vec::new();
    match flate2::read::DeflateEncoder::new(data, flate2::Compression::fast()).read_to_end(
        &mut out,
    ) {
        Ok(_) => Some(out),
        Err(_) => None,
    }
}

/// What `compress` produces when the encoder does not fail.
pub open spec fn encoded(data: Seq<u8>, e: ContentEncoding) -> Option<Seq<u8>> {
    match e {
        ContentEncoding::Identity => Some(data),
        ContentEncoding::Gzip => Some(gzip_of(data)),
        ContentEncoding::Deflate => Some(deflate_of(data)),
        _ => None,
    }
}

pub struct Compressor {}

impl Compressor {
    /// Applies a coding to `data`. `None` for a coding this server cannot apply, or when
    /// the encoder fails.
    pub fn compress(data: &[u8], content_encoding: ContentEncoding) -> (r: Option<Vec<u8>>)
        ensures
            r matches Some(v) ==> encoded(data@, content_encoding) == Some(v@),
            encoded(data@, content_encoding) is None ==> r is None,
            content_encoding == ContentEncoding::Identity ==> r is Some,
    {
        match content_encoding {
            ContentEncoding::Gzip => gzip_fast(data),
            ContentEncoding::Deflate => deflate_fast(data),
            ContentEncoding::Identity => Some(crate::bytes::copy_range(data, 0, data.len())),
            _ => None,
        }
    }
}

} // verus!
