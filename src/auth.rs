//! The `Authorization` schemes and the check of Basic credentials.
use base64::Engine;
use vstd::prelude::*;
use vstd::string::StringSliceAdditionalSpecFns;
use vstd::utf8::encode_utf8;

use crate::bytes::{bytes_eq, range_eq};
use crate::text::{txt_basic, txt_basic_vec, txt_bearer, txt_bearer_vec, txt_default_login, txt_default_login_vec};

verus! {

#[derive(Debug, Clone, Copy, PartialEq, Eq, Structural)]
pub enum AuthMethod {
    Basic,
    Bearer,
}

/// The scheme a token names, as it is written in `Authorization`.
pub open spec fn auth_method_of(t: Seq<u8>) -> Option<AuthMethod> {
    if t == txt_basic() {
        Some(AuthMethod::Basic)
    } else if t == txt_bearer() {
        Some(AuthMethod::Bearer)
    } else {
        None
    }
}

pub open spec fn auth_method_name(m: AuthMethod) -> Seq<u8> {
    match m {
        AuthMethod::Basic => txt_basic(),
        AuthMethod::Bearer => txt_bearer(),
    }
}

impl AuthMethod {
    /// The scheme named by `s[lo..hi]`.
    pub fn from_token(s: &[u8], lo: usize, hi: usize) -> (r: Option<AuthMethod>)
        requires
            lo <= hi <= s@.len(),
        ensures
            r == auth_method_of(s@.subrange(lo as int, hi as int)),
    {
        if range_eq(s, lo, hi, txt_basic_vec().as_slice()) {
            Some(AuthMethod::Basic)
        } else if range_eq(s, lo, hi, txt_bearer_vec().as_slice()) {
            Some(AuthMethod::Bearer)
        } else {
            None
        }
    }

    /// The scheme's name, as `WWW-Authenticate` carries it.
    pub fn name(&self) -> (r: Vec<u8>)
        ensures
            r@ == auth_method_name(*self),
    {
        match self {
            AuthMethod::Basic => txt_basic_vec(),
            AuthMethod::Bearer => txt_bearer_vec(),
        }
    }
}

/// The standard (padded) base64 text of `data`.
pub uninterp spec fn base64_standard(data: Seq<u8>) -> Seq<char>;

/// Relies on base64's `engine::general_purpose::STANDARD.encode`: the padded base64
/// text of the input, a function of the input alone.
#[verifier::external_body]
fn base64_encode(data: &[u8]) -> (r: String)
    ensures
        r@ == base64_standard(data@),
{
    base64::engine::general_purpose::STANDARD.encode(data)
}

/// The bytes a client sends after `Basic ` when it holds the default credentials.
pub open spec fn default_credential_bytes() -> Seq<u8> {
    encode_utf8(base64_standard(txt_default_login()))
}

pub struct Authenticator {}

impl Authenticator {
    /// The base64 form of the server's `user:password` pair.
    pub fn default_credentials() -> (r: String)
        ensures
            r@ == base64_standard(txt_default_login()),
    {
        let login = txt_default_login_vec();
        base64_encode(login.as_slice())
    }

    /// Checks credentials of the Basic scheme, the one scheme this server implements.
    pub fn authenticate(data: &[u8], auth_type: &AuthMethod) -> (r: bool)
        requires
            *auth_type == AuthMethod::Basic,
        ensures
            r == (data@ == default_credential_bytes()),
    {
        let expected = Self::default_credentials();
        bytes_eq(data, expected.as_str().as_bytes())
    }
}

} // verus!
