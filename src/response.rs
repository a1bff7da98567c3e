//! Building responses, writing them as bytes, and choosing the response to a request.
use vstd::prelude::*;
use vstd::string::StringSliceAdditionalSpecFns;

use crate::auth::{default_credential_bytes, AuthMethod, Authenticator};
use vstd::utf8::{pop_first_scalar, valid_utf8, valid_utf8_concat};

use crate::bytes::{
    is_ws, lemma_decimal_digits, lower, parse_u64_spec, trim, trim_end, trim_start, find_in, bytes_eq, copy_range, decimal, push_all, push_decimal, range_eq,
};
use crate::common::{
    code_value, header_insert, header_lookup, header_view, ErrorCode, HttpMessageContent,
    InternalHttpError, RequestError, ResponseCode, SuccessCode, Range, MAX_HEADERS_AMOUNT,
    MAX_HEADER_SIZE, Ranges, range_text,
    lemma_key_index, lemma_insert_other, lemma_insert_keeps, lemma_insert_lookup_all, key_index, content_type_spec,
};
use crate::request::{
    auth_info_spec, headers_from, line_end, parse_header_spec, HttpRequest, HttpRequestMethod,
    ParseFailure,
};
use crate::compressor::{encoded, token_of, Compressor, ContentEncoding};
use crate::text::{
    txt_accept_ranges, txt_accept_ranges_vec, txt_allow, txt_allow_vec, txt_allowed_methods,
    txt_allowed_methods_vec, txt_authorization, txt_authorization_vec, txt_bad_request,
    txt_bad_request_vec, txt_basic, txt_boundary, txt_boundary_vec, txt_bytes_unit,
    txt_bytes_unit_vec, txt_content_encoding, txt_content_encoding_vec, txt_content_length,
    txt_content_length_vec, txt_content_range, txt_content_range_vec, txt_content_too_large,
    txt_content_too_large_vec, txt_content_type, txt_content_type_vec, txt_created,
    txt_created_vec, txt_date, txt_date_vec, txt_echo_prefix, txt_echo_prefix_vec,
    txt_files_prefix, txt_files_prefix_vec, txt_http_slash, txt_http_slash_vec,
    txt_http_version_not_supported, txt_http_version_not_supported_vec,
    txt_internal_server_error, txt_internal_server_error_vec, txt_multipart_prefix,
    txt_multipart_prefix_vec, txt_not_acceptable, txt_not_acceptable_vec, txt_not_found,
    txt_not_found_vec, txt_not_implemented, txt_not_implemented_vec, txt_ok_upper,
    txt_ok_upper_vec, txt_part_content_range, txt_part_content_range_vec, txt_part_content_type,
    txt_part_content_type_vec, txt_partial_content, txt_partial_content_vec,
    txt_request_header_fields_too_large, txt_request_header_fields_too_large_vec,
    txt_request_timeout, txt_request_timeout_vec, txt_root_path, txt_root_path_vec, txt_server,
    txt_server_name, txt_server_name_vec, txt_server_vec, txt_text_plain, txt_text_plain_vec,
    txt_unauthorized, txt_unauthorized_vec, txt_unsupported_media_type,
    txt_unsupported_media_type_vec, txt_uri_too_long, txt_uri_too_long_vec, txt_user_agent,
    txt_user_agent_path, txt_user_agent_path_vec, txt_user_agent_vec, txt_version_1_1,
    txt_version_1_1_vec, txt_www_authenticate, txt_www_authenticate_vec,
};

verus! {

/// The name of a status, as its variant is spelled.
pub open spec fn variant_name(c: ResponseCode) -> Seq<u8> {
    match c {
        ResponseCode::Success(s) => match s {
            SuccessCode::OK => txt_ok_upper(),
            SuccessCode::Created => txt_created(),
            SuccessCode::PartialContent => txt_partial_content(),
        },
        ResponseCode::Error(e) => match e {
            ErrorCode::BadRequest => txt_bad_request(),
            ErrorCode::Unauthorized => txt_unauthorized(),
            ErrorCode::NotFound => txt_not_found(),
            ErrorCode::NotAcceptable => txt_not_acceptable(),
            ErrorCode::RequestTimeout => txt_request_timeout(),
            ErrorCode::ContentTooLarge => txt_content_too_large(),
            ErrorCode::URITooLong => txt_uri_too_long(),
            ErrorCode::UnsupportedMediaType => txt_unsupported_media_type(),
            ErrorCode::RequestHeaderFieldsTooLarge => txt_request_header_fields_too_large(),
            ErrorCode::InternalServerError => txt_internal_server_error(),
            ErrorCode::NotImplemented => txt_not_implemented(),
            ErrorCode::HTTPVersionNotSupported => txt_http_version_not_supported(),
        },
    }
}

fn variant_name_vec(c: ResponseCode) -> (r: Vec<u8>)
    ensures
        r@ == variant_name(c),
{
    match c {
        ResponseCode::Success(s) => match s {
            SuccessCode::OK => txt_ok_upper_vec(),
            SuccessCode::Created => txt_created_vec(),
            SuccessCode::PartialContent => txt_partial_content_vec(),
        },
        ResponseCode::Error(e) => match e {
            ErrorCode::BadRequest => txt_bad_request_vec(),
            ErrorCode::Unauthorized => txt_unauthorized_vec(),
            ErrorCode::NotFound => txt_not_found_vec(),
            ErrorCode::NotAcceptable => txt_not_acceptable_vec(),
            ErrorCode::RequestTimeout => txt_request_timeout_vec(),
            ErrorCode::ContentTooLarge => txt_content_too_large_vec(),
            ErrorCode::URITooLong => txt_uri_too_long_vec(),
            ErrorCode::UnsupportedMediaType => txt_unsupported_media_type_vec(),
            ErrorCode::RequestHeaderFieldsTooLarge => txt_request_header_fields_too_large_vec(),
            ErrorCode::InternalServerError => txt_internal_server_error_vec(),
            ErrorCode::NotImplemented => txt_not_implemented_vec(),
            ErrorCode::HTTPVersionNotSupported => txt_http_version_not_supported_vec(),
        },
    }
}

pub open spec fn is_upper(b: u8) -> bool {
    65 <= b <= 90
}

/// Words of a camel-case name: a space before every capital but the first character.
pub open spec fn split_camel_case(s: Seq<u8>) -> Seq<u8>
    decreases s.len(),
{
    if s.len() == 0 {
        Seq::empty()
    } else if s.len() > 1 && is_upper(s.last()) {
        split_camel_case(s.drop_last()) + seq![32u8, s.last()]
    } else {
        split_camel_case(s.drop_last()).push(s.last())
    }
}

/// The reason phrase of the status line.
pub open spec fn reason_phrase(c: ResponseCode) -> Seq<u8> {
    if c == ResponseCode::Success(SuccessCode::OK) {
        txt_ok_upper()
    } else {
        split_camel_case(variant_name(c))
    }
}

pub fn split_camel_case_exec(s: &[u8]) -> (r: Vec<u8>)
    ensures
        r@ == split_camel_case(s@),
{
    let mut out: Vec<u8> = Vec::new();
    let mut i: usize = 0;
    while i < s.len()
        invariant
            i <= s@.len(),
            out@ == split_camel_case(s@.subrange(0, i as int)),
        decreases s@.len() - i,
    {
        let c = s[i];
        assert(s@.subrange(0, i + 1).drop_last() =~= s@.subrange(0, i as int));
        if 65 <= c && c <= 90 && i != 0 {
            out.push(32);
        }
        out.push(c);
        assert(out@ =~= split_camel_case(s@.subrange(0, i + 1)));
        i = i + 1;
    }
    assert(s@.subrange(0, i as int) =~= s@);
    out
}

impl ResponseCode {
    pub fn reason_phrase(&self) -> (r: Vec<u8>)
        ensures
            r@ == reason_phrase(*self),
    {
        if *self == ResponseCode::Success(SuccessCode::OK) {
            txt_ok_upper_vec()
        } else {
            let name = variant_name_vec(*self);
            split_camel_case_exec(name.as_slice())
        }
    }
}

#[derive(Debug)]
pub struct HttpResponse {
    pub status_code: ResponseCode,
    pub version: Vec<u8>,
    pub content: HttpMessageContent,
    pub encoding: Option<ContentEncoding>,
}

/// `name: value\r\n` for every header, in order.
pub open spec fn header_lines(hs: Seq<(Seq<u8>, Seq<u8>)>) -> Seq<u8>
    decreases hs.len(),
{
    if hs.len() == 0 {
        Seq::empty()
    } else {
        header_lines(hs.drop_last()) + header_line(hs.last())
    }
}

/// `name: value\r\n`.
pub open spec fn header_line(h: (Seq<u8>, Seq<u8>)) -> Seq<u8> {
    h.0 + seq![58u8, 32u8] + h.1 + seq![13u8, 10u8]
}

/// `HTTP/<version> <code> <phrase>\r\n`.
pub open spec fn status_line(version: Seq<u8>, c: ResponseCode) -> Seq<u8> {
    txt_http_slash() + version + seq![32u8] + decimal(code_value(c) as nat) + seq![32u8]
        + reason_phrase(c) + seq![13u8, 10u8]
}

/// The bytes of a response on the wire.
pub open spec fn serialize(
    version: Seq<u8>,
    c: ResponseCode,
    hs: Seq<(Seq<u8>, Seq<u8>)>,
    body: Seq<u8>,
) -> Seq<u8> {
    status_line(version, c) + header_lines(hs) + seq![13u8, 10u8] + body
}

/// The headers every response starts with: `accept-ranges`, `date`, `server`, and the
/// coding when one was negotiated.
pub open spec fn initial_headers(date: Seq<u8>, encoding: Option<ContentEncoding>) -> Seq<
    (Seq<u8>, Seq<u8>),
> {
    let base = seq![
        (txt_accept_ranges(), txt_bytes_unit()),
        (txt_date(), date),
        (txt_server(), txt_server_name()),
    ];
    match encoding {
        Some(e) => base.push((txt_content_encoding(), token_of(e))),
        None => base,
    }
}

/// Relies on chrono's `Utc::now` and `DateTime::format`: the current time in the
/// `Date` header's format. It depends on the clock, so nothing is stated of it.
#[verifier::external_body]
fn http_date_now() -> (r: Vec<u8>) {
    chrono::Utc::now().format("%a, %d %b %Y %H:%M:%S GMT").to_string().into_bytes()
}

/// `after` is `before` with body `w` and its `content-length`.
pub open spec fn body_set(before: HttpResponse, after: HttpResponse, w: Seq<u8>) -> bool {
    &&& after.content.body@ == w
    &&& after.status_code == before.status_code
    &&& after.content.headers_spec() == header_insert(
        before.content.headers_spec(),
        txt_content_length(),
        decimal(w.len() as nat),
    )
}

/// `after` is `before` turned into a 500 with an empty body, the coding having failed.
pub open spec fn body_failed(before: HttpResponse, after: HttpResponse) -> bool {
    &&& after.content.body@.len() == 0
    &&& after.status_code == ResponseCode::Error(ErrorCode::InternalServerError)
    &&& after.content.headers_spec() == header_insert(
        before.content.headers_spec(),
        txt_content_length(),
        decimal(0),
    )
}

/// `after` is `before` with body `b` sent through `before`'s coding: always for none or
/// identity; for another coding either its output or, when the encoder fails or the
/// coding is one this server cannot apply, a 500 with an empty body.
pub open spec fn body_applied(before: HttpResponse, after: HttpResponse, b: Seq<u8>) -> bool {
    match before.encoding {
        None => body_set(before, after, b),
        Some(e) => if e == ContentEncoding::Identity {
            body_set(before, after, b)
        } else {
            match encoded(b, e) {
                Some(w) => body_set(before, after, w) || body_failed(before, after),
                None => body_failed(before, after),
            }
        },
    }
}

/// `after` is `before` with only `content-length` set, to the length of `b`.
pub open spec fn length_only(before: HttpResponse, after: HttpResponse, b: Seq<u8>) -> bool {
    &&& after.content.body@ == before.content.body@
    &&& after.status_code == before.status_code
    &&& after.content.headers_spec() == header_insert(
        before.content.headers_spec(),
        txt_content_length(),
        decimal(b.len() as nat),
    )
}

/// The response `x` to `req` carries `b` with status `status`: for HEAD no body and the
/// length of `b` in `content-length`; otherwise `b` through the negotiated coding with its
/// length, or a 500 with an empty body when a coding other than identity fails.
pub open spec fn answer_with(req: HttpRequest, x: HttpResponse, b: Seq<u8>, status: ResponseCode) -> bool {
    let cl = header_lookup(x.content.headers_spec(), txt_content_length());
    let failed = x.status_code == ResponseCode::Error(ErrorCode::InternalServerError)
        && x.content.body@.len() == 0 && cl == Some(decimal(0));
    if req.request_line.method == HttpRequestMethod::HEAD {
        x.status_code == status && x.content.body@.len() == 0 && cl == Some(
            decimal(b.len() as nat),
        )
    } else {
        match req.requested_encoding {
            None => x.status_code == status && x.content.body@ == b && cl == Some(
                decimal(b.len() as nat),
            ),
            Some(e) => if e == ContentEncoding::Identity {
                x.status_code == status && x.content.body@ == b && cl == Some(
                    decimal(b.len() as nat),
                )
            } else {
                match encoded(b, e) {
                    Some(w) => (x.status_code == status && x.content.body@ == w && cl == Some(
                        decimal(w.len() as nat),
                    )) || failed,
                    None => failed,
                }
            },
        }
    }
}

/// A builder for `req` with an empty body, finished by `optional_body`, answers with
/// `answer_with`.
pub proof fn lemma_answer(
    req: HttpRequest,
    before: HttpResponse,
    after: HttpResponse,
    b: Seq<u8>,
    send: bool,
)
    requires
        before.encoding == req.requested_encoding,
        before.content.body@.len() == 0,
        send == (req.request_line.method != HttpRequestMethod::HEAD),
        send ==> body_applied(before, after, b),
        !send ==> length_only(before, after, b),
    ensures
        answer_with(req, after, b, before.status_code),
{
    lemma_insert_lookup_all(before.content.headers_spec(), txt_content_length());
}

/// Builds a response: status and headers first, then the body.
pub struct HttpResponseBuilder(pub HttpResponse);

impl HttpResponseBuilder {
    /// A builder whose `date` header holds `date`.
    pub fn with_date(
        status_code: ResponseCode,
        version: &[u8],
        encoding: Option<ContentEncoding>,
        date: Vec<u8>,
    ) -> (r: Self)
        ensures
            r.0.status_code == status_code,
            r.0.version@ == version@,
            r.0.encoding == encoding,
            r.0.content.headers_spec() == initial_headers(date@, encoding),
            r.0.content.body@.len() == 0,
    {
        let ghost d = date@;
        let mut headers: Vec<(Vec<u8>, Vec<u8>)> = Vec::new();
        headers.push((txt_accept_ranges_vec(), txt_bytes_unit_vec()));
        headers.push((txt_date_vec(), date));
        headers.push((txt_server_vec(), txt_server_name_vec()));
        match encoding {
            Some(e) => {
                headers.push((txt_content_encoding_vec(), e.token()));
            },
            None => {},
        }
        let r = HttpResponseBuilder(
            HttpResponse {
                status_code,
                version: copy_range(version, 0, version.len()),
                content: HttpMessageContent::new(headers, Vec::new()),
                encoding,
            },
        );
        assert(version@.subrange(0, version@.len() as int) =~= version@);
        assert(r.0.content.headers_spec() =~= initial_headers(d, encoding));
        r
    }

    /// A builder stamped with the current date.
    pub fn new(status_code: ResponseCode, version: &[u8], encoding: Option<ContentEncoding>) -> (r:
        Self)
        ensures
            r.0.status_code == status_code,
            r.0.version@ == version@,
            r.0.encoding == encoding,
            exists|d: Seq<u8>| r.0.content.headers_spec() == initial_headers(d, encoding),
            r.0.content.body@.len() == 0,
    {
        let date = http_date_now();
        let r = Self::with_date(status_code, version, encoding, date);
        r
    }

    /// A builder for HTTP/1.1 without a negotiated coding.
    pub fn default(status_code: ResponseCode) -> (r: Self)
        ensures
            r.0.status_code == status_code,
            r.0.version@ == txt_version_1_1(),
            r.0.encoding is None,
            exists|d: Seq<u8>| r.0.content.headers_spec() == initial_headers(d, None),
            r.0.content.body@.len() == 0,
    {
        let v = txt_version_1_1_vec();
        Self::new(status_code, v.as_slice(), None)
    }

    pub fn header(self, header_name: &str, header_content: &str) -> (r: Self)
        ensures
            r.0.content.headers_spec() == header_insert(
                self.0.content.headers_spec(),
                crate::bytes::lower(header_name.spec_bytes()),
                header_content.spec_bytes(),
            ),
            r.0.content.body@ == self.0.content.body@,
            r.0.status_code == self.0.status_code,
            r.0.version@ == self.0.version@,
            r.0.encoding == self.0.encoding,
    {
        let mut resp = self.0;
        resp.content.add_header(header_name, header_content);
        HttpResponseBuilder(resp)
    }

    /// Sets a header whose name is already in lower case.
    pub fn header_bytes(self, name: Vec<u8>, value: Vec<u8>) -> (r: Self)
        ensures
            r.0.content.headers_spec() == header_insert(
                self.0.content.headers_spec(),
                name@,
                value@,
            ),
            r.0.content.body@ == self.0.content.body@,
            r.0.status_code == self.0.status_code,
            r.0.version@ == self.0.version@,
            r.0.encoding == self.0.encoding,
    {
        let mut resp = self.0;
        resp.content.insert_header(name, value);
        HttpResponseBuilder(resp)
    }

    /// Sets the body, encoded with the negotiated coding, and its `content-length`. If
    /// the coding cannot be applied the response becomes a 500 with an empty body.
    pub fn body(self, body: &[u8]) -> (r: Self)
        ensures
            r.0.version@ == self.0.version@,
            r.0.encoding == self.0.encoding,
            body_applied(self.0, r.0, body@),
    {
        let mut resp = self.0;
        let wire = match resp.encoding {
            None => Some(copy_range(body, 0, body.len())),
            Some(e) => Compressor::compress(body, e),
        };
        assert(body@.subrange(0, body@.len() as int) =~= body@);
        match wire {
            Some(w) => {
                let mut len_text: Vec<u8> = Vec::new();
                push_decimal(&mut len_text, w.len() as u64);
                assert(len_text@ =~= decimal(w@.len() as nat));
                resp.content.set_body(w);
                resp.content.insert_header(txt_content_length_vec(), len_text);
            },
            None => {
                let mut len_text: Vec<u8> = Vec::new();
                push_decimal(&mut len_text, 0);
                assert(len_text@ =~= decimal(0));
                resp.status_code = ResponseCode::Error(ErrorCode::InternalServerError);
                resp.content.set_body(Vec::new());
                resp.content.insert_header(txt_content_length_vec(), len_text);
            },
        }
        HttpResponseBuilder(resp)
    }

    /// The body when `include_body`; otherwise only `content-length`, with the length the
    /// body has before any coding (the answer to a HEAD request).
    pub fn optional_body(self, body: &[u8], include_body: bool) -> (r: Self)
        ensures
            r.0.version@ == self.0.version@,
            r.0.encoding == self.0.encoding,
            include_body ==> body_applied(self.0, r.0, body@),
            !include_body ==> length_only(self.0, r.0, body@),
    {
        if include_body {
            self.body(body)
        } else {
            let mut len_text: Vec<u8> = Vec::new();
            push_decimal(&mut len_text, body.len() as u64);
            assert(len_text@ =~= decimal(body@.len() as nat));
            self.header_bytes(txt_content_length_vec(), len_text)
        }
    }

    pub fn build(self) -> (r: HttpResponse)
        ensures
            r == self.0,
    {
        self.0
    }
}

impl HttpResponse {
    pub fn status_code(&self) -> (r: ResponseCode)
        ensures
            r == self.status_code,
    {
        self.status_code
    }

    pub fn content(&self) -> (r: &HttpMessageContent)
        ensures
            r == &self.content,
    {
        &self.content
    }

    /// The boundary that separates the parts of a multipart body.
    pub fn partial_content_boundary() -> (r: Vec<u8>)
        ensures
            r@ == txt_boundary(),
    {
        txt_boundary_vec()
    }

    /// The response as it goes on the wire.
    pub fn as_bytes(&self) -> (r: Vec<u8>)
        ensures
            r@ == serialize(
                self.version@,
                self.status_code,
                self.content.headers_spec(),
                self.content.body@,
            ),
    {
        let mut out = txt_http_slash_vec();
        push_all(&mut out, self.version.as_slice());
        out.push(32);
        push_decimal(&mut out, self.status_code.get_code_value() as u64);
        out.push(32);
        let phrase = self.status_code.reason_phrase();
        push_all(&mut out, phrase.as_slice());
        out.push(13);
        out.push(10);
        let ghost head = out@;
        assert(head =~= status_line(self.version@, self.status_code));
        let hs = &self.content.headers;
        let ghost v = self.content.headers_spec();
        let mut i: usize = 0;
        while i < hs.len()
            invariant
                i <= hs@.len(),
                v == header_view(hs@),
                out@ == head + header_lines(v.subrange(0, i as int)),
            decreases hs@.len() - i,
        {
            push_all(&mut out, hs[i].0.as_slice());
            out.push(58);
            out.push(32);
            push_all(&mut out, hs[i].1.as_slice());
            out.push(13);
            out.push(10);
            assert(v.subrange(0, i + 1).drop_last() =~= v.subrange(0, i as int));
            assert(out@ =~= head + header_lines(v.subrange(0, i + 1)));
            i = i + 1;
        }
        assert(v.subrange(0, i as int) =~= v);
        out.push(13);
        out.push(10);
        push_all(&mut out, self.content.body.as_slice());
        out
    }
}

/// The status with which a failed request is answered: a known error keeps its own
/// status, the other HTTP errors are 400, anything else is 500.
pub open spec fn error_status(e: RequestError) -> ResponseCode {
    match e {
        RequestError::Http(h) => match h {
            InternalHttpError::KnownError(c) => ResponseCode::Error(c),
            _ => ResponseCode::Error(ErrorCode::BadRequest),
        },
        _ => ResponseCode::Error(ErrorCode::InternalServerError),
    }
}

pub fn build_http_response_for_invalid_request(error: RequestError) -> (r: HttpResponse)
    ensures
        r.status_code == error_status(error),
        r.version@ == txt_version_1_1(),
        r.content.body@.len() == 0,
        r.encoding is None,
        exists|d: Seq<u8>| r.content.headers_spec() == initial_headers(d, None),
{
    let code = match error {
        RequestError::Http(h) => match h {
            InternalHttpError::KnownError(c) => ResponseCode::Error(c),
            _ => ResponseCode::Error(ErrorCode::BadRequest),
        },
        _ => ResponseCode::Error(ErrorCode::InternalServerError),
    };
    HttpResponseBuilder::default(code).build()
}

/// The bytes of `content` that the part for `r` carries: `from..=to`, clamped to the
/// content.
pub open spec fn part_slice(r: Range, content: Seq<u8>) -> Seq<u8> {
    let end = if r.to >= content.len() {
        content.len() as int
    } else {
        r.to + 1
    };
    let start = if r.from >= end {
        end
    } else {
        r.from as int
    };
    content.subrange(start, end)
}

/// One part of a multipart body: delimiter, part headers, blank line, bytes, line end.
pub open spec fn body_part(r: Range, content_type: Seq<u8>, boundary: Seq<u8>, content: Seq<u8>) -> Seq<u8> {
    seq![45u8, 45u8] + boundary + seq![13u8, 10u8] + txt_part_content_type() + content_type
        + seq![13u8, 10u8] + txt_part_content_range() + range_text(r) + seq![13u8, 10u8, 13u8, 10u8]
        + part_slice(r, content) + seq![13u8, 10u8]
}

pub open spec fn multipart_body(
    rs: Seq<Range>,
    content_type: Seq<u8>,
    boundary: Seq<u8>,
    content: Seq<u8>,
) -> Seq<u8>
    decreases rs.len(),
{
    if rs.len() == 0 {
        Seq::empty()
    } else {
        multipart_body(rs.drop_last(), content_type, boundary, content) + body_part(
            rs.last(),
            content_type,
            boundary,
            content,
        )
    }
}

/// Appends the part for `r` to `out`.
#[verifier::rlimit(40)]
fn push_part(out: &mut Vec<u8>, r: Range, content_type: &[u8], boundary: &[u8], file_content: &[u8])
    ensures
        final(out)@ == old(out)@ + body_part(r, content_type@, boundary@, file_content@),
{
    let mut part: Vec<u8> = Vec::new();
    part.push(45);
    part.push(45);
    push_all(&mut part, boundary);
    part.push(13);
    part.push(10);
    let ghost stage1 = part@;
    assert(stage1 =~= seq![45u8, 45u8] + boundary@ + seq![13u8, 10u8]);
    push_all(&mut part, txt_part_content_type_vec().as_slice());
    push_all(&mut part, content_type);
    part.push(13);
    part.push(10);
    let ghost stage2 = part@;
    assert(stage2 =~= stage1 + txt_part_content_type() + content_type@ + seq![13u8, 10u8]);
    push_all(&mut part, txt_part_content_range_vec().as_slice());
    push_decimal(&mut part, r.from);
    part.push(45);
    push_decimal(&mut part, r.to);
    let ghost stage3 = part@;
    assert(stage3 =~= stage2 + txt_part_content_range() + range_text(r));
    part.push(13);
    part.push(10);
    part.push(13);
    part.push(10);
    let len = file_content.len();
    let end: usize = if r.to >= len as u64 {
        len
    } else {
        (r.to + 1) as usize
    };
    let start: usize = if r.from >= end as u64 {
        end
    } else {
        r.from as usize
    };
    let ghost stage4 = part@;
    assert(stage4 =~= stage3 + seq![13u8, 10u8, 13u8, 10u8]);
    push_all(&mut part, &file_content[start..end]);
    part.push(13);
    part.push(10);
    assert(part@ =~= stage4 + part_slice(r, file_content@) + seq![13u8, 10u8]);
    assert(part@ =~= body_part(r, content_type@, boundary@, file_content@));
    push_all(out, part.as_slice());
}

/// A `multipart/byteranges` body with one part for each range.
pub fn build_body_for_multipart_request(
    ranges: &Ranges,
    content_type: &[u8],
    boundary: &[u8],
    file_content: &[u8],
) -> (r: Vec<u8>)
    ensures
        r@ == multipart_body(ranges.ranges@, content_type@, boundary@, file_content@),
{
    let rs = ranges.elements();
    let mut out: Vec<u8> = Vec::new();
    let mut i: usize = 0;
    while i < rs.len()
        invariant
            i <= rs@.len(),
            rs@ == ranges.ranges@,
            out@ == multipart_body(
                rs@.subrange(0, i as int),
                content_type@,
                boundary@,
                file_content@,
            ),
        decreases rs@.len() - i,
    {
        let r = rs[i];
        push_part(&mut out, r, content_type, boundary, file_content);
        assert(rs@.subrange(0, i + 1).drop_last() =~= rs@.subrange(0, i as int));
        i = i + 1;
    }
    assert(rs@.subrange(0, i as int) =~= rs@);
    out
}

pub proof fn lemma_text_names_differ()
    ensures
        txt_content_type() != txt_content_length(),
        txt_content_type() != txt_content_range(),
        txt_content_range() != txt_content_length(),
{
    assert(txt_content_type().len() != txt_content_length().len());
    assert(txt_content_type().len() != txt_content_range().len());
    assert(txt_content_range().len() != txt_content_length().len());
}

/// `bytes from-to`, the value of `content-range`.
pub open spec fn content_range_value(r: Range) -> Seq<u8> {
    txt_bytes_unit() + seq![32u8] + range_text(r)
}

/// The 206 answer to a range request. With several ranges the body is multipart over the
/// whole `file_content`; with one, `file_content` is the selected bytes.
pub fn build_response_for_multipart_request(
    http_request: &HttpRequest,
    file_content: &[u8],
    ranges: &Ranges,
    content_type: &[u8],
) -> (r: HttpResponse)
    requires
        ranges.ranges@.len() > 0,
    ensures
        r.version@ == http_request.request_line.version@,
        ranges.ranges@.len() > 1 ==> header_lookup(r.content.headers_spec(), txt_content_type())
            == Some(txt_multipart_prefix() + txt_boundary()),
        ranges.ranges@.len() == 1 ==> header_lookup(r.content.headers_spec(), txt_content_type())
            == Some(content_type@),
        ranges.ranges@.len() == 1 ==> header_lookup(r.content.headers_spec(), txt_content_range())
            == Some(content_range_value(ranges.ranges@[0])),
        answer_with(
            *http_request,
            r,
            if ranges.ranges@.len() > 1 {
                multipart_body(ranges.ranges@, content_type@, txt_boundary(), file_content@)
            } else {
                file_content@
            },
            ResponseCode::Success(SuccessCode::PartialContent),
        ),
{
    let version = http_request.get_version();
    let builder = HttpResponseBuilder::new(
        ResponseCode::Success(SuccessCode::PartialContent),
        version.as_slice(),
        http_request.get_encoding(),
    );
    let send_body = http_request.get_method() != HttpRequestMethod::HEAD;
    if ranges.is_multipart() {
        let boundary = HttpResponse::partial_content_boundary();
        let mut ct = txt_multipart_prefix_vec();
        push_all(&mut ct, boundary.as_slice());
        let body = build_body_for_multipart_request(
            ranges,
            content_type,
            boundary.as_slice(),
            file_content,
        );
        let ghost ct_view = ct@;
        let b1 = builder.header_bytes(txt_content_type_vec(), ct);
        proof {
            lemma_text_names_differ();
            lemma_insert_other(builder.0.content.headers_spec(), txt_content_type(), ct_view, txt_content_length());
            lemma_insert_keeps(b1.0.content.headers_spec(), txt_content_length(), txt_content_type());
        }
        let r = b1.optional_body(body.as_slice(), send_body).build();
        proof {
            lemma_answer(*http_request, b1.0, r, body@, send_body);
        }
        r
    } else {
        let first = ranges.ranges[0];
        let mut cr = txt_bytes_unit_vec();
        cr.push(32);
        push_decimal(&mut cr, first.from);
        cr.push(45);
        push_decimal(&mut cr, first.to);
        assert(cr@ =~= content_range_value(first));
        let b1 = builder.header_bytes(txt_content_type_vec(), copy_range(content_type, 0, content_type.len()));
        assert(content_type@.subrange(0, content_type@.len() as int) =~= content_type@);
        let b2 = b1.header_bytes(txt_content_range_vec(), cr);
        proof {
            lemma_text_names_differ();
            lemma_insert_other(builder.0.content.headers_spec(), txt_content_type(), content_type@, txt_content_range());
            lemma_insert_other(b1.0.content.headers_spec(), txt_content_range(), content_range_value(first), txt_content_type());
        }
        let r = b2.optional_body(file_content, send_body).build();
        proof {
            lemma_answer(*http_request, b2.0, r, file_content@, send_body);
            lemma_insert_keeps(b2.0.content.headers_spec(), txt_content_length(), txt_content_type());
            lemma_insert_keeps(b2.0.content.headers_spec(), txt_content_length(), txt_content_range());
        }
        r
    }
}

pub open spec fn starts_with(s: Seq<u8>, p: Seq<u8>) -> bool {
    p.len() <= s.len() && s.subrange(0, p.len() as int) == p
}

/// What follows the prefix `p` in `s`.
pub fn strip_prefix(s: &[u8], p: &[u8]) -> (r: Option<Vec<u8>>)
    ensures
        match r {
            Some(rest) => starts_with(s@, p@) && rest@ == s@.subrange(
                p@.len() as int,
                s@.len() as int,
            ),
            None => !starts_with(s@, p@),
        },
{
    if p.len() <= s.len() && range_eq(s, 0, p.len(), p) {
        Some(copy_range(s, p.len(), s.len()))
    } else {
        None
    }
}

/// The outcome of checking a request's credentials.
pub enum AuthOutcome {
    Allowed,
    Denied,
    Unsupported,
}

/// No `authorization` header lets the request through; Basic credentials must be the
/// server's; a Bearer token is not implemented; anything else is denied.
pub open spec fn auth_outcome(hs: Seq<(Seq<u8>, Seq<u8>)>) -> AuthOutcome {
    match header_lookup(hs, txt_authorization()) {
        None => AuthOutcome::Allowed,
        Some(v) => match auth_info_spec(v) {
            None => AuthOutcome::Denied,
            Some(info) => match info.0 {
                AuthMethod::Basic => if info.1 == default_credential_bytes() {
                    AuthOutcome::Allowed
                } else {
                    AuthOutcome::Denied
                },
                AuthMethod::Bearer => AuthOutcome::Unsupported,
            },
        },
    }
}

/// What the router asks of its caller: to send a response, or to serve or store the
/// file at a path and come back with the outcome.
pub enum RouteAction {
    Respond(HttpResponse),
    /// Read the whole file and pass it to `build_file_response`.
    ServeFile(Vec<u8>),
    /// Write the request body to the file and pass the outcome to `build_store_response`.
    StoreFile(Vec<u8>),
}

/// How reading a file went.
pub enum FileAccess {
    Missing,
    Unreadable,
    Contents(Vec<u8>),
}


/// A text answer: `content-type: text/plain` and the text as body (its length alone for
/// HEAD).
pub open spec fn text_answer(req: HttpRequest, x: HttpResponse, text: Seq<u8>) -> bool {
    &&& header_lookup(x.content.headers_spec(), txt_content_type()) == Some(txt_text_plain())
    &&& answer_with(req, x, text, ResponseCode::Success(SuccessCode::OK))
}

/// A response with status `code` and an empty body.
pub open spec fn plain_answer(a: RouteAction, code: ResponseCode) -> bool {
    a matches RouteAction::Respond(x) && x.status_code == code && x.content.body@.len() == 0
}

fn text_response(req: &HttpRequest, text: &[u8]) -> (r: HttpResponse)
    ensures
        text_answer(*req, r, text@),
{
    let version = req.get_version();
    let b0 = HttpResponseBuilder::new(
        ResponseCode::Success(SuccessCode::OK),
        version.as_slice(),
        req.get_encoding(),
    );
    let b1 = b0.header_bytes(txt_content_type_vec(), txt_text_plain_vec());
    proof {
        lemma_text_names_differ();
        lemma_insert_other(b0.0.content.headers_spec(), txt_content_type(), txt_text_plain(), txt_content_length());
        lemma_insert_keeps(b1.0.content.headers_spec(), txt_content_length(), txt_content_type());
    }
    let send_body = req.get_method() != HttpRequestMethod::HEAD;
    let r = b1.optional_body(text, send_body).build();
    proof {
        lemma_answer(*req, b1.0, r, text@, send_body);
    }
    r
}

fn plain_response(req: &HttpRequest, code: ResponseCode) -> (r: HttpResponse)
    ensures
        r.status_code == code,
        r.content.body@.len() == 0,
{
    let version = req.get_version();
    HttpResponseBuilder::new(code, version.as_slice(), req.get_encoding()).build()
}

/// Answers a request, or says which file to serve or store.
pub fn build_http_response(http_request: &HttpRequest) -> (r: RouteAction)
    ensures
        ({
            let m = http_request.request_line.method;
            let res = http_request.request_line.url.resource@;
            let hs = http_request.content.headers_spec();
            let get = m == HttpRequestMethod::GET || m == HttpRequestMethod::HEAD;
            &&& get && res == txt_root_path() ==> plain_answer(
                r,
                ResponseCode::Success(SuccessCode::OK),
            )
            &&& get && res == txt_user_agent_path() ==> match header_lookup(hs, txt_user_agent()) {
                None => plain_answer(r, ResponseCode::Error(ErrorCode::NotFound)),
                Some(ua) => r matches RouteAction::Respond(x) && text_answer(*http_request, x, ua),
            }
            &&& get && starts_with(res, txt_files_prefix()) ==> match auth_outcome(hs) {
                AuthOutcome::Allowed => r matches RouteAction::ServeFile(p) && p@ == res.subrange(
                    txt_files_prefix().len() as int,
                    res.len() as int,
                ),
                AuthOutcome::Denied => plain_answer(r, ResponseCode::Error(ErrorCode::Unauthorized))
                    && (r matches RouteAction::Respond(x) && header_lookup(
                    x.content.headers_spec(),
                    txt_www_authenticate(),
                ) == Some(txt_basic())),
                AuthOutcome::Unsupported => plain_answer(
                    r,
                    ResponseCode::Error(ErrorCode::NotImplemented),
                ),
            }
            &&& get && starts_with(res, txt_echo_prefix()) ==> (r matches RouteAction::Respond(x)
                && text_answer(
                *http_request,
                x,
                res.subrange(txt_echo_prefix().len() as int, res.len() as int),
            ))
            &&& get && res != txt_root_path() && res != txt_user_agent_path() && !starts_with(
                res,
                txt_files_prefix(),
            ) && !starts_with(res, txt_echo_prefix()) ==> plain_answer(
                r,
                ResponseCode::Error(ErrorCode::InternalServerError),
            )
            &&& m == HttpRequestMethod::POST ==> if starts_with(res, txt_files_prefix()) {
                r matches RouteAction::StoreFile(p) && p@ == res.subrange(
                    txt_files_prefix().len() as int,
                    res.len() as int,
                )
            } else {
                plain_answer(r, ResponseCode::Error(ErrorCode::InternalServerError))
            }
            &&& m == HttpRequestMethod::OPTIONS ==> match content_type_spec(hs, res) {
                None => plain_answer(r, ResponseCode::Error(ErrorCode::UnsupportedMediaType)),
                Some(ct) => r matches RouteAction::Respond(x) && x.status_code
                    == ResponseCode::Success(SuccessCode::OK) && header_lookup(
                    x.content.headers_spec(),
                    txt_allow(),
                ) == Some(txt_allowed_methods()) && header_lookup(
                    x.content.headers_spec(),
                    txt_content_type(),
                ) == Some(ct),
            }
            &&& !get && m != HttpRequestMethod::POST && m != HttpRequestMethod::OPTIONS
                ==> plain_answer(r, ResponseCode::Error(ErrorCode::NotImplemented))
        }),
{
    let method = http_request.get_method();
    let url = http_request.get_url();
    let resource = url.resource();
    let ghost res = resource@;
    proof {
        lemma_prefixes_differ();
    }
    match method {
        HttpRequestMethod::GET | HttpRequestMethod::HEAD => {
            if bytes_eq(resource.as_slice(), txt_root_path_vec().as_slice()) {
                return RouteAction::Respond(plain_response(http_request, ResponseCode::Success(SuccessCode::OK)));
            }
            if bytes_eq(resource.as_slice(), txt_user_agent_path_vec().as_slice()) {
                let name = txt_user_agent_vec();
                return match http_request.content.get_header_bytes(name.as_slice()) {
                    Some(ua) => RouteAction::Respond(text_response(http_request, ua.as_slice())),
                    None => RouteAction::Respond(
                        plain_response(http_request, ResponseCode::Error(ErrorCode::NotFound)),
                    ),
                };
            }
            if let Some(path) = strip_prefix(resource.as_slice(), txt_files_prefix_vec().as_slice()) {
                let auth_name = txt_authorization_vec();
                if http_request.content.get_header_bytes(auth_name.as_slice()).is_some() {
                    match http_request.auth_info() {
                        Some((AuthMethod::Bearer, _)) => {
                            return RouteAction::Respond(
                                plain_response(
                                    http_request,
                                    ResponseCode::Error(ErrorCode::NotImplemented),
                                ),
                            );
                        },
                        Some((AuthMethod::Basic, data)) => {
                            if !Authenticator::authenticate(data.as_slice(), &AuthMethod::Basic) {
                                return RouteAction::Respond(unauthorized(http_request));
                            }
                        },
                        None => {
                            return RouteAction::Respond(unauthorized(http_request));
                        },
                    }
                }
                return RouteAction::ServeFile(path);
            }
            if let Some(echo) = strip_prefix(resource.as_slice(), txt_echo_prefix_vec().as_slice()) {
                return RouteAction::Respond(text_response(http_request, echo.as_slice()));
            }
            RouteAction::Respond(
                plain_response(http_request, ResponseCode::Error(ErrorCode::InternalServerError)),
            )
        },
        HttpRequestMethod::POST => {
            match strip_prefix(resource.as_slice(), txt_files_prefix_vec().as_slice()) {
                Some(path) => RouteAction::StoreFile(path),
                None => RouteAction::Respond(
                    plain_response(http_request, ResponseCode::Error(ErrorCode::InternalServerError)),
                ),
            }
        },
        HttpRequestMethod::OPTIONS => {
            match http_request.content.get_content_type(resource.as_slice()) {
                None => RouteAction::Respond(
                    plain_response(http_request, ResponseCode::Error(ErrorCode::UnsupportedMediaType)),
                ),
                Some(ct) => RouteAction::Respond(options_response(http_request, ct)),
            }
        },
        _ => RouteAction::Respond(
            plain_response(http_request, ResponseCode::Error(ErrorCode::NotImplemented)),
        ),
    }
}

fn unauthorized(req: &HttpRequest) -> (r: HttpResponse)
    ensures
        r.status_code == ResponseCode::Error(ErrorCode::Unauthorized),
        r.content.body@.len() == 0,
        header_lookup(r.content.headers_spec(), txt_www_authenticate()) == Some(txt_basic()),
{
    let version = req.get_version();
    let b0 = HttpResponseBuilder::new(
        ResponseCode::Error(ErrorCode::Unauthorized),
        version.as_slice(),
        req.get_encoding(),
    );
    proof {
        lemma_insert_other(b0.0.content.headers_spec(), txt_www_authenticate(), txt_basic(), txt_basic());
    }
    b0.header_bytes(txt_www_authenticate_vec(), AuthMethod::Basic.name()).build()
}

fn options_response(req: &HttpRequest, ct: Vec<u8>) -> (r: HttpResponse)
    ensures
        r.status_code == ResponseCode::Success(SuccessCode::OK),
        header_lookup(r.content.headers_spec(), txt_allow()) == Some(txt_allowed_methods()),
        header_lookup(r.content.headers_spec(), txt_content_type()) == Some(ct@),
{
    let version = req.get_version();
    let b0 = HttpResponseBuilder::new(
        ResponseCode::Success(SuccessCode::OK),
        version.as_slice(),
        req.get_encoding(),
    );
    let ghost ctv = ct@;
    let b1 = b0.header_bytes(txt_allow_vec(), txt_allowed_methods_vec());
    let b2 = b1.header_bytes(txt_content_type_vec(), ct);
    let mut zero: Vec<u8> = Vec::new();
    zero.push(48);
    let b3 = b2.header_bytes(txt_content_length_vec(), zero);
    proof {
        lemma_option_names_differ();
        lemma_insert_other(b0.0.content.headers_spec(), txt_allow(), txt_allowed_methods(), txt_content_type());
        lemma_insert_other(b1.0.content.headers_spec(), txt_content_type(), ctv, txt_allow());
        lemma_insert_keeps(b2.0.content.headers_spec(), txt_content_length(), txt_allow());
        lemma_insert_keeps(b2.0.content.headers_spec(), txt_content_length(), txt_content_type());
    }
    b3.build()
}

pub proof fn lemma_option_names_differ()
    ensures
        txt_allow() != txt_content_type(),
        txt_allow() != txt_content_length(),
        txt_content_type() != txt_content_length(),
{
    assert(txt_allow().len() != txt_content_type().len());
    assert(txt_allow().len() != txt_content_length().len());
    assert(txt_content_type().len() != txt_content_length().len());
}

pub proof fn lemma_prefixes_differ()
    ensures
        !starts_with(txt_root_path(), txt_files_prefix()),
        !starts_with(txt_root_path(), txt_echo_prefix()),
        !starts_with(txt_user_agent_path(), txt_files_prefix()),
        !starts_with(txt_user_agent_path(), txt_echo_prefix()),
        forall|s: Seq<u8>| starts_with(s, txt_files_prefix()) ==> !starts_with(s, txt_echo_prefix()),
{
    assert(txt_user_agent_path().subrange(0, 7) != txt_files_prefix()) by {
        assert(txt_user_agent_path()[1] != txt_files_prefix()[1]);
    }
    assert(txt_user_agent_path().subrange(0, 6) != txt_echo_prefix()) by {
        assert(txt_user_agent_path()[1] != txt_echo_prefix()[1]);
    }
    assert forall|s: Seq<u8>| starts_with(s, txt_files_prefix()) implies !starts_with(
        s,
        txt_echo_prefix(),
    ) by {
        assert(s[1] == txt_files_prefix()[1]);
        if starts_with(s, txt_echo_prefix()) {
            assert(s[1] == txt_echo_prefix()[1]);
        }
    }
}

/// The bytes a response carries from a file: with one range, bytes `from` to `to`
/// inclusive (`None` when the file ends before `to`); otherwise the whole file.
pub open spec fn selected_content(content: Seq<u8>, rs: Seq<Range>) -> Option<Seq<u8>> {
    if rs.len() == 1 {
        if rs[0].from <= rs[0].to && rs[0].to < content.len() {
            Some(content.subrange(rs[0].from as int, rs[0].to + 1))
        } else {
            None
        }
    } else {
        Some(content)
    }
}

pub fn read_file_content(content: &[u8], ranges: &Ranges) -> (r: Option<Vec<u8>>)
    ensures
        match r {
            Some(v) => selected_content(content@, ranges.ranges@) == Some(v@),
            None => selected_content(content@, ranges.ranges@) is None,
        },
{
    if ranges.len() == 1 {
        let first = ranges.ranges[0];
        if first.from <= first.to && first.to < content.len() as u64 {
            Some(copy_range(content, first.from as usize, first.to as usize + 1))
        } else {
            None
        }
    } else {
        Some(copy_range(content, 0, content.len()))
    }
}

/// The answer to GET or HEAD on a file, once the caller has tried to read it.
pub fn build_file_response(http_request: &HttpRequest, path: &[u8], file: FileAccess) -> (r:
    HttpResponse)
    ensures
        ({
            let hs = http_request.content.headers_spec();
            let empty = r.content.body@.len() == 0;
            match file {
                FileAccess::Missing => r.status_code == ResponseCode::Error(ErrorCode::NotFound)
                    && empty,
                _ => match content_type_spec(hs, path@) {
                    None => r.status_code == ResponseCode::Error(ErrorCode::UnsupportedMediaType)
                        && empty,
                    Some(ct) => match file {
                        FileAccess::Contents(c) => match http_request.ranges {
                            Some(rs) if rs.ranges@.len() > 0 => match selected_content(
                                c@,
                                rs.ranges@,
                            ) {
                                None => r.status_code == ResponseCode::Error(
                                    ErrorCode::InternalServerError,
                                ) && empty,
                                Some(sel) => (rs.ranges@.len() == 1 ==> header_lookup(
                                    r.content.headers_spec(),
                                    txt_content_range(),
                                ) == Some(content_range_value(rs.ranges@[0]))) && (rs.ranges@.len()
                                    == 1 ==> header_lookup(
                                    r.content.headers_spec(),
                                    txt_content_type(),
                                ) == Some(ct)) && answer_with(
                                    *http_request,
                                    r,
                                    if rs.ranges@.len() > 1 {
                                        multipart_body(rs.ranges@, ct, txt_boundary(), c@)
                                    } else {
                                        sel
                                    },
                                    ResponseCode::Success(SuccessCode::PartialContent),
                                ),
                            },
                            _ => header_lookup(r.content.headers_spec(), txt_content_type())
                                == Some(ct) && answer_with(
                                *http_request,
                                r,
                                c@,
                                ResponseCode::Success(SuccessCode::OK),
                            ),
                        },
                        _ => r.status_code == ResponseCode::Error(ErrorCode::InternalServerError)
                            && empty,
                    },
                },
            }
        }),
{
    if let FileAccess::Missing = file {
        return plain_response(http_request, ResponseCode::Error(ErrorCode::NotFound));
    }
    let ct = match http_request.content.get_content_type(path) {
        None => {
            return plain_response(http_request, ResponseCode::Error(ErrorCode::UnsupportedMediaType));
        },
        Some(ct) => ct,
    };
    let c = match file {
        FileAccess::Contents(c) => c,
        _ => {
            return plain_response(http_request, ResponseCode::Error(ErrorCode::InternalServerError));
        },
    };
    match http_request.ranges() {
        Some(rs) => {
            if rs.len() > 0 {
                return match read_file_content(c.as_slice(), rs) {
                    None => plain_response(
                        http_request,
                        ResponseCode::Error(ErrorCode::InternalServerError),
                    ),
                    Some(sel) => build_response_for_multipart_request(
                        http_request,
                        sel.as_slice(),
                        rs,
                        ct.as_slice(),
                    ),
                };
            }
        },
        None => {},
    }
    let version = http_request.get_version();
    let b0 = HttpResponseBuilder::new(
        ResponseCode::Success(SuccessCode::OK),
        version.as_slice(),
        http_request.get_encoding(),
    );
    let ghost ctv = ct@;
    let b1 = b0.header_bytes(txt_content_type_vec(), ct);
    proof {
        lemma_text_names_differ();
        lemma_insert_other(b0.0.content.headers_spec(), txt_content_type(), ctv, txt_content_length());
        lemma_insert_keeps(b1.0.content.headers_spec(), txt_content_length(), txt_content_type());
    }
    let send_body = http_request.get_method() != HttpRequestMethod::HEAD;
    let r = b1.optional_body(c.as_slice(), send_body).build();
    proof {
        lemma_answer(*http_request, b1.0, r, c@, send_body);
    }
    r
}

/// The answer to POST on a file, once the caller has tried to write the body to it.
pub fn build_store_response(http_request: &HttpRequest, stored: bool) -> (r: HttpResponse)
    ensures
        stored ==> r.status_code == ResponseCode::Success(SuccessCode::Created),
        !stored ==> r.status_code == ResponseCode::Error(ErrorCode::InternalServerError),
        r.content.body@.len() == 0,
{
    if stored {
        plain_response(http_request, ResponseCode::Success(SuccessCode::Created))
    } else {
        plain_response(http_request, ResponseCode::Error(ErrorCode::InternalServerError))
    }
}

/// A header that goes on the wire and reads back the same: a non-empty lower-case name
/// without `:` or whitespace, a non-empty value without line feeds or whitespace at its
/// ends, both UTF-8, and a line of allowed size.
pub open spec fn wire_header(h: (Seq<u8>, Seq<u8>)) -> bool {
    &&& h.0.len() > 0
    &&& h.1.len() > 0
    &&& forall|i: int|
        0 <= i < h.0.len() ==> !is_ws(#[trigger] h.0[i]) && h.0[i] != 58 && !is_upper(h.0[i])
    &&& forall|i: int| 0 <= i < h.1.len() ==> #[trigger] h.1[i] != 10
    &&& !is_ws(h.1[0])
    &&& !is_ws(h.1.last())
    &&& valid_utf8(h.0)
    &&& valid_utf8(h.1)
    &&& header_line(h).len() <= MAX_HEADER_SIZE
}

pub open spec fn distinct_names(hs: Seq<(Seq<u8>, Seq<u8>)>) -> bool {
    forall|i: int, j: int| 0 <= i < j < hs.len() ==> #[trigger] hs[i].0 != #[trigger] hs[j].0
}

pub proof fn lemma_ascii_valid(x: Seq<u8>)
    requires
        forall|i: int| 0 <= i < x.len() ==> #[trigger] x[i] <= 0x7f,
    ensures
        valid_utf8(x),
    decreases x.len(),
{
    if x.len() > 0 {
        let b = x[0];
        assert(b <= 0x7f);
        assert(b & 0x7f <= 0x7f) by (bit_vector);
        let rest = x.subrange(1, x.len() as int);
        assert forall|i: int| 0 <= i < rest.len() implies #[trigger] rest[i] <= 0x7f by {
            assert(rest[i] == x[i + 1]);
        }
        lemma_ascii_valid(rest);
        assert(pop_first_scalar(x) =~= rest);
    }
}

pub proof fn lemma_header_line_valid(h: (Seq<u8>, Seq<u8>))
    requires
        valid_utf8(h.0),
        valid_utf8(h.1),
    ensures
        valid_utf8(header_line(h)),
{
    let sep = seq![58u8, 32u8];
    let end = seq![13u8, 10u8];
    lemma_ascii_valid(sep);
    lemma_ascii_valid(end);
    valid_utf8_concat(h.0, sep);
    valid_utf8_concat(h.0 + sep, h.1);
    valid_utf8_concat(h.0 + sep + h.1, end);
}

/// The first `c` at or after `lo` is at `j`.
pub proof fn lemma_find_at(s: Seq<u8>, c: u8, lo: int, hi: int, j: int)
    requires
        lo <= j < hi,
        s[j] == c,
        forall|i: int| lo <= i < j ==> s[i] != c,
    ensures
        find_in(s, c, lo, hi) == j,
    decreases j - lo,
{
    if lo < j {
        lemma_find_at(s, c, lo + 1, hi, j);
    }
}

pub proof fn lemma_find_absent(s: Seq<u8>, c: u8, lo: int, hi: int)
    requires
        forall|i: int| lo <= i < hi ==> s[i] != c,
    ensures
        find_in(s, c, lo, hi) == -1,
    decreases hi - lo,
{
    if lo < hi {
        lemma_find_absent(s, c, lo + 1, hi);
    }
}

pub proof fn lemma_trim_end_nonempty(x: Seq<u8>)
    requires
        x.len() > 0,
        !is_ws(x[0]),
    ensures
        trim_end(x).len() > 0,
    decreases x.len(),
{
    if x.len() > 1 && is_ws(x.last()) {
        assert(x.drop_last()[0] == x[0]);
        lemma_trim_end_nonempty(x.drop_last());
    }
}

/// A value between `": "` and `"\r\n"` trims back to itself.
pub proof fn lemma_trim_value(v: Seq<u8>)
    requires
        v.len() > 0,
        !is_ws(v[0]),
        !is_ws(v.last()),
    ensures
        trim(seq![32u8] + v + seq![13u8, 10u8]) == v,
{
    let t = seq![32u8] + v + seq![13u8, 10u8];
    let u = v + seq![13u8, 10u8];
    assert(t.subrange(1, t.len() as int) =~= u);
    assert(u[0] == v[0]);
    assert(trim_start(t) == trim_start(u));
    assert(trim_start(u) == u);
    assert(u.drop_last() =~= v + seq![13u8]);
    assert((v + seq![13u8]).drop_last() =~= v);
    assert(trim_end(u) == trim_end(v + seq![13u8]));
    assert(trim_end(v + seq![13u8]) == trim_end(v));
}

/// `header_lines` of a prefix is a prefix of `header_lines`.
pub proof fn lemma_header_lines_prefix(hs: Seq<(Seq<u8>, Seq<u8>)>, j: int)
    requires
        0 <= j <= hs.len(),
    ensures
        header_lines(hs.subrange(0, j)).len() <= header_lines(hs).len(),
        header_lines(hs).subrange(0, header_lines(hs.subrange(0, j)).len() as int) == header_lines(
            hs.subrange(0, j),
        ),
    decreases hs.len(),
{
    if j == hs.len() {
        assert(hs.subrange(0, j) =~= hs);
        assert(header_lines(hs).subrange(0, header_lines(hs).len() as int) =~= header_lines(hs));
    } else {
        lemma_header_lines_prefix(hs.drop_last(), j);
        assert(hs.drop_last().subrange(0, j) =~= hs.subrange(0, j));
        let a = header_lines(hs.drop_last());
        let p = header_lines(hs.subrange(0, j));
        assert((a + header_line(hs.last())).subrange(0, p.len() as int) =~= a.subrange(
            0,
            p.len() as int,
        ));
    }
}

/// One header line, read back from the wire, is the header it was written from.
pub proof fn lemma_header_line_parses(h: (Seq<u8>, Seq<u8>))
    requires
        wire_header(h),
    ensures
        valid_utf8(header_line(h)),
        trim(header_line(h)).len() > 0,
        parse_header_spec(header_line(h)) == Ok::<(Seq<u8>, Seq<u8>), ParseFailure>(h),
{
    let line = header_line(h);
    let n = h.0;
    let v = h.1;
    lemma_header_line_valid(h);
    assert(line[0] == n[0]);
    assert(trim_start(line) == line);
    lemma_trim_end_nonempty(line);
    assert forall|i: int| 0 <= i < n.len() implies line[i] != 58 by {
        assert(line[i] == n[i]);
    }
    assert(line[n.len() as int] == 58);
    lemma_find_at(line, 58, 0, line.len() as int, n.len() as int);
    assert(line.subrange(0, n.len() as int) =~= n);
    assert(trim_start(n) == n);
    assert(trim_end(n) == n) by {
        assert(n.last() == n[n.len() - 1]);
    }
    assert(line.subrange(n.len() + 1 as int, line.len() as int) =~= seq![32u8] + v + seq![13u8, 10u8]);
    lemma_trim_value(v);
    assert(lower(n) =~= n) by {
        assert forall|i: int| 0 <= i < n.len() implies #[trigger] lower(n)[i] == n[i] by {
            assert(!is_upper(n[i]));
        }
    }
}

/// Bytes `pre`, then the header block of `hs`, then a blank line and `tail`.
pub open spec fn header_block(pre: Seq<u8>, hs: Seq<(Seq<u8>, Seq<u8>)>, tail: Seq<u8>) -> Seq<u8> {
    pre + header_lines(hs) + seq![13u8, 10u8] + tail
}

/// Where the `k`-th header line starts in `header_block(pre, hs, _)`.
pub open spec fn line_start(pre: Seq<u8>, hs: Seq<(Seq<u8>, Seq<u8>)>, k: int) -> int {
    (pre.len() + header_lines(hs.subrange(0, k)).len()) as int
}

pub proof fn lemma_line_at(pre: Seq<u8>, hs: Seq<(Seq<u8>, Seq<u8>)>, tail: Seq<u8>, k: int)
    requires
        0 <= k < hs.len(),
        wire_header(hs[k]),
    ensures
        ({
            let s = header_block(pre, hs, tail);
            let p = line_start(pre, hs, k);
            &&& line_end(s, p) == line_start(pre, hs, k + 1)
            &&& s.subrange(p, line_end(s, p)) == header_line(hs[k])
            &&& line_start(pre, hs, k + 1) <= pre.len() + header_lines(hs).len()
        }),
{
    let s = header_block(pre, hs, tail);
    let p = line_start(pre, hs, k);
    let before = header_lines(hs.subrange(0, k));
    let line = header_line(hs[k]);
    let all = header_lines(hs);
    assert(hs.subrange(0, k + 1).drop_last() =~= hs.subrange(0, k));
    assert(hs.subrange(0, k + 1).last() == hs[k]);
    assert(header_lines(hs.subrange(0, k + 1)) == before + line);
    lemma_header_lines_prefix(hs, k + 1);
    let q = p + line.len();
    assert(s.subrange(p, q) =~= line) by {
        assert forall|i: int| 0 <= i < line.len() implies s[p + i] == line[i] by {
            assert(s[p + i] == all[before.len() + i]);
            assert(all.subrange(0, (before.len() + line.len()) as int)[before.len() + i] == (before
                + line)[before.len() + i]);
        }
    }
    assert forall|i: int| p <= i < q - 1 implies s[i] != 10 by {
        assert(s[i] == line[i - p]);
        let n = hs[k].0;
        let v = hs[k].1;
        if i - p < n.len() {
            assert(line[i - p] == n[i - p]);
        } else if i - p < n.len() + 2 {
        } else if i - p < n.len() + 2 + v.len() {
            assert(line[i - p] == v[i - p - n.len() - 2]);
        } else {
        }
    }
    assert(s[q - 1] == line[line.len() - 1]);
    lemma_find_at(s, 10, p, s.len() as int, q - 1);
}

/// Reading the `k`-th line of the block stores its header, and the names before it are
/// all different from it.
pub proof fn lemma_header_step(pre: Seq<u8>, hs: Seq<(Seq<u8>, Seq<u8>)>, tail: Seq<u8>, k: int)
    requires
        0 <= k < hs.len(),
        forall|i: int| 0 <= i < hs.len() ==> wire_header(#[trigger] hs[i]),
        distinct_names(hs),
    ensures
        ({
            let s = header_block(pre, hs, tail);
            let p = line_start(pre, hs, k);
            let e = line_end(s, p);
            let line = s.subrange(p, e);
            &&& e == line_start(pre, hs, k + 1)
            &&& e > p
            &&& valid_utf8(line)
            &&& trim(line).len() > 0
            &&& parse_header_spec(line) == Ok::<(Seq<u8>, Seq<u8>), ParseFailure>(hs[k])
            &&& header_insert(hs.subrange(0, k), hs[k].0, hs[k].1) == hs.subrange(0, k + 1)
        }),
{
    let h = hs[k];
    lemma_line_at(pre, hs, tail, k);
    lemma_header_line_parses(h);
    let acc = hs.subrange(0, k);
    lemma_key_index(acc, h.0);
    if key_index(acc, h.0) >= 0 {
        assert(acc[key_index(acc, h.0)] == hs[key_index(acc, h.0)]);
    }
    assert(header_insert(acc, h.0, h.1) =~= hs.subrange(0, k + 1));
}

/// From the `k`-th header line on, the block reads back the remaining headers.
pub proof fn lemma_headers_read_back(
    pre: Seq<u8>,
    hs: Seq<(Seq<u8>, Seq<u8>)>,
    tail: Seq<u8>,
    k: int,
)
    requires
        0 <= k <= hs.len(),
        hs.len() <= MAX_HEADERS_AMOUNT,
        forall|i: int| 0 <= i < hs.len() ==> wire_header(#[trigger] hs[i]),
        distinct_names(hs),
    ensures
        headers_from(header_block(pre, hs, tail), line_start(pre, hs, k), hs.subrange(0, k))
            == Ok::<(Seq<(Seq<u8>, Seq<u8>)>, int), ParseFailure>(
            (hs, (pre.len() + header_lines(hs).len() + 2) as int),
        ),
    decreases hs.len() - k,
{
    let s = header_block(pre, hs, tail);
    let p = line_start(pre, hs, k);
    if k == hs.len() {
        assert(hs.subrange(0, k) =~= hs);
        let e = (pre.len() + header_lines(hs).len()) as int;
        assert(p == e);
        assert(s[e] == 13);
        assert(s[e + 1] == 10);
        lemma_find_at(s, 10, e, s.len() as int, e + 1);
        let blank = s.subrange(e, e + 2);
        assert(blank =~= seq![13u8, 10u8]);
        lemma_ascii_valid(blank);
        let b1 = blank.subrange(1, 2);
        let b2 = b1.subrange(1, 1);
        assert(b1 =~= seq![10u8]);
        assert(b2 =~= Seq::<u8>::empty());
        assert(trim_start(b2) == b2);
        assert(is_ws(b1[0]));
        assert(trim_start(b1) == trim_start(b2));
        assert(is_ws(blank[0]));
        assert(trim_start(blank) == trim_start(b1));
        assert(trim(blank).len() == 0);
    } else {
        lemma_header_step(pre, hs, tail, k);
        lemma_headers_read_back(pre, hs, tail, k + 1);
    }
}

/// From the `k`-th header line on, a block of more headers than allowed is refused.
pub proof fn lemma_headers_overflow(
    pre: Seq<u8>,
    hs: Seq<(Seq<u8>, Seq<u8>)>,
    tail: Seq<u8>,
    k: int,
)
    requires
        0 <= k <= MAX_HEADERS_AMOUNT,
        hs.len() > MAX_HEADERS_AMOUNT,
        forall|i: int| 0 <= i < hs.len() ==> wire_header(#[trigger] hs[i]),
        distinct_names(hs),
    ensures
        headers_from(header_block(pre, hs, tail), line_start(pre, hs, k), hs.subrange(0, k))
            == Err::<(Seq<(Seq<u8>, Seq<u8>)>, int), ParseFailure>(ParseFailure::HeaderOverflow),
    decreases MAX_HEADERS_AMOUNT - k,
{
    lemma_header_step(pre, hs, tail, k);
    if k < MAX_HEADERS_AMOUNT {
        lemma_headers_overflow(pre, hs, tail, k + 1);
    }
}

/// The header reader takes up to the allowed number of distinct headers and refuses one
/// more with `HeaderOverflow`, at exactly that boundary.
pub proof fn lemma_header_count_boundary(
    pre: Seq<u8>,
    hs: Seq<(Seq<u8>, Seq<u8>)>,
    tail: Seq<u8>,
)
    requires
        forall|i: int| 0 <= i < hs.len() ==> wire_header(#[trigger] hs[i]),
        distinct_names(hs),
    ensures
        hs.len() <= MAX_HEADERS_AMOUNT ==> headers_from(
            header_block(pre, hs, tail),
            pre.len() as int,
            seq![],
        ) == Ok::<(Seq<(Seq<u8>, Seq<u8>)>, int), ParseFailure>(
            (hs, (pre.len() + header_lines(hs).len() + 2) as int),
        ),
        hs.len() > MAX_HEADERS_AMOUNT ==> headers_from(
            header_block(pre, hs, tail),
            pre.len() as int,
            seq![],
        ) == Err::<(Seq<(Seq<u8>, Seq<u8>)>, int), ParseFailure>(ParseFailure::HeaderOverflow),
{
    assert(hs.subrange(0, 0) =~= Seq::<(Seq<u8>, Seq<u8>)>::empty());
    assert(header_lines(hs.subrange(0, 0)) =~= Seq::<u8>::empty());
    if hs.len() <= MAX_HEADERS_AMOUNT {
        lemma_headers_read_back(pre, hs, tail, 0);
    } else {
        lemma_headers_overflow(pre, hs, tail, 0);
    }
}

/// Writing a response and reading its header block back with the request parser's
/// header reader gives back exactly the headers that were set, and the status line
/// carries the status code in decimal.
pub proof fn lemma_serialize_round_trip(
    version: Seq<u8>,
    c: ResponseCode,
    hs: Seq<(Seq<u8>, Seq<u8>)>,
    body: Seq<u8>,
)
    requires
        hs.len() <= MAX_HEADERS_AMOUNT,
        forall|i: int| 0 <= i < hs.len() ==> wire_header(#[trigger] hs[i]),
        distinct_names(hs),
    ensures
        headers_from(serialize(version, c, hs, body), status_line(version, c).len() as int, seq![])
            == Ok::<(Seq<(Seq<u8>, Seq<u8>)>, int), ParseFailure>(
            (hs, (status_line(version, c).len() + header_lines(hs).len() + 2) as int),
        ),
        parse_u64_spec(decimal(code_value(c) as nat)) == Some(code_value(c) as u64),
{
    let sl = status_line(version, c);
    assert(serialize(version, c, hs, body) =~= header_block(sl, hs, body));
    lemma_header_count_boundary(sl, hs, body);
    lemma_decimal_digits(code_value(c) as nat);
    let d = decimal(code_value(c) as nat);
    assert(d[0] != 43) by {
        assert(crate::bytes::is_digit(d[0]));
    }
}

} // verus!
