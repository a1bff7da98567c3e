//! Reading an HTTP/1.1 request from the bytes of a stream.
use vstd::prelude::*;
use vstd::string::StringSliceAdditionalSpecFns;
use vstd::utf8::{encode_utf8, valid_utf8};

use crate::bytes::{
    is_valid_utf8, decimal, all_digits, copy_range, find_byte, find_in, is_ascii_ws, is_ws, lemma_find_in_bounds, lower,
    lower_range, parse_u64, parse_u64_spec, range_eq, trim, trim_bounds,
};
use crate::common::{
    header_insert, header_lookup, header_view,
    parse_ranges_spec, ranges_text, ErrorCode, HttpMessageContent, InternalHttpError, Range, Ranges,
    RequestError, MAX_HEADERS_AMOUNT, MAX_HEADER_SIZE, MAX_REQUEST_BODY_SIZE, MAX_URI_LENGTH,
};
use crate::auth::{auth_method_name, auth_method_of, AuthMethod};
use crate::cache::{directives_from, CacheControl};
use crate::compressor::{coding_of_token, supported, ContentEncoding};
use crate::url::{url_query, url_resource, Url};
use crate::text::{
    txt_connect, txt_connect_vec, txt_delete, txt_delete_vec, txt_get, txt_get_vec, txt_head,
    txt_head_vec, txt_options, txt_options_vec, txt_post, txt_post_vec, txt_put, txt_put_vec,
    txt_trace, txt_trace_vec, txt_version_1_1, txt_version_1_1_vec, txt_content_length,
    txt_content_length_vec, txt_accept_encoding, txt_accept_encoding_vec, txt_range, txt_range_vec,
    txt_cache_control, txt_cache_control_vec, txt_authorization, txt_authorization_vec,
    txt_bytes_eq_prefix, txt_bytes_eq_prefix_vec,
};

verus! {

#[derive(Debug, Clone, Copy, PartialEq, Eq, Structural)]
pub enum HttpRequestMethod {
    OPTIONS,
    GET,
    HEAD,
    POST,
    PUT,
    DELETE,
    TRACE,
    CONNECT,
}

/// The method a request-line token names (an exact, case-sensitive match).
pub open spec fn method_of(t: Seq<u8>) -> Option<HttpRequestMethod> {
    if t == txt_options() {
        Some(HttpRequestMethod::OPTIONS)
    } else if t == txt_get() {
        Some(HttpRequestMethod::GET)
    } else if t == txt_head() {
        Some(HttpRequestMethod::HEAD)
    } else if t == txt_post() {
        Some(HttpRequestMethod::POST)
    } else if t == txt_put() {
        Some(HttpRequestMethod::PUT)
    } else if t == txt_delete() {
        Some(HttpRequestMethod::DELETE)
    } else if t == txt_trace() {
        Some(HttpRequestMethod::TRACE)
    } else if t == txt_connect() {
        Some(HttpRequestMethod::CONNECT)
    } else {
        None
    }
}

impl HttpRequestMethod {
    pub fn from_token(t: &[u8]) -> (r: Option<HttpRequestMethod>)
        ensures
            r == method_of(t@),
    {
        let n = t.len();
        assert(t@.subrange(0, n as int) =~= t@);
        if range_eq(t, 0, n, txt_options_vec().as_slice()) {
            Some(HttpRequestMethod::OPTIONS)
        } else if range_eq(t, 0, n, txt_get_vec().as_slice()) {
            Some(HttpRequestMethod::GET)
        } else if range_eq(t, 0, n, txt_head_vec().as_slice()) {
            Some(HttpRequestMethod::HEAD)
        } else if range_eq(t, 0, n, txt_post_vec().as_slice()) {
            Some(HttpRequestMethod::POST)
        } else if range_eq(t, 0, n, txt_put_vec().as_slice()) {
            Some(HttpRequestMethod::PUT)
        } else if range_eq(t, 0, n, txt_delete_vec().as_slice()) {
            Some(HttpRequestMethod::DELETE)
        } else if range_eq(t, 0, n, txt_trace_vec().as_slice()) {
            Some(HttpRequestMethod::TRACE)
        } else if range_eq(t, 0, n, txt_connect_vec().as_slice()) {
            Some(HttpRequestMethod::CONNECT)
        } else {
            None
        }
    }
}

/// Position just past the line that starts at `pos`: after its `\n`, or the end of input.
pub open spec fn line_end(s: Seq<u8>, pos: int) -> int {
    let j = find_in(s, 10, pos, s.len() as int);
    if j < pos || j >= s.len() {
        s.len() as int
    } else {
        j + 1
    }
}

pub open spec fn skip_ws(s: Seq<u8>, i: int, hi: int) -> int
    decreases hi - i,
{
    if i < hi && is_ws(s[i]) {
        skip_ws(s, i + 1, hi)
    } else {
        i
    }
}

pub open spec fn skip_word(s: Seq<u8>, i: int, hi: int) -> int
    decreases hi - i,
{
    if i < hi && !is_ws(s[i]) {
        skip_word(s, i + 1, hi)
    } else {
        i
    }
}

/// The whitespace-separated words of `s[i..hi]`.
pub open spec fn words(s: Seq<u8>, i: int, hi: int) -> Seq<Seq<u8>>
    decreases hi - i,
{
    let a = skip_ws(s, i, hi);
    if a >= hi {
        seq![]
    } else {
        let b = skip_word(s, a, hi);
        if b <= i || b > hi {
            seq![]
        } else {
            seq![s.subrange(a, b)] + words(s, b, hi)
        }
    }
}

pub proof fn lemma_skip_ws(s: Seq<u8>, i: int, hi: int)
    requires
        0 <= i <= hi <= s.len(),
    ensures
        i <= skip_ws(s, i, hi) <= hi,
        skip_ws(s, i, hi) < hi ==> !is_ws(s[skip_ws(s, i, hi)]),
    decreases hi - i,
{
    if i < hi && is_ws(s[i]) {
        lemma_skip_ws(s, i + 1, hi);
    }
}

pub proof fn lemma_skip_word(s: Seq<u8>, i: int, hi: int)
    requires
        0 <= i <= hi <= s.len(),
    ensures
        i <= skip_word(s, i, hi) <= hi,
        i < hi && !is_ws(s[i]) ==> skip_word(s, i, hi) > i,
    decreases hi - i,
{
    if i < hi && !is_ws(s[i]) {
        lemma_skip_word(s, i + 1, hi);
    }
}

/// One step of `words`: either nothing is left, or one word and the rest.
pub proof fn lemma_words_step(s: Seq<u8>, i: int, hi: int)
    requires
        0 <= i <= hi <= s.len(),
    ensures
        skip_ws(s, i, hi) >= hi ==> words(s, i, hi) == Seq::<Seq<u8>>::empty(),
        skip_ws(s, i, hi) < hi ==> {
            let a = skip_ws(s, i, hi);
            let b = skip_word(s, a, hi);
            &&& i <= a < b <= hi
            &&& words(s, i, hi) == seq![s.subrange(a, b)] + words(s, b, hi)
        },
{
    lemma_skip_ws(s, i, hi);
    let a = skip_ws(s, i, hi);
    if a < hi {
        lemma_skip_word(s, a, hi);
    }
}

pub fn skip_ws_exec(s: &[u8], i: usize) -> (r: usize)
    requires
        i <= s@.len(),
    ensures
        r == skip_ws(s@, i as int, s@.len() as int),
{
    let mut j: usize = i;
    while j < s.len() && is_ascii_ws(s[j])
        invariant
            i <= j <= s@.len(),
            skip_ws(s@, i as int, s@.len() as int) == skip_ws(s@, j as int, s@.len() as int),
        decreases s@.len() - j,
    {
        j = j + 1;
    }
    j
}

pub fn skip_word_exec(s: &[u8], i: usize) -> (r: usize)
    requires
        i <= s@.len(),
    ensures
        r == skip_word(s@, i as int, s@.len() as int),
{
    let mut j: usize = i;
    while j < s.len() && !is_ascii_ws(s[j])
        invariant
            i <= j <= s@.len(),
            skip_word(s@, i as int, s@.len() as int) == skip_word(s@, j as int, s@.len() as int),
        decreases s@.len() - j,
    {
        j = j + 1;
    }
    j
}

/// The three words of a request line, as bounds into it.
pub fn split_request_line(line: &[u8]) -> (r: Option<(usize, usize, usize, usize, usize, usize)>)
    ensures
        match r {
            None => words(line@, 0, line@.len() as int).len() != 3,
            Some((a1, b1, a2, b2, a3, b3)) => {
                &&& a1 <= b1 <= a2 <= b2 <= a3 <= b3 <= line@.len()
                &&& words(line@, 0, line@.len() as int) == seq![
                    line@.subrange(a1 as int, b1 as int),
                    line@.subrange(a2 as int, b2 as int),
                    line@.subrange(a3 as int, b3 as int),
                ]
            },
        },
{
    let ghost s = line@;
    let ghost n = line@.len() as int;
    let a1 = skip_ws_exec(line, 0);
    proof {
        lemma_words_step(s, 0, n);
    }
    if a1 >= line.len() {
        return None;
    }
    let b1 = skip_word_exec(line, a1);
    let a2 = skip_ws_exec(line, b1);
    proof {
        lemma_words_step(s, b1 as int, n);
    }
    if a2 >= line.len() {
        return None;
    }
    let b2 = skip_word_exec(line, a2);
    let a3 = skip_ws_exec(line, b2);
    proof {
        lemma_words_step(s, b2 as int, n);
    }
    if a3 >= line.len() {
        return None;
    }
    let b3 = skip_word_exec(line, a3);
    let a4 = skip_ws_exec(line, b3);
    proof {
        lemma_words_step(s, b3 as int, n);
    }
    if a4 < line.len() {
        proof {
            lemma_words_step(s, a4 as int, n);
        }
        return None;
    }
    assert(words(s, 0, n) =~= seq![
        s.subrange(a1 as int, b1 as int),
        s.subrange(a2 as int, b2 as int),
        s.subrange(a3 as int, b3 as int),
    ]);
    Some((a1, b1, a2, b2, a3, b3))
}

/// A version token is accepted when it ends with a supported version.
pub open spec fn version_ok(t: Seq<u8>) -> bool {
    t.len() >= 3 && t.subrange(t.len() - 3, t.len() as int) == txt_version_1_1()
}

/// The supported version that the token `t` ends with.
pub fn get_http_version(t: &[u8]) -> (r: Option<Vec<u8>>)
    ensures
        match r {
            Some(v) => version_ok(t@) && v@ == txt_version_1_1(),
            None => !version_ok(t@),
        },
{
    let n = t.len();
    if n >= 3 && range_eq(t, n - 3, n, txt_version_1_1_vec().as_slice()) {
        Some(txt_version_1_1_vec())
    } else {
        None
    }
}

/// Failures of `parse_request_spec`, over plain values.
pub enum ParseFailure {
    Known(ErrorCode),
    Malformed(Seq<u8>),
    WrongHeaderFormat,
    HeaderOverflow,
    InvalidUTF8Char,
    InvalidContentLength,
    IncompleteBody,
    InvalidEncodingList,
    Io,
}

pub open spec fn failure_of(e: RequestError) -> ParseFailure {
    match e {
        RequestError::Http(h) => match h {
            InternalHttpError::KnownError(c) => ParseFailure::Known(c),
            InternalHttpError::MalformedRequestLine(l) => ParseFailure::Malformed(l@),
            InternalHttpError::WrongHeaderFormat => ParseFailure::WrongHeaderFormat,
            InternalHttpError::HeaderOverflow => ParseFailure::HeaderOverflow,
            InternalHttpError::InvalidUTF8Char => ParseFailure::InvalidUTF8Char,
        },
        RequestError::InvalidContentLength => ParseFailure::InvalidContentLength,
        RequestError::IncompleteBody => ParseFailure::IncompleteBody,
        RequestError::InvalidEncodingList => ParseFailure::InvalidEncodingList,
        RequestError::Io => ParseFailure::Io,
    }
}

/// One header line (line ending included): its lower-case name and its value.
pub open spec fn parse_header_spec(line: Seq<u8>) -> Result<(Seq<u8>, Seq<u8>), ParseFailure> {
    if line.len() > MAX_HEADER_SIZE {
        Err(ParseFailure::Known(ErrorCode::RequestHeaderFieldsTooLarge))
    } else {
        let c = find_in(line, 58, 0, line.len() as int);
        if c < 0 {
            Err(ParseFailure::WrongHeaderFormat)
        } else {
            let name = trim(line.subrange(0, c));
            let value = trim(line.subrange(c + 1, line.len() as int));
            if name.len() == 0 || value.len() == 0 {
                Err(ParseFailure::WrongHeaderFormat)
            } else {
                Ok((lower(name), value))
            }
        }
    }
}

pub fn parse_header(line: &[u8]) -> (r: Result<(Vec<u8>, Vec<u8>), InternalHttpError>)
    ensures
        match r {
            Ok((n, v)) => parse_header_spec(line@) == Ok::<(Seq<u8>, Seq<u8>), ParseFailure>(
                (n@, v@),
            ),
            Err(e) => parse_header_spec(line@) == Err::<(Seq<u8>, Seq<u8>), ParseFailure>(
                failure_of(RequestError::Http(e)),
            ),
        },
{
    let n = line.len();
    if n as u64 > MAX_HEADER_SIZE {
        return Err(InternalHttpError::KnownError(ErrorCode::RequestHeaderFieldsTooLarge));
    }
    match find_byte(line, 58, 0, n) {
        None => Err(InternalHttpError::WrongHeaderFormat),
        Some(c) => {
            proof {
                lemma_find_in_bounds(line@, 58, 0, n as int);
            }
            let (a, b) = trim_bounds(line, 0, c);
            let (x, y) = trim_bounds(line, c + 1, n);
            if a == b || x == y {
                return Err(InternalHttpError::WrongHeaderFormat);
            }
            Ok((lower_range(line, a, b), copy_range(line, x, y)))
        },
    }
}

pub fn line_end_exec(s: &[u8], pos: usize) -> (r: usize)
    requires
        pos <= s@.len(),
    ensures
        r == line_end(s@, pos as int),
        pos <= r <= s@.len(),
        r > pos <==> pos < s@.len(),
{
    proof {
        lemma_find_in_bounds(s@, 10, pos as int, s@.len() as int);
    }
    match find_byte(s, 10, pos, s.len()) {
        Some(j) => j + 1,
        None => s.len(),
    }
}

/// The header block from `pos` on: the headers read into `acc`, and where the body starts.
pub open spec fn headers_from(s: Seq<u8>, pos: int, acc: Seq<(Seq<u8>, Seq<u8>)>) -> Result<
    (Seq<(Seq<u8>, Seq<u8>)>, int),
    ParseFailure,
>
    decreases s.len() - pos,
{
    if pos < 0 || pos > s.len() {
        Err(ParseFailure::IncompleteBody)
    } else {
        let e = line_end(s, pos);
        let line = s.subrange(pos, e);
        if !valid_utf8(line) {
            Err(ParseFailure::InvalidUTF8Char)
        } else if trim(line).len() == 0 {
            Ok((acc, e))
        } else {
            match parse_header_spec(line) {
                Err(f) => Err(f),
                Ok(h) => {
                    let acc2 = header_insert(acc, h.0, h.1);
                    if acc2.len() > MAX_HEADERS_AMOUNT {
                        Err(ParseFailure::HeaderOverflow)
                    } else if e <= pos {
                        Err(ParseFailure::IncompleteBody)
                    } else {
                        headers_from(s, e, acc2)
                    }
                },
            }
        }
    }
}

/// Reads header lines from `pos` until a blank line or the end of input.
pub fn parse_headers(s: &[u8], pos: usize) -> (r: Result<(Vec<(Vec<u8>, Vec<u8>)>, usize), RequestError>)
    requires
        pos <= s@.len(),
    ensures
        match r {
            Ok((hs, b)) => b <= s@.len() && headers_from(s@, pos as int, seq![]) == Ok::<
                (Seq<(Seq<u8>, Seq<u8>)>, int),
                ParseFailure,
            >((header_view(hs@), b as int)),
            Err(e) => headers_from(s@, pos as int, seq![]) == Err::<
                (Seq<(Seq<u8>, Seq<u8>)>, int),
                ParseFailure,
            >(failure_of(e)),
        },
{
    let mut content = HttpMessageContent::new(Vec::new(), Vec::new());
    assert(content.headers_spec() =~= Seq::<(Seq<u8>, Seq<u8>)>::empty());
    let mut p: usize = pos;
    loop
        invariant
            p <= s@.len(),
            headers_from(s@, pos as int, seq![]) == headers_from(
                s@,
                p as int,
                content.headers_spec(),
            ),
        decreases s@.len() - p,
    {
        let e = line_end_exec(s, p);
        let line = &s[p..e];
        assert(line@ == s@.subrange(p as int, e as int));
        if !is_valid_utf8(line) {
            return Err(RequestError::Http(InternalHttpError::InvalidUTF8Char));
        }
        let (a, b) = trim_bounds(line, 0, line.len());
        assert(line@.subrange(0, line@.len() as int) =~= line@);
        if a == b {
            return Ok((content.headers, e));
        }
        match parse_header(line) {
            Err(err) => {
                return Err(RequestError::Http(err));
            },
            Ok((name, value)) => {
                content.insert_header(name, value);
                if content.headers.len() > MAX_HEADERS_AMOUNT {
                    return Err(RequestError::Http(InternalHttpError::HeaderOverflow));
                }
                p = e;
            },
        }
    }
}

/// A weight as two digit strings: the integer digits without leading zeros and the
/// fraction digits without trailing zeros. Equal numbers have equal forms.
pub type WeightModel = (Seq<u8>, Seq<u8>);

/// An exact decimal weight, in the form `WeightModel` describes.
#[derive(Debug, Clone, PartialEq, Eq)]
pub struct Weight {
    pub whole: Vec<u8>,
    pub fraction: Vec<u8>,
}

impl Weight {
    pub open spec fn model(&self) -> WeightModel {
        (self.whole@, self.fraction@)
    }
}

pub open spec fn weights_view(list: Seq<(ContentEncoding, Weight)>) -> Seq<
    (ContentEncoding, WeightModel),
> {
    list.map_values(|x: (ContentEncoding, Weight)| (x.0, x.1.model()))
}

/// The weight `1`, given to a coding listed without one.
pub open spec fn weight_one() -> WeightModel {
    (seq![49u8], Seq::empty())
}

pub open spec fn strip_leading_zeros(s: Seq<u8>) -> Seq<u8>
    decreases s.len(),
{
    if s.len() > 0 && s[0] == 48 {
        strip_leading_zeros(s.subrange(1, s.len() as int))
    } else {
        s
    }
}

pub open spec fn strip_trailing_zeros(s: Seq<u8>) -> Seq<u8>
    decreases s.len(),
{
    if s.len() > 0 && s.last() == 48 {
        strip_trailing_zeros(s.drop_last())
    } else {
        s
    }
}

/// A weight written as decimal digits with at most one `.` and at least one digit
/// (`1`, `0.8`, `.5`, `2.`, `1.25`).
pub open spec fn parse_weight(q: Seq<u8>) -> Option<WeightModel> {
    let k = find_in(q, 46, 0, q.len() as int);
    if k < 0 {
        if q.len() > 0 && all_digits(q) {
            Some((strip_leading_zeros(q), Seq::empty()))
        } else {
            None
        }
    } else {
        let whole = q.subrange(0, k);
        let fraction = q.subrange(k + 1, q.len() as int);
        if q.len() > 1 && all_digits(whole) && all_digits(fraction) {
            Some((strip_leading_zeros(whole), strip_trailing_zeros(fraction)))
        } else {
            None
        }
    }
}

/// Dictionary order of digit strings, a proper prefix first.
pub open spec fn lex_less(a: Seq<u8>, b: Seq<u8>) -> bool
    decreases a.len(),
{
    if a.len() == 0 {
        b.len() > 0
    } else if b.len() == 0 {
        false
    } else if a[0] != b[0] {
        a[0] < b[0]
    } else {
        lex_less(a.subrange(1, a.len() as int), b.subrange(1, b.len() as int))
    }
}

/// The numeric order of two weights in normal form.
pub open spec fn weight_less(a: WeightModel, b: WeightModel) -> bool {
    a.0.len() < b.0.len() || (a.0.len() == b.0.len() && (lex_less(a.0, b.0) || (a.0 == b.0
        && lex_less(a.1, b.1))))
}

pub proof fn lemma_lex_total(a: Seq<u8>, b: Seq<u8>)
    ensures
        a == b || lex_less(a, b) || lex_less(b, a),
    decreases a.len(),
{
    if a.len() > 0 && b.len() > 0 && a[0] == b[0] {
        let a1 = a.subrange(1, a.len() as int);
        let b1 = b.subrange(1, b.len() as int);
        lemma_lex_total(a1, b1);
        if a1 == b1 {
            assert(a =~= b) by {
                assert forall|i: int| 0 <= i < a.len() implies a[i] == b[i] by {
                    if i > 0 {
                        assert(a[i] == a1[i - 1]);
                        assert(b[i] == b1[i - 1]);
                    }
                }
            }
        }
    } else if a.len() == 0 && b.len() == 0 {
        assert(a =~= b);
    }
}

pub proof fn lemma_weight_total(a: WeightModel, b: WeightModel)
    ensures
        a == b || weight_less(a, b) || weight_less(b, a),
{
    lemma_lex_total(a.0, b.0);
    lemma_lex_total(a.1, b.1);
}

fn all_digits_exec(s: &[u8], lo: usize, hi: usize) -> (r: bool)
    requires
        lo <= hi <= s@.len(),
    ensures
        r == all_digits(s@.subrange(lo as int, hi as int)),
{
    let mut i: usize = lo;
    while i < hi
        invariant
            lo <= i <= hi <= s@.len(),
            forall|j: int| lo <= j < i ==> is_digit_at(s@, j),
        decreases hi - i,
    {
        if s[i] < 48 || s[i] > 57 {
            assert(s@.subrange(lo as int, hi as int)[i - lo] == s@[i as int]);
            return false;
        }
        i = i + 1;
    }
    assert forall|j: int| 0 <= j < hi - lo implies crate::bytes::is_digit(
        #[trigger] s@.subrange(lo as int, hi as int)[j],
    ) by {
        assert(is_digit_at(s@, lo + j));
    }
    true
}

pub open spec fn is_digit_at(q: Seq<u8>, j: int) -> bool {
    crate::bytes::is_digit(q[j])
}

fn strip_leading_zeros_exec(s: &[u8], lo: usize, hi: usize) -> (r: Vec<u8>)
    requires
        lo <= hi <= s@.len(),
    ensures
        r@ == strip_leading_zeros(s@.subrange(lo as int, hi as int)),
{
    let mut a: usize = lo;
    while a < hi && s[a] == 48
        invariant
            lo <= a <= hi <= s@.len(),
            strip_leading_zeros(s@.subrange(lo as int, hi as int)) == strip_leading_zeros(
                s@.subrange(a as int, hi as int),
            ),
        decreases hi - a,
    {
        assert(s@.subrange(a as int, hi as int).subrange(1, hi - a) =~= s@.subrange(
            a + 1,
            hi as int,
        ));
        a = a + 1;
    }
    copy_range(s, a, hi)
}

fn strip_trailing_zeros_exec(s: &[u8], lo: usize, hi: usize) -> (r: Vec<u8>)
    requires
        lo <= hi <= s@.len(),
    ensures
        r@ == strip_trailing_zeros(s@.subrange(lo as int, hi as int)),
{
    let mut b: usize = hi;
    while b > lo && s[b - 1] == 48
        invariant
            lo <= b <= hi <= s@.len(),
            strip_trailing_zeros(s@.subrange(lo as int, hi as int)) == strip_trailing_zeros(
                s@.subrange(lo as int, b as int),
            ),
        decreases b,
    {
        assert(s@.subrange(lo as int, b as int).drop_last() =~= s@.subrange(lo as int, b - 1));
        b = b - 1;
    }
    copy_range(s, lo, b)
}

pub fn parse_weight_exec(q: &[u8]) -> (r: Option<Weight>)
    ensures
        match r {
            Some(w) => parse_weight(q@) == Some(w.model()),
            None => parse_weight(q@) is None,
        },
{
    let n = q.len();
    assert(q@.subrange(0, n as int) =~= q@);
    proof {
        lemma_find_in_bounds(q@, 46, 0, n as int);
    }
    match find_byte(q, 46, 0, n) {
        None => {
            if n > 0 && all_digits_exec(q, 0, n) {
                Some(Weight { whole: strip_leading_zeros_exec(q, 0, n), fraction: Vec::new() })
            } else {
                None
            }
        },
        Some(k) => {
            if n > 1 && all_digits_exec(q, 0, k) && all_digits_exec(q, k + 1, n) {
                Some(
                    Weight {
                        whole: strip_leading_zeros_exec(q, 0, k),
                        fraction: strip_trailing_zeros_exec(q, k + 1, n),
                    },
                )
            } else {
                None
            }
        },
    }
}

fn lex_less_exec(a: &[u8], b: &[u8]) -> (r: bool)
    ensures
        r == lex_less(a@, b@),
{
    let mut i: usize = 0;
    assert(a@.subrange(0, a@.len() as int) =~= a@);
    assert(b@.subrange(0, b@.len() as int) =~= b@);
    loop
        invariant
            i <= a@.len(),
            i <= b@.len(),
            lex_less(a@, b@) == lex_less(
                a@.subrange(i as int, a@.len() as int),
                b@.subrange(i as int, b@.len() as int),
            ),
        decreases a@.len() - i,
    {
        let ghost sa = a@.subrange(i as int, a@.len() as int);
        let ghost sb = b@.subrange(i as int, b@.len() as int);
        if i == a.len() {
            return i < b.len();
        }
        if i == b.len() {
            return false;
        }
        assert(sa[0] == a@[i as int]);
        assert(sb[0] == b@[i as int]);
        if a[i] != b[i] {
            return a[i] < b[i];
        }
        assert(sa.subrange(1, sa.len() as int) =~= a@.subrange(i + 1, a@.len() as int));
        assert(sb.subrange(1, sb.len() as int) =~= b@.subrange(i + 1, b@.len() as int));
        i = i + 1;
    }
}

/// Whether weight `a` is below weight `b`.
pub fn weight_less_exec(a: &Weight, b: &Weight) -> (r: bool)
    ensures
        r == weight_less(a.model(), b.model()),
{
    let (aw, bw) = (a.whole.as_slice(), b.whole.as_slice());
    if aw.len() != bw.len() {
        return aw.len() < bw.len();
    }
    if lex_less_exec(aw, bw) {
        return true;
    }
    crate::bytes::bytes_eq(aw, bw) && lex_less_exec(a.fraction.as_slice(), b.fraction.as_slice())
}

fn weight_eq_exec(a: &Weight, b: &Weight) -> (r: bool)
    ensures
        r == (a.model() == b.model()),
{
    crate::bytes::bytes_eq(a.whole.as_slice(), b.whole.as_slice()) && crate::bytes::bytes_eq(
        a.fraction.as_slice(),
        b.fraction.as_slice(),
    )
}

/// One element of an `Accept-Encoding` list: `coding` or `coding;q=weight`.
pub open spec fn parse_encoding_entry(p: Seq<u8>) -> Option<(ContentEncoding, WeightModel)> {
    let k = find_in(p, 59, 0, p.len() as int);
    if k < 0 {
        match coding_of_token(trim(p)) {
            Some(e) => Some((e, weight_one())),
            None => None,
        }
    } else if !(k + 3 <= p.len() && p[k + 1] == 113 && p[k + 2] == 61) {
        None
    } else {
        match (
            coding_of_token(trim(p.subrange(0, k))),
            parse_weight(trim(p.subrange(k + 3, p.len() as int))),
        ) {
            (Some(e), Some(q)) => Some((e, q)),
            _ => None,
        }
    }
}

pub fn parse_encoding_entry_exec(p: &[u8]) -> (r: Option<(ContentEncoding, Weight)>)
    ensures
        match r {
            Some(x) => parse_encoding_entry(p@) == Some((x.0, x.1.model())),
            None => parse_encoding_entry(p@) is None,
        },
{
    let n = p.len();
    proof {
        lemma_find_in_bounds(p@, 59, 0, n as int);
    }
    assert(p@.subrange(0, n as int) =~= p@);
    match find_byte(p, 59, 0, n) {
        None => {
            let (a, b) = trim_bounds(p, 0, n);
            match ContentEncoding::from_token(p, a, b) {
                Some(e) => {
                    let one = Weight { whole: vec![49u8], fraction: Vec::new() };
                    assert(one.model() =~= weight_one());
                    Some((e, one))
                },
                None => None,
            }
        },
        Some(k) => {
            if !(n - k >= 3 && p[k + 1] == 113 && p[k + 2] == 61) {
                return None;
            }
            let (a, b) = trim_bounds(p, 0, k);
            let e = ContentEncoding::from_token(p, a, b);
            let (x, y) = trim_bounds(p, k + 3, n);
            let q = parse_weight_exec(&p[x..y]);
            match (e, q) {
                (Some(e), Some(q)) => Some((e, q)),
                _ => None,
            }
        },
    }
}

/// The entries of the comma-separated list `s[i..]`; `None` if one of them is bad.
pub open spec fn encodings_from(s: Seq<u8>, i: int) -> Option<Seq<(ContentEncoding, WeightModel)>>
    decreases s.len() + 1 - i,
{
    if i < 0 || i > s.len() {
        None
    } else {
        let j = find_in(s, 44, i, s.len() as int);
        let last = j < i || j >= s.len();
        let end = if last {
            s.len() as int
        } else {
            j
        };
        match parse_encoding_entry(s.subrange(i, end)) {
            None => None,
            Some(e) => if last {
                Some(seq![e])
            } else {
                match encodings_from(s, j + 1) {
                    None => None,
                    Some(rest) => Some(seq![e] + rest),
                }
            },
        }
    }
}

/// Parses an `Accept-Encoding` value such as `br;q=0.8, gzip, *` into codings and
/// weights, in the order given.
pub fn parse_encodings(v: &[u8]) -> (r: Option<Vec<(ContentEncoding, Weight)>>)
    ensures
        match r {
            Some(list) => encodings_from(v@, 0) == Some(weights_view(list@)),
            None => encodings_from(v@, 0) is None,
        },
{
    let mut out: Vec<(ContentEncoding, Weight)> = Vec::new();
    let mut i: usize = 0;
    loop
        invariant
            i <= v@.len(),
            encodings_from(v@, 0) == match encodings_from(v@, i as int) {
                Some(rest) => Some(weights_view(out@) + rest),
                None => None::<Seq<(ContentEncoding, WeightModel)>>,
            },
        decreases v@.len() - i,
    {
        proof {
            lemma_find_in_bounds(v@, 44, i as int, v@.len() as int);
        }
        let j = find_byte(v, 44, i, v.len());
        let end = match j {
            Some(j) => j,
            None => v.len(),
        };
        match parse_encoding_entry_exec(&v[i..end]) {
            None => {
                return None;
            },
            Some(e) => {
                let ghost em = (e.0, e.1.model());
                let ghost before = weights_view(out@);
                out.push(e);
                assert(weights_view(out@) =~= before + seq![em]);
                match j {
                    None => {
                        return Some(out);
                    },
                    Some(j) => {
                        assert(before + (seq![em] + encodings_from(v@, j + 1)->0) =~= weights_view(
                            out@,
                        ) + encodings_from(v@, j + 1)->0);
                        i = j + 1;
                    },
                }
            },
        }
    }
}

/// Whether a coding of weight `q` beats the best one found so far: a higher weight
/// wins, and at equal weight gzip is preferred.
pub open spec fn beats(
    e: ContentEncoding,
    q: WeightModel,
    best: Option<(ContentEncoding, WeightModel)>,
) -> bool {
    match best {
        None => true,
        Some(b) => weight_less(b.1, q) || (q == b.1 && e == ContentEncoding::Gzip && b.0
            != ContentEncoding::Gzip),
    }
}

/// The best supported coding in `list`, with its weight.
pub open spec fn choose_from(list: Seq<(ContentEncoding, WeightModel)>) -> Option<
    (ContentEncoding, WeightModel),
>
    decreases list.len(),
{
    if list.len() == 0 {
        None
    } else {
        let best = choose_from(list.drop_last());
        let (e, q) = list.last();
        if supported(e) && beats(e, q, best) {
            Some((e, q))
        } else {
            best
        }
    }
}

/// Picks the coding to answer with, or fails with 406 when the client accepts none
/// that this server supports.
pub fn choose_content_encoding(content_encodings: &Vec<(ContentEncoding, Weight)>) -> (r: Result<
    ContentEncoding,
    InternalHttpError,
>)
    ensures
        match choose_from(weights_view(content_encodings@)) {
            Some(b) => r == Ok::<ContentEncoding, InternalHttpError>(b.0),
            None => r == Err::<ContentEncoding, InternalHttpError>(
                InternalHttpError::KnownError(ErrorCode::NotAcceptable),
            ),
        },
{
    let ghost view = weights_view(content_encodings@);
    let mut best: Option<usize> = None;
    let mut i: usize = 0;
    while i < content_encodings.len()
        invariant
            i <= content_encodings@.len(),
            view == weights_view(content_encodings@),
            match best {
                None => choose_from(view.subrange(0, i as int)) is None,
                Some(b) => b < i && choose_from(view.subrange(0, i as int)) == Some(view[b as int]),
            },
        decreases content_encodings@.len() - i,
    {
        let e = content_encodings[i].0;
        let q = &content_encodings[i].1;
        let better = match best {
            None => true,
            Some(b) => {
                let bq = &content_encodings[b].1;
                weight_less_exec(bq, q) || (weight_eq_exec(q, bq) && e == ContentEncoding::Gzip
                    && content_encodings[b].0 != ContentEncoding::Gzip)
            },
        };
        assert(view.subrange(0, i + 1).drop_last() =~= view.subrange(0, i as int));
        assert(view.subrange(0, i + 1).last() == view[i as int]);
        if e.is_supported() && better {
            best = Some(i);
        }
        i = i + 1;
    }
    assert(view.subrange(0, i as int) =~= view);
    match best {
        Some(b) => Ok(content_encodings[b].0),
        None => Err(InternalHttpError::KnownError(ErrorCode::NotAcceptable)),
    }
}

pub struct HttpRequestLine {
    pub method: HttpRequestMethod,
    pub url: Url,
    pub version: Vec<u8>,
}

impl HttpRequestLine {
    pub fn new(method: HttpRequestMethod, url: Url, version: String) -> (r: Self)
        ensures
            r.method == method,
            r.url == url,
            r.version@ == encode_utf8(version@),
    {
        let v = version.as_str().as_bytes();
        let version = copy_range(v, 0, v.len());
        assert(v@.subrange(0, v@.len() as int) =~= v@);
        Self { method, url, version }
    }
}

/// A parsed request, over plain values.
pub struct RequestModel {
    pub method: HttpRequestMethod,
    pub resource: Seq<u8>,
    pub query: Seq<u8>,
    pub version: Seq<u8>,
    pub headers: Seq<(Seq<u8>, Seq<u8>)>,
    pub body: Seq<u8>,
    pub encoding: Option<ContentEncoding>,
    pub ranges: Option<Seq<Range>>,
    pub cache: Option<Seq<(Seq<u8>, Seq<u8>)>>,
}

pub struct HttpRequest {
    pub request_line: HttpRequestLine,
    pub content: HttpMessageContent,
    pub requested_encoding: Option<ContentEncoding>,
    pub ranges: Option<Ranges>,
    pub cache_control: Option<CacheControl>,
}

pub open spec fn model_of(r: HttpRequest) -> RequestModel {
    RequestModel {
        method: r.request_line.method,
        resource: r.request_line.url.resource@,
        query: r.request_line.url.query@,
        version: r.request_line.version@,
        headers: r.content.headers_spec(),
        body: r.content.body@,
        encoding: r.requested_encoding,
        ranges: match r.ranges {
            Some(rs) => Some(rs.ranges@),
            None => None,
        },
        cache: match r.cache_control {
            Some(c) => Some(c.directives()),
            None => None,
        },
    }
}

/// The declared body length: 0 without `content-length`, `None` when it is not a number.
pub open spec fn declared_length(hs: Seq<(Seq<u8>, Seq<u8>)>) -> Option<u64> {
    match header_lookup(hs, txt_content_length()) {
        None => Some(0u64),
        Some(v) => parse_u64_spec(v),
    }
}

/// The coding negotiated from `accept-encoding`, if the client sent one.
pub open spec fn negotiated(hs: Seq<(Seq<u8>, Seq<u8>)>) -> Result<
    Option<ContentEncoding>,
    ParseFailure,
> {
    match header_lookup(hs, txt_accept_encoding()) {
        None => Ok(None),
        Some(v) => match encodings_from(v, 0) {
            None => Err(ParseFailure::InvalidEncodingList),
            Some(list) => match choose_from(list) {
                None => Err(ParseFailure::Known(ErrorCode::NotAcceptable)),
                Some(b) => Ok(Some(b.0)),
            },
        },
    }
}

/// What follows the header block: the body, then the fields derived from headers.
pub open spec fn finish_request_spec(
    s: Seq<u8>,
    m: HttpRequestMethod,
    target: Seq<u8>,
    hs: Seq<(Seq<u8>, Seq<u8>)>,
    b0: int,
) -> Result<RequestModel, ParseFailure> {
    match declared_length(hs) {
        None => Err(ParseFailure::InvalidContentLength),
        Some(n) => if n > MAX_REQUEST_BODY_SIZE {
            Err(ParseFailure::Known(ErrorCode::ContentTooLarge))
        } else if s.len() - b0 < n {
            Err(ParseFailure::IncompleteBody)
        } else {
            match negotiated(hs) {
                Err(f) => Err(f),
                Ok(enc) => Ok(
                    RequestModel {
                        method: m,
                        resource: url_resource(target),
                        query: url_query(target),
                        version: txt_version_1_1(),
                        headers: hs,
                        body: s.subrange(b0, b0 + n),
                        encoding: enc,
                        ranges: match header_lookup(hs, txt_range()) {
                            None => None,
                            Some(v) => parse_ranges_spec(v),
                        },
                        cache: match header_lookup(hs, txt_cache_control()) {
                            None => None,
                            Some(v) => Some(directives_from(v, 0, seq![])),
                        },
                    },
                ),
            }
        },
    }
}

/// A request read from the complete input `s`: the request line, header lines up to a
/// blank line (or the end of input), then `content-length` bytes of body.
pub open spec fn parse_request_spec(s: Seq<u8>) -> Result<RequestModel, ParseFailure> {
    let e1 = line_end(s, 0);
    let line = s.subrange(0, e1);
    let ws = words(line, 0, line.len() as int);
    if !valid_utf8(line) {
        Err(ParseFailure::InvalidUTF8Char)
    } else if ws.len() != 3 {
        Err(ParseFailure::Malformed(line))
    } else if ws[1].len() > MAX_URI_LENGTH {
        Err(ParseFailure::Known(ErrorCode::URITooLong))
    } else {
        match method_of(ws[0]) {
            None => Err(ParseFailure::Known(ErrorCode::NotImplemented)),
            Some(m) => if !version_ok(ws[2]) {
                Err(ParseFailure::Known(ErrorCode::HTTPVersionNotSupported))
            } else {
                match headers_from(s, e1, seq![]) {
                    Err(f) => Err(f),
                    Ok(h) => finish_request_spec(s, m, ws[1], h.0, h.1),
                }
            },
        }
    }
}

fn finish_request(
    input: &[u8],
    method: HttpRequestMethod,
    target: &[u8],
    headers: Vec<(Vec<u8>, Vec<u8>)>,
    b0: usize,
) -> (r: Result<HttpRequest, RequestError>)
    requires
        b0 <= input@.len(),
    ensures
        match r {
            Ok(req) => finish_request_spec(input@, method, target@, header_view(headers@), b0 as int)
                == Ok::<RequestModel, ParseFailure>(model_of(req)),
            Err(e) => finish_request_spec(input@, method, target@, header_view(headers@), b0 as int)
                == Err::<RequestModel, ParseFailure>(failure_of(e)),
        },
{
    let mut content = HttpMessageContent::new(headers, Vec::new());
    let cl_name = txt_content_length_vec();
    let n: u64 = match content.get_header_bytes(cl_name.as_slice()) {
        None => 0,
        Some(v) => match parse_u64(v.as_slice(), 0, v.len()) {
            None => {
                assert(v@.subrange(0, v@.len() as int) =~= v@);
                return Err(RequestError::InvalidContentLength);
            },
            Some(n) => {
                assert(v@.subrange(0, v@.len() as int) =~= v@);
                n
            },
        },
    };
    if n > MAX_REQUEST_BODY_SIZE {
        return Err(RequestError::Http(InternalHttpError::KnownError(ErrorCode::ContentTooLarge)));
    }
    if ((input.len() - b0) as u64) < n {
        return Err(RequestError::IncompleteBody);
    }
    let body = copy_range(input, b0, b0 + n as usize);
    let ae_name = txt_accept_encoding_vec();
    let requested_encoding = match content.get_header_bytes(ae_name.as_slice()) {
        None => None,
        Some(v) => match parse_encodings(v.as_slice()) {
            None => {
                return Err(RequestError::InvalidEncodingList);
            },
            Some(list) => match choose_content_encoding(&list) {
                Err(e) => {
                    return Err(RequestError::Http(e));
                },
                Ok(e) => Some(e),
            },
        },
    };
    let range_name = txt_range_vec();
    let ranges = match content.get_header_bytes(range_name.as_slice()) {
        None => None,
        Some(v) => Ranges::parse(v.as_slice()),
    };
    let cc_name = txt_cache_control_vec();
    let cache_control = match content.get_header_bytes(cc_name.as_slice()) {
        None => None,
        Some(v) => Some(CacheControl::parse(v.as_slice())),
    };
    content.set_body(body);
    let version = txt_version_1_1_vec();
    let url = Url::from_bytes(target);
    let req = HttpRequest {
        request_line: HttpRequestLine { method, url, version },
        content,
        requested_encoding,
        ranges,
        cache_control,
    };
    proof {
        let m = model_of(req);
        let sm = finish_request_spec(input@, method, target@, header_view(headers@), b0 as int);
        assert(sm matches Ok(x) && x.body == m.body);
        assert(sm == Ok::<RequestModel, ParseFailure>(m));
    }
    Ok(req)
}

/// Reads a request from the complete input of a stream.
pub fn parse_http_request_internal(input: &[u8]) -> (r: Result<HttpRequest, RequestError>)
    ensures
        match r {
            Ok(req) => parse_request_spec(input@) == Ok::<RequestModel, ParseFailure>(
                model_of(req),
            ),
            Err(e) => parse_request_spec(input@) == Err::<RequestModel, ParseFailure>(
                failure_of(e),
            ),
        },
{
    let e1 = line_end_exec(input, 0);
    let line = &input[0..e1];
    if !is_valid_utf8(line) {
        return Err(RequestError::Http(InternalHttpError::InvalidUTF8Char));
    }
    match split_request_line(line) {
        None => {
            let raw = copy_range(line, 0, line.len());
            assert(raw@ =~= line@);
            Err(RequestError::Http(InternalHttpError::MalformedRequestLine(raw)))
        },
        Some((a1, b1, a2, b2, a3, b3)) => {
            if b2 - a2 > MAX_URI_LENGTH {
                return Err(RequestError::Http(InternalHttpError::KnownError(ErrorCode::URITooLong)));
            }
            let method = match HttpRequestMethod::from_token(&line[a1..b1]) {
                None => {
                    return Err(
                        RequestError::Http(InternalHttpError::KnownError(ErrorCode::NotImplemented)),
                    );
                },
                Some(m) => m,
            };
            if get_http_version(&line[a3..b3]).is_none() {
                return Err(
                    RequestError::Http(
                        InternalHttpError::KnownError(ErrorCode::HTTPVersionNotSupported),
                    ),
                );
            }
            match parse_headers(input, e1) {
                Err(e) => Err(e),
                Ok((headers, b0)) => finish_request(input, method, &line[a2..b2], headers, b0),
            }
        },
    }
}

/// `Authorization: <scheme> <credentials>`: the scheme and the trimmed credentials.
pub open spec fn auth_info_spec(v: Seq<u8>) -> Option<(AuthMethod, Seq<u8>)> {
    let k = find_in(v, 32, 0, v.len() as int);
    if k < 0 {
        None
    } else {
        match auth_method_of(v.subrange(0, k)) {
            None => None,
            Some(m) => Some((m, trim(v.subrange(k + 1, v.len() as int)))),
        }
    }
}

impl HttpRequest {
    pub fn get_method(&self) -> (r: HttpRequestMethod)
        ensures
            r == self.request_line.method,
    {
        self.request_line.method
    }

    pub fn get_url(&self) -> (r: Url)
        ensures
            r.resource@ == self.request_line.url.resource@,
            r.query@ == self.request_line.url.query@,
    {
        self.request_line.url.duplicate()
    }

    pub fn get_version(&self) -> (r: Vec<u8>)
        ensures
            r@ == self.request_line.version@,
    {
        copy_range(self.request_line.version.as_slice(), 0, self.request_line.version.len())
    }

    pub fn get_encoding(&self) -> (r: Option<ContentEncoding>)
        ensures
            r == self.requested_encoding,
    {
        self.requested_encoding
    }

    pub fn content(&self) -> (r: &HttpMessageContent)
        ensures
            r == &self.content,
    {
        &self.content
    }

    pub fn ranges(&self) -> (r: Option<&Ranges>)
        ensures
            r == match &self.ranges {
                Some(rs) => Some(rs),
                None => None::<&Ranges>,
            },
    {
        match &self.ranges {
            Some(rs) => Some(rs),
            None => None,
        }
    }

    pub fn cache_control(&self) -> (r: &Option<CacheControl>)
        ensures
            r == &self.cache_control,
    {
        &self.cache_control
    }

    /// The scheme and credentials of the `authorization` header, when it has both.
    pub fn auth_info(&self) -> (r: Option<(AuthMethod, Vec<u8>)>)
        ensures
            match header_lookup(self.content.headers_spec(), txt_authorization()) {
                None => r is None,
                Some(v) => match auth_info_spec(v) {
                    None => r is None,
                    Some(info) => r matches Some(x) && x.0 == info.0 && x.1@ == info.1,
                },
            },
    {
        let name = txt_authorization_vec();
        match self.content.get_header_bytes(name.as_slice()) {
            None => None,
            Some(v) => {
                let n = v.len();
                proof {
                    lemma_find_in_bounds(v@, 32, 0, n as int);
                }
                match find_byte(v.as_slice(), 32, 0, n) {
                    None => None,
                    Some(k) => match AuthMethod::from_token(v.as_slice(), 0, k) {
                        None => None,
                        Some(m) => {
                            let (a, b) = trim_bounds(v.as_slice(), k + 1, n);
                            Some((m, copy_range(v.as_slice(), a, b)))
                        },
                    },
                }
            },
        }
    }
}

/// Builds requests by hand, header by header.
pub struct HttpRequestBuilder(pub HttpRequest);

impl HttpRequestBuilder {
    pub fn new(request_line: HttpRequestLine) -> (r: Self)
        ensures
            r.0.request_line == request_line,
            r.0.content.headers@.len() == 0,
            r.0.content.body@.len() == 0,
            r.0.requested_encoding is None,
            r.0.ranges is None,
            r.0.cache_control is None,
    {
        HttpRequestBuilder(
            HttpRequest {
                request_line,
                content: HttpMessageContent::new(Vec::new(), Vec::new()),
                requested_encoding: None,
                ranges: None,
                cache_control: None,
            },
        )
    }

    /// Sets the ranges and the matching `range` header.
    pub fn set_range(self, ranges: Ranges) -> (r: Self)
        requires
            ranges.ranges@.len() > 0,
        ensures
            r.0.ranges matches Some(rs) && rs.ranges@ == ranges.ranges@,
            r.0.content.headers_spec() == header_insert(
                self.0.content.headers_spec(),
                txt_range(),
                txt_bytes_eq_prefix() + ranges_text(ranges.ranges@),
            ),
            r.0.content.body@ == self.0.content.body@,
            r.0.request_line == self.0.request_line,
            r.0.requested_encoding == self.0.requested_encoding,
    {
        let mut req = self.0;
        let mut value = txt_bytes_eq_prefix_vec();
        let text = ranges.to_bytes();
        crate::bytes::push_all(&mut value, text.as_slice());
        req.content.insert_header(txt_range_vec(), value);
        req.ranges = Some(ranges);
        HttpRequestBuilder(req)
    }

    pub fn header(self, header_name: &str, header_content: &str) -> (r: Self)
        ensures
            r.0.content.headers_spec() == header_insert(
                self.0.content.headers_spec(),
                lower(header_name.spec_bytes()),
                header_content.spec_bytes(),
            ),
            r.0.content.body@ == self.0.content.body@,
            r.0.request_line == self.0.request_line,
            r.0.requested_encoding == self.0.requested_encoding,
            r.0.ranges == self.0.ranges,
    {
        let mut req = self.0;
        req.content.add_header(header_name, header_content);
        HttpRequestBuilder(req)
    }

    /// Sets the body and its `content-length`.
    pub fn body(self, body: &[u8]) -> (r: Self)
        ensures
            r.0.content.body@ == body@,
            r.0.content.headers_spec() == header_insert(
                self.0.content.headers_spec(),
                txt_content_length(),
                decimal(body@.len() as nat),
            ),
            r.0.request_line == self.0.request_line,
            r.0.requested_encoding == self.0.requested_encoding,
            r.0.ranges == self.0.ranges,
    {
        let mut req = self.0;
        req.content.set_body(copy_range(body, 0, body.len()));
        assert(body@.subrange(0, body@.len() as int) =~= body@);
        let mut len_text: Vec<u8> = Vec::new();
        crate::bytes::push_decimal(&mut len_text, body.len() as u64);
        assert(len_text@ =~= decimal(body@.len() as nat));
        req.content.insert_header(txt_content_length_vec(), len_text);
        HttpRequestBuilder(req)
    }

    /// Sets `authorization: <scheme> <credentials>`.
    pub fn set_auth_info(self, info: (AuthMethod, String)) -> (r: Self)
        ensures
            r.0.content.headers_spec() == header_insert(
                self.0.content.headers_spec(),
                txt_authorization(),
                auth_method_name(info.0) + seq![32u8] + encode_utf8(info.1@),
            ),
            r.0.content.body@ == self.0.content.body@,
            r.0.request_line == self.0.request_line,
            r.0.requested_encoding == self.0.requested_encoding,
            r.0.ranges == self.0.ranges,
    {
        let mut req = self.0;
        let mut value = info.0.name();
        value.push(32);
        let ghost head = value@;
        let text = info.1.as_str();
        let credentials = text.as_bytes();
        assert(credentials@ == encode_utf8(info.1@));
        crate::bytes::push_all(&mut value, credentials);
        assert(value@ =~= auth_method_name(info.0) + seq![32u8] + encode_utf8(info.1@));
        req.content.insert_header(txt_authorization_vec(), value);
        HttpRequestBuilder(req)
    }

    pub fn build(self) -> (r: HttpRequest)
        ensures
            r == self.0,
    {
        self.0
    }
}

/// The first line of an input, line ending included.
pub open spec fn first_line(s: Seq<u8>) -> Seq<u8> {
    s.subrange(0, line_end(s, 0))
}

pub proof fn lemma_line_end_bounds(s: Seq<u8>, pos: int)
    requires
        0 <= pos <= s.len(),
    ensures
        pos <= line_end(s, pos) <= s.len(),
        pos < s.len() ==> line_end(s, pos) > pos,
{
    lemma_find_in_bounds(s, 10, pos, s.len() as int);
}

pub proof fn lemma_headers_from_bounds(s: Seq<u8>, pos: int, acc: Seq<(Seq<u8>, Seq<u8>)>)
    ensures
        headers_from(s, pos, acc) matches Ok(h) ==> 0 <= pos <= h.1 <= s.len(),
    decreases s.len() - pos,
{
    if 0 <= pos <= s.len() {
        lemma_line_end_bounds(s, pos);
        let e = line_end(s, pos);
        let line = s.subrange(pos, e);
        if valid_utf8(line) && trim(line).len() != 0 {
            if let Ok(h) = parse_header_spec(line) {
                let acc2 = header_insert(acc, h.0, h.1);
                if acc2.len() <= MAX_HEADERS_AMOUNT && e > pos {
                    lemma_headers_from_bounds(s, e, acc2);
                }
            }
        }
    }
}

/// The body of a parsed request is exactly as long as its `content-length` header says,
/// and empty when there is none.
pub proof fn lemma_body_matches_content_length(input: Seq<u8>)
    requires
        parse_request_spec(input) is Ok,
    ensures
        declared_length(parse_request_spec(input)->Ok_0.headers) == Some(
            parse_request_spec(input)->Ok_0.body.len() as u64,
        ),
{
    lemma_line_end_bounds(input, 0);
    let e1 = line_end(input, 0);
    lemma_headers_from_bounds(input, e1, seq![]);
}

/// A request line that does not split into exactly three words is refused as malformed,
/// and the error carries the line as it was read.
pub proof fn lemma_malformed_request_line(input: Seq<u8>)
    requires
        valid_utf8(first_line(input)),
        words(first_line(input), 0, first_line(input).len() as int).len() != 3,
    ensures
        parse_request_spec(input) == Err::<RequestModel, ParseFailure>(
            ParseFailure::Malformed(first_line(input)),
        ),
{
}

/// A header line of allowed size without a `:`, or whose name or value is empty once
/// trimmed, is refused as wrongly formatted.
pub proof fn lemma_wrong_header_format(line: Seq<u8>)
    requires
        line.len() <= MAX_HEADER_SIZE,
        ({
            let c = find_in(line, 58, 0, line.len() as int);
            c < 0 || trim(line.subrange(0, c)).len() == 0 || trim(
                line.subrange(c + 1, line.len() as int),
            ).len() == 0
        }),
    ensures
        parse_header_spec(line) == Err::<(Seq<u8>, Seq<u8>), ParseFailure>(
            ParseFailure::WrongHeaderFormat,
        ),
{
}

/// Whatever `choose_from` picks is a supported entry of the list.
pub proof fn lemma_choose_from_member(list: Seq<(ContentEncoding, WeightModel)>)
    ensures
        choose_from(list) matches Some(b) ==> exists|i: int|
            0 <= i < list.len() && list[i] == b && supported(b.0),
    decreases list.len(),
{
    if list.len() > 0 {
        lemma_choose_from_member(list.drop_last());
        if let Some(b) = choose_from(list.drop_last()) {
            if choose_from(list) == Some(b) {
                let i = choose|i: int|
                    0 <= i < list.drop_last().len() && list.drop_last()[i] == b && supported(b.0);
                assert(list[i] == b);
            }
        }
        if choose_from(list) == Some(list.last()) {
            assert(list[list.len() - 1] == list.last());
        }
    }
}

/// A list that names no supported coding leaves nothing to choose, so the request fails
/// with 406.
pub proof fn lemma_nothing_acceptable(list: Seq<(ContentEncoding, WeightModel)>)
    requires
        forall|i: int| 0 <= i < list.len() ==> !supported(#[trigger] list[i].0),
    ensures
        choose_from(list) is None,
{
    lemma_choose_from_member(list);
}

/// gzip wins when the list names it with a weight that no other supported coding
/// exceeds (any weight, zero included, when gzip is the only supported coding listed).
pub proof fn lemma_gzip_chosen(list: Seq<(ContentEncoding, WeightModel)>, q: WeightModel)
    requires
        exists|i: int| 0 <= i < list.len() && list[i] == (ContentEncoding::Gzip, q),
        forall|j: int|
            0 <= j < list.len() && supported(#[trigger] list[j].0) ==> !weight_less(q, list[j].1),
    ensures
        choose_from(list) == Some((ContentEncoding::Gzip, q)),
    decreases list.len(),
{
    let prefix = list.drop_last();
    lemma_choose_from_member(prefix);
    assert forall|j: int| 0 <= j < prefix.len() && supported(#[trigger] prefix[j].0) implies !weight_less(
        q,
        prefix[j].1,
    ) by {
        assert(prefix[j] == list[j]);
    }
    if list.last() == (ContentEncoding::Gzip, q) {
        if let Some(b) = choose_from(prefix) {
            let i = choose|i: int| 0 <= i < prefix.len() && prefix[i] == b && supported(b.0);
            assert(list[i] == b);
            lemma_weight_total(q, b.1);
        }
    } else {
        let i = choose|i: int| 0 <= i < list.len() && list[i] == (ContentEncoding::Gzip, q);
        assert(i < list.len() - 1);
        assert(prefix[i] == (ContentEncoding::Gzip, q));
        lemma_gzip_chosen(prefix, q);
        assert(supported(list.last().0) ==> !weight_less(q, list[list.len() - 1].1));
    }
}

/// Whether the header block that starts at `pos` is closed by a blank line ending in `\n`
/// within `s`, so that reading further cannot change how the headers parse.
pub open spec fn head_closed_from(s: Seq<u8>, pos: int) -> bool
    decreases s.len() - pos,
{
    if pos < 0 || pos >= s.len() {
        false
    } else {
        let e = line_end(s, pos);
        if e <= pos || e > s.len() {
            false
        } else if trim(s.subrange(pos, e)).len() == 0 {
            s[e - 1] == 10
        } else {
            head_closed_from(s, e)
        }
    }
}

/// Whether `input` holds a whole request line and header block; the body may still be
/// short.
pub fn request_head_complete(input: &[u8]) -> (r: bool)
    ensures
        r == (s_line_closed(input@) && head_closed_from(input@, line_end(input@, 0))),
{
    let e1 = line_end_exec(input, 0);
    proof {
        lemma_find_in_bounds(input@, 10, 0, input@.len() as int);
    }
    if e1 == 0 || input[e1 - 1] != 10 {
        return false;
    }
    let mut p: usize = e1;
    loop
        invariant
            p <= input@.len(),
            head_closed_from(input@, e1 as int) == head_closed_from(input@, p as int),
            s_line_closed(input@),
            e1 == line_end(input@, 0),
        decreases input@.len() - p,
    {
        if p >= input.len() {
            return false;
        }
        let e = line_end_exec(input, p);
        let (a, b) = trim_bounds(input, p, e);
        if a == b {
            return input[e - 1] == 10;
        }
        p = e;
    }
}

/// The request line ends with `\n`.
pub open spec fn s_line_closed(s: Seq<u8>) -> bool {
    line_end(s, 0) > 0 && s[line_end(s, 0) - 1] == 10
}

} // verus!
