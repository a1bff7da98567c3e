//! Status codes, errors, limits, the header/body container and byte ranges.
use vstd::prelude::*;
use vstd::string::StringSliceAdditionalSpecFns;
use vstd::utf8::{decode_utf8, encode_utf8, valid_utf8};

use crate::bytes::{
    copy_range, find_byte, find_in, lemma_find_in_bounds, lower, lower_range, parse_u64,
    parse_u64_spec, trim, trim_bounds,
};

verus! {

#[derive(Debug, Clone, Copy, PartialEq, Eq, Structural)]
pub enum SuccessCode {
    OK,
    Created,
    PartialContent,
}

#[derive(Debug, Clone, Copy, PartialEq, Eq, Structural)]
pub enum ErrorCode {
    // Client errors
    BadRequest,
    Unauthorized,
    NotFound,
    NotAcceptable,
    RequestTimeout,
    ContentTooLarge,
    URITooLong,
    UnsupportedMediaType,
    RequestHeaderFieldsTooLarge,
    // Server errors
    InternalServerError,
    NotImplemented,
    HTTPVersionNotSupported,
}

#[derive(Debug, Clone, Copy, PartialEq, Eq, Structural)]
pub enum ResponseCode {
    Success(SuccessCode),
    Error(ErrorCode),
}

/// The numeric HTTP status of a response code.
pub open spec fn code_value(c: ResponseCode) -> u16 {
    match c {
        ResponseCode::Success(s) => match s {
            SuccessCode::OK => 200,
            SuccessCode::Created => 201,
            SuccessCode::PartialContent => 206,
        },
        ResponseCode::Error(e) => match e {
            ErrorCode::BadRequest => 400,
            ErrorCode::Unauthorized => 401,
            ErrorCode::NotFound => 404,
            ErrorCode::NotAcceptable => 406,
            ErrorCode::RequestTimeout => 408,
            ErrorCode::ContentTooLarge => 413,
            ErrorCode::URITooLong => 414,
            ErrorCode::UnsupportedMediaType => 415,
            ErrorCode::RequestHeaderFieldsTooLarge => 431,
            ErrorCode::InternalServerError => 500,
            ErrorCode::NotImplemented => 501,
            ErrorCode::HTTPVersionNotSupported => 505,
        },
    }
}

impl ResponseCode {
    pub fn get_code_value(&self) -> (r: u16)
        ensures
            r == code_value(*self),
    {
        match self {
            ResponseCode::Success(s) => match s {
                SuccessCode::OK => 200,
                SuccessCode::Created => 201,
                SuccessCode::PartialContent => 206,
            },
            ResponseCode::Error(e) => match e {
                ErrorCode::BadRequest => 400,
                ErrorCode::Unauthorized => 401,
                ErrorCode::NotFound => 404,
                ErrorCode::NotAcceptable => 406,
                ErrorCode::RequestTimeout => 408,
                ErrorCode::ContentTooLarge => 413,
                ErrorCode::URITooLong => 414,
                ErrorCode::UnsupportedMediaType => 415,
                ErrorCode::RequestHeaderFieldsTooLarge => 431,
                ErrorCode::InternalServerError => 500,
                ErrorCode::NotImplemented => 501,
                ErrorCode::HTTPVersionNotSupported => 505,
            },
        }
    }
}

/// Errors of the HTTP layer proper: a known error carries its final status.
#[derive(Debug, Clone, PartialEq, Eq)]
pub enum InternalHttpError {
    KnownError(ErrorCode),
    /// The raw request line, line ending included.
    MalformedRequestLine(Vec<u8>),
    WrongHeaderFormat,
    HeaderOverflow,
    InvalidUTF8Char,
}

/// Every way in which reading a request can fail.
#[derive(Debug, Clone, PartialEq, Eq)]
pub enum RequestError {
    Http(InternalHttpError),
    /// The `content-length` header is not a decimal number.
    InvalidContentLength,
    /// The stream ended before `content-length` body bytes arrived.
    IncompleteBody,
    /// The `accept-encoding` header names an unknown coding or has a bad weight.
    InvalidEncodingList,
    /// The stream itself failed.
    Io,
}

pub const MAX_HEADERS_AMOUNT: usize = 10000;

pub const MAX_REQUEST_BODY_SIZE: u64 = u64::MAX / 2;

pub const MAX_HEADER_SIZE: u64 = 32767;

pub const MAX_URI_LENGTH: usize = 65535;

/// Headers as name/value byte strings.
pub open spec fn header_view(hs: Seq<(Vec<u8>, Vec<u8>)>) -> Seq<(Seq<u8>, Seq<u8>)> {
    hs.map_values(|p: (Vec<u8>, Vec<u8>)| (p.0@, p.1@))
}

/// Position of the last header named `k`, or -1.
pub open spec fn key_index(hs: Seq<(Seq<u8>, Seq<u8>)>, k: Seq<u8>) -> int
    decreases hs.len(),
{
    if hs.len() == 0 {
        -1
    } else if hs.last().0 == k {
        hs.len() - 1
    } else {
        key_index(hs.drop_last(), k)
    }
}

/// The value stored under `k`.
pub open spec fn header_lookup(hs: Seq<(Seq<u8>, Seq<u8>)>, k: Seq<u8>) -> Option<Seq<u8>> {
    let i = key_index(hs, k);
    if i < 0 {
        None
    } else {
        Some(hs[i].1)
    }
}

/// Stores `v` under `k`: replaces the value of an existing name, else appends.
pub open spec fn header_insert(hs: Seq<(Seq<u8>, Seq<u8>)>, k: Seq<u8>, v: Seq<u8>) -> Seq<
    (Seq<u8>, Seq<u8>),
> {
    let i = key_index(hs, k);
    if i < 0 {
        hs.push((k, v))
    } else {
        hs.update(i, (k, v))
    }
}

pub proof fn lemma_key_index(hs: Seq<(Seq<u8>, Seq<u8>)>, k: Seq<u8>)
    ensures
        -1 <= key_index(hs, k) < hs.len(),
        key_index(hs, k) >= 0 ==> hs[key_index(hs, k)].0 == k,
        key_index(hs, k) == -1 ==> forall|j: int| 0 <= j < hs.len() ==> hs[j].0 != k,
    decreases hs.len(),
{
    if hs.len() > 0 {
        lemma_key_index(hs.drop_last(), k);
        if hs.last().0 != k && key_index(hs, k) == -1 {
            assert forall|j: int| 0 <= j < hs.len() implies hs[j].0 != k by {
                if j < hs.len() - 1 {
                    assert(hs.drop_last()[j] == hs[j]);
                }
            }
        }
    }
}

/// Storing under one name leaves the value under another name as it was.
pub proof fn lemma_insert_other(
    hs: Seq<(Seq<u8>, Seq<u8>)>,
    k: Seq<u8>,
    v: Seq<u8>,
    other: Seq<u8>,
)
    requires
        k != other,
    ensures
        header_lookup(header_insert(hs, k, v), other) == header_lookup(hs, other),
        header_lookup(header_insert(hs, k, v), k) == Some(v),
{
    lemma_key_index(hs, k);
    let h2 = header_insert(hs, k, v);
    lemma_key_index_update(hs, k, v, other);
    lemma_key_index(h2, k);
    lemma_key_index(h2, other);
    lemma_key_index(hs, other);
    lemma_key_index_update(hs, k, v, k);
    let j = key_index(hs, other);
    if j >= 0 {
        assert(h2[j].0 == other);
        assert(h2[j] == hs[j]);
    }
}

/// After storing under `k`, looking `k` up gives what was stored.
pub proof fn lemma_insert_lookup_all(hs: Seq<(Seq<u8>, Seq<u8>)>, k: Seq<u8>)
    ensures
        forall|v: Seq<u8>| #[trigger] header_lookup(header_insert(hs, k, v), k) == Some(v),
{
    assert forall|v: Seq<u8>| #[trigger] header_lookup(header_insert(hs, k, v), k) == Some(v) by {
        lemma_key_index_update(hs, k, v, k);
    }
}

/// Storing under `k` leaves every other name's value as it was, whatever is stored.
pub proof fn lemma_insert_keeps(hs: Seq<(Seq<u8>, Seq<u8>)>, k: Seq<u8>, other: Seq<u8>)
    requires
        k != other,
    ensures
        forall|v: Seq<u8>|
            #[trigger] header_lookup(header_insert(hs, k, v), other) == header_lookup(hs, other),
{
    assert forall|v: Seq<u8>|
        #[trigger] header_lookup(header_insert(hs, k, v), other) == header_lookup(hs, other) by {
        lemma_insert_other(hs, k, v, other);
    }
}

/// How `header_insert` moves `key_index`.
pub proof fn lemma_key_index_update(hs: Seq<(Seq<u8>, Seq<u8>)>, k: Seq<u8>, v: Seq<u8>, q: Seq<u8>)
    ensures
        q != k ==> key_index(header_insert(hs, k, v), q) == key_index(hs, q),
        key_index(header_insert(hs, k, v), k) >= 0,
        header_insert(hs, k, v)[key_index(header_insert(hs, k, v), k)] == (k, v),
    decreases hs.len(),
{
    lemma_key_index(hs, k);
    let i = key_index(hs, k);
    let h2 = header_insert(hs, k, v);
    if i < 0 {
        assert(h2.drop_last() =~= hs);
    } else {
        lemma_key_index_update_at(hs, k, v, q, i);
    }
}

/// Replacing the entry at `i`, the last one named `k`.
pub proof fn lemma_key_index_update_at(
    hs: Seq<(Seq<u8>, Seq<u8>)>,
    k: Seq<u8>,
    v: Seq<u8>,
    q: Seq<u8>,
    i: int,
)
    requires
        0 <= i < hs.len(),
        i == key_index(hs, k),
    ensures
        q != k ==> key_index(hs.update(i, (k, v)), q) == key_index(hs, q),
        key_index(hs.update(i, (k, v)), k) == i,
    decreases hs.len(),
{
    let h2 = hs.update(i, (k, v));
    lemma_key_index(hs, k);
    assert(h2.last() == (if i == hs.len() - 1 { (k, v) } else { hs.last() }));
    if i == hs.len() - 1 {
        assert(h2.drop_last() =~= hs.drop_last());
    } else {
        assert(h2.drop_last() =~= hs.drop_last().update(i, (k, v)));
        lemma_key_index_update_at(hs.drop_last(), k, v, q, i);
    }
}

/// Position of the last header named `k`.
pub fn find_key(hs: &Vec<(Vec<u8>, Vec<u8>)>, k: &[u8]) -> (r: Option<usize>)
    ensures
        match r {
            Some(i) => i as int == key_index(header_view(hs@), k@),
            None => key_index(header_view(hs@), k@) == -1,
        },
{
    let ghost v = header_view(hs@);
    assert(v.subrange(0, hs@.len() as int) =~= v);
    let mut i: usize = hs.len();
    while i > 0
        invariant
            i <= hs@.len(),
            v == header_view(hs@),
            key_index(v, k@) == key_index(v.subrange(0, i as int), k@),
        decreases i,
    {
        let ghost w = v.subrange(0, i as int);
        assert(w.drop_last() =~= v.subrange(0, i - 1));
        assert(w.last() == v[i - 1]);
        if crate::bytes::bytes_eq(hs[i - 1].0.as_slice(), k) {
            return Some(i - 1);
        }
        i = i - 1;
    }
    None
}

/// Headers and body shared by requests and responses.
#[derive(Debug)]
pub struct HttpMessageContent {
    pub headers: Vec<(Vec<u8>, Vec<u8>)>,
    pub body: Vec<u8>,
}

impl HttpMessageContent {
    pub open spec fn headers_spec(&self) -> Seq<(Seq<u8>, Seq<u8>)> {
        header_view(self.headers@)
    }

    /// The value of the header `name`, whatever its case.
    pub open spec fn header_spec(&self, name: Seq<u8>) -> Option<Seq<u8>> {
        header_lookup(self.headers_spec(), lower(name))
    }

    pub fn new(headers: Vec<(Vec<u8>, Vec<u8>)>, body: Vec<u8>) -> (r: Self)
        ensures
            r.headers@ == headers@,
            r.body@ == body@,
    {
        Self { headers, body }
    }

    /// Looks a header up by name, ignoring case.
    pub fn get_header(&self, header_name: &str) -> (r: Option<&Vec<u8>>)
        ensures
            match r {
                Some(v) => self.header_spec(header_name.spec_bytes()) == Some(v@),
                None => self.header_spec(header_name.spec_bytes()) is None,
            },
    {
        let name = header_name.as_bytes();
        let key = lower_range(name, 0, name.len());
        assert(name@.subrange(0, name@.len() as int) =~= name@);
        self.get_header_bytes(key.as_slice())
    }

    /// Looks a header up by its exact (lower-case) name.
    pub fn get_header_bytes(&self, key: &[u8]) -> (r: Option<&Vec<u8>>)
        ensures
            match r {
                Some(v) => header_lookup(self.headers_spec(), key@) == Some(v@),
                None => header_lookup(self.headers_spec(), key@) is None,
            },
    {
        proof {
            lemma_key_index(self.headers_spec(), key@);
        }
        match find_key(&self.headers, key) {
            Some(i) => Some(&self.headers[i].1),
            None => None,
        }
    }

    /// Stores a header under its lower-case name; returns the value it replaces.
    pub fn add_header(&mut self, header_name: &str, header_content: &str) -> (r: Option<Vec<u8>>)
        ensures
            final(self).headers_spec() == header_insert(
                old(self).headers_spec(),
                lower(header_name.spec_bytes()),
                header_content.spec_bytes(),
            ),
            final(self).body@ == old(self).body@,
            match r {
                Some(v) => header_lookup(old(self).headers_spec(), lower(header_name.spec_bytes()))
                    == Some(v@),
                None => header_lookup(old(self).headers_spec(), lower(header_name.spec_bytes())) is None,
            },
    {
        let name = header_name.as_bytes();
        let content = header_content.as_bytes();
        let key = lower_range(name, 0, name.len());
        let value = copy_range(content, 0, content.len());
        assert(name@.subrange(0, name@.len() as int) =~= name@);
        assert(content@.subrange(0, content@.len() as int) =~= content@);
        self.insert_header(key, value)
    }

    /// Stores `value` under the name `key`, taken as it is.
    pub fn insert_header(&mut self, key: Vec<u8>, value: Vec<u8>) -> (r: Option<Vec<u8>>)
        ensures
            final(self).headers_spec() == header_insert(old(self).headers_spec(), key@, value@),
            final(self).body@ == old(self).body@,
            match r {
                Some(v) => header_lookup(old(self).headers_spec(), key@) == Some(v@),
                None => header_lookup(old(self).headers_spec(), key@) is None,
            },
    {
        let ghost old_hs = self.headers_spec();
        proof {
            lemma_key_index(old_hs, key@);
        }
        match find_key(&self.headers, key.as_slice()) {
            Some(i) => {
                let old_value = self.headers[i].1.clone();
                let ghost kv = key@;
                let ghost vv = value@;
                self.headers.set(i, (key, value));
                assert(self.headers_spec() =~= old_hs.update(i as int, (kv, vv)));
                Some(old_value)
            },
            None => {
                let ghost kv = key@;
                let ghost vv = value@;
                self.headers.push((key, value));
                assert(self.headers_spec() =~= old_hs.push((kv, vv)));
                None
            },
        }
    }

    pub fn get_body(&self) -> (r: &Vec<u8>)
        ensures
            r@ == self.body@,
    {
        &self.body
    }

    pub fn set_body(&mut self, body: Vec<u8>)
        ensures
            final(self).body@ == body@,
            final(self).headers@ == old(self).headers@,
    {
        self.body = body;
    }

    pub fn get_headers(&self) -> (r: &Vec<(Vec<u8>, Vec<u8>)>)
        ensures
            r@ == self.headers@,
    {
        &self.headers
    }
}

/// Inclusive byte offsets of one span of a resource, `from < to`.
#[derive(Debug, Clone, Copy, PartialEq, Eq, Structural)]
pub struct Range {
    pub from: u64,
    pub to: u64,
}

impl Range {
    pub fn new(from: u64, to: u64) -> (r: Self)
        ensures
            r == (Range { from, to }),
    {
        Range { from, to }
    }
}

/// One or more byte spans, in the order the client gave them.
#[derive(Debug, Clone)]
pub struct Ranges {
    pub ranges: Vec<Range>,
}

/// `from-to` with `from < to`.
pub open spec fn parse_range_spec(p: Seq<u8>) -> Option<Range> {
    let k = find_in(p, 45, 0, p.len() as int);
    if k < 0 {
        None
    } else {
        match (parse_u64_spec(p.subrange(0, k)), parse_u64_spec(p.subrange(k + 1, p.len() as int))) {
            (Some(f), Some(t)) => if f < t {
                Some(Range { from: f, to: t })
            } else {
                None
            },
            _ => None,
        }
    }
}

/// The ranges of the comma-separated list `s[i..]`, each piece trimmed.
pub open spec fn ranges_from(s: Seq<u8>, i: int) -> Option<Seq<Range>>
    decreases s.len() + 1 - i,
{
    if i < 0 || i > s.len() {
        None
    } else {
        let j = find_in(s, 44, i, s.len() as int);
        let last = j < i || j >= s.len();
        let end = if last {
            s.len() as int
        } else {
            j
        };
        match parse_range_spec(trim(s.subrange(i, end))) {
            None => None,
            Some(r) => if last {
                Some(seq![r])
            } else {
                match ranges_from(s, j + 1) {
                    None => None,
                    Some(rest) => Some(seq![r] + rest),
                }
            },
        }
    }
}

/// A `Range` header value: `bytes=` then a list of ranges.
pub open spec fn parse_ranges_spec(v: Seq<u8>) -> Option<Seq<Range>> {
    if v.len() >= 6 && v.subrange(0, 6) == crate::text::txt_bytes_eq_prefix() {
        ranges_from(v.subrange(6, v.len() as int), 0)
    } else {
        None
    }
}

impl Range {
    /// Parses `s[lo..hi]` as `from-to`.
    pub fn parse(s: &[u8], lo: usize, hi: usize) -> (r: Option<Range>)
        requires
            lo <= hi <= s@.len(),
        ensures
            r == parse_range_spec(s@.subrange(lo as int, hi as int)),
    {
        let ghost p = s@.subrange(lo as int, hi as int);
        let k = find_byte(s, 45, lo, hi);
        proof {
            lemma_find_in_shift(s@, 45, lo as int, hi as int);
            lemma_find_in_bounds(s@, 45, lo as int, hi as int);
        }
        match k {
            None => None,
            Some(k) => {
                assert(p.subrange(0, k - lo) =~= s@.subrange(lo as int, k as int));
                assert(p.subrange(k - lo + 1, p.len() as int) =~= s@.subrange(k + 1, hi as int));
                let f = parse_u64(s, lo, k);
                let t = parse_u64(s, k + 1, hi);
                match (f, t) {
                    (Some(f), Some(t)) => if f < t {
                        Some(Range { from: f, to: t })
                    } else {
                        None
                    },
                    _ => None,
                }
            },
        }
    }
}

/// Searching a slice of `s` is searching `s` with shifted positions.
pub proof fn lemma_find_in_shift(s: Seq<u8>, c: u8, lo: int, hi: int)
    requires
        0 <= lo <= hi <= s.len(),
    ensures
        find_in(s, c, lo, hi) == -1 ==> find_in(s.subrange(lo, hi), c, 0, hi - lo) == -1,
        find_in(s, c, lo, hi) != -1 ==> find_in(s.subrange(lo, hi), c, 0, hi - lo) == find_in(
            s,
            c,
            lo,
            hi,
        ) - lo,
{
    lemma_find_in_shift_from(s, c, lo, hi, lo);
}

pub proof fn lemma_find_in_shift_from(s: Seq<u8>, c: u8, lo: int, hi: int, i: int)
    requires
        0 <= lo <= i <= hi <= s.len(),
    ensures
        find_in(s, c, i, hi) == -1 ==> find_in(s.subrange(lo, hi), c, i - lo, hi - lo) == -1,
        find_in(s, c, i, hi) != -1 ==> find_in(s.subrange(lo, hi), c, i - lo, hi - lo) == find_in(
            s,
            c,
            i,
            hi,
        ) - lo,
    decreases hi - i,
{
    if i < hi {
        assert(s.subrange(lo, hi)[i - lo] == s[i]);
        lemma_find_in_shift_from(s, c, lo, hi, i + 1);
    }
}

impl Ranges {
    pub open spec fn view_ranges(&self) -> Seq<Range> {
        self.ranges@
    }

    /// Every span satisfies `from < to`, and there is at least one.
    pub open spec fn wf(&self) -> bool {
        self.ranges@.len() > 0 && forall|i: int|
            0 <= i < self.ranges@.len() ==> #[trigger] self.ranges@[i].from < self.ranges@[i].to
    }

    pub fn new(ranges: Vec<Range>) -> (r: Self)
        ensures
            r.ranges@ == ranges@,
    {
        Self { ranges }
    }

    pub fn is_multipart(&self) -> (r: bool)
        ensures
            r == (self.ranges@.len() > 1),
    {
        self.ranges.len() > 1
    }

    pub fn first(&self) -> (r: Option<&Range>)
        ensures
            self.ranges@.len() == 0 ==> r is None,
            self.ranges@.len() > 0 ==> r == Some(&self.ranges@[0]),
    {
        if self.ranges.len() == 0 {
            None
        } else {
            Some(&self.ranges[0])
        }
    }

    pub fn len(&self) -> (r: usize)
        ensures
            r == self.ranges@.len(),
    {
        self.ranges.len()
    }

    pub fn elements(&self) -> (r: &Vec<Range>)
        ensures
            r@ == self.ranges@,
    {
        &self.ranges
    }

    /// Parses a `Range` header value such as `bytes=0-50, 100-150`.
    pub fn parse(v: &[u8]) -> (r: Option<Ranges>)
        ensures
            match r {
                Some(rs) => parse_ranges_spec(v@) == Some(rs.ranges@) && rs.wf(),
                None => parse_ranges_spec(v@) is None,
            },
    {
        let prefix = crate::text::txt_bytes_eq_prefix_vec();
        if v.len() < 6 || !crate::bytes::range_eq(v, 0, 6, prefix.as_slice()) {
            return None;
        }
        let ghost s = v@.subrange(6, v@.len() as int);
        let mut out: Vec<Range> = Vec::new();
        let mut i: usize = 6;
        loop
            invariant
                6 <= i <= v@.len(),
                s == v@.subrange(6, v@.len() as int),
                parse_ranges_spec(v@) == ranges_from(s, 0),
                ranges_from(s, 0) == match ranges_from(s, i - 6) {
                    Some(rest) => Some(out@ + rest),
                    None => None::<Seq<Range>>,
                },
            decreases v@.len() - i,
        {
            let j = find_byte(v, 44, i, v.len());
            proof {
                lemma_find_in_shift(v@, 44, i as int, v@.len() as int);
                lemma_find_in_bounds(v@, 44, i as int, v@.len() as int);
                assert(v@.subrange(i as int, v@.len() as int) =~= s.subrange(i - 6, s.len() as int));
                lemma_find_in_shift(s, 44, i - 6, s.len() as int);
            }
            let end = match j {
                Some(j) => j,
                None => v.len(),
            };
            assert(v@.subrange(i as int, end as int) =~= s.subrange(i - 6, end - 6));
            let (a, b) = trim_bounds(v, i, end);
            let r = Range::parse(v, a, b);
            match r {
                None => {
                    return None;
                },
                Some(r) => {
                    out.push(r);
                    match j {
                        None => {
                            assert(out@ =~= out@.drop_last() + seq![r]);
                            proof {
                                lemma_ranges_from_wf(s, 0);
                            }
                            return Some(Ranges { ranges: out });
                        },
                        Some(j) => {
                            assert(out@.drop_last() + (seq![r] + ranges_from(s, j + 1 - 6)->0)
                                =~= out@ + ranges_from(s, j + 1 - 6)->0);
                            i = j + 1;
                        },
                    }
                },
            }
        }
    }

    /// The list in `Range` header form, without the `bytes=` unit: `0-50,100-150`.
    pub fn to_bytes(&self) -> (r: Vec<u8>)
        ensures
            r@ == ranges_text(self.ranges@),
    {
        let mut out: Vec<u8> = Vec::new();
        let mut i: usize = 0;
        while i < self.ranges.len()
            invariant
                i <= self.ranges@.len(),
                out@ == ranges_text(self.ranges@.subrange(0, i as int)),
            decreases self.ranges@.len() - i,
        {
            let r = self.ranges[i];
            if i > 0 {
                out.push(44);
            }
            crate::bytes::push_decimal(&mut out, r.from);
            out.push(45);
            crate::bytes::push_decimal(&mut out, r.to);
            assert(self.ranges@.subrange(0, i + 1).drop_last() =~= self.ranges@.subrange(
                0,
                i as int,
            ));
            i = i + 1;
        }
        assert(self.ranges@.subrange(0, i as int) =~= self.ranges@);
        out
    }
}

/// Every list that `ranges_from` accepts is non-empty with `from < to` in each span.
pub proof fn lemma_ranges_from_wf(s: Seq<u8>, i: int)
    ensures
        ranges_from(s, i) matches Some(rs) ==> rs.len() > 0 && forall|k: int|
            0 <= k < rs.len() ==> #[trigger] rs[k].from < rs[k].to,
    decreases s.len() + 1 - i,
{
    if 0 <= i <= s.len() {
        let j = find_in(s, 44, i, s.len() as int);
        if !(j < i || j >= s.len()) {
            lemma_ranges_from_wf(s, j + 1);
        }
        if let Some(rs) = ranges_from(s, i) {
            assert forall|k: int| 0 <= k < rs.len() implies #[trigger] rs[k].from < rs[k].to by {
                if k > 0 {
                    assert(rs[k] == ranges_from(s, j + 1)->0[k - 1]);
                }
            }
        }
    }
}

/// `from-to`.
pub open spec fn range_text(r: Range) -> Seq<u8> {
    crate::bytes::decimal(r.from as nat) + seq![45u8] + crate::bytes::decimal(r.to as nat)
}

/// The spans joined by commas.
pub open spec fn ranges_text(rs: Seq<Range>) -> Seq<u8>
    decreases rs.len(),
{
    if rs.len() == 0 {
        Seq::empty()
    } else if rs.len() == 1 {
        range_text(rs[0])
    } else {
        ranges_text(rs.drop_last()) + seq![44u8] + range_text(rs.last())
    }
}

/// The text of mime_guess's first guess for a path, if it has one.
pub uninterp spec fn guessed_mime(path: Seq<char>) -> Option<Seq<char>>;

/// Relies on mime_guess's `from_path(..).first()`: the first MIME type registered for the
/// extension of `path`, which depends on the path alone.
#[verifier::external_body]
fn guess_mime(path: &str) -> (r: Option<String>)
    ensures
        match r {
            Some(m) => guessed_mime(path@) == Some(m@),
            None => guessed_mime(path@) is None,
        },
{
    match mime_guess::from_path(path).first() {
        Some(m) => Some(m.to_string()),
        None => None,
    }
}

/// The content type of a resource: the `content-type` header if given, else the type
/// guessed from the path's extension.
pub open spec fn content_type_spec(hs: Seq<(Seq<u8>, Seq<u8>)>, path: Seq<u8>) -> Option<Seq<u8>> {
    match header_lookup(hs, crate::text::txt_content_type()) {
        Some(v) => Some(v),
        None => if valid_utf8(path) {
            match guessed_mime(decode_utf8(path)) {
                Some(m) => Some(encode_utf8(m)),
                None => None,
            }
        } else {
            None
        },
    }
}

impl HttpMessageContent {
    /// The content type of the resource at `path_to_resource`; `None` when neither the
    /// headers nor the path's extension give one.
    pub fn get_content_type(&self, path_to_resource: &[u8]) -> (r: Option<Vec<u8>>)
        ensures
            match r {
                Some(v) => content_type_spec(self.headers_spec(), path_to_resource@) == Some(v@),
                None => content_type_spec(self.headers_spec(), path_to_resource@) is None,
            },
    {
        let name = crate::text::txt_content_type_vec();
        match self.get_header_bytes(name.as_slice()) {
            Some(v) => Some(copy_range(v.as_slice(), 0, v.len())),
            None => match crate::bytes::utf8_str(path_to_resource) {
                None => None,
                Some(p) => {
                    proof {
                        vstd::utf8::encode_utf8_decode_utf8(p@);
                    }
                    match guess_mime(p) {
                        None => None,
                        Some(m) => {
                            let t = m.as_str().as_bytes();
                            Some(copy_range(t, 0, t.len()))
                        },
                    }
                },
            },
        }
    }
}

} // verus!
