use http_server::common::{ErrorCode, InternalHttpError, RequestError, MAX_HEADERS_AMOUNT};
use http_server::compressor::ContentEncoding;
use http_server::request::{
    choose_content_encoding, parse_encodings, parse_http_request_internal, HttpRequest,
    HttpRequestMethod, Weight,
};

fn parse_request(request: &[u8]) -> Result<HttpRequest, RequestError> {
    parse_http_request_internal(request)
}

fn get_error(res: Result<HttpRequest, RequestError>) -> InternalHttpError {
    match res {
        Err(RequestError::Http(e)) => e,
        _ => panic!("Not an InternalHttpError"),
    }
}

// Distinct header names of ten characters, the varying characters first.
fn header_name(i: usize) -> String {
    let digits: String = format!("{:06}", i).chars().rev().collect();
    format!("{}abcd", digits)
}

#[test]
fn request_parse_get() {
    let request = "GET /index.html HTTP/1.1\r\nHost: example.com\r\nContent-Length: 5\r\n\r\nHello";

    let result = parse_request(request.as_bytes());
    assert!(result.is_ok());

    let parsed_request = result.unwrap();
    assert_eq!(parsed_request.get_method(), HttpRequestMethod::GET);
    assert_eq!(parsed_request.get_url().resource(), b"/index.html");
    assert_eq!(parsed_request.get_version(), b"1.1");
    assert_eq!(
        parsed_request.content().get_header("host").unwrap(),
        b"example.com"
    );
    assert_eq!(
        parsed_request.content().get_header("content-length").unwrap(),
        b"5"
    );
    assert_eq!(parsed_request.content().get_body(), b"Hello");
}

#[test]
fn request_parse_accept_encoding() {
    let request = "GET / HTTP/1.1\r\nAccept-Encoding : br;q=0.8, gzip, *\r\n\r\n";
    let result = parse_request(request.as_bytes());
    assert!(result.is_ok());

    let parsed_request = result.unwrap();
    assert!(parsed_request.get_encoding().is_some());
    assert_eq!(parsed_request.get_encoding().unwrap(), ContentEncoding::Gzip);
}

#[test]
fn request_malformed_request_line() {
    let invalid_requests = vec![
        String::from("\r\n"),
        String::from("GET HTTP/1.1\r\n"),
        String::from("/ HTTP/1.1\r\n"),
        String::from("GET / \r\n"),
    ];

    for request in invalid_requests {
        let result = parse_request(request.as_bytes());
        assert!(result.is_err());
        assert_eq!(
            get_error(result),
            InternalHttpError::MalformedRequestLine(request.into_bytes())
        );
    }
}

#[test]
fn request_wrong_header_format() {
    let invalid_requests = vec![
        String::from("GET / HTTP/1.1\r\nHeader:"),
        String::from("GET / HTTP/1.1\r\n:"),
    ];

    for request in invalid_requests {
        let result = parse_request(request.as_bytes());
        assert!(result.is_err());
        assert_eq!(get_error(result), InternalHttpError::WrongHeaderFormat);
    }
}

#[test]
fn request_invalid_utf_char() {
    let broken_heart: Vec<u8> = vec![240, 159, 146, 69];
    let mut request = b"GET / HTTP/1.1\r\nLove:".to_vec();
    request.extend_from_slice(&broken_heart);
    let res = parse_request(&request);
    assert!(res.is_err());
    assert_eq!(get_error(res), InternalHttpError::InvalidUTF8Char);
}

#[test]
fn request_parse_max_allowed_headers() {
    let mut request = String::from("GET / HTTP/1.1\r\n");
    for i in 0..MAX_HEADERS_AMOUNT {
        request.push_str(&format!("{}:{}\r\n", header_name(i), header_name(i)));
    }
    request.push_str("break:http\r\n\r\n");

    let result = parse_request(request.as_bytes());

    assert!(result.is_err());
    assert_eq!(get_error(result), InternalHttpError::HeaderOverflow);
}

#[test]
fn request_parse_exactly_max_headers() {
    let mut request = String::from("GET / HTTP/1.1\r\n");
    for i in 0..MAX_HEADERS_AMOUNT {
        request.push_str(&format!("{}:{}\r\n", header_name(i), header_name(i)));
    }
    request.push_str("\r\n");

    let parsed = parse_request(request.as_bytes()).unwrap();
    assert_eq!(parsed.content().get_headers().len(), MAX_HEADERS_AMOUNT);
}

#[test]
fn request_repeated_header_replaces_value() {
    let request = "GET / HTTP/1.1\r\nX-A: one\r\nx-a: two\r\n\r\n";
    let parsed = parse_request(request.as_bytes()).unwrap();
    assert_eq!(parsed.content().get_headers().len(), 1);
    assert_eq!(parsed.content().get_header("X-A").unwrap(), b"two");
}

#[test]
fn request_body_length_follows_content_length() {
    let request = "POST /files/a HTTP/1.1\r\nContent-Length: 3\r\n\r\nabcdef";
    let parsed = parse_request(request.as_bytes()).unwrap();
    assert_eq!(parsed.content().get_body(), b"abc");

    let no_length = parse_request(b"POST /files/a HTTP/1.1\r\n\r\nabc").unwrap();
    assert!(no_length.content().get_body().is_empty());
}

#[test]
fn request_body_shorter_than_declared() {
    let request = "POST /x HTTP/1.1\r\nContent-Length: 10\r\n\r\nabc";
    assert_eq!(
        parse_request(request.as_bytes()).err(),
        Some(RequestError::IncompleteBody)
    );
}

#[test]
fn request_invalid_content_length() {
    let request = "GET / HTTP/1.1\r\nContent-Length: 1x\r\n\r\n";
    assert_eq!(
        parse_request(request.as_bytes()).err(),
        Some(RequestError::InvalidContentLength)
    );
}

#[test]
fn request_too_many_words_in_request_line() {
    let request = "GET / HTTP/1.1 extra\r\n\r\n";
    assert_eq!(
        get_error(parse_request(request.as_bytes())),
        InternalHttpError::MalformedRequestLine(b"GET / HTTP/1.1 extra\r\n".to_vec())
    );
}

#[test]
fn request_unknown_method_is_not_implemented() {
    let request = "FETCH / HTTP/1.1\r\n\r\n";
    assert_eq!(
        get_error(parse_request(request.as_bytes())),
        InternalHttpError::KnownError(ErrorCode::NotImplemented)
    );
}

#[test]
fn request_query_is_split_from_resource() {
    let parsed = parse_request(b"GET /echo/hi?x=1 HTTP/1.1\r\n\r\n").unwrap();
    assert_eq!(parsed.get_url().resource(), b"/echo/hi");
    assert_eq!(parsed.get_url().query(), b"x=1");
}

#[test]
fn request_range_and_cache_control() {
    let request = "GET / HTTP/1.1\r\nRange: bytes=0-50, 100-150\r\nCache-Control: no-store, max-age=5\r\n\r\n";
    let parsed = parse_request(request.as_bytes()).unwrap();
    let ranges = parsed.ranges().unwrap();
    assert_eq!(ranges.len(), 2);
    assert!(ranges.is_multipart());
    assert_eq!(ranges.elements()[1].from, 100);
    assert_eq!(ranges.elements()[1].to, 150);
    assert!(!parsed.cache_control().as_ref().unwrap().store_allowed());

    let bad_range = parse_request(b"GET / HTTP/1.1\r\nRange: bytes=9-3\r\n\r\n").unwrap();
    assert!(bad_range.ranges().is_none());
    let cacheable = parse_request(b"GET / HTTP/1.1\r\nCache-Control: max-age=5\r\n\r\n").unwrap();
    assert!(cacheable.cache_control().as_ref().unwrap().store_allowed());
}

#[test]
fn encodings_unsupported_only_not_acceptable() {
    let list = parse_encodings(b"br, zstd;q=0.5, compress").unwrap();
    assert_eq!(list.len(), 3);
    assert_eq!(
        choose_content_encoding(&list),
        Err(InternalHttpError::KnownError(ErrorCode::NotAcceptable))
    );
    for value in ["br, zstd", "br;q=1.5", "zstd;q=0.25, br;q=3"] {
        let request = format!("GET / HTTP/1.1\r\nAccept-Encoding: {}\r\n\r\n", value);
        assert_eq!(
            get_error(parse_request(request.as_bytes())),
            InternalHttpError::KnownError(ErrorCode::NotAcceptable)
        );
    }
}

#[test]
fn encodings_gzip_among_others() {
    for value in [
        "gzip",
        "br, gzip",
        "identity, gzip",
        "gzip;q=0.7, br;q=0.9",
        "gzip;q=0",
        "gzip;q=0, br",
        "gzip;q=1.5",
        "br;q=2, gzip;q=0.125",
    ] {
        let list = parse_encodings(value.as_bytes()).unwrap();
        assert_eq!(choose_content_encoding(&list), Ok(ContentEncoding::Gzip));
        let request = format!("GET / HTTP/1.1\r\nAccept-Encoding: {}\r\n\r\n", value);
        assert_eq!(
            parse_request(request.as_bytes()).unwrap().get_encoding(),
            Some(ContentEncoding::Gzip)
        );
    }
    let list = parse_encodings(b"gzip;q=0.5, identity;q=0.9").unwrap();
    assert_eq!(choose_content_encoding(&list), Ok(ContentEncoding::Identity));
    let list = parse_encodings(b"gzip;q=0.50, identity;q=00.5").unwrap();
    assert_eq!(choose_content_encoding(&list), Ok(ContentEncoding::Gzip));
}

fn weight(whole: &[u8], fraction: &[u8]) -> Weight {
    Weight { whole: whole.to_vec(), fraction: fraction.to_vec() }
}

#[test]
fn encodings_weights() {
    let list = parse_encodings(b"br;q=0.8, gzip, *;q=0.125, zstd;q=12.50").unwrap();
    assert_eq!(
        list,
        vec![
            (ContentEncoding::Br, weight(b"", b"8")),
            (ContentEncoding::Gzip, weight(b"1", b"")),
            (ContentEncoding::Identity, weight(b"", b"125")),
            (ContentEncoding::Zstd, weight(b"12", b"5"))
        ]
    );
    assert!(parse_encodings(b"gzip;q=2").is_some());
    assert!(parse_encodings(b"gzip;q=.5").is_some());
    assert!(parse_encodings(b"gzip;q=.").is_none());
    assert!(parse_encodings(b"gzip;q=1.2.3").is_none());
    assert!(parse_encodings(b"unknown").is_none());
    assert_eq!(
        parse_request(b"GET / HTTP/1.1\r\nAccept-Encoding: gzip;q=x\r\n\r\n").err(),
        Some(RequestError::InvalidEncodingList)
    );
}
