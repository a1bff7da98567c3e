use std::io::Read;

use http_server::auth::{AuthMethod, Authenticator};
use http_server::common::{
    ErrorCode, Range, Ranges, RequestError, ResponseCode, SuccessCode, MAX_HEADER_SIZE,
    MAX_REQUEST_BODY_SIZE, MAX_URI_LENGTH,
};
use http_server::compressor::{Compressor, ContentEncoding};
use http_server::request::{
    parse_http_request_internal, HttpRequest, HttpRequestBuilder, HttpRequestLine,
    HttpRequestMethod,
};
use http_server::response::{
    build_file_response, build_http_response, build_http_response_for_invalid_request,
    build_store_response, FileAccess, HttpResponse, HttpResponseBuilder, RouteAction,
};
use http_server::url::Url;

// UTILS
fn generate_error_response_for(invalid_request: &[u8]) -> HttpResponse {
    let http_error = parse_http_request_internal(invalid_request).err().unwrap();
    build_http_response_for_invalid_request(http_error)
}

const FILE_PATH: &str = "/srv/project/src/main.rs";

fn file_content() -> Vec<u8> {
    let mut content = Vec::new();
    for i in 0..40u32 {
        content.extend_from_slice(format!("// line {:02} of the served file\n", i).as_bytes());
    }
    content
}

fn respond(action: RouteAction) -> HttpResponse {
    match action {
        RouteAction::Respond(response) => response,
        _ => panic!("expected a response"),
    }
}

/// Routes the request; when it asks for a file, serves `content` from memory.
fn respond_with_file(request: &HttpRequest, content: Option<Vec<u8>>) -> HttpResponse {
    match build_http_response(request) {
        RouteAction::Respond(response) => response,
        RouteAction::ServeFile(path) => {
            let access = match content {
                Some(c) => FileAccess::Contents(c),
                None => FileAccess::Missing,
            };
            build_file_response(request, &path, access)
        }
        RouteAction::StoreFile(_) => panic!("unexpected store"),
    }
}

fn header_text(response: &HttpResponse, name: &str) -> Option<String> {
    response
        .content()
        .get_header(name)
        .map(|v| String::from_utf8(v.clone()).unwrap())
}

// BUILDERS
fn request_builder(method: HttpRequestMethod, resource: &str) -> HttpRequestBuilder {
    HttpRequestBuilder::new(HttpRequestLine::new(
        method,
        Url::new(resource),
        String::from("HTTP/1.1"),
    ))
}

fn request_get_builder(resource: &str) -> HttpRequestBuilder {
    request_builder(HttpRequestMethod::GET, resource)
}

fn request_post_builder(resource: &str) -> HttpRequestBuilder {
    request_builder(HttpRequestMethod::POST, resource)
}

fn request_head_builder(resource: &str) -> HttpRequestBuilder {
    request_builder(HttpRequestMethod::HEAD, resource)
}

fn request_options_builder(resource: &str) -> HttpRequestBuilder {
    request_builder(HttpRequestMethod::OPTIONS, resource)
}

fn count(s: &[u8], body: &[u8]) -> usize {
    body.windows(s.len()).filter(|w| *w == s).count()
}

// GET REQUEST TESTS
#[test]
fn response_get_empty() {
    let request = request_get_builder("/").build();
    let response = respond(build_http_response(&request));

    assert_eq!(response.status_code(), ResponseCode::Success(SuccessCode::OK));
}

#[test]
fn response_get_user_agent() {
    let user_agent = "my-http-server";
    let request = request_get_builder("/user-agent")
        .header("user-agent", user_agent)
        .build();
    let response = respond(build_http_response(&request));

    assert_eq!(response.status_code(), ResponseCode::Success(SuccessCode::OK));
    assert!(response
        .content()
        .get_body()
        .starts_with(user_agent.as_bytes()));
    assert_eq!(response.content().get_body(), b"my-http-server");
}

#[test]
fn response_get_user_agent_missing() {
    let request = request_get_builder("/user-agent").build();
    let response = respond(build_http_response(&request));
    assert_eq!(response.status_code(), ResponseCode::Error(ErrorCode::NotFound));
}

#[test]
fn response_get_echo() {
    let request = request_get_builder("/echo/test").build();
    let response = respond(build_http_response(&request));

    assert_eq!(response.status_code(), ResponseCode::Success(SuccessCode::OK));
    assert!(response.content().get_body().starts_with(b"test"));
}

#[test]
fn response_get_echo_hello() {
    let request = request_get_builder("/echo/hello").build();
    let response = respond(build_http_response(&request));

    assert_eq!(response.status_code(), ResponseCode::Success(SuccessCode::OK));
    assert_eq!(response.content().get_body(), b"hello");
    assert_eq!(header_text(&response, "content-type").unwrap(), "text/plain");
    assert_eq!(header_text(&response, "content-length").unwrap(), "5");
}

#[test]
fn response_get_file() {
    let content = file_content();
    let request = request_get_builder(&format!("/files/{}", FILE_PATH)).build();
    let response = respond_with_file(&request, Some(content.clone()));

    assert_eq!(response.status_code(), ResponseCode::Success(SuccessCode::OK));
    assert_eq!(header_text(&response, "content-type").unwrap(), "text/x-rust");
    assert!(response.content().get_body().starts_with(&content));
}

#[test]
fn response_get_partial_content_single_range() {
    let content = file_content();
    let range = Range::new(0, 63);
    let ranges = Ranges::new(vec![range]);
    let request = request_get_builder(&format!("/files/{}", FILE_PATH))
        .set_range(ranges.clone())
        .build();
    let response = respond_with_file(&request, Some(content.clone()));

    assert_eq!(
        response.status_code(),
        ResponseCode::Success(SuccessCode::PartialContent)
    );
    assert_eq!(
        header_text(&response, "content-range").unwrap(),
        format!("bytes {}-{}", range.from, range.to)
    );
    assert_eq!(response.content().get_body().len(), 64);
    let partial_file_content = &content[(range.from as usize)..=(range.to as usize)].to_vec();
    assert_eq!(response.content().get_body(), partial_file_content);
}

#[test]
fn response_get_partial_content_range_past_end() {
    let content = b"short".to_vec();
    let request = request_get_builder("/files/a.txt")
        .set_range(Ranges::new(vec![Range::new(0, 64)]))
        .build();
    let response = respond_with_file(&request, Some(content));
    assert_eq!(
        response.status_code(),
        ResponseCode::Error(ErrorCode::InternalServerError)
    );
}

#[test]
fn response_get_partial_content_multiple_ranges() {
    let content = file_content();
    let range = Range::new(0, 64);
    let ranges = Ranges::new(vec![range, range]);
    let request = request_get_builder(&format!("/files/{}", FILE_PATH))
        .set_range(ranges.clone())
        .build();
    let response = respond_with_file(&request, Some(content.clone()));

    assert_eq!(
        response.status_code(),
        ResponseCode::Success(SuccessCode::PartialContent)
    );

    let response_body = response.content().get_body().clone();
    let number_of_ranges = ranges.len();

    assert_eq!(
        count(&HttpResponse::partial_content_boundary(), &response_body),
        number_of_ranges
    );
    assert_eq!(count(b"content-type", &response_body), number_of_ranges);
    assert_eq!(count(b"content-range", &response_body), number_of_ranges);
    assert_eq!(
        header_text(&response, "content-type").unwrap(),
        "multipart/byteranges; boundary=3d6b6a416f9b5"
    );
}

#[test]
fn response_multipart_body_layout() {
    let content = b"0123456789".to_vec();
    let request = request_get_builder("/files/digits.txt")
        .set_range(Ranges::new(vec![Range::new(1, 3), Range::new(8, 20)]))
        .build();
    let response = respond_with_file(&request, Some(content));
    let expected = "--3d6b6a416f9b5\r\ncontent-type: text/plain\r\ncontent-range: bytes 1-3\r\n\r\n123\r\n\
                    --3d6b6a416f9b5\r\ncontent-type: text/plain\r\ncontent-range: bytes 8-20\r\n\r\n89\r\n";
    assert_eq!(response.content().get_body(), expected.as_bytes());
}

#[test]
fn response_get_file_not_found() {
    let request = request_get_builder("/files/nonexistent_file").build();
    let response = respond_with_file(&request, None);

    assert_eq!(
        response.status_code(),
        ResponseCode::Error(ErrorCode::NotFound)
    );
}

#[test]
fn response_get_file_unknown_media_type() {
    let request = request_get_builder("/files/archive.unknownext").build();
    let response = respond_with_file(&request, Some(b"x".to_vec()));
    assert_eq!(
        response.status_code(),
        ResponseCode::Error(ErrorCode::UnsupportedMediaType)
    );
}

#[test]
fn response_unauthorized_request() {
    let request = request_get_builder("/files/test")
        .set_auth_info((AuthMethod::Basic, String::from("djkfdskjf")))
        .build();
    let response = respond(build_http_response(&request));

    assert_eq!(
        response.status_code(),
        ResponseCode::Error(ErrorCode::Unauthorized)
    );
    assert_eq!(header_text(&response, "WWW-Authenticate").unwrap(), "Basic");
}

#[test]
fn response_authorized_request() {
    let request = request_get_builder("/files/test")
        .header(
            "authorization",
            &format!("Basic {}", Authenticator::default_credentials()),
        )
        .build();
    match build_http_response(&request) {
        RouteAction::Respond(response) => assert_ne!(
            response.status_code(),
            ResponseCode::Error(ErrorCode::Unauthorized)
        ),
        RouteAction::ServeFile(path) => assert_eq!(path, b"test"),
        RouteAction::StoreFile(_) => panic!("unexpected store"),
    }
}

#[test]
fn default_credentials_are_base64() {
    assert_eq!(Authenticator::default_credentials(), "YWRtaW46cGFzc3dvcmQ=");
    assert!(Authenticator::authenticate(
        b"YWRtaW46cGFzc3dvcmQ=",
        &AuthMethod::Basic
    ));
    assert!(!Authenticator::authenticate(b"admin:password", &AuthMethod::Basic));
}

#[test]
fn response_bearer_not_implemented() {
    let request = request_get_builder("/files/test")
        .set_auth_info((AuthMethod::Bearer, String::from("token")))
        .build();
    let response = respond(build_http_response(&request));
    assert_eq!(
        response.status_code(),
        ResponseCode::Error(ErrorCode::NotImplemented)
    );
}

#[test]
fn response_invalid_get_prefix() {
    let request = request_get_builder("/nonexistent/test").build();
    let response = respond(build_http_response(&request));

    assert_eq!(
        response.status_code(),
        ResponseCode::Error(ErrorCode::InternalServerError)
    );
}

#[test]
fn response_with_invalid_request_bad_request() {
    let invalid_requests = [
        String::from(""),
        String::from("GET /"),
        String::from("GET / HTTP/1.1\r\nWrongHeader=value"),
    ];

    for invalid_request in invalid_requests {
        let error_response = generate_error_response_for(invalid_request.as_bytes());
        assert_eq!(
            error_response.status_code(),
            ResponseCode::Error(ErrorCode::BadRequest)
        );
    }
}

#[test]
fn response_with_invalid_request_internal_server_error() {
    let invalid_requests = [String::from(
        "GET / HTTP/1.1\r\nContent-Length : -32\r\n\r\n",
    )];

    for invalid_request in invalid_requests {
        let error_response = generate_error_response_for(invalid_request.as_bytes());
        assert_eq!(
            error_response.status_code(),
            ResponseCode::Error(ErrorCode::InternalServerError)
        );
    }
}

#[test]
fn response_with_invalid_request_content_too_large() {
    let invalid_request = format!(
        "GET / HTTP/1.1\r\nContent-Length: {}\r\n\r\n",
        MAX_REQUEST_BODY_SIZE + 1
    );
    let error_response = generate_error_response_for(invalid_request.as_bytes());

    assert_eq!(
        error_response.status_code(),
        ResponseCode::Error(ErrorCode::ContentTooLarge)
    );
}

#[test]
fn response_with_invalid_request_not_accepted() {
    let not_supported_encoding = String::from_utf8(ContentEncoding::Pack200gzip.token()).unwrap();
    let invalid_request = format!(
        "GET /echo/test HTTP/1.1\r\nAccept-Encoding : {}",
        not_supported_encoding
    );
    let error_response = generate_error_response_for(invalid_request.as_bytes());

    assert_eq!(
        error_response.status_code(),
        ResponseCode::Error(ErrorCode::NotAcceptable)
    );
}

#[test]
fn response_with_invalid_request_uri_too_long() {
    let invalid_request = format!(
        "GET {} HTTP/1.1\r\n",
        ["X"; (MAX_URI_LENGTH as usize) + 2].concat()
    );
    let error_response = generate_error_response_for(invalid_request.as_bytes());

    assert_eq!(
        error_response.status_code(),
        ResponseCode::Error(ErrorCode::URITooLong)
    );
}

#[test]
fn response_with_invalid_request_header_too_large() {
    let invalid_request = format!(
        "GET / HTTP/1.1\r\ntest:{}",
        ["X"; MAX_HEADER_SIZE as usize].concat()
    );
    let error_response = generate_error_response_for(invalid_request.as_bytes());

    assert_eq!(
        error_response.status_code(),
        ResponseCode::Error(ErrorCode::RequestHeaderFieldsTooLarge)
    );
}

#[test]
fn response_with_invalid_request_http_version_not_supported() {
    let invalid_request = "GET / HTTP/3.0\r\n";
    let error_response = generate_error_response_for(invalid_request.as_bytes());

    assert_eq!(
        error_response.status_code(),
        ResponseCode::Error(ErrorCode::HTTPVersionNotSupported)
    );
}

#[test]
fn response_for_other_failures_is_500() {
    let response = build_http_response_for_invalid_request(RequestError::Io);
    assert_eq!(
        response.status_code(),
        ResponseCode::Error(ErrorCode::InternalServerError)
    );
}

// POST REQUEST TESTS
#[test]
fn response_post() {
    let file_data = b"data for testing POST request".to_vec();

    let request = request_post_builder("/files/tmp/test.txt")
        .body(&file_data)
        .build();
    match build_http_response(&request) {
        RouteAction::StoreFile(path) => {
            assert_eq!(path, b"tmp/test.txt");
            assert_eq!(request.content().get_body(), &file_data);
            let response = build_store_response(&request, true);
            assert_eq!(
                response.status_code(),
                ResponseCode::Success(SuccessCode::Created)
            );
        }
        _ => panic!("POST to /files/ must store the body"),
    }
    let failed = build_store_response(&request, false);
    assert_eq!(
        failed.status_code(),
        ResponseCode::Error(ErrorCode::InternalServerError)
    );
}

#[test]
fn response_post_invalid() {
    let request = request_post_builder("/nonexistent/test").build();
    let response = respond(build_http_response(&request));

    assert_eq!(
        response.status_code(),
        ResponseCode::Error(ErrorCode::InternalServerError)
    );
}

// HEAD requests
#[test]
fn response_head_file() {
    let content = file_content();
    let request = request_head_builder(&format!("/files/{}", FILE_PATH)).build();
    let response = respond_with_file(&request, Some(content.clone()));

    assert_eq!(response.status_code(), ResponseCode::Success(SuccessCode::OK));
    assert_eq!(header_text(&response, "content-type").unwrap(), "text/x-rust");
    assert!(response.content().get_body().is_empty());
    assert_eq!(
        header_text(&response, "content-length").unwrap(),
        content.len().to_string()
    );
}

// OPTIONS requests
#[test]
fn response_options() {
    let options_request = request_options_builder(&format!("/files/{}", FILE_PATH)).build();
    let response = respond(build_http_response(&options_request));

    assert_eq!(response.status_code(), ResponseCode::Success(SuccessCode::OK));
    assert!(response.content().get_header("allow").is_some());
}

#[test]
fn response_other_method_not_implemented() {
    let request = request_builder(HttpRequestMethod::DELETE, "/").build();
    let response = respond(build_http_response(&request));
    assert_eq!(
        response.status_code(),
        ResponseCode::Error(ErrorCode::NotImplemented)
    );
}

// ENCODING AND WIRE FORMAT
#[test]
fn response_gzip_body_decodes() {
    let request = parse_http_request_internal(
        b"GET /echo/compressible-compressible HTTP/1.1\r\nAccept-Encoding: br, gzip\r\n\r\n",
    )
    .unwrap();
    assert_eq!(request.get_encoding(), Some(ContentEncoding::Gzip));
    let response = respond(build_http_response(&request));
    assert_eq!(header_text(&response, "content-encoding").unwrap(), "gzip");
    let body = response.content().get_body().clone();
    assert_ne!(body, b"compressible-compressible".to_vec());
    let mut decoded = Vec::new();
    flate2::read::GzDecoder::new(&body[..])
        .read_to_end(&mut decoded)
        .unwrap();
    assert_eq!(decoded, b"compressible-compressible");
}

#[test]
fn compress_deflate_and_identity() {
    let data = b"aaaaaaaaaaaaaaaaaaaaaaaaaaaaaaaaaaaaaaaa";
    let deflated = Compressor::compress(data, ContentEncoding::Deflate).unwrap();
    assert_ne!(deflated, data.to_vec());
    let mut decoded = Vec::new();
    flate2::read::DeflateDecoder::new(&deflated[..])
        .read_to_end(&mut decoded)
        .unwrap();
    assert_eq!(decoded, data.to_vec());
    assert_eq!(
        Compressor::compress(data, ContentEncoding::Identity).unwrap(),
        data.to_vec()
    );
    assert!(Compressor::compress(data, ContentEncoding::Br).is_none());
}

#[test]
fn response_serialization_round_trip() {
    let response = HttpResponseBuilder::default(ResponseCode::Error(ErrorCode::URITooLong))
        .header("X-Custom", "value")
        .optional_body(b"abc", true)
        .build();
    let bytes = response.as_bytes();
    let text = String::from_utf8(bytes).unwrap();
    let (head, body) = text.split_once("\r\n\r\n").unwrap();
    assert_eq!(body, "abc");
    let mut lines = head.split("\r\n");
    assert_eq!(lines.next().unwrap(), "HTTP/1.1 414 U R I Too Long");
    let mut headers: Vec<(String, String)> = lines
        .map(|l| {
            let (n, v) = l.split_once(": ").unwrap();
            (n.to_string(), v.to_string())
        })
        .collect();
    headers.retain(|(n, _)| n != "date");
    assert_eq!(
        headers,
        vec![
            ("accept-ranges".to_string(), "bytes".to_string()),
            ("server".to_string(), "simple http".to_string()),
            ("x-custom".to_string(), "value".to_string()),
            ("content-length".to_string(), "3".to_string()),
        ]
    );
}

#[test]
fn status_line_phrases() {
    let ok = HttpResponseBuilder::default(ResponseCode::Success(SuccessCode::OK)).build();
    assert!(String::from_utf8(ok.as_bytes())
        .unwrap()
        .starts_with("HTTP/1.1 200 OK\r\n"));
    assert_eq!(
        ResponseCode::Success(SuccessCode::PartialContent).reason_phrase(),
        b"Partial Content"
    );
    assert_eq!(
        ResponseCode::Error(ErrorCode::HTTPVersionNotSupported).reason_phrase(),
        b"H T T P Version Not Supported"
    );
    assert_eq!(
        ResponseCode::Error(ErrorCode::RequestHeaderFieldsTooLarge).get_code_value(),
        431
    );
}

#[test]
fn response_head_partial_content_reports_length() {
    let content = file_content();
    let request = request_head_builder(&format!("/files/{}", FILE_PATH))
        .set_range(Ranges::new(vec![Range::new(0, 63)]))
        .build();
    let response = respond_with_file(&request, Some(content));
    assert_eq!(
        response.status_code(),
        ResponseCode::Success(SuccessCode::PartialContent)
    );
    assert!(response.content().get_body().is_empty());
    assert_eq!(header_text(&response, "content-length").unwrap(), "64");
    assert_eq!(header_text(&response, "content-range").unwrap(), "bytes 0-63");
}

#[test]
fn response_errors_have_empty_bodies() {
    let denied = request_get_builder("/files/test")
        .set_auth_info((AuthMethod::Basic, String::from("wrong")))
        .build();
    assert!(respond(build_http_response(&denied)).content().get_body().is_empty());
    let missing = request_get_builder("/user-agent").build();
    assert!(respond(build_http_response(&missing)).content().get_body().is_empty());
    let error = generate_error_response_for(b"GET /");
    assert!(error.content().get_header("content-encoding").is_none());
}
