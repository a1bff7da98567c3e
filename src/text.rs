//! Fixed byte strings of the protocol: method names, tokens, header names and values.
use vstd::prelude::*;

verus! {

/// `OPTIONS`
pub open spec fn txt_options() -> Seq<u8> {
    seq![79u8, 80, 84, 73, 79, 78, 83]
}

pub fn txt_options_vec() -> (r: Vec<u8>)
    ensures
        r@ == txt_options(),
{
    let r: Vec<u8> = vec![79u8, 80, 84, 73, 79, 78, 83];
    assert(r@ =~= txt_options());
    r
}

/// `GET`
pub open spec fn txt_get() -> Seq<u8> {
    seq![71u8, 69, 84]
}

pub fn txt_get_vec() -> (r: Vec<u8>)
    ensures
        r@ == txt_get(),
{
    let r: Vec<u8> = vec![71u8, 69, 84];
    assert(r@ =~= txt_get());
    r
}

/// `HEAD`
pub open spec fn txt_head() -> Seq<u8> {
    seq![72u8, 69, 65, 68]
}

pub fn txt_head_vec() -> (r: Vec<u8>)
    ensures
        r@ == txt_head(),
{
    let r: Vec<u8> = vec![72u8, 69, 65, 68];
    assert(r@ =~= txt_head());
    r
}

/// `POST`
pub open spec fn txt_post() -> Seq<u8> {
    seq![80u8, 79, 83, 84]
}

pub fn txt_post_vec() -> (r: Vec<u8>)
    ensures
        r@ == txt_post(),
{
    let r: Vec<u8> = vec![80u8, 79, 83, 84];
    assert(r@ =~= txt_post());
    r
}

/// `PUT`
pub open spec fn txt_put() -> Seq<u8> {
    seq![80u8, 85, 84]
}

pub fn txt_put_vec() -> (r: Vec<u8>)
    ensures
        r@ == txt_put(),
{
    let r: Vec<u8> = vec![80u8, 85, 84];
    assert(r@ =~= txt_put());
    r
}

/// `DELETE`
pub open spec fn txt_delete() -> Seq<u8> {
    seq![68u8, 69, 76, 69, 84, 69]
}

pub fn txt_delete_vec() -> (r: Vec<u8>)
    ensures
        r@ == txt_delete(),
{
    let r: Vec<u8> = vec![68u8, 69, 76, 69, 84, 69];
    assert(r@ =~= txt_delete());
    r
}

/// `TRACE`
pub open spec fn txt_trace() -> Seq<u8> {
    seq![84u8, 82, 65, 67, 69]
}

pub fn txt_trace_vec() -> (r: Vec<u8>)
    ensures
        r@ == txt_trace(),
{
    let r: Vec<u8> = vec![84u8, 82, 65, 67, 69];
    assert(r@ =~= txt_trace());
    r
}

/// `CONNECT`
pub open spec fn txt_connect() -> Seq<u8> {
    seq![67u8, 79, 78, 78, 69, 67, 84]
}

pub fn txt_connect_vec() -> (r: Vec<u8>)
    ensures
        r@ == txt_connect(),
{
    let r: Vec<u8> = vec![67u8, 79, 78, 78, 69, 67, 84];
    assert(r@ =~= txt_connect());
    r
}

/// `aes128gcm`
pub open spec fn txt_aes128gcm() -> Seq<u8> {
    seq![97u8, 101, 115, 49, 50, 56, 103, 99, 109]
}

pub fn txt_aes128gcm_vec() -> (r: Vec<u8>)
    ensures
        r@ == txt_aes128gcm(),
{
    let r: Vec<u8> = vec![97u8, 101, 115, 49, 50, 56, 103, 99, 109];
    assert(r@ =~= txt_aes128gcm());
    r
}

/// `br`
pub open spec fn txt_br() -> Seq<u8> {
    seq![98u8, 114]
}

pub fn txt_br_vec() -> (r: Vec<u8>)
    ensures
        r@ == txt_br(),
{
    let r: Vec<u8> = vec![98u8, 114];
    assert(r@ =~= txt_br());
    r
}

/// `compress`
pub open spec fn txt_compress() -> Seq<u8> {
    seq![99u8, 111, 109, 112, 114, 101, 115, 115]
}

pub fn txt_compress_vec() -> (r: Vec<u8>)
    ensures
        r@ == txt_compress(),
{
    let r: Vec<u8> = vec![99u8, 111, 109, 112, 114, 101, 115, 115];
    assert(r@ =~= txt_compress());
    r
}

/// `deflate`
pub open spec fn txt_deflate() -> Seq<u8> {
    seq![100u8, 101, 102, 108, 97, 116, 101]
}

pub fn txt_deflate_vec() -> (r: Vec<u8>)
    ensures
        r@ == txt_deflate(),
{
    let r: Vec<u8> = vec![100u8, 101, 102, 108, 97, 116, 101];
    assert(r@ =~= txt_deflate());
    r
}

/// `exi`
pub open spec fn txt_exi() -> Seq<u8> {
    seq![101u8, 120, 105]
}

pub fn txt_exi_vec() -> (r: Vec<u8>)
    ensures
        r@ == txt_exi(),
{
    let r: Vec<u8> = vec![101u8, 120, 105];
    assert(r@ =~= txt_exi());
    r
}

/// `gzip`
pub open spec fn txt_gzip() -> Seq<u8> {
    seq![103u8, 122, 105, 112]
}

pub fn txt_gzip_vec() -> (r: Vec<u8>)
    ensures
        r@ == txt_gzip(),
{
    let r: Vec<u8> = vec![103u8, 122, 105, 112];
    assert(r@ =~= txt_gzip());
    r
}

/// `identity`
pub open spec fn txt_identity() -> Seq<u8> {
    seq![105u8, 100, 101, 110, 116, 105, 116, 121]
}

pub fn txt_identity_vec() -> (r: Vec<u8>)
    ensures
        r@ == txt_identity(),
{
    let r: Vec<u8> = vec![105u8, 100, 101, 110, 116, 105, 116, 121];
    assert(r@ =~= txt_identity());
    r
}

/// `pack200-gzip`
pub open spec fn txt_pack200_gzip() -> Seq<u8> {
    seq![112u8, 97, 99, 107, 50, 48, 48, 45, 103, 122, 105, 112]
}

pub fn txt_pack200_gzip_vec() -> (r: Vec<u8>)
    ensures
        r@ == txt_pack200_gzip(),
{
    let r: Vec<u8> = vec![112u8, 97, 99, 107, 50, 48, 48, 45, 103, 122, 105, 112];
    assert(r@ =~= txt_pack200_gzip());
    r
}

/// `zstd`
pub open spec fn txt_zstd() -> Seq<u8> {
    seq![122u8, 115, 116, 100]
}

pub fn txt_zstd_vec() -> (r: Vec<u8>)
    ensures
        r@ == txt_zstd(),
{
    let r: Vec<u8> = vec![122u8, 115, 116, 100];
    assert(r@ =~= txt_zstd());
    r
}

/// `OK`
pub open spec fn txt_ok_upper() -> Seq<u8> {
    seq![79u8, 75]
}

pub fn txt_ok_upper_vec() -> (r: Vec<u8>)
    ensures
        r@ == txt_ok_upper(),
{
    let r: Vec<u8> = vec![79u8, 75];
    assert(r@ =~= txt_ok_upper());
    r
}

/// `Created`
pub open spec fn txt_created() -> Seq<u8> {
    seq![67u8, 114, 101, 97, 116, 101, 100]
}

pub fn txt_created_vec() -> (r: Vec<u8>)
    ensures
        r@ == txt_created(),
{
    let r: Vec<u8> = vec![67u8, 114, 101, 97, 116, 101, 100];
    assert(r@ =~= txt_created());
    r
}

/// `PartialContent`
pub open spec fn txt_partial_content() -> Seq<u8> {
    seq![80u8, 97, 114, 116, 105, 97, 108, 67, 111, 110, 116, 101, 110, 116]
}

pub fn txt_partial_content_vec() -> (r: Vec<u8>)
    ensures
        r@ == txt_partial_content(),
{
    let r: Vec<u8> = vec![80u8, 97, 114, 116, 105, 97, 108, 67, 111, 110, 116, 101, 110, 116];
    assert(r@ =~= txt_partial_content());
    r
}

/// `BadRequest`
pub open spec fn txt_bad_request() -> Seq<u8> {
    seq![66u8, 97, 100, 82, 101, 113, 117, 101, 115, 116]
}

pub fn txt_bad_request_vec() -> (r: Vec<u8>)
    ensures
        r@ == txt_bad_request(),
{
    let r: Vec<u8> = vec![66u8, 97, 100, 82, 101, 113, 117, 101, 115, 116];
    assert(r@ =~= txt_bad_request());
    r
}

/// `Unauthorized`
pub open spec fn txt_unauthorized() -> Seq<u8> {
    seq![85u8, 110, 97, 117, 116, 104, 111, 114, 105, 122, 101, 100]
}

pub fn txt_unauthorized_vec() -> (r: Vec<u8>)
    ensures
        r@ == txt_unauthorized(),
{
    let r: Vec<u8> = vec![85u8, 110, 97, 117, 116, 104, 111, 114, 105, 122, 101, 100];
    assert(r@ =~= txt_unauthorized());
    r
}

/// `NotFound`
pub open spec fn txt_not_found() -> Seq<u8> {
    seq![78u8, 111, 116, 70, 111, 117, 110, 100]
}

pub fn txt_not_found_vec() -> (r: Vec<u8>)
    ensures
        r@ == txt_not_found(),
{
    let r: Vec<u8> = vec![78u8, 111, 116, 70, 111, 117, 110, 100];
    assert(r@ =~= txt_not_found());
    r
}

/// `NotAcceptable`
pub open spec fn txt_not_acceptable() -> Seq<u8> {
    seq![78u8, 111, 116, 65, 99, 99, 101, 112, 116, 97, 98, 108, 101]
}

pub fn txt_not_acceptable_vec() -> (r: Vec<u8>)
    ensures
        r@ == txt_not_acceptable(),
{
    let r: Vec<u8> = vec![78u8, 111, 116, 65, 99, 99, 101, 112, 116, 97, 98, 108, 101];
    assert(r@ =~= txt_not_acceptable());
    r
}

/// `RequestTimeout`
pub open spec fn txt_request_timeout() -> Seq<u8> {
    seq![82u8, 101, 113, 117, 101, 115, 116, 84, 105, 109, 101, 111, 117, 116]
}

pub fn txt_request_timeout_vec() -> (r: Vec<u8>)
    ensures
        r@ == txt_request_timeout(),
{
    let r: Vec<u8> = vec![82u8, 101, 113, 117, 101, 115, 116, 84, 105, 109, 101, 111, 117, 116];
    assert(r@ =~= txt_request_timeout());
    r
}

/// `ContentTooLarge`
pub open spec fn txt_content_too_large() -> Seq<u8> {
    seq![67u8, 111, 110, 116, 101, 110, 116, 84, 111, 111, 76, 97, 114, 103, 101]
}

pub fn txt_content_too_large_vec() -> (r: Vec<u8>)
    ensures
        r@ == txt_content_too_large(),
{
    let r: Vec<u8> = vec![67u8, 111, 110, 116, 101, 110, 116, 84, 111, 111, 76, 97, 114, 103, 101];
    assert(r@ =~= txt_content_too_large());
    r
}

/// `URITooLong`
pub open spec fn txt_uri_too_long() -> Seq<u8> {
    seq![85u8, 82, 73, 84, 111, 111, 76, 111, 110, 103]
}

pub fn txt_uri_too_long_vec() -> (r: Vec<u8>)
    ensures
        r@ == txt_uri_too_long(),
{
    let r: Vec<u8> = vec![85u8, 82, 73, 84, 111, 111, 76, 111, 110, 103];
    assert(r@ =~= txt_uri_too_long());
    r
}

/// `UnsupportedMediaType`
pub open spec fn txt_unsupported_media_type() -> Seq<u8> {
    seq![85u8, 110, 115, 117, 112, 112, 111, 114, 116, 101, 100, 77, 101, 100, 105, 97, 84, 121, 112, 101]
}

pub fn txt_unsupported_media_type_vec() -> (r: Vec<u8>)
    ensures
        r@ == txt_unsupported_media_type(),
{
    let r: Vec<u8> = vec![85u8, 110, 115, 117, 112, 112, 111, 114, 116, 101, 100, 77, 101, 100, 105, 97, 84, 121, 112, 101];
    assert(r@ =~= txt_unsupported_media_type());
    r
}

/// `RequestHeaderFieldsTooLarge`
pub open spec fn txt_request_header_fields_too_large() -> Seq<u8> {
    seq![82u8, 101, 113, 117, 101, 115, 116, 72, 101, 97, 100, 101, 114, 70, 105, 101, 108, 100, 115, 84, 111, 111, 76, 97, 114, 103, 101]
}

pub fn txt_request_header_fields_too_large_vec() -> (r: Vec<u8>)
    ensures
        r@ == txt_request_header_fields_too_large(),
{
    let r: Vec<u8> = vec![82u8, 101, 113, 117, 101, 115, 116, 72, 101, 97, 100, 101, 114, 70, 105, 101, 108, 100, 115, 84, 111, 111, 76, 97, 114, 103, 101];
    assert(r@ =~= txt_request_header_fields_too_large());
    r
}

/// `InternalServerError`
pub open spec fn txt_internal_server_error() -> Seq<u8> {
    seq![73u8, 110, 116, 101, 114, 110, 97, 108, 83, 101, 114, 118, 101, 114, 69, 114, 114, 111, 114]
}

pub fn txt_internal_server_error_vec() -> (r: Vec<u8>)
    ensures
        r@ == txt_internal_server_error(),
{
    let r: Vec<u8> = vec![73u8, 110, 116, 101, 114, 110, 97, 108, 83, 101, 114, 118, 101, 114, 69, 114, 114, 111, 114];
    assert(r@ =~= txt_internal_server_error());
    r
}

/// `NotImplemented`
pub open spec fn txt_not_implemented() -> Seq<u8> {
    seq![78u8, 111, 116, 73, 109, 112, 108, 101, 109, 101, 110, 116, 101, 100]
}

pub fn txt_not_implemented_vec() -> (r: Vec<u8>)
    ensures
        r@ == txt_not_implemented(),
{
    let r: Vec<u8> = vec![78u8, 111, 116, 73, 109, 112, 108, 101, 109, 101, 110, 116, 101, 100];
    assert(r@ =~= txt_not_implemented());
    r
}

/// `HTTPVersionNotSupported`
pub open spec fn txt_http_version_not_supported() -> Seq<u8> {
    seq![72u8, 84, 84, 80, 86, 101, 114, 115, 105, 111, 110, 78, 111, 116, 83, 117, 112, 112, 111, 114, 116, 101, 100]
}

pub fn txt_http_version_not_supported_vec() -> (r: Vec<u8>)
    ensures
        r@ == txt_http_version_not_supported(),
{
    let r: Vec<u8> = vec![72u8, 84, 84, 80, 86, 101, 114, 115, 105, 111, 110, 78, 111, 116, 83, 117, 112, 112, 111, 114, 116, 101, 100];
    assert(r@ =~= txt_http_version_not_supported());
    r
}

/// `content-length`
pub open spec fn txt_content_length() -> Seq<u8> {
    seq![99u8, 111, 110, 116, 101, 110, 116, 45, 108, 101, 110, 103, 116, 104]
}

pub fn txt_content_length_vec() -> (r: Vec<u8>)
    ensures
        r@ == txt_content_length(),
{
    let r: Vec<u8> = vec![99u8, 111, 110, 116, 101, 110, 116, 45, 108, 101, 110, 103, 116, 104];
    assert(r@ =~= txt_content_length());
    r
}

/// `accept-encoding`
pub open spec fn txt_accept_encoding() -> Seq<u8> {
    seq![97u8, 99, 99, 101, 112, 116, 45, 101, 110, 99, 111, 100, 105, 110, 103]
}

pub fn txt_accept_encoding_vec() -> (r: Vec<u8>)
    ensures
        r@ == txt_accept_encoding(),
{
    let r: Vec<u8> = vec![97u8, 99, 99, 101, 112, 116, 45, 101, 110, 99, 111, 100, 105, 110, 103];
    assert(r@ =~= txt_accept_encoding());
    r
}

/// `range`
pub open spec fn txt_range() -> Seq<u8> {
    seq![114u8, 97, 110, 103, 101]
}

pub fn txt_range_vec() -> (r: Vec<u8>)
    ensures
        r@ == txt_range(),
{
    let r: Vec<u8> = vec![114u8, 97, 110, 103, 101];
    assert(r@ =~= txt_range());
    r
}

/// `cache-control`
pub open spec fn txt_cache_control() -> Seq<u8> {
    seq![99u8, 97, 99, 104, 101, 45, 99, 111, 110, 116, 114, 111, 108]
}

pub fn txt_cache_control_vec() -> (r: Vec<u8>)
    ensures
        r@ == txt_cache_control(),
{
    let r: Vec<u8> = vec![99u8, 97, 99, 104, 101, 45, 99, 111, 110, 116, 114, 111, 108];
    assert(r@ =~= txt_cache_control());
    r
}

/// `content-type`
pub open spec fn txt_content_type() -> Seq<u8> {
    seq![99u8, 111, 110, 116, 101, 110, 116, 45, 116, 121, 112, 101]
}

pub fn txt_content_type_vec() -> (r: Vec<u8>)
    ensures
        r@ == txt_content_type(),
{
    let r: Vec<u8> = vec![99u8, 111, 110, 116, 101, 110, 116, 45, 116, 121, 112, 101];
    assert(r@ =~= txt_content_type());
    r
}

/// `user-agent`
pub open spec fn txt_user_agent() -> Seq<u8> {
    seq![117u8, 115, 101, 114, 45, 97, 103, 101, 110, 116]
}

pub fn txt_user_agent_vec() -> (r: Vec<u8>)
    ensures
        r@ == txt_user_agent(),
{
    let r: Vec<u8> = vec![117u8, 115, 101, 114, 45, 97, 103, 101, 110, 116];
    assert(r@ =~= txt_user_agent());
    r
}

/// `authorization`
pub open spec fn txt_authorization() -> Seq<u8> {
    seq![97u8, 117, 116, 104, 111, 114, 105, 122, 97, 116, 105, 111, 110]
}

pub fn txt_authorization_vec() -> (r: Vec<u8>)
    ensures
        r@ == txt_authorization(),
{
    let r: Vec<u8> = vec![97u8, 117, 116, 104, 111, 114, 105, 122, 97, 116, 105, 111, 110];
    assert(r@ =~= txt_authorization());
    r
}

/// `date`
pub open spec fn txt_date() -> Seq<u8> {
    seq![100u8, 97, 116, 101]
}

pub fn txt_date_vec() -> (r: Vec<u8>)
    ensures
        r@ == txt_date(),
{
    let r: Vec<u8> = vec![100u8, 97, 116, 101];
    assert(r@ =~= txt_date());
    r
}

/// `server`
pub open spec fn txt_server() -> Seq<u8> {
    seq![115u8, 101, 114, 118, 101, 114]
}

pub fn txt_server_vec() -> (r: Vec<u8>)
    ensures
        r@ == txt_server(),
{
    let r: Vec<u8> = vec![115u8, 101, 114, 118, 101, 114];
    assert(r@ =~= txt_server());
    r
}

/// `accept-ranges`
pub open spec fn txt_accept_ranges() -> Seq<u8> {
    seq![97u8, 99, 99, 101, 112, 116, 45, 114, 97, 110, 103, 101, 115]
}

pub fn txt_accept_ranges_vec() -> (r: Vec<u8>)
    ensures
        r@ == txt_accept_ranges(),
{
    let r: Vec<u8> = vec![97u8, 99, 99, 101, 112, 116, 45, 114, 97, 110, 103, 101, 115];
    assert(r@ =~= txt_accept_ranges());
    r
}

/// `content-encoding`
pub open spec fn txt_content_encoding() -> Seq<u8> {
    seq![99u8, 111, 110, 116, 101, 110, 116, 45, 101, 110, 99, 111, 100, 105, 110, 103]
}

pub fn txt_content_encoding_vec() -> (r: Vec<u8>)
    ensures
        r@ == txt_content_encoding(),
{
    let r: Vec<u8> = vec![99u8, 111, 110, 116, 101, 110, 116, 45, 101, 110, 99, 111, 100, 105, 110, 103];
    assert(r@ =~= txt_content_encoding());
    r
}

/// `content-range`
pub open spec fn txt_content_range() -> Seq<u8> {
    seq![99u8, 111, 110, 116, 101, 110, 116, 45, 114, 97, 110, 103, 101]
}

pub fn txt_content_range_vec() -> (r: Vec<u8>)
    ensures
        r@ == txt_content_range(),
{
    let r: Vec<u8> = vec![99u8, 111, 110, 116, 101, 110, 116, 45, 114, 97, 110, 103, 101];
    assert(r@ =~= txt_content_range());
    r
}

/// `allow`
pub open spec fn txt_allow() -> Seq<u8> {
    seq![97u8, 108, 108, 111, 119]
}

pub fn txt_allow_vec() -> (r: Vec<u8>)
    ensures
        r@ == txt_allow(),
{
    let r: Vec<u8> = vec![97u8, 108, 108, 111, 119];
    assert(r@ =~= txt_allow());
    r
}

/// `www-authenticate`
pub open spec fn txt_www_authenticate() -> Seq<u8> {
    seq![119u8, 119, 119, 45, 97, 117, 116, 104, 101, 110, 116, 105, 99, 97, 116, 101]
}

pub fn txt_www_authenticate_vec() -> (r: Vec<u8>)
    ensures
        r@ == txt_www_authenticate(),
{
    let r: Vec<u8> = vec![119u8, 119, 119, 45, 97, 117, 116, 104, 101, 110, 116, 105, 99, 97, 116, 101];
    assert(r@ =~= txt_www_authenticate());
    r
}

/// `bytes`
pub open spec fn txt_bytes_unit() -> Seq<u8> {
    seq![98u8, 121, 116, 101, 115]
}

pub fn txt_bytes_unit_vec() -> (r: Vec<u8>)
    ensures
        r@ == txt_bytes_unit(),
{
    let r: Vec<u8> = vec![98u8, 121, 116, 101, 115];
    assert(r@ =~= txt_bytes_unit());
    r
}

/// `simple http`
pub open spec fn txt_server_name() -> Seq<u8> {
    seq![115u8, 105, 109, 112, 108, 101, 32, 104, 116, 116, 112]
}

pub fn txt_server_name_vec() -> (r: Vec<u8>)
    ensures
        r@ == txt_server_name(),
{
    let r: Vec<u8> = vec![115u8, 105, 109, 112, 108, 101, 32, 104, 116, 116, 112];
    assert(r@ =~= txt_server_name());
    r
}

/// `text/plain`
pub open spec fn txt_text_plain() -> Seq<u8> {
    seq![116u8, 101, 120, 116, 47, 112, 108, 97, 105, 110]
}

pub fn txt_text_plain_vec() -> (r: Vec<u8>)
    ensures
        r@ == txt_text_plain(),
{
    let r: Vec<u8> = vec![116u8, 101, 120, 116, 47, 112, 108, 97, 105, 110];
    assert(r@ =~= txt_text_plain());
    r
}

/// `multipart/byteranges; boundary=`
pub open spec fn txt_multipart_prefix() -> Seq<u8> {
    seq![109u8, 117, 108, 116, 105, 112, 97, 114, 116, 47, 98, 121, 116, 101, 114, 97, 110, 103, 101, 115, 59, 32, 98, 111, 117, 110, 100, 97, 114, 121, 61]
}

pub fn txt_multipart_prefix_vec() -> (r: Vec<u8>)
    ensures
        r@ == txt_multipart_prefix(),
{
    let r: Vec<u8> = vec![109u8, 117, 108, 116, 105, 112, 97, 114, 116, 47, 98, 121, 116, 101, 114, 97, 110, 103, 101, 115, 59, 32, 98, 111, 117, 110, 100, 97, 114, 121, 61];
    assert(r@ =~= txt_multipart_prefix());
    r
}

/// `no-store`
pub open spec fn txt_no_store() -> Seq<u8> {
    seq![110u8, 111, 45, 115, 116, 111, 114, 101]
}

pub fn txt_no_store_vec() -> (r: Vec<u8>)
    ensures
        r@ == txt_no_store(),
{
    let r: Vec<u8> = vec![110u8, 111, 45, 115, 116, 111, 114, 101];
    assert(r@ =~= txt_no_store());
    r
}

/// `1.1`
pub open spec fn txt_version_1_1() -> Seq<u8> {
    seq![49u8, 46, 49]
}

pub fn txt_version_1_1_vec() -> (r: Vec<u8>)
    ensures
        r@ == txt_version_1_1(),
{
    let r: Vec<u8> = vec![49u8, 46, 49];
    assert(r@ =~= txt_version_1_1());
    r
}

/// `bytes=`
pub open spec fn txt_bytes_eq_prefix() -> Seq<u8> {
    seq![98u8, 121, 116, 101, 115, 61]
}

pub fn txt_bytes_eq_prefix_vec() -> (r: Vec<u8>)
    ensures
        r@ == txt_bytes_eq_prefix(),
{
    let r: Vec<u8> = vec![98u8, 121, 116, 101, 115, 61];
    assert(r@ =~= txt_bytes_eq_prefix());
    r
}

/// `3d6b6a416f9b5`
pub open spec fn txt_boundary() -> Seq<u8> {
    seq![51u8, 100, 54, 98, 54, 97, 52, 49, 54, 102, 57, 98, 53]
}

pub fn txt_boundary_vec() -> (r: Vec<u8>)
    ensures
        r@ == txt_boundary(),
{
    let r: Vec<u8> = vec![51u8, 100, 54, 98, 54, 97, 52, 49, 54, 102, 57, 98, 53];
    assert(r@ =~= txt_boundary());
    r
}

/// `content-type: `
pub open spec fn txt_part_content_type() -> Seq<u8> {
    seq![99u8, 111, 110, 116, 101, 110, 116, 45, 116, 121, 112, 101, 58, 32]
}

pub fn txt_part_content_type_vec() -> (r: Vec<u8>)
    ensures
        r@ == txt_part_content_type(),
{
    let r: Vec<u8> = vec![99u8, 111, 110, 116, 101, 110, 116, 45, 116, 121, 112, 101, 58, 32];
    assert(r@ =~= txt_part_content_type());
    r
}

/// `content-range: bytes `
pub open spec fn txt_part_content_range() -> Seq<u8> {
    seq![99u8, 111, 110, 116, 101, 110, 116, 45, 114, 97, 110, 103, 101, 58, 32, 98, 121, 116, 101, 115, 32]
}

pub fn txt_part_content_range_vec() -> (r: Vec<u8>)
    ensures
        r@ == txt_part_content_range(),
{
    let r: Vec<u8> = vec![99u8, 111, 110, 116, 101, 110, 116, 45, 114, 97, 110, 103, 101, 58, 32, 98, 121, 116, 101, 115, 32];
    assert(r@ =~= txt_part_content_range());
    r
}

/// `HTTP/`
pub open spec fn txt_http_slash() -> Seq<u8> {
    seq![72u8, 84, 84, 80, 47]
}

pub fn txt_http_slash_vec() -> (r: Vec<u8>)
    ensures
        r@ == txt_http_slash(),
{
    let r: Vec<u8> = vec![72u8, 84, 84, 80, 47];
    assert(r@ =~= txt_http_slash());
    r
}

/// `/files/`
pub open spec fn txt_files_prefix() -> Seq<u8> {
    seq![47u8, 102, 105, 108, 101, 115, 47]
}

pub fn txt_files_prefix_vec() -> (r: Vec<u8>)
    ensures
        r@ == txt_files_prefix(),
{
    let r: Vec<u8> = vec![47u8, 102, 105, 108, 101, 115, 47];
    assert(r@ =~= txt_files_prefix());
    r
}

/// `/echo/`
pub open spec fn txt_echo_prefix() -> Seq<u8> {
    seq![47u8, 101, 99, 104, 111, 47]
}

pub fn txt_echo_prefix_vec() -> (r: Vec<u8>)
    ensures
        r@ == txt_echo_prefix(),
{
    let r: Vec<u8> = vec![47u8, 101, 99, 104, 111, 47];
    assert(r@ =~= txt_echo_prefix());
    r
}

/// `/user-agent`
pub open spec fn txt_user_agent_path() -> Seq<u8> {
    seq![47u8, 117, 115, 101, 114, 45, 97, 103, 101, 110, 116]
}

pub fn txt_user_agent_path_vec() -> (r: Vec<u8>)
    ensures
        r@ == txt_user_agent_path(),
{
    let r: Vec<u8> = vec![47u8, 117, 115, 101, 114, 45, 97, 103, 101, 110, 116];
    assert(r@ =~= txt_user_agent_path());
    r
}

/// `/`
pub open spec fn txt_root_path() -> Seq<u8> {
    seq![47u8]
}

pub fn txt_root_path_vec() -> (r: Vec<u8>)
    ensures
        r@ == txt_root_path(),
{
    let r: Vec<u8> = vec![47u8];
    assert(r@ =~= txt_root_path());
    r
}

/// `Basic`
pub open spec fn txt_basic() -> Seq<u8> {
    seq![66u8, 97, 115, 105, 99]
}

pub fn txt_basic_vec() -> (r: Vec<u8>)
    ensures
        r@ == txt_basic(),
{
    let r: Vec<u8> = vec![66u8, 97, 115, 105, 99];
    assert(r@ =~= txt_basic());
    r
}

/// `Bearer`
pub open spec fn txt_bearer() -> Seq<u8> {
    seq![66u8, 101, 97, 114, 101, 114]
}

pub fn txt_bearer_vec() -> (r: Vec<u8>)
    ensures
        r@ == txt_bearer(),
{
    let r: Vec<u8> = vec![66u8, 101, 97, 114, 101, 114];
    assert(r@ =~= txt_bearer());
    r
}

/// `admin:password`
pub open spec fn txt_default_login() -> Seq<u8> {
    seq![97u8, 100, 109, 105, 110, 58, 112, 97, 115, 115, 119, 111, 114, 100]
}

pub fn txt_default_login_vec() -> (r: Vec<u8>)
    ensures
        r@ == txt_default_login(),
{
    let r: Vec<u8> = vec![97u8, 100, 109, 105, 110, 58, 112, 97, 115, 115, 119, 111, 114, 100];
    assert(r@ =~= txt_default_login());
    r
}

/// `GET, HEAD, POST, OPTIONS`
pub open spec fn txt_allowed_methods() -> Seq<u8> {
    seq![71u8, 69, 84, 44, 32, 72, 69, 65, 68, 44, 32, 80, 79, 83, 84, 44, 32, 79, 80, 84, 73, 79, 78, 83]
}

pub fn txt_allowed_methods_vec() -> (r: Vec<u8>)
    ensures
        r@ == txt_allowed_methods(),
{
    let r: Vec<u8> = vec![71u8, 69, 84, 44, 32, 72, 69, 65, 68, 44, 32, 80, 79, 83, 84, 44, 32, 79, 80, 84, 73, 79, 78, 83];
    assert(r@ =~= txt_allowed_methods());
    r
}

} // verus!
