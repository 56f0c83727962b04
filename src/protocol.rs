//! The fixed byte strings of the protocol, each as a spec value and as bytes.
use vstd::prelude::*;

verus! {

/// The line terminator, `\r\n`.
pub open spec fn crlf() -> Seq<u8> {
    seq!['\r' as u8, '\n' as u8]
}

pub fn crlf_bytes() -> (r: Vec<u8>)
    ensures
        r@ == crlf(),
{
    vec!['\r' as u8, '\n' as u8]
}

/// The status line opening, `HTTP/1.1 `.
pub open spec fn http_version() -> Seq<u8> {
    seq!['H' as u8, 'T' as u8, 'T' as u8, 'P' as u8, '/' as u8, '1' as u8, '.' as u8, '1' as u8, ' ' as u8]
}

pub fn http_version_bytes() -> (r: Vec<u8>)
    ensures
        r@ == http_version(),
{
    vec!['H' as u8, 'T' as u8, 'T' as u8, 'P' as u8, '/' as u8, '1' as u8, '.' as u8, '1' as u8, ' ' as u8]
}

/// The `Content-Type` header name with its separator, `Content-Type: `.
pub open spec fn content_type_label() -> Seq<u8> {
    seq!['C' as u8, 'o' as u8, 'n' as u8, 't' as u8, 'e' as u8, 'n' as u8, 't' as u8, '-' as u8, 'T' as u8, 'y' as u8, 'p' as u8, 'e' as u8, ':' as u8, ' ' as u8]
}

pub fn content_type_label_bytes() -> (r: Vec<u8>)
    ensures
        r@ == content_type_label(),
{
    vec!['C' as u8, 'o' as u8, 'n' as u8, 't' as u8, 'e' as u8, 'n' as u8, 't' as u8, '-' as u8, 'T' as u8, 'y' as u8, 'p' as u8, 'e' as u8, ':' as u8, ' ' as u8]
}

/// The `Content-Length` header name with its separator, `Content-Length: `.
pub open spec fn content_length_label() -> Seq<u8> {
    seq!['C' as u8, 'o' as u8, 'n' as u8, 't' as u8, 'e' as u8, 'n' as u8, 't' as u8, '-' as u8, 'L' as u8, 'e' as u8, 'n' as u8, 'g' as u8, 't' as u8, 'h' as u8, ':' as u8, ' ' as u8]
}

pub fn content_length_label_bytes() -> (r: Vec<u8>)
    ensures
        r@ == content_length_label(),
{
    vec!['C' as u8, 'o' as u8, 'n' as u8, 't' as u8, 'e' as u8, 'n' as u8, 't' as u8, '-' as u8, 'L' as u8, 'e' as u8, 'n' as u8, 'g' as u8, 't' as u8, 'h' as u8, ':' as u8, ' ' as u8]
}

/// The `User-Agent` header name with its separator, `User-Agent: `.
pub open spec fn user_agent_label() -> Seq<u8> {
    seq!['U' as u8, 's' as u8, 'e' as u8, 'r' as u8, '-' as u8, 'A' as u8, 'g' as u8, 'e' as u8, 'n' as u8, 't' as u8, ':' as u8, ' ' as u8]
}

pub fn user_agent_label_bytes() -> (r: Vec<u8>)
    ensures
        r@ == user_agent_label(),
{
    vec!['U' as u8, 's' as u8, 'e' as u8, 'r' as u8, '-' as u8, 'A' as u8, 'g' as u8, 'e' as u8, 'n' as u8, 't' as u8, ':' as u8, ' ' as u8]
}

/// The reason phrase of 200, `OK`.
pub open spec fn reason_ok() -> Seq<u8> {
    seq!['O' as u8, 'K' as u8]
}

pub fn reason_ok_bytes() -> (r: Vec<u8>)
    ensures
        r@ == reason_ok(),
{
    vec!['O' as u8, 'K' as u8]
}

/// The reason phrase of 201, `Created`.
pub open spec fn reason_created() -> Seq<u8> {
    seq!['C' as u8, 'r' as u8, 'e' as u8, 'a' as u8, 't' as u8, 'e' as u8, 'd' as u8]
}

pub fn reason_created_bytes() -> (r: Vec<u8>)
    ensures
        r@ == reason_created(),
{
    vec!['C' as u8, 'r' as u8, 'e' as u8, 'a' as u8, 't' as u8, 'e' as u8, 'd' as u8]
}

/// The reason phrase of 400, `Bad Request`.
pub open spec fn reason_bad_request() -> Seq<u8> {
    seq!['B' as u8, 'a' as u8, 'd' as u8, ' ' as u8, 'R' as u8, 'e' as u8, 'q' as u8, 'u' as u8, 'e' as u8, 's' as u8, 't' as u8]
}

pub fn reason_bad_request_bytes() -> (r: Vec<u8>)
    ensures
        r@ == reason_bad_request(),
{
    vec!['B' as u8, 'a' as u8, 'd' as u8, ' ' as u8, 'R' as u8, 'e' as u8, 'q' as u8, 'u' as u8, 'e' as u8, 's' as u8, 't' as u8]
}

/// The reason phrase of 404, `Not Found`.
pub open spec fn reason_not_found() -> Seq<u8> {
    seq!['N' as u8, 'o' as u8, 't' as u8, ' ' as u8, 'F' as u8, 'o' as u8, 'u' as u8, 'n' as u8, 'd' as u8]
}

pub fn reason_not_found_bytes() -> (r: Vec<u8>)
    ensures
        r@ == reason_not_found(),
{
    vec!['N' as u8, 'o' as u8, 't' as u8, ' ' as u8, 'F' as u8, 'o' as u8, 'u' as u8, 'n' as u8, 'd' as u8]
}

/// The reason phrase of 500, `Internal Server Error`.
pub open spec fn reason_server_error() -> Seq<u8> {
    seq!['I' as u8, 'n' as u8, 't' as u8, 'e' as u8, 'r' as u8, 'n' as u8, 'a' as u8, 'l' as u8, ' ' as u8, 'S' as u8, 'e' as u8, 'r' as u8, 'v' as u8, 'e' as u8, 'r' as u8, ' ' as u8, 'E' as u8, 'r' as u8, 'r' as u8, 'o' as u8, 'r' as u8]
}

pub fn reason_server_error_bytes() -> (r: Vec<u8>)
    ensures
        r@ == reason_server_error(),
{
    vec!['I' as u8, 'n' as u8, 't' as u8, 'e' as u8, 'r' as u8, 'n' as u8, 'a' as u8, 'l' as u8, ' ' as u8, 'S' as u8, 'e' as u8, 'r' as u8, 'v' as u8, 'e' as u8, 'r' as u8, ' ' as u8, 'E' as u8, 'r' as u8, 'r' as u8, 'o' as u8, 'r' as u8]
}

/// The plain-text media type, `text/plain`.
pub open spec fn text_plain() -> Seq<u8> {
    seq!['t' as u8, 'e' as u8, 'x' as u8, 't' as u8, '/' as u8, 'p' as u8, 'l' as u8, 'a' as u8, 'i' as u8, 'n' as u8]
}

pub fn text_plain_bytes() -> (r: Vec<u8>)
    ensures
        r@ == text_plain(),
{
    vec!['t' as u8, 'e' as u8, 'x' as u8, 't' as u8, '/' as u8, 'p' as u8, 'l' as u8, 'a' as u8, 'i' as u8, 'n' as u8]
}

/// The raw-bytes media type, `application/octet-stream`.
pub open spec fn octet_stream() -> Seq<u8> {
    seq!['a' as u8, 'p' as u8, 'p' as u8, 'l' as u8, 'i' as u8, 'c' as u8, 'a' as u8, 't' as u8, 'i' as u8, 'o' as u8, 'n' as u8, '/' as u8, 'o' as u8, 'c' as u8, 't' as u8, 'e' as u8, 't' as u8, '-' as u8, 's' as u8, 't' as u8, 'r' as u8, 'e' as u8, 'a' as u8, 'm' as u8]
}

pub fn octet_stream_bytes() -> (r: Vec<u8>)
    ensures
        r@ == octet_stream(),
{
    vec!['a' as u8, 'p' as u8, 'p' as u8, 'l' as u8, 'i' as u8, 'c' as u8, 'a' as u8, 't' as u8, 'i' as u8, 'o' as u8, 'n' as u8, '/' as u8, 'o' as u8, 'c' as u8, 't' as u8, 'e' as u8, 't' as u8, '-' as u8, 's' as u8, 't' as u8, 'r' as u8, 'e' as u8, 'a' as u8, 'm' as u8]
}

/// The `GET` method token, `GET`.
pub open spec fn method_get() -> Seq<u8> {
    seq!['G' as u8, 'E' as u8, 'T' as u8]
}

pub fn method_get_bytes() -> (r: Vec<u8>)
    ensures
        r@ == method_get(),
{
    vec!['G' as u8, 'E' as u8, 'T' as u8]
}

/// The `POST` method token, `POST`.
pub open spec fn method_post() -> Seq<u8> {
    seq!['P' as u8, 'O' as u8, 'S' as u8, 'T' as u8]
}

pub fn method_post_bytes() -> (r: Vec<u8>)
    ensures
        r@ == method_post(),
{
    vec!['P' as u8, 'O' as u8, 'S' as u8, 'T' as u8]
}

/// The path prefix of the file routes, `/files/`.
pub open spec fn files_route() -> Seq<u8> {
    seq!['/' as u8, 'f' as u8, 'i' as u8, 'l' as u8, 'e' as u8, 's' as u8, '/' as u8]
}

pub fn files_route_bytes() -> (r: Vec<u8>)
    ensures
        r@ == files_route(),
{
    vec!['/' as u8, 'f' as u8, 'i' as u8, 'l' as u8, 'e' as u8, 's' as u8, '/' as u8]
}

/// The path prefix of the echo route, `/echo/`.
pub open spec fn echo_route() -> Seq<u8> {
    seq!['/' as u8, 'e' as u8, 'c' as u8, 'h' as u8, 'o' as u8, '/' as u8]
}

pub fn echo_route_bytes() -> (r: Vec<u8>)
    ensures
        r@ == echo_route(),
{
    vec!['/' as u8, 'e' as u8, 'c' as u8, 'h' as u8, 'o' as u8, '/' as u8]
}

/// The path of the user-agent route, `/user-agent`.
pub open spec fn user_agent_route() -> Seq<u8> {
    seq!['/' as u8, 'u' as u8, 's' as u8, 'e' as u8, 'r' as u8, '-' as u8, 'a' as u8, 'g' as u8, 'e' as u8, 'n' as u8, 't' as u8]
}

pub fn user_agent_route_bytes() -> (r: Vec<u8>)
    ensures
        r@ == user_agent_route(),
{
    vec!['/' as u8, 'u' as u8, 's' as u8, 'e' as u8, 'r' as u8, '-' as u8, 'a' as u8, 'g' as u8, 'e' as u8, 'n' as u8, 't' as u8]
}

/// The path of the root route, `/`.
pub open spec fn root_route() -> Seq<u8> {
    seq!['/' as u8]
}

pub fn root_route_bytes() -> (r: Vec<u8>)
    ensures
        r@ == root_route(),
{
    vec!['/' as u8]
}

} // verus!
