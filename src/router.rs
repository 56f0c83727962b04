//! Choosing what to do with a request.
//!
//! Routing is pure: where a route needs the filesystem, it names the file
//! operation to perform, and the outcome is turned into a response by
//! `respond_to_read` or `respond_to_write`.
//!
//! A file name is taken as written after `/files/`; it is not checked for
//! `..` segments, so the directory does not confine it.
use vstd::prelude::*;

use crate::protocol::{
    echo_route, echo_route_bytes, files_route, files_route_bytes, method_get, method_get_bytes,
    method_post, method_post_bytes, root_route, root_route_bytes,
    user_agent_route, user_agent_route_bytes,
};
use crate::request::{opt_bytes, read_request, read_spec, HttpRequest, ParseError, RequestView};
use crate::response::{reason_phrase, ContentType, HttpResponse};
use crate::text::{copy_range, drop_prefix, has_prefix, starts_with};

verus! {

/// The route that a request takes.
pub enum Route {
    /// Store the body under the name.
    WriteFile(Seq<u8>, Seq<u8>),
    /// Send the contents of the named file.
    ReadFile(Seq<u8>),
    /// Send the text back.
    Echo(Seq<u8>),
    /// Send the client's declared user agent.
    UserAgent(Seq<u8>),
    /// The user-agent route, for a request that declared none.
    MissingUserAgent,
    Root,
    NotFound,
}

/// The first rule that matches a request, in order: file write, file read
/// (both only with a directory configured), echo, user agent, root; else
/// not found.
pub open spec fn route_of(req: RequestView, has_directory: bool) -> Route {
    let files = files_route();
    if has_directory && req.method == method_post() && req.body is Some && has_prefix(req.path, files) {
        Route::WriteFile(drop_prefix(req.path, files.len()), req.body.unwrap())
    } else if has_directory && req.method == method_get() && has_prefix(req.path, files) {
        Route::ReadFile(drop_prefix(req.path, files.len()))
    } else if has_prefix(req.path, echo_route()) {
        Route::Echo(drop_prefix(req.path, echo_route().len()))
    } else if req.path == user_agent_route() {
        match req.user_agent {
            Some(u) => Route::UserAgent(u),
            None => Route::MissingUserAgent,
        }
    } else if req.path == root_route() {
        Route::Root
    } else {
        Route::NotFound
    }
}

/// What to do for a request.
#[derive(Debug)]
pub enum Action {
    /// Write `contents` to the file `name` under the directory, then answer
    /// with `respond_to_write`.
    WriteFile { name: Vec<u8>, contents: Vec<u8> },
    /// Read the file `name` under the directory, then answer with
    /// `respond_to_read`.
    ReadFile { name: Vec<u8> },
    /// Send this response.
    Respond(HttpResponse),
}

/// `resp` has this status, its reason phrase, this media type and this body.
pub open spec fn response_is(resp: HttpResponse, code: nat, content_type: ContentType, body: Option<Seq<u8>>) -> bool {
    &&& resp.respond_code == code
    &&& resp.msg@ == reason_phrase(code)
    &&& resp.content_type == content_type
    &&& opt_bytes(resp.body) == body
}

/// `a` carries out `route`.
pub open spec fn performs(a: Action, route: Route) -> bool {
    match route {
        Route::WriteFile(n, b) => a matches Action::WriteFile { name, contents } && name@ == n && contents@ == b,
        Route::ReadFile(n) => a matches Action::ReadFile { name } && name@ == n,
        Route::Echo(t) => a matches Action::Respond(r) && response_is(r, 200, ContentType::TextPlain, Some(t)),
        Route::UserAgent(u) => a matches Action::Respond(r) && response_is(r, 200, ContentType::TextPlain, Some(u)),
        Route::MissingUserAgent => a matches Action::Respond(r) && response_is(r, 400, ContentType::TextPlain, None),
        Route::Root => a matches Action::Respond(r) && response_is(r, 200, ContentType::TextPlain, None),
        Route::NotFound => a matches Action::Respond(r) && response_is(r, 404, ContentType::TextPlain, None),
    }
}

fn copy_suffix(s: &Vec<u8>, from: usize) -> (r: Vec<u8>)
    requires
        from <= s@.len(),
    ensures
        r@ == drop_prefix(s@, from as nat),
{
    copy_range(s.as_slice(), from, s.len())
}

fn bytes_eq(a: &Vec<u8>, b: &Vec<u8>) -> (r: bool)
    ensures
        r == (a@ == b@),
{
    if a.len() != b.len() {
        return false;
    }
    let r = starts_with(a.as_slice(), b.as_slice());
    assert(a@.subrange(0, b@.len() as int) =~= a@);
    r
}

/// Decides what to do with `request`; `has_directory` says whether a
/// directory for the file routes is configured.
pub fn process_request(request: &HttpRequest, has_directory: bool) -> (r: Action)
    ensures
        performs(r, route_of(request@, has_directory)),
{
    let path = &request.path;
    let files = files_route_bytes();
    let is_files = starts_with(path.as_slice(), files.as_slice());
    if has_directory && bytes_eq(&request.method, &method_post_bytes()) && is_files {
        if let Some(body) = &request.body {
            return Action::WriteFile { name: copy_suffix(path, files.len()), contents: body.clone() };
        }
    }
    if has_directory && bytes_eq(&request.method, &method_get_bytes()) && is_files {
        return Action::ReadFile { name: copy_suffix(path, files.len()) };
    }
    let echo = echo_route_bytes();
    if starts_with(path.as_slice(), echo.as_slice()) {
        let text = copy_suffix(path, echo.len());
        return Action::Respond(HttpResponse::new_ok_response(200, ContentType::TextPlain, Some(text)));
    }
    if bytes_eq(path, &user_agent_route_bytes()) {
        return match &request.user_agent {
            Some(u) => Action::Respond(
                HttpResponse::new_ok_response(200, ContentType::TextPlain, Some(u.clone())),
            ),
            None => Action::Respond(HttpResponse::new_bad_request_response()),
        };
    }
    if bytes_eq(path, &root_route_bytes()) {
        return Action::Respond(HttpResponse::new_ok_response(200, ContentType::TextPlain, None));
    }
    Action::Respond(HttpResponse::new_not_found_response())
}

/// The outcome of reading a file for the read route.
#[derive(Debug)]
pub enum FileRead {
    Contents(Vec<u8>),
    Missing,
    Failed,
}

/// The status, media type and body that answer a file read.
pub open spec fn read_reply(outcome: FileRead) -> (nat, ContentType, Option<Seq<u8>>) {
    match outcome {
        FileRead::Contents(b) => (200, ContentType::OctetStream, Some(b@)),
        FileRead::Missing => (404, ContentType::TextPlain, None),
        FileRead::Failed => (500, ContentType::TextPlain, None),
    }
}

/// Answers the read route: the file's bytes, `404` when it does not exist,
/// `500` when it could not be read.
pub fn respond_to_read(outcome: FileRead) -> (r: HttpResponse)
    ensures
        response_is(r, read_reply(outcome).0, read_reply(outcome).1, read_reply(outcome).2),
{
    match outcome {
        FileRead::Contents(b) => HttpResponse::new_ok_response(200, ContentType::OctetStream, Some(b)),
        FileRead::Missing => HttpResponse::new_not_found_response(),
        FileRead::Failed => HttpResponse::new_server_error_response(),
    }
}

/// Answers the write route: `201 Created` once the file is written, `500`
/// when writing failed.
pub fn respond_to_write(written: bool) -> (r: HttpResponse)
    ensures
        written ==> response_is(r, 201, ContentType::TextPlain, None),
        !written ==> response_is(r, 500, ContentType::TextPlain, None),
{
    if written {
        HttpResponse::new_ok_response(201, ContentType::TextPlain, None)
    } else {
        HttpResponse::new_server_error_response()
    }
}

/// Answers a request that could not be read: `400 Bad Request`.
pub fn respond_to_error(_error: ParseError) -> (r: HttpResponse)
    ensures
        response_is(r, 400, ContentType::TextPlain, None),
{
    HttpResponse::new_bad_request_response()
}

/// Decides what to do with the bytes that a connection delivered: the
/// route of the request they hold, or `400` when they hold none.
pub fn handle_request(input: &[u8], has_directory: bool) -> (r: Action)
    ensures
        match read_spec(input@) {
            Ok(v) => performs(r, route_of(v, has_directory)),
            Err(_) => r matches Action::Respond(resp) && response_is(resp, 400, ContentType::TextPlain, None),
        },
{
    match read_request(input) {
        Ok(request) => process_request(&request, has_directory),
        Err(e) => Action::Respond(respond_to_error(e)),
    }
}

/// Writing `b` through `POST /files/<name>` and reading it back through
/// `GET /files/<name>` gives `200` with exactly `b`: the write route stores
/// `b` under `name`, the read route reads `name`, and a read that finds `b`
/// answers with `b`.
pub proof fn file_round_trip(name: Seq<u8>, b: Seq<u8>, post: RequestView, get: RequestView, stored: Vec<u8>)
    requires
        post.method == method_post(),
        post.path == files_route() + name,
        post.body == Some(b),
        get.method == method_get(),
        get.path == files_route() + name,
        stored@ == b,
    ensures
        route_of(post, true) == Route::WriteFile(name, b),
        route_of(get, true) == Route::ReadFile(name),
        read_reply(FileRead::Contents(stored)) == (200nat, ContentType::OctetStream, Some(b)),
{
    assert(post.path.subrange(0, files_route().len() as int) =~= files_route());
    assert(drop_prefix(post.path, files_route().len()) =~= name);
}

} // verus!
