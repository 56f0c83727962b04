//! Responses and their rendering onto the wire.
use vstd::prelude::*;

use crate::protocol::{
    content_length_label, content_length_label_bytes, content_type_label, content_type_label_bytes,
    crlf, crlf_bytes, http_version, http_version_bytes, octet_stream, octet_stream_bytes,
    reason_bad_request, reason_bad_request_bytes, reason_created, reason_created_bytes,
    reason_not_found, reason_not_found_bytes, reason_ok, reason_ok_bytes, reason_server_error,
    reason_server_error_bytes, text_plain, text_plain_bytes,
};
use crate::request::{head_lines, head_lines_from, is_crlf_at, prepend_lines};
use crate::text::{append_bytes, append_decimal, decimal, has_prefix};

verus! {

/// The media type announced in a response's `Content-Type` header.
#[derive(Clone, Copy, Debug, PartialEq, Eq, Structural)]
pub enum ContentType {
    TextPlain,
    OctetStream,
}

impl ContentType {
    /// The bytes of the media type as written in the header.
    pub open spec fn spec_bytes(self) -> Seq<u8> {
        match self {
            ContentType::TextPlain => text_plain(),
            ContentType::OctetStream => octet_stream(),
        }
    }

    pub fn to_bytes(&self) -> (r: Vec<u8>)
        ensures
            r@ == self.spec_bytes(),
    {
        match self {
            ContentType::TextPlain => text_plain_bytes(),
            ContentType::OctetStream => octet_stream_bytes(),
        }
    }
}

/// The reason phrase that goes with a status code. The library names the
/// codes that it sends (200, 201, 400, 404, 500); any other code is taken
/// for a success and gets `OK`.
pub open spec fn reason_phrase(code: nat) -> Seq<u8> {
    if code == 201 {
        reason_created()
    } else if code == 400 {
        reason_bad_request()
    } else if code == 404 {
        reason_not_found()
    } else if code == 500 {
        reason_server_error()
    } else {
        reason_ok()
    }
}

fn reason_phrase_bytes(code: usize) -> (r: Vec<u8>)
    ensures
        r@ == reason_phrase(code as nat),
{
    if code == 201 {
        reason_created_bytes()
    } else if code == 400 {
        reason_bad_request_bytes()
    } else if code == 404 {
        reason_not_found_bytes()
    } else if code == 500 {
        reason_server_error_bytes()
    } else {
        reason_ok_bytes()
    }
}

/// A response: status, reason phrase, media type and optional body.
#[derive(Debug)]
pub struct HttpResponse {
    pub respond_code: usize,
    pub msg: Vec<u8>,
    pub content_type: ContentType,
    pub body: Option<Vec<u8>>,
}

/// The bytes of an optional body; an absent body is empty.
pub open spec fn body_bytes(body: Option<Vec<u8>>) -> Seq<u8> {
    match body {
        Some(b) => b@,
        None => Seq::empty(),
    }
}

/// Everything before the body: the status line, `Content-Type`,
/// `Content-Length` announcing `body_len` bytes, and the blank line.
pub open spec fn response_head(code: nat, msg: Seq<u8>, content_type: Seq<u8>, body_len: nat) -> Seq<u8> {
    http_version() + decimal(code) + seq![' ' as u8] + msg + crlf()
        + content_type_label() + content_type + crlf()
        + content_length_label() + decimal(body_len) + crlf()
        + crlf()
}

impl HttpResponse {
    /// The bytes sent on the wire for this response.
    pub open spec fn wire(&self) -> Seq<u8> {
        response_head(
            self.respond_code as nat,
            self.msg@,
            self.content_type.spec_bytes(),
            body_bytes(self.body).len(),
        ) + body_bytes(self.body)
    }

    /// A successful response with the reason phrase of `respond_code`.
    pub fn new_ok_response(respond_code: usize, content_type: ContentType, body: Option<Vec<u8>>) -> (r: Self)
        ensures
            r.respond_code == respond_code,
            r.msg@ == reason_phrase(respond_code as nat),
            r.content_type == content_type,
            r.body == body,
    {
        HttpResponse { respond_code, msg: reason_phrase_bytes(respond_code), content_type, body }
    }

    /// `404 Not Found`, plain text, no body.
    pub fn new_not_found_response() -> (r: Self)
        ensures
            r.respond_code == 404,
            r.msg@ == reason_not_found(),
            r.content_type == ContentType::TextPlain,
            r.body is None,
    {
        HttpResponse {
            respond_code: 404,
            msg: reason_not_found_bytes(),
            content_type: ContentType::TextPlain,
            body: None,
        }
    }

    /// `400 Bad Request`, plain text, no body.
    pub fn new_bad_request_response() -> (r: Self)
        ensures
            r.respond_code == 400,
            r.msg@ == reason_bad_request(),
            r.content_type == ContentType::TextPlain,
            r.body is None,
    {
        HttpResponse {
            respond_code: 400,
            msg: reason_bad_request_bytes(),
            content_type: ContentType::TextPlain,
            body: None,
        }
    }

    /// `500 Internal Server Error`, plain text, no body.
    pub fn new_server_error_response() -> (r: Self)
        ensures
            r.respond_code == 500,
            r.msg@ == reason_server_error(),
            r.content_type == ContentType::TextPlain,
            r.body is None,
    {
        HttpResponse {
            respond_code: 500,
            msg: reason_server_error_bytes(),
            content_type: ContentType::TextPlain,
            body: None,
        }
    }

    /// Renders the response as the bytes sent on the wire: status line,
    /// `Content-Type`, `Content-Length` of the body, a blank line, the body.
    pub fn to_string(&self) -> (r: Vec<u8>)
        ensures
            r@ == self.wire(),
    {
        let mut out: Vec<u8> = http_version_bytes();
        append_decimal(&mut out, self.respond_code);
        out.push(' ' as u8);
        append_bytes(&mut out, self.msg.as_slice());
        append_bytes(&mut out, crlf_bytes().as_slice());
        append_bytes(&mut out, content_type_label_bytes().as_slice());
        append_bytes(&mut out, self.content_type.to_bytes().as_slice());
        append_bytes(&mut out, crlf_bytes().as_slice());
        append_bytes(&mut out, content_length_label_bytes().as_slice());
        let body_len: usize = match &self.body {
            Some(b) => b.len(),
            None => 0,
        };
        append_decimal(&mut out, body_len);
        append_bytes(&mut out, crlf_bytes().as_slice());
        append_bytes(&mut out, crlf_bytes().as_slice());
        match &self.body {
            Some(b) => append_bytes(&mut out, b.as_slice()),
            None => {},
        }
        assert(out@ =~= self.wire());
        out
    }
}

/// `s` holds no carriage return.
pub open spec fn no_cr(s: Seq<u8>) -> bool {
    forall|k: int| 0 <= k < s.len() ==> s[k] != '\r' as u8
}

proof fn lemma_decimal_no_cr(n: nat)
    ensures
        no_cr(decimal(n)),
    decreases n,
{
    if n >= 10 {
        lemma_decimal_no_cr(n / 10);
        let d = decimal(n / 10);
        assert forall|k: int| 0 <= k < decimal(n).len() implies decimal(n)[k] != '\r' as u8 by {
            if k < d.len() {
                assert(decimal(n)[k] == d[k]);
            }
        }
    }
}

proof fn lemma_scan_line(s: Seq<u8>, start: int, k: int, i: int)
    requires
        0 <= start <= k <= i,
        i + 1 < s.len(),
        forall|j: int| start <= j < i ==> s[j] != '\r' as u8,
    ensures
        head_lines_from(s, start, k) == head_lines_from(s, start, i),
    decreases i - k,
{
    if k < i {
        lemma_scan_line(s, start, k + 1, i);
    }
}

/// A head line `line` at `start` of `s`, ended by CR LF, comes first among
/// the head lines read from `start`.
proof fn lemma_line_at(s: Seq<u8>, start: int, line: Seq<u8>)
    requires
        0 <= start,
        line.len() > 0,
        no_cr(line),
        start + line.len() + 2 <= s.len(),
        s.subrange(start, start + line.len()) == line,
        s.subrange(start + line.len(), start + line.len() + 2) == crlf(),
    ensures
        head_lines_from(s, start, start) == prepend_lines(
            seq![line],
            head_lines_from(s, start + line.len() + 2, start + line.len() + 2),
        ),
{
    let i = start + line.len();
    assert forall|j: int| start <= j < i implies s[j] != '\r' as u8 by {
        assert(s[j] == s.subrange(start, i)[j - start]);
    }
    assert(s[i] == s.subrange(i, i + 2)[0] && s[i + 1] == s.subrange(i, i + 2)[1]);
    lemma_scan_line(s, start, start, i);
    let rest = head_lines_from(s, i + 2, i + 2);
    if let Some((ls, e)) = rest {
        assert(seq![s.subrange(start, i)] + ls =~= seq![line] + ls);
    }
}

/// The status line of a response.
pub open spec fn status_line(code: nat, msg: Seq<u8>) -> Seq<u8> {
    http_version() + decimal(code) + seq![' ' as u8] + msg
}

/// Read back as a request head is read, the wire form of a response has
/// exactly three head lines: the status line, one `Content-Type` line, and one
/// `Content-Length` line whose value is the body's length in decimal; and
/// what follows the first blank line is exactly the body.
pub proof fn content_length_matches_body(resp: HttpResponse)
    requires
        no_cr(resp.msg@),
    ensures
        ({
            let body = body_bytes(resp.body);
            let head = response_head(
                resp.respond_code as nat,
                resp.msg@,
                resp.content_type.spec_bytes(),
                body.len(),
            );
            &&& head_lines(resp.wire()) == Some((
                seq![
                    status_line(resp.respond_code as nat, resp.msg@),
                    content_type_label() + resp.content_type.spec_bytes(),
                    content_length_label() + decimal(body.len()),
                ],
                head.len() as int,
            ))
            &&& resp.wire().subrange(head.len() as int, resp.wire().len() as int) == body
            &&& !has_prefix(status_line(resp.respond_code as nat, resp.msg@), content_length_label())
            &&& !has_prefix(content_type_label() + resp.content_type.spec_bytes(), content_length_label())
            &&& has_prefix(content_length_label() + decimal(body.len()), content_length_label())
        }),
{
    let body = body_bytes(resp.body);
    let s = resp.wire();
    let l1 = status_line(resp.respond_code as nat, resp.msg@);
    let l2 = content_type_label() + resp.content_type.spec_bytes();
    let l3 = content_length_label() + decimal(body.len());
    let head = response_head(resp.respond_code as nat, resp.msg@, resp.content_type.spec_bytes(), body.len());
    assert(head =~= l1 + crlf() + l2 + crlf() + l3 + crlf() + crlf());
    lemma_decimal_no_cr(resp.respond_code as nat);
    lemma_decimal_no_cr(body.len());
    let d1 = decimal(resp.respond_code as nat);
    let d3 = decimal(body.len());
    assert(no_cr(l1)) by {
        assert forall|k: int| 0 <= k < l1.len() implies l1[k] != '\r' as u8 by {
            let a = http_version().len() as int;
            let b = a + d1.len();
            if k < a {
            } else if k < b {
                assert(l1[k] == d1[k - a]);
            } else if k == b {
            } else {
                assert(l1[k] == resp.msg@[k - b - 1]);
            }
        }
    }
    assert(no_cr(l2)) by {
        let ct = resp.content_type.spec_bytes();
        assert(no_cr(ct)) by {
            match resp.content_type {
                ContentType::TextPlain => {},
                ContentType::OctetStream => {},
            }
        }
        assert forall|k: int| 0 <= k < l2.len() implies l2[k] != '\r' as u8 by {
            if k >= content_type_label().len() {
                assert(l2[k] == ct[k - content_type_label().len()]);
            }
        }
    }
    assert(no_cr(l3)) by {
        assert forall|k: int| 0 <= k < l3.len() implies l3[k] != '\r' as u8 by {
            if k >= content_length_label().len() {
                assert(l3[k] == d3[k - content_length_label().len()]);
            }
        }
    }
    let p1 = l1.len() as int;
    let p2 = p1 + 2 + l2.len();
    let p3 = p2 + 2 + l3.len();
    assert(s =~= l1 + crlf() + l2 + crlf() + l3 + crlf() + crlf() + body);
    assert(s.subrange(0, p1) =~= l1);
    assert(s.subrange(p1, p1 + 2) =~= crlf());
    assert(s.subrange(p1 + 2, p2) =~= l2);
    assert(s.subrange(p2, p2 + 2) =~= crlf());
    assert(s.subrange(p2 + 2, p3) =~= l3);
    assert(s.subrange(p3, p3 + 2) =~= crlf());
    assert(s[p3 + 2] == '\r' as u8 && s[p3 + 3] == '\n' as u8);
    lemma_line_at(s, 0, l1);
    lemma_line_at(s, p1 + 2, l2);
    lemma_line_at(s, p2 + 2, l3);
    assert(is_crlf_at(s, p3 + 2));
    assert(head_lines_from(s, p3 + 2, p3 + 2) == Some((Seq::<Seq<u8>>::empty(), p3 + 4)));
    assert(seq![l1] + (seq![l2] + (seq![l3] + Seq::<Seq<u8>>::empty())) =~= seq![l1, l2, l3]);
    assert(s.subrange(head.len() as int, s.len() as int) =~= body);
    let cl = content_length_label();
    if l1.len() >= cl.len() {
        assert(l1.subrange(0, cl.len() as int)[0] != cl[0]);
    }
    assert(l2.subrange(0, cl.len() as int)[8] != cl[8]);
    assert(l3.subrange(0, cl.len() as int) =~= cl);
}

} // verus!
