//! Reading a request from the bytes received on a connection.
use vstd::prelude::*;
use vstd::utf8::valid_utf8;

use crate::protocol::{
    content_length_label, content_length_label_bytes, user_agent_label, user_agent_label_bytes,
};
use crate::text::{
    copy_range, drop_prefix, has_prefix, parse_usize, parse_usize_spec, starts_with,
};

verus! {

/// Why the bytes received do not make a request.
#[derive(Clone, Copy, Debug, PartialEq, Eq, Structural)]
pub enum ParseError {
    /// The request line lacks its tokens, a `Content-Length` is not a number,
    /// or a line of the head or the body is not UTF-8.
    MalformedRequest,
    /// The stream ended before the head or the declared body was complete.
    TruncatedStream,
}

/// What a request says, as mathematical values.
pub struct RequestView {
    pub method: Seq<u8>,
    pub path: Seq<u8>,
    pub user_agent: Option<Seq<u8>>,
    pub content_length: Option<nat>,
    pub body: Option<Seq<u8>>,
}

/// A request as read from a connection.
#[derive(Debug)]
pub struct HttpRequest {
    pub method: Vec<u8>,
    pub path: Vec<u8>,
    pub user_agent: Option<Vec<u8>>,
    pub content_length: Option<usize>,
    pub body: Option<Vec<u8>>,
}

pub open spec fn opt_bytes(o: Option<Vec<u8>>) -> Option<Seq<u8>> {
    match o {
        Some(v) => Some(v@),
        None => None,
    }
}

impl View for HttpRequest {
    type V = RequestView;

    open spec fn view(&self) -> RequestView {
        RequestView {
            method: self.method@,
            path: self.path@,
            user_agent: opt_bytes(self.user_agent),
            content_length: match self.content_length {
                Some(n) => Some(n as nat),
                None => None,
            },
            body: opt_bytes(self.body),
        }
    }
}

impl HttpRequest {
    /// A body is present exactly when a length was declared, and has that length.
    pub open spec fn wf(&self) -> bool {
        match (self.content_length, self.body) {
            (Some(n), Some(b)) => b@.len() == n,
            (None, None) => true,
            _ => false,
        }
    }
}

/// A CR LF pair starts at `i`.
pub open spec fn is_crlf_at(s: Seq<u8>, i: int) -> bool {
    0 <= i && i + 1 < s.len() && s[i] == '\r' as u8 && s[i + 1] == '\n' as u8
}

/// The lines of the head, scanning `s` at `i` inside the line that starts at
/// `start`: each line ends at a CR LF, and the first empty line ends the head.
/// Gives the non-empty lines and the index just past the empty line, or
/// `None` when `s` ends before the head does.
pub open spec fn head_lines_from(s: Seq<u8>, start: int, i: int) -> Option<(Seq<Seq<u8>>, int)>
    decreases s.len() - i,
{
    if i < 0 || i + 1 >= s.len() {
        None
    } else if is_crlf_at(s, i) {
        if i == start {
            Some((Seq::empty(), i + 2))
        } else {
            match head_lines_from(s, i + 2, i + 2) {
                Some((ls, end)) => Some((seq![s.subrange(start, i)] + ls, end)),
                None => None,
            }
        }
    } else {
        head_lines_from(s, start, i + 1)
    }
}

/// The lines of the head of `s` and where its body starts.
pub open spec fn head_lines(s: Seq<u8>) -> Option<(Seq<Seq<u8>>, int)> {
    head_lines_from(s, 0, 0)
}

/// The end of the space-delimited token that starts at `from`.
pub open spec fn token_end(s: Seq<u8>, from: int) -> int
    decreases s.len() - from,
{
    if from >= s.len() {
        s.len() as int
    } else if s[from] == ' ' as u8 {
        from
    } else {
        token_end(s, from + 1)
    }
}

/// A request line has at least two space-delimited tokens.
pub open spec fn request_line_ok(l: Seq<u8>) -> bool {
    token_end(l, 0) < l.len()
}

/// The first token of a request line.
pub open spec fn method_of(l: Seq<u8>) -> Seq<u8> {
    l.subrange(0, token_end(l, 0))
}

/// The second token of a request line.
pub open spec fn path_of(l: Seq<u8>) -> Seq<u8> {
    let m = token_end(l, 0);
    l.subrange(m + 1, token_end(l, m + 1))
}

/// The value of the last `User-Agent` header among `hs`.
pub open spec fn user_agent_of(hs: Seq<Seq<u8>>) -> Option<Seq<u8>>
    decreases hs.len(),
{
    if hs.len() == 0 {
        None
    } else if has_prefix(hs.last(), user_agent_label()) {
        Some(drop_prefix(hs.last(), user_agent_label().len()))
    } else {
        user_agent_of(hs.drop_last())
    }
}

/// The number that a `Content-Length` header line declares, if it is one.
pub open spec fn length_value(h: Seq<u8>) -> Option<nat> {
    parse_usize_spec(drop_prefix(h, content_length_label().len()))
}

/// Every `Content-Length` header among `hs` declares a number.
pub open spec fn lengths_valid(hs: Seq<Seq<u8>>) -> bool {
    forall|i: int|
        0 <= i < hs.len() && has_prefix(#[trigger] hs[i], content_length_label())
            ==> length_value(hs[i]) is Some
}

/// The length declared by the last `Content-Length` header among `hs`.
pub open spec fn content_length_of(hs: Seq<Seq<u8>>) -> Option<nat>
    decreases hs.len(),
{
    if hs.len() == 0 {
        None
    } else if has_prefix(hs.last(), content_length_label()) {
        length_value(hs.last())
    } else {
        content_length_of(hs.drop_last())
    }
}

/// Every line of a head is UTF-8 text.
pub open spec fn lines_utf8(lines: Seq<Seq<u8>>) -> bool {
    forall|i: int| 0 <= i < lines.len() ==> valid_utf8(#[trigger] lines[i])
}

/// The request that the head of `s` describes, with no body yet, and the
/// index where its body starts.
pub open spec fn parse_head_spec(s: Seq<u8>) -> Result<(RequestView, int), ParseError> {
    match head_lines(s) {
        None => Err(ParseError::TruncatedStream),
        Some((lines, end)) => {
            if !lines_utf8(lines) || lines.len() == 0 || !request_line_ok(lines[0]) {
                Err(ParseError::MalformedRequest)
            } else if !lengths_valid(lines.drop_first()) {
                Err(ParseError::MalformedRequest)
            } else {
                Ok((
                    RequestView {
                        method: method_of(lines[0]),
                        path: path_of(lines[0]),
                        user_agent: user_agent_of(lines.drop_first()),
                        content_length: content_length_of(lines.drop_first()),
                        body: None,
                    },
                    end,
                ))
            }
        }
    }
}

/// The request that `s` holds: its head, then exactly as many body bytes as
/// declared; bytes beyond those are not part of it.
pub open spec fn parse_spec(s: Seq<u8>) -> Result<RequestView, ParseError> {
    match parse_head_spec(s) {
        Err(e) => Err(e),
        Ok((h, end)) => match h.content_length {
            None => Ok(h),
            Some(n) => if end + n > s.len() {
                Err(ParseError::TruncatedStream)
            } else {
                Ok(
                    RequestView {
                        method: h.method,
                        path: h.path,
                        user_agent: h.user_agent,
                        content_length: h.content_length,
                        body: Some(s.subrange(end, end + n)),
                    },
                )
            },
        },
    }
}

pub open spec fn prepend_lines(acc: Seq<Seq<u8>>, o: Option<(Seq<Seq<u8>>, int)>) -> Option<(Seq<Seq<u8>>, int)> {
    match o {
        Some((ls, end)) => Some((acc + ls, end)),
        None => None,
    }
}

/// Splits off the head: its non-empty lines and the index where the body starts.
fn split_head(input: &[u8]) -> (r: Option<(Vec<Vec<u8>>, usize)>)
    ensures
        match r {
            Some((lines, end)) => head_lines(input@) == Some((lines.deep_view(), end as int)),
            None => head_lines(input@) is None,
        },
        r matches Some((_, end)) ==> end <= input@.len(),
{
    let ghost s = input@;
    let mut lines: Vec<Vec<u8>> = Vec::new();
    let mut start: usize = 0;
    let mut i: usize = 0;
    while input.len() - i >= 2
        invariant
            s == input@,
            start <= i <= s.len(),
            head_lines(s) == prepend_lines(lines.deep_view(), head_lines_from(s, start as int, i as int)),
        decreases s.len() - i,
    {
        if input[i] == '\r' as u8 && input[i + 1] == '\n' as u8 {
            assert(is_crlf_at(s, i as int));
            if i == start {
                assert(lines.deep_view() + Seq::<Seq<u8>>::empty() =~= lines.deep_view());
                return Some((lines, i + 2));
            }
            let line = copy_range(input, start, i);
            assert(line.deep_view() =~= line@);
            let ghost before = lines.deep_view();
            lines.push(line);
            proof {
                assert(lines.deep_view() =~= before.push(s.subrange(start as int, i as int)));
                let rest = head_lines_from(s, i + 2, i + 2);
                match rest {
                    Some((ls, end)) => {
                        assert(before + (seq![s.subrange(start as int, i as int)] + ls)
                            =~= lines.deep_view() + ls);
                    },
                    None => {},
                }
            }
            i = i + 2;
            start = i;
        } else {
            i = i + 1;
        }
    }
    None
}

/// The end of the space-delimited token of `s` that starts at `from`.
fn find_token_end(s: &[u8], from: usize) -> (r: usize)
    requires
        from <= s@.len(),
    ensures
        r as int == token_end(s@, from as int),
        from <= r <= s@.len(),
{
    let mut i: usize = from;
    while i < s.len() && s[i] != ' ' as u8
        invariant
            from <= i <= s@.len(),
            token_end(s@, from as int) == token_end(s@, i as int),
        decreases s@.len() - i,
    {
        i = i + 1;
    }
    i
}

/// The method and path of a request line, or `None` when it has fewer than
/// two tokens.
fn request_line_tokens(line: &[u8]) -> (r: Option<(Vec<u8>, Vec<u8>)>)
    ensures
        match r {
            Some((m, p)) => request_line_ok(line@) && m@ == method_of(line@) && p@ == path_of(line@),
            None => !request_line_ok(line@),
        },
{
    let m = find_token_end(line, 0);
    if m == line.len() {
        return None;
    }
    let p = find_token_end(line, m + 1);
    Some((copy_range(line, 0, m), copy_range(line, m + 1, p)))
}

/// Reads the head of a request from `input`: the request line and the
/// headers up to the first empty line. The result carries no body; beside it
/// stands the index where the body starts.
pub fn parse_head(input: &[u8]) -> (r: Result<(HttpRequest, usize), ParseError>)
    ensures
        match (r, parse_head_spec(input@)) {
            (Ok((req, end)), Ok((h, e))) => req@ == h && end as int == e && req.body is None,
            (Err(x), Err(y)) => x == y,
            _ => false,
        },
        r matches Ok((_, end)) ==> end <= input@.len(),
{
    let (lines, end) = match split_head(input) {
        Some(v) => v,
        None => return Err(ParseError::TruncatedStream),
    };
    let ghost ls = lines.deep_view();
    let mut k: usize = 0;
    while k < lines.len()
        invariant
            ls == lines.deep_view(),
            head_lines(input@) == Some((ls, end as int)),
            k <= lines@.len(),
            forall|j: int| 0 <= j < k ==> valid_utf8(#[trigger] ls[j]),
        decreases lines@.len() - k,
    {
        assert(lines[k as int].deep_view() =~= lines[k as int]@);
        if !is_utf8(lines[k].as_slice()) {
            assert(!valid_utf8(ls[k as int]));
            return Err(ParseError::MalformedRequest);
        }
        k = k + 1;
    }
    assert(lines_utf8(ls));
    if lines.len() == 0 {
        return Err(ParseError::MalformedRequest);
    }
    assert(lines[0].deep_view() =~= lines[0]@);
    assert(ls[0] == lines[0]@);
    let (method, path) = match request_line_tokens(lines[0].as_slice()) {
        Some(t) => t,
        None => return Err(ParseError::MalformedRequest),
    };
    let ghost hs = ls.drop_first();
    let ua_label = user_agent_label_bytes();
    let cl_label = content_length_label_bytes();
    let mut user_agent: Option<Vec<u8>> = None;
    let mut content_length: Option<usize> = None;
    let mut i: usize = 1;
    while i < lines.len()
        invariant
            ls == lines.deep_view(),
            hs == ls.drop_first(),
            head_lines(input@) == Some((ls, end as int)),
            end <= input@.len(),
            ls.len() > 0,
            lines_utf8(ls),
            request_line_ok(ls[0]),
            method@ == method_of(ls[0]),
            path@ == path_of(ls[0]),
            ua_label@ == user_agent_label(),
            cl_label@ == content_length_label(),
            1 <= i <= lines@.len(),
            opt_bytes(user_agent) == user_agent_of(hs.subrange(0, i - 1)),
            lengths_valid(hs.subrange(0, i - 1)),
            match content_length {
                Some(n) => content_length_of(hs.subrange(0, i - 1)) == Some(n as nat),
                None => content_length_of(hs.subrange(0, i - 1)) is None,
            },
        decreases lines@.len() - i,
    {
        let line = lines[i].as_slice();
        let ghost prev = hs.subrange(0, i - 1);
        let ghost next = hs.subrange(0, i as int);
        assert(lines[i as int].deep_view() =~= line@);
        assert(hs[i - 1] == line@);
        assert(next =~= prev.push(line@));
        assert(next.drop_last() =~= prev);
        if starts_with(line, ua_label.as_slice()) {
            user_agent = Some(copy_range(line, ua_label.len(), line.len()));
        }
        if starts_with(line, cl_label.as_slice()) {
            let value = copy_range(line, cl_label.len(), line.len());
            match parse_usize(value.as_slice()) {
                Some(n) => {
                    content_length = Some(n);
                },
                None => {
                    assert(!lengths_valid(hs)) by {
                        assert(has_prefix(hs[i - 1], content_length_label()));
                    }
                    return Err(ParseError::MalformedRequest);
                },
            }
        }
        i = i + 1;
        assert(lengths_valid(next)) by {
            assert forall|k: int|
                0 <= k < next.len() && has_prefix(#[trigger] next[k], content_length_label())
                    implies length_value(next[k]) is Some by {
                if k < prev.len() {
                    assert(next[k] == prev[k]);
                }
            }
        }
    }
    assert(hs.subrange(0, hs.len() as int) =~= hs);
    let req = HttpRequest { method, path, user_agent, content_length, body: None };
    Ok((req, end))
}

/// Reads a request from `input`, the bytes that the connection delivered:
/// its head, then exactly the declared number of body bytes. Bytes past the
/// body are not read.
pub fn parse_request(input: &[u8]) -> (r: Result<HttpRequest, ParseError>)
    ensures
        match (r, parse_spec(input@)) {
            (Ok(req), Ok(v)) => req@ == v && req.wf(),
            (Err(x), Err(y)) => x == y,
            _ => false,
        },
{
    let (head, end) = match parse_head(input) {
        Ok(v) => v,
        Err(e) => return Err(e),
    };
    let body = match head.content_length {
        None => None,
        Some(n) => {
            if n > input.len() - end {
                return Err(ParseError::TruncatedStream);
            }
            Some(copy_range(input, end, end + n))
        },
    };
    Ok(HttpRequest {
        method: head.method,
        path: head.path,
        user_agent: head.user_agent,
        content_length: head.content_length,
        body,
    })
}

/// Relies on `std::str::from_utf8`, which succeeds exactly on well-formed UTF-8.
#[verifier::external_body]
fn is_utf8(b: &[u8]) -> (r: bool)
    ensures
        r == valid_utf8(b@),
{
    std::str::from_utf8(b).is_ok()
}

/// The request that `s` holds, where a body must also be UTF-8 text.
pub open spec fn read_spec(s: Seq<u8>) -> Result<RequestView, ParseError> {
    match parse_spec(s) {
        Ok(v) => match v.body {
            Some(b) => if valid_utf8(b) {
                Ok(v)
            } else {
                Err(ParseError::MalformedRequest)
            },
            None => Ok(v),
        },
        Err(e) => Err(e),
    }
}

/// Reads a request as `parse_request` does, and refuses a body that is not
/// UTF-8 text as malformed.
pub fn read_request(input: &[u8]) -> (r: Result<HttpRequest, ParseError>)
    ensures
        match (r, read_spec(input@)) {
            (Ok(req), Ok(v)) => req@ == v && req.wf(),
            (Err(x), Err(y)) => x == y,
            _ => false,
        },
{
    let req = match parse_request(input) {
        Ok(req) => req,
        Err(e) => return Err(e),
    };
    let text = match &req.body {
        Some(b) => is_utf8(b.as_slice()),
        None => true,
    };
    if text {
        Ok(req)
    } else {
        Err(ParseError::MalformedRequest)
    }
}

/// What must still be read from a connection before its request can be
/// judged.
#[derive(Clone, Copy, Debug, PartialEq, Eq, Structural)]
pub enum ReadNeed {
    /// The head is not complete: read another line.
    Line,
    /// The head is complete and this many body bytes are still missing.
    Bytes(usize),
    /// Enough has been read: a request, or a malformed head.
    Complete,
}

/// What `read_progress` asks for, given the bytes received so far.
pub open spec fn read_need_spec(s: Seq<u8>) -> ReadNeed {
    match parse_head_spec(s) {
        Err(ParseError::TruncatedStream) => ReadNeed::Line,
        Err(ParseError::MalformedRequest) => ReadNeed::Complete,
        Ok((h, end)) => match h.content_length {
            Some(n) => if end + n > s.len() {
                ReadNeed::Bytes((end + n - s.len()) as usize)
            } else {
                ReadNeed::Complete
            },
            None => ReadNeed::Complete,
        },
    }
}

/// Decides how much more to read from a connection, given the bytes
/// received so far: never more than the head and the declared body.
pub fn read_progress(buffered: &[u8]) -> (r: ReadNeed)
    ensures
        r == read_need_spec(buffered@),
        r is Complete ==> parse_spec(buffered@) != Err::<RequestView, ParseError>(
            ParseError::TruncatedStream,
        ),
{
    match parse_head(buffered) {
        Err(ParseError::TruncatedStream) => ReadNeed::Line,
        Err(ParseError::MalformedRequest) => ReadNeed::Complete,
        Ok((head, end)) => match head.content_length {
            Some(n) => if n > buffered.len() - end {
                ReadNeed::Bytes(n - (buffered.len() - end))
            } else {
                ReadNeed::Complete
            },
            None => ReadNeed::Complete,
        },
    }
}

proof fn lemma_head_lines_bounds(s: Seq<u8>, start: int, i: int)
    ensures
        head_lines_from(s, start, i) matches Some((_, e)) ==> i + 2 <= e <= s.len(),
    decreases s.len() - i,
{
    if i < 0 || i + 1 >= s.len() {
    } else if is_crlf_at(s, i) {
        if i != start {
            lemma_head_lines_bounds(s, i + 2, i + 2);
        }
    } else {
        lemma_head_lines_bounds(s, start, i + 1);
    }
}

proof fn lemma_head_lines_prefix(s: Seq<u8>, t: Seq<u8>, start: int, i: int)
    requires
        0 <= start <= i,
        t.len() <= s.len(),
        t == s.subrange(0, t.len() as int),
    ensures
        match head_lines_from(s, start, i) {
            Some((ls, e)) => if e <= t.len() {
                head_lines_from(t, start, i) == Some((ls, e))
            } else {
                head_lines_from(t, start, i) is None
            },
            None => head_lines_from(t, start, i) is None,
        },
    decreases s.len() - i,
{
    lemma_head_lines_bounds(s, start, i);
    if i + 1 >= s.len() {
    } else if i + 1 >= t.len() {
    } else {
        assert(t[i] == s[i] && t[i + 1] == s[i + 1]);
        if is_crlf_at(s, i) {
            if i != start {
                lemma_head_lines_prefix(s, t, i + 2, i + 2);
                assert(t.subrange(start, i) =~= s.subrange(start, i));
            }
        } else {
            lemma_head_lines_prefix(s, t, start, i + 1);
        }
    }
}

/// How many bytes of `s` its request takes: the head and the declared body.
pub open spec fn framed_len(s: Seq<u8>) -> int {
    match parse_head_spec(s) {
        Ok((h, end)) => match h.content_length {
            Some(n) => end + n,
            None => end,
        },
        Err(_) => s.len() as int,
    }
}

/// A stream that closes before the head and the declared body have all
/// arrived yields `TruncatedStream`: cut a request anywhere short of its
/// framed length and it no longer parses.
pub proof fn short_stream_is_truncated(s: Seq<u8>, k: int)
    requires
        parse_spec(s) is Ok,
        0 <= k < framed_len(s),
    ensures
        parse_spec(s.subrange(0, k)) == Err::<RequestView, ParseError>(ParseError::TruncatedStream),
{
    let t = s.subrange(0, k);
    lemma_head_lines_bounds(s, 0, 0);
    lemma_head_lines_prefix(s, t, 0, 0);
}

/// Bytes past the declared body are never part of the request: any prefix
/// of the stream that holds the whole frame reads as the same request.
pub proof fn bytes_past_frame_are_ignored(s: Seq<u8>, k: int)
    requires
        parse_spec(s) is Ok,
        framed_len(s) <= k <= s.len(),
    ensures
        parse_spec(s.subrange(0, k)) == parse_spec(s),
{
    let t = s.subrange(0, k);
    lemma_head_lines_bounds(s, 0, 0);
    lemma_head_lines_prefix(s, t, 0, 0);
    let (h, end) = parse_head_spec(s).unwrap();
    if let Some(n) = h.content_length {
        assert(t.subrange(end, end + n) =~= s.subrange(end, end + n));
    }
}

/// A `Content-Length` header whose value is not a non-negative integer that
/// fits the machine makes the request malformed, wherever it stands.
pub proof fn bad_length_is_malformed(s: Seq<u8>, j: int)
    requires
        head_lines(s) matches Some((lines, _)) && 1 <= j < lines.len()
            && has_prefix(lines[j], content_length_label()) && length_value(lines[j]) is None,
    ensures
        parse_spec(s) == Err::<RequestView, ParseError>(ParseError::MalformedRequest),
{
    let (lines, end) = head_lines(s).unwrap();
    let hs = lines.drop_first();
    assert(hs[j - 1] == lines[j]);
    assert(!lengths_valid(hs));
}

} // verus!
