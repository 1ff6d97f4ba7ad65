//! Door for links from outside the window: the browser extension and later
//! starts of omnidl itself. A tiny HTTP endpoint on 127.0.0.1 that only
//! takes links, and only from callers that are not web pages: every request
//! needs the `X-Omnidl-Client` header, which a page can only send after a
//! CORS preflight that is refused for anything but extension origins. The
//! `Host` check stops DNS rebinding.

use crate::config::Mode;
use crate::launch::{is_web_link, mode_from, mode_of, texts, web_link};
use crate::text::{
    ascii_lowercase, begins_with, chars_of, decimal, find, find_in, lower_all, parse_u64,
    parsed_u64, push_decimal, push_str, slice_vec, split_char, split_first, split_on, split_once,
    starts_with, string_of, trim_chars, trim_spaces, views, lemma_find_bounds, same_str,
    push_char, same_chars,
};
use vstd::prelude::*;
use vstd::string::StringExecFns;
use vstd::utf8::{decode_utf8, encode_utf8, valid_utf8};
use vstd::string::StringSliceAdditionalSpecFns;

verus! {

pub const PORT: u16 = 47813;

pub const CLIENT_HEADER: &'static str = "x-omnidl-client";

/// The version the endpoint reports.
pub const VERSION: &'static str = "0.2.0";

/// Largest request read, in bytes.
pub const MAX_REQUEST: usize = 65536;

/// Most links taken from one request.
pub const MAX_URLS: usize = 200;

#[derive(Clone, Debug, PartialEq)]
pub struct Links {
    pub urls: Vec<String>,
    pub mode: Option<Mode>,
    /// Bring the window forward (omnidl was started again) rather than stay
    /// in the background (sent from the browser).
    pub focus: bool,
}

#[derive(Debug)]
pub struct Request {
    pub method: String,
    pub path: String,
    headers: Vec<(String, String)>,
    pub body: Vec<u8>,
}

pub struct RequestView {
    pub method: Seq<char>,
    pub path: Seq<char>,
    pub headers: Seq<(Seq<char>, Seq<char>)>,
    pub body: Seq<u8>,
}

pub open spec fn pair_texts(v: Seq<(String, String)>) -> Seq<(Seq<char>, Seq<char>)> {
    v.map_values(|p: (String, String)| (p.0@, p.1@))
}

impl View for Request {
    type V = RequestView;

    closed spec fn view(&self) -> RequestView {
        RequestView {
            method: self.method@,
            path: self.path@,
            headers: pair_texts(self.headers@),
            body: self.body@,
        }
    }
}

/// The value of the first header named `name`.
pub open spec fn header_of(hs: Seq<(Seq<char>, Seq<char>)>, name: Seq<char>) -> Option<Seq<char>>
    decreases hs.len(),
{
    if hs.len() == 0 {
        None
    } else if hs[0].0 == name {
        Some(hs[0].1)
    } else {
        header_of(hs.drop_first(), name)
    }
}

impl Request {
    /// The value of the first header named `name` (names are kept in lower
    /// case).
    pub fn header(&self, name: &str) -> (r: Option<String>)
        ensures
            crate::jobs::opt_text(r) == header_of(self@.headers, name@),
    {
        let mut i: usize = 0;
        assert(pair_texts(self.headers@).skip(0) == pair_texts(self.headers@));
        while i < self.headers.len()
            invariant
                i <= self.headers@.len(),
                header_of(self@.headers, name@) == header_of(pair_texts(self.headers@).skip(i as int), name@),
            decreases self.headers@.len() - i,
        {
            assert(pair_texts(self.headers@).skip(i as int)[0] == (self.headers@[i as int].0@, self.headers@[i as int].1@));
            if same_str(self.headers[i].0.as_str(), name) {
                return Some(self.headers[i].1.clone());
            }
            assert(pair_texts(self.headers@).skip(i as int).drop_first() =~= pair_texts(self.headers@).skip(i + 1));
            i += 1;
        }
        None
    }
}

pub enum Parse {
    Incomplete,
    Done(Request),
    Invalid,
}

pub enum ParseView {
    Incomplete,
    Done(RequestView),
    Invalid,
}

/// Whether the four bytes at `i` end a request head (`\r\n\r\n`).
pub open spec fn blank_at(b: Seq<u8>, i: int) -> bool {
    b[i] == 13 && b[i + 1] == 10 && b[i + 2] == 13 && b[i + 3] == 10
}

/// Where the first `\r\n\r\n` at or after `i` starts.
pub open spec fn blank_from(b: Seq<u8>, i: int) -> Option<int>
    decreases b.len() - i,
{
    if i < 0 || i + 4 > b.len() {
        None
    } else if blank_at(b, i) {
        Some(i)
    } else {
        blank_from(b, i + 1)
    }
}

/// The pieces of `s` between the occurrences of `p`, as `str::split` yields
/// them for a non-empty pattern.
pub open spec fn split_text(s: Seq<char>, p: Seq<char>) -> Seq<Seq<char>>
    decreases s.len(),
{
    if p.len() == 0 {
        seq![s]
    } else {
        match find(s, p) {
            Some(i) => if 0 <= i && i + p.len() <= s.len() {
                seq![s.take(i)] + split_text(s.skip(i + p.len()), p)
            } else {
                seq![s]
            },
            None => seq![s],
        }
    }
}

/// A header line read as `(name in lower case, value)`, both trimmed.
pub open spec fn header_line(line: Seq<char>) -> Option<(Seq<char>, Seq<char>)> {
    match split_once(line, seq![':']) {
        Some((n, v)) => Some((lower_all(trim_spaces(n)), trim_spaces(v))),
        None => None,
    }
}

pub open spec fn header_lines(ls: Seq<Seq<char>>) -> Option<Seq<(Seq<char>, Seq<char>)>>
    decreases ls.len(),
{
    if ls.len() == 0 {
        Some(seq![])
    } else {
        match (header_lines(ls.drop_last()), header_line(ls.last())) {
            (Some(hs), Some(h)) => Some(hs.push(h)),
            _ => None,
        }
    }
}

/// A request read from the bytes received so far.
pub open spec fn parsed(buf: Seq<u8>) -> ParseView {
    match blank_from(buf, 0) {
        None => if buf.len() >= MAX_REQUEST {
            ParseView::Invalid
        } else {
            ParseView::Incomplete
        },
        Some(end) => if !valid_utf8(buf.take(end)) {
            ParseView::Invalid
        } else {
            let lines = split_text(decode_utf8(buf.take(end)), "\r\n"@);
            let first = split_on(lines[0], ' ');
            if first.len() < 3 || !starts_with(first[2], "HTTP/1."@) {
                ParseView::Invalid
            } else {
                match header_lines(lines.drop_first()) {
                    None => ParseView::Invalid,
                    Some(hs) => if header_of(hs, "transfer-encoding"@) is Some {
                        ParseView::Invalid
                    } else {
                        let len = match header_of(hs, "content-length"@) {
                            None => Some(0nat),
                            Some(v) => match parsed_u64(v) {
                                Some(n) => if n <= MAX_REQUEST {
                                    Some(n as nat)
                                } else {
                                    None
                                },
                                None => None,
                            },
                        };
                        match len {
                            None => ParseView::Invalid,
                            Some(n) => if buf.len() < end + 4 + n {
                                ParseView::Incomplete
                            } else {
                                ParseView::Done(
                                    RequestView {
                                        method: first[0],
                                        path: first[1],
                                        headers: hs,
                                        body: buf.subrange(end + 4, end + 4 + n),
                                    },
                                )
                            },
                        }
                    },
                }
            }
        },
    }
}

/// `std::str::from_utf8`: the text the bytes spell in UTF-8; `None` when
/// they are not valid UTF-8.
#[verifier::external_body]
fn utf8_text(b: &[u8]) -> (r: Option<String>)
    ensures
        r is Some <==> valid_utf8(b@),
        r matches Some(s) ==> s@ == decode_utf8(b@),
{
    std::str::from_utf8(b).ok().map(|s| s.to_string())
}

fn blank_line(buf: &[u8]) -> (r: Option<usize>)
    ensures
        match blank_from(buf@, 0) {
            Some(i) => r == Some(i as usize) && 0 <= i && i + 4 <= buf@.len(),
            None => r is None,
        },
{
    let n = buf.len();
    if n < 4 {
        return None;
    }
    let mut i: usize = 0;
    while i <= n - 4
        invariant
            n == buf@.len(),
            n >= 4,
            i <= n - 3,
            blank_from(buf@, 0) == blank_from(buf@, i as int),
        decreases n - i,
    {
        if buf[i] == 13 && buf[i + 1] == 10 && buf[i + 2] == 13 && buf[i + 3] == 10 {
            return Some(i);
        }
        i += 1;
    }
    None
}

fn split_crlf(s: &[char]) -> (r: Vec<Vec<char>>)
    ensures
        views(r@) == split_text(s@, "\r\n"@),
    decreases s@.len(),
{
    let p = chars_of("\r\n");
    proof {
        reveal_strlit("\r\n");
        lemma_find_bounds(s@, p@);
    }
    let n = s.len();
    match find_in(s, p.as_slice()) {
        Some(i) => {
            let head = slice_vec(s, 0, i);
            let rest = slice_vec(s, i + 2, n);
            let mut out: Vec<Vec<char>> = Vec::new();
            out.push(head);
            let tail = split_crlf(rest.as_slice());
            let mut k: usize = 0;
            assert(views(out@) =~= seq![s@.take(i as int)]);
            while k < tail.len()
                invariant
                    k <= tail@.len(),
                    views(out@) == seq![s@.take(i as int)] + views(tail@).take(k as int),
                decreases tail@.len() - k,
            {
                let ghost before = views(out@);
                let mut copy: Vec<char> = Vec::new();
                let mut j: usize = 0;
                while j < tail[k].len()
                    invariant
                        k < tail@.len(),
                        j <= tail@[k as int]@.len(),
                        copy@ == tail@[k as int]@.take(j as int),
                    decreases tail@[k as int]@.len() - j,
                {
                    copy.push(tail[k][j]);
                    j += 1;
                    assert(copy@ =~= tail@[k as int]@.take(j as int));
                }
                assert(tail@[k as int]@.take(tail@[k as int]@.len() as int) == tail@[k as int]@);
                out.push(copy);
                assert(views(out@) =~= before.push(tail@[k as int]@));
                assert(views(tail@).take(k + 1) =~= views(tail@).take(k as int).push(tail@[k as int]@));
                k += 1;
            }
            assert(views(tail@).take(tail@.len() as int) == views(tail@));
            out
        },
        None => {
            let mut out: Vec<Vec<char>> = Vec::new();
            out.push(slice_vec(s, 0, s.len()));
            assert(s@.subrange(0, s@.len() as int) == s@);
            assert(views(out@) =~= seq![s@]);
            out
        },
    }
}

fn read_headers(lines: &Vec<Vec<char>>) -> (r: Option<Vec<(String, String)>>)
    requires
        lines@.len() >= 1,
    ensures
        match header_lines(views(lines@).drop_first()) {
            Some(hs) => r matches Some(v) && pair_texts(v@) == hs,
            None => r is None,
        },
{
    let mut hs: Vec<(String, String)> = Vec::new();
    let mut i: usize = 1;
    let colon: [char; 1] = [':'];
    assert(colon@ == seq![':']);
    assert(views(lines@).drop_first().take(0) =~= Seq::<Seq<char>>::empty());
    assert(pair_texts(hs@) =~= Seq::<(Seq<char>, Seq<char>)>::empty());
    while i < lines.len()
        invariant
            1 <= i <= lines@.len(),
            colon@ == seq![':'],
            header_lines(views(lines@).drop_first().take(i - 1)) == Some(pair_texts(hs@)),
        decreases lines@.len() - i,
    {
        let ghost w = views(lines@).drop_first().take(i as int);
        assert(w.drop_last() =~= views(lines@).drop_first().take(i - 1));
        assert(w.last() == lines@[i as int]@);
        match split_first(lines[i].as_slice(), colon.as_slice()) {
            Some((n, v)) => {
                let name = trim_chars(n.as_slice());
                let name = string_of(name.as_slice());
                let name = ascii_lowercase(name.as_str());
                let value = trim_chars(v.as_slice());
                let ghost before = pair_texts(hs@);
                hs.push((string_of(name.as_slice()), string_of(value.as_slice())));
                assert(pair_texts(hs@) =~= before.push((name@, value@)));
            },
            None => {
                assert(header_lines(w) is None);
                proof {
                    lemma_header_lines_none(views(lines@).drop_first(), i as int);
                }
                return None;
            },
        }
        i += 1;
    }
    assert(views(lines@).drop_first().take(lines@.len() - 1) == views(lines@).drop_first());
    Some(hs)
}

/// Once a header line does not read, no longer list of lines reads.
proof fn lemma_header_lines_none(ls: Seq<Seq<char>>, k: int)
    requires
        0 <= k <= ls.len(),
        header_lines(ls.take(k)) is None,
    ensures
        header_lines(ls) is None,
    decreases ls.len() - k,
{
    if k < ls.len() {
        assert(ls.take(k + 1).drop_last() =~= ls.take(k));
        lemma_header_lines_none(ls, k + 1);
    } else {
        assert(ls.take(k) == ls);
    }
}

/// Reads a request from the bytes received so far: the head up to the
/// first empty line, then as many body bytes as `Content-Length` says.
pub fn parse(buf: &[u8]) -> (r: Parse)
    ensures
        match (r, parsed(buf@)) {
            (Parse::Incomplete, ParseView::Incomplete) => true,
            (Parse::Invalid, ParseView::Invalid) => true,
            (Parse::Done(q), ParseView::Done(v)) => q@ == v,
            _ => false,
        },
{
    let total = buf.len();
    let end = match blank_line(buf) {
        Some(e) => e,
        None => {
            return if buf.len() >= MAX_REQUEST {
                Parse::Invalid
            } else {
                Parse::Incomplete
            };
        },
    };
    let head_bytes = slice_bytes(buf, 0, end);
    assert(head_bytes@ =~= buf@.take(end as int));
    let head = match utf8_text(head_bytes.as_slice()) {
        Some(h) => h,
        None => {
            return Parse::Invalid;
        },
    };
    let hv = chars_of(head.as_str());
    let lines = split_crlf(hv.as_slice());
    proof {
        lemma_split_text_nonempty(hv@, "\r\n"@);
    }
    assert(views(lines@)[0] == lines@[0]@);
    let first = split_char(lines[0].as_slice(), ' ');
    if first.len() < 3 {
        return Parse::Invalid;
    }
    assert(views(first@)[0] == first@[0]@ && views(first@)[1] == first@[1]@ && views(first@)[2]
        == first@[2]@);
    let http = chars_of("HTTP/1.");
    if !begins_with(first[2].as_slice(), http.as_slice()) {
        return Parse::Invalid;
    }
    let headers = match read_headers(&lines) {
        Some(h) => h,
        None => return Parse::Invalid,
    };
    let req = Request {
        method: string_of(first[0].as_slice()),
        path: string_of(first[1].as_slice()),
        headers,
        body: Vec::new(),
    };
    if req.header("transfer-encoding").is_some() {
        return Parse::Invalid;
    }
    let len: usize = match req.header("content-length") {
        None => 0,
        Some(v) => {
            let vc = chars_of(v.as_str());
            match parse_u64(vc.as_slice()) {
                Some(n) => if n <= MAX_REQUEST as u64 {
                    n as usize
                } else {
                    return Parse::Invalid;
                },
                None => return Parse::Invalid,
            }
        },
    };
    let start = end + 4;
    if total - start < len {
        return Parse::Incomplete;
    }
    let body = slice_bytes(buf, start, start + len);
    Parse::Done(Request { method: req.method, path: req.path, headers: req.headers, body })
}

proof fn lemma_split_text_nonempty(s: Seq<char>, p: Seq<char>)
    ensures
        split_text(s, p).len() >= 1,
    decreases s.len(),
{
    if p.len() > 0 {
        if let Some(i) = find(s, p) {
            if 0 <= i && i + p.len() <= s.len() {
                lemma_split_text_nonempty(s.skip(i + p.len()), p);
            }
        }
    }
}

fn slice_bytes(b: &[u8], lo: usize, hi: usize) -> (r: Vec<u8>)
    requires
        lo <= hi <= b@.len(),
    ensures
        r@ == b@.subrange(lo as int, hi as int),
{
    let mut r: Vec<u8> = Vec::new();
    let mut i = lo;
    while i < hi
        invariant
            lo <= i <= hi <= b@.len(),
            r@ == b@.subrange(lo as int, i as int),
        decreases hi - i,
    {
        r.push(b[i]);
        i += 1;
        assert(r@ =~= b@.subrange(lo as int, i as int));
    }
    r
}

pub struct Response {
    pub status: u16,
    headers: Vec<(&'static str, String)>,
    body: String,
}

pub struct ResponseView {
    pub status: u16,
    pub headers: Seq<(Seq<char>, Seq<char>)>,
    pub body: Seq<char>,
}

pub open spec fn static_pairs(v: Seq<(&'static str, String)>) -> Seq<(Seq<char>, Seq<char>)> {
    v.map_values(|p: (&'static str, String)| (p.0@, p.1@))
}

impl View for Response {
    type V = ResponseView;

    closed spec fn view(&self) -> ResponseView {
        ResponseView { status: self.status, headers: static_pairs(self.headers@), body: self.body@ }
    }
}

pub open spec fn reason(status: u16) -> Seq<char> {
    if status == 200 {
        "OK"@
    } else if status == 202 {
        "Accepted"@
    } else if status == 204 {
        "No Content"@
    } else if status == 400 {
        "Bad Request"@
    } else if status == 403 {
        "Forbidden"@
    } else if status == 404 {
        "Not Found"@
    } else if status == 405 {
        "Method Not Allowed"@
    } else if status == 413 {
        "Payload Too Large"@
    } else {
        "Error"@
    }
}

pub open spec fn header_text(hs: Seq<(Seq<char>, Seq<char>)>) -> Seq<char>
    decreases hs.len(),
{
    if hs.len() == 0 {
        seq![]
    } else {
        header_text(hs.drop_last()) + hs.last().0 + ": "@ + hs.last().1 + "\r\n"@
    }
}

/// The response as HTTP/1.1 text.
pub open spec fn response_text(r: ResponseView) -> Seq<char> {
    "HTTP/1.1 "@ + decimal(r.status as nat) + seq![' '] + reason(r.status) + "\r\n"@ + header_text(
        r.headers,
    ) + "Content-Length: "@ + decimal(encode_utf8(r.body).len()) + "\r\nConnection: close\r\n\r\n"@
        + r.body
}

pub open spec fn plain(status: u16, body: Seq<char>) -> ResponseView {
    ResponseView { status: status, headers: seq![], body: body }
}

pub open spec fn json(status: u16, body: Seq<char>) -> ResponseView {
    ResponseView { status: status, headers: seq![("Content-Type"@, "application/json"@)], body: body }
}

/// The value of the first header whose name is `name`, ignoring ASCII case.
pub open spec fn header_named(hs: Seq<(Seq<char>, Seq<char>)>, name: Seq<char>) -> Option<Seq<char>>
    decreases hs.len(),
{
    if hs.len() == 0 {
        None
    } else if lower_all(hs[0].0) == lower_all(name) {
        Some(hs[0].1)
    } else {
        header_named(hs.drop_first(), name)
    }
}

impl Response {
    /// The value of the first header named `name`, ignoring ASCII case.
    pub fn header(&self, name: &str) -> (r: Option<String>)
        ensures
            crate::jobs::opt_text(r) == header_named(self@.headers, name@),
    {
        let want = ascii_lowercase(name);
        let mut i: usize = 0;
        let ghost hs = self@.headers;
        assert(hs.skip(0) == hs);
        while i < self.headers.len()
            invariant
                i <= self.headers@.len(),
                hs == static_pairs(self.headers@),
                hs == self@.headers,
                want@ == lower_all(name@),
                header_named(hs, name@) == header_named(hs.skip(i as int), name@),
            decreases self.headers@.len() - i,
        {
            assert(hs.skip(i as int).drop_first() =~= hs.skip(i + 1));
            assert(hs.skip(i as int)[0] == (self.headers@[i as int].0@, self.headers@[i as int].1@));
            let n = ascii_lowercase(self.headers[i].0);
            if same_chars(n.as_slice(), string_of(want.as_slice()).as_str()) {
                return Some(self.headers[i].1.clone());
            }
            i += 1;
        }
        None
    }

    fn new(status: u16, body: &str) -> (r: Response)
        ensures
            r@ == plain(status, body@),
    {
        let r = Response { status, headers: Vec::new(), body: String::from_str(body) };
        assert(static_pairs(r.headers@) =~= Seq::<(Seq<char>, Seq<char>)>::empty());
        r
    }

    fn json(status: u16, body: String) -> (r: Response)
        ensures
            r@ == json(status, body@),
    {
        let mut h: Vec<(&'static str, String)> = Vec::new();
        h.push(("Content-Type", String::from_str("application/json")));
        let r = Response { status, headers: h, body };
        assert(static_pairs(r.headers@) =~= seq![("Content-Type"@, "application/json"@)]);
        r
    }

    fn add_header(&mut self, name: &'static str, value: String)
        ensures
            final(self)@ == (ResponseView { headers: old(self)@.headers.push((name@, value@)), ..old(self)@ }),
    {
        self.headers.push((name, value));
        assert(static_pairs(self.headers@) =~= static_pairs(old(self).headers@).push((name@, value@)));
    }

    /// The response as bytes on the wire.
    pub fn to_bytes(&self) -> (r: Vec<u8>)
        ensures
            r@ == encode_utf8(response_text(self@)),
    {
        let reason = match self.status {
            200 => "OK",
            202 => "Accepted",
            204 => "No Content",
            400 => "Bad Request",
            403 => "Forbidden",
            404 => "Not Found",
            405 => "Method Not Allowed",
            413 => "Payload Too Large",
            _ => "Error",
        };
        let mut s = String::from_str("HTTP/1.1 ");
        push_decimal(&mut s, self.status as u64);
        push_char(&mut s, ' ');
        push_str(&mut s, reason);
        push_str(&mut s, "\r\n");
        let ghost start = s@;
        let mut i: usize = 0;
        while i < self.headers.len()
            invariant
                i <= self.headers@.len(),
                s@ == start + header_text(static_pairs(self.headers@).take(i as int)),
            decreases self.headers@.len() - i,
        {
            push_str(&mut s, self.headers[i].0);
            push_str(&mut s, ": ");
            push_str(&mut s, self.headers[i].1.as_str());
            push_str(&mut s, "\r\n");
            proof {
                let w = static_pairs(self.headers@).take(i + 1);
                assert(w.drop_last() =~= static_pairs(self.headers@).take(i as int));
                assert(w.last() == (self.headers@[i as int].0@, self.headers@[i as int].1@));
            }
            i += 1;
        }
        assert(static_pairs(self.headers@).take(self.headers@.len() as int) == static_pairs(self.headers@));
        push_str(&mut s, "Content-Length: ");
        let body_bytes = self.body.as_str().as_bytes();
        push_decimal(&mut s, body_bytes.len() as u64);
        push_str(&mut s, "\r\nConnection: close\r\n\r\n");
        push_str(&mut s, self.body.as_str());
        assert(body_bytes@.len() == encode_utf8(self@.body).len());
        assert(reason@ == crate::bridge::reason(self.status));
        assert(s@ == response_text(self@));
        s.as_str().as_bytes_vec()
    }
}

pub open spec fn extension_origin(o: Seq<char>) -> bool {
    starts_with(o, "chrome-extension://"@) || starts_with(o, "moz-extension://"@) || starts_with(
        o,
        "safari-web-extension://"@,
    ) || starts_with(o, "extension://"@)
}

fn starts(v: &[char], p: &str) -> (b: bool)
    ensures
        b == starts_with(v@, p@),
{
    let pv = chars_of(p);
    begins_with(v, pv.as_slice())
}

/// Browser extensions of Chrome, Edge, Brave, Firefox and Safari.
pub fn is_extension_origin(origin: &str) -> (b: bool)
    ensures
        b == extension_origin(origin@),
{
    let v = chars_of(origin);
    let v = v.as_slice();
    starts(v, "chrome-extension://") || starts(v, "moz-extension://") || starts(
        v,
        "safari-web-extension://",
    ) || starts(v, "extension://")
}

/// The body of an add request, as read from its JSON.
pub struct AddBody {
    pub urls: Vec<String>,
    pub url: Option<String>,
    pub mode: Option<String>,
    pub focus: bool,
}

/// The links of an add request: each trimmed, web links only, at most
/// `MAX_URLS`.
pub open spec fn taken_links(us: Seq<Seq<char>>) -> Seq<Seq<char>>
    decreases us.len(),
{
    if us.len() == 0 {
        seq![]
    } else {
        let prev = taken_links(us.drop_last());
        let u = trim_spaces(us.last());
        if web_link(u) && prev.len() < MAX_URLS {
            prev.push(u)
        } else {
            prev
        }
    }
}

pub struct LinksView {
    pub urls: Seq<Seq<char>>,
    pub mode: Option<Mode>,
    pub focus: bool,
}

impl View for Links {
    type V = LinksView;

    open spec fn view(&self) -> LinksView {
        LinksView { urls: texts(self.urls@), mode: self.mode, focus: self.focus }
    }
}

pub open spec fn with_cors(r: ResponseView, origin: Option<Seq<char>>) -> ResponseView {
    match origin {
        Some(o) => ResponseView {
            headers: r.headers.push(("Access-Control-Allow-Origin"@, o)).push(("Vary"@, "Origin"@)),
            ..r
        },
        None => r,
    }
}

pub open spec fn ping_body() -> Seq<char> {
    "{\"app\":\"omnidl\",\"version\":\""@ + VERSION@ + "\"}"@
}

pub open spec fn added_body(n: nat) -> Seq<char> {
    "{\"added\":"@ + decimal(n) + ",\"ok\":true}"@
}

pub open spec fn preflight() -> Seq<(Seq<char>, Seq<char>)> {
    seq![
        ("Access-Control-Allow-Methods"@, "GET, POST"@),
        ("Access-Control-Allow-Headers"@, "Content-Type, x-omnidl-client"@),
        ("Access-Control-Allow-Private-Network"@, "true"@),
        ("Access-Control-Max-Age"@, "600"@),
    ]
}

/// All links an add request names: its list, then its single link.
pub open spec fn body_links(b: AddBody) -> Seq<Seq<char>> {
    texts(b.urls@) + match b.url {
        Some(u) => seq![u@],
        None => seq![],
    }
}

/// The answer to a request on `port`, and the links to add. `add` is the
/// body of the request read as an add request, `None` when it is not JSON
/// of that shape.
pub open spec fn routed(req: RequestView, port: u16, add: Option<AddBody>) -> (ResponseView, Option<LinksView>) {
    let host = header_of(req.headers, "host"@);
    let origin = header_of(req.headers, "origin"@);
    if !(host == Some("127.0.0.1:"@ + decimal(port as nat)) || host == Some(
        "localhost:"@ + decimal(port as nat),
    )) {
        (plain(403, "host"@), None)
    } else if origin matches Some(o) && !extension_origin(o) {
        (plain(403, "origin"@), None)
    } else if req.method == "OPTIONS"@ {
        if origin is None {
            (plain(403, "origin"@), None)
        } else {
            (with_cors(ResponseView { headers: preflight(), ..plain(204, ""@) }, origin), None)
        }
    } else if header_of(req.headers, "x-omnidl-client"@) matches Some(c) && c.len() > 0 {
        if req.method == "GET"@ && req.path == "/v1/ping"@ {
            (with_cors(json(200, ping_body()), origin), None)
        } else if req.method == "POST"@ && req.path == "/v1/add"@ {
            match add {
                None => (with_cors(json(400, "{\"error\":\"JSON erwartet\"}"@), origin), None),
                Some(b) => {
                    let urls = taken_links(body_links(b));
                    if urls.len() == 0 && !b.focus {
                        (
                            with_cors(json(400, "{\"error\":\"keine gültigen Links\"}"@), origin),
                            None,
                        )
                    } else {
                        (
                            with_cors(json(202, added_body(urls.len())), origin),
                            Some(
                                LinksView {
                                    urls: urls,
                                    mode: match b.mode {
                                        Some(m) => mode_of(m@),
                                        None => None,
                                    },
                                    focus: b.focus,
                                },
                            ),
                        )
                    }
                },
            }
        } else if req.path == "/v1/ping"@ || req.path == "/v1/add"@ {
            (with_cors(plain(405, ""@), origin), None)
        } else {
            (with_cors(plain(404, ""@), origin), None)
        }
    } else {
        (plain(403, "client"@), None)
    }
}

fn cors(r: &mut Response, origin: &Option<String>)
    ensures
        final(r)@ == with_cors(old(r)@, crate::jobs::opt_text(*origin)),
{
    if let Some(o) = origin {
        r.add_header("Access-Control-Allow-Origin", o.clone());
        r.add_header("Vary", String::from_str("Origin"));
    }
}

fn host_is(h: &str, name: &str, port: u16) -> (b: bool)
    ensures
        b == (h@ == name@ + decimal(port as nat)),
{
    let mut s = String::from_str(name);
    push_decimal(&mut s, port as u64);
    same_str(h, s.as_str())
}

fn link_list(b: &AddBody) -> (r: Vec<String>)
    ensures
        texts(r@) == taken_links(body_links(*b)),
{
    let mut all: Vec<String> = Vec::new();
    let mut i: usize = 0;
    while i < b.urls.len()
        invariant
            i <= b.urls@.len(),
            texts(all@) == texts(b.urls@).take(i as int),
        decreases b.urls@.len() - i,
    {
        let ghost before = texts(all@);
        all.push(b.urls[i].clone());
        assert(texts(all@) =~= before.push(b.urls@[i as int]@));
        assert(texts(b.urls@).take(i + 1) =~= texts(b.urls@).take(i as int).push(b.urls@[i as int]@));
        i += 1;
    }
    assert(texts(b.urls@).take(b.urls@.len() as int) == texts(b.urls@));
    if let Some(u) = &b.url {
        let ghost before = texts(all@);
        all.push(u.clone());
        assert(texts(all@) =~= before.push(u@));
    }
    assert(texts(all@) =~= body_links(*b));
    let mut out: Vec<String> = Vec::new();
    let mut k: usize = 0;
    assert(texts(out@) =~= Seq::<Seq<char>>::empty());
    while k < all.len()
        invariant
            k <= all@.len(),
            texts(out@) == taken_links(texts(all@).take(k as int)),
            out@.len() <= MAX_URLS,
        decreases all@.len() - k,
    {
        let t = trim_chars(chars_of(all[k].as_str()).as_slice());
        let u = string_of(t.as_slice());
        proof {
            let w = texts(all@).take(k + 1);
            assert(w.drop_last() =~= texts(all@).take(k as int));
            assert(w.last() == all@[k as int]@);
        }
        if is_web_link(u.as_str()) && out.len() < MAX_URLS {
            let ghost before = texts(out@);
            out.push(u);
            assert(texts(out@) =~= before.push(t@));
        }
        k += 1;
    }
    assert(texts(all@).take(all@.len() as int) == texts(all@));
    out
}

/// Answers one request on `port`; the links, if any, are what the caller
/// should add. `add` is the body read as an add request (`None` when it is
/// not JSON of that shape).
pub fn route(req: &Request, port: u16, add: Option<AddBody>) -> (r: (Response, Option<Links>))
    ensures
        ({
            let (resp, links) = routed(req@, port, add);
            &&& r.0@ == resp
            &&& match (r.1, links) {
                (Some(l), Some(v)) => l@ == v,
                (None, None) => true,
                _ => false,
            }
        }),
{
    proof {
        reveal_strlit("OPTIONS");
        reveal_strlit("GET");
        reveal_strlit("POST");
        reveal_strlit("/v1/ping");
        reveal_strlit("/v1/add");
    }
    let host_ok = match req.header("host") {
        Some(h) => host_is(h.as_str(), "127.0.0.1:", port) || host_is(h.as_str(), "localhost:", port),
        None => false,
    };
    if !host_ok {
        return (Response::new(403, "host"), None);
    }
    let origin = req.header("origin");
    if let Some(o) = &origin {
        if !is_extension_origin(o.as_str()) {
            return (Response::new(403, "origin"), None);
        }
    }
    if same_str(req.method.as_str(), "OPTIONS") {
        if origin.is_none() {
            return (Response::new(403, "origin"), None);
        }
        let mut r = Response::new(204, "");
        r.add_header("Access-Control-Allow-Methods", String::from_str("GET, POST"));
        r.add_header("Access-Control-Allow-Headers", String::from_str("Content-Type, x-omnidl-client"));
        r.add_header("Access-Control-Allow-Private-Network", String::from_str("true"));
        r.add_header("Access-Control-Max-Age", String::from_str("600"));
        assert(r@.headers =~= preflight());
        cors(&mut r, &origin);
        return (r, None);
    }
    let client_ok = match req.header(CLIENT_HEADER) {
        Some(c) => !c.as_str().is_empty(),
        None => false,
    };
    if !client_ok {
        return (Response::new(403, "client"), None);
    }
    let get = same_str(req.method.as_str(), "GET");
    let post = same_str(req.method.as_str(), "POST");
    let ping = same_str(req.path.as_str(), "/v1/ping");
    let add_path = same_str(req.path.as_str(), "/v1/add");
    if get && ping {
        let mut body = String::from_str("{\"app\":\"omnidl\",\"version\":\"");
        push_str(&mut body, VERSION);
        push_str(&mut body, "\"}");
        let mut r = Response::json(200, body);
        cors(&mut r, &origin);
        return (r, None);
    }
    if post && add_path {
        match add {
            None => {
                let mut r = Response::json(400, String::from_str("{\"error\":\"JSON erwartet\"}"));
                cors(&mut r, &origin);
                return (r, None);
            },
            Some(b) => {
                let urls = link_list(&b);
                if urls.len() == 0 && !b.focus {
                    let mut r = Response::json(
                        400,
                        String::from_str("{\"error\":\"keine gültigen Links\"}"),
                    );
                    cors(&mut r, &origin);
                    return (r, None);
                }
                let mut body = String::from_str("{\"added\":");
                push_decimal(&mut body, urls.len() as u64);
                push_str(&mut body, ",\"ok\":true}");
                let mode = match &b.mode {
                    Some(m) => mode_from(m.as_str()),
                    None => None,
                };
                let mut r = Response::json(202, body);
                cors(&mut r, &origin);
                return (r, Some(Links { urls, mode, focus: b.focus }));
            },
        }
    }
    if ping || add_path {
        let mut r = Response::new(405, "");
        cors(&mut r, &origin);
        (r, None)
    } else {
        let mut r = Response::new(404, "");
        cors(&mut r, &origin);
        (r, None)
    }
}

/// An HTTP answer read as text: the status is the second word of the
/// first line (split at spaces), the body what follows the first blank
/// line, empty without one. `None` when the status is no number.
pub open spec fn reply_of(t: Seq<char>) -> Option<(u16, Seq<char>)> {
    let parts = split_on(t, ' ');
    if parts.len() < 2 {
        None
    } else {
        match parsed_u64(parts[1]) {
            Some(n) => if n <= u16::MAX {
                Some(
                    (
                        n as u16,
                        match split_once(t, "\r\n\r\n"@) {
                            Some((_, b)) => b,
                            None => seq![],
                        },
                    ),
                )
            } else {
                None
            },
            None => None,
        }
    }
}

/// Reads the answer of a running omnidl: its status and its body.
pub fn read_reply(text: &str) -> (r: Option<(u16, String)>)
    ensures
        match reply_of(text@) {
            Some((code, body)) => r matches Some((c, b)) && c == code && b@ == body,
            None => r is None,
        },
{
    let v = chars_of(text);
    let parts = split_char(v.as_slice(), ' ');
    if parts.len() < 2 {
        return None;
    }
    assert(views(parts@)[1] == parts@[1]@);
    let code = match parse_u64(parts[1].as_slice()) {
        Some(n) => if n <= u16::MAX as u64 {
            n as u16
        } else {
            return None;
        },
        None => return None,
    };
    let blank = chars_of("\r\n\r\n");
    let body = match split_first(v.as_slice(), blank.as_slice()) {
        Some((_, b)) => string_of(b.as_slice()),
        None => String::new(),
    };
    Some((code, body))
}

/// Whether an answer to a ping came from omnidl: status 200 and a body
/// naming the app.
pub open spec fn is_pong(status: u16, body: Seq<char>) -> bool {
    status == 200 && crate::text::contains(body, "\"app\":\"omnidl\""@)
}

pub fn answers_ping(status: u16, body: &str) -> (b: bool)
    ensures
        b == is_pong(status, body@),
{
    let v = chars_of(body);
    let p = chars_of("\"app\":\"omnidl\"");
    status == 200 && crate::text::has(v.as_slice(), p.as_slice())
}

/// A request is only ever answered with links when it came with the right
/// host, an extension origin or none, and the client header.
pub proof fn lemma_links_need_all_checks(req: RequestView, port: u16, add: Option<AddBody>)
    ensures
        routed(req, port, add).1 is Some ==> {
            &&& (header_of(req.headers, "host"@) == Some("127.0.0.1:"@ + decimal(port as nat))
                || header_of(req.headers, "host"@) == Some("localhost:"@ + decimal(port as nat)))
            &&& (header_of(req.headers, "origin"@) matches Some(o) ==> extension_origin(o))
            &&& header_of(req.headers, "x-omnidl-client"@) matches Some(c) && c.len() > 0
            &&& req.method == "POST"@ && req.path == "/v1/add"@
        },
        routed(req, port, add).1 matches Some(l) ==> l.urls.len() <= MAX_URLS,
{
    if let Some(b) = add {
        lemma_taken_links_bounded(body_links(b));
    }
}

proof fn lemma_taken_links_bounded(us: Seq<Seq<char>>)
    ensures
        taken_links(us).len() <= MAX_URLS,
        forall|i: int| 0 <= i < taken_links(us).len() ==> web_link(#[trigger] taken_links(us)[i]),
    decreases us.len(),
{
    if us.len() > 0 {
        lemma_taken_links_bounded(us.drop_last());
        let prev = taken_links(us.drop_last());
        assert forall|i: int| 0 <= i < taken_links(us).len() implies web_link(#[trigger] taken_links(us)[i]) by {
            if i < prev.len() {
                assert(taken_links(us)[i] == prev[i]);
            }
        }
    }
}

/// Every link an add request is answered with is a web link.
pub proof fn lemma_added_links_are_web_links(req: RequestView, port: u16, add: Option<AddBody>)
    ensures
        routed(req, port, add).1 matches Some(l) ==> forall|i: int|
            0 <= i < l.urls.len() ==> web_link(#[trigger] l.urls[i]),
{
    if let Some(b) = add {
        lemma_taken_links_bounded(body_links(b));
    }
}

} // verus!
