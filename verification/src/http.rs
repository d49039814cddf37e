//! HTTP/1.1 transport for the JSON-RPC service.
//!
//! * `POST /` (any path) carries the JSON-RPC document as its body,
//! * `GET /?request=<json>` carries it in the `request` query parameter, which
//!   is read when the body is empty,
//! * a JSONP `?callback=<name>` wraps the response as `name(<json>)` with
//!   `Content-Type: text/javascript`; otherwise it is `application/json`,
//! * `HEAD` answers with the headers only, any other method with
//!   `405 Method Not Allowed`.
//!
//! Connections persist by default; `Connection: close`, and HTTP/1.0 without
//! `keep-alive`, close the connection after the response.

use std::io::Write;

use vstd::prelude::*;
use vstd::slice::*;
use vstd::string::*;
use vstd::utf8::*;

use crate::number;
use crate::request::Request;
use crate::text;
use crate::transport;

verus! {

/// Maximum accepted header block.
pub const MAX_HEADER_BYTES: usize = 16384;

/// Below this uncompressed size a response is not compressed.
pub const COMPRESSION_THRESHOLD: usize = 1000;

/// An HTTP request: its head and its body.
#[derive(Debug, Clone)]
pub struct HttpRequest {
    pub method: String,
    pub path: String,
    pub version: String,
    /// The header lines, without the terminating blank line.
    pub headers: String,
    /// The query string of the request target, without the leading `?`.
    pub query: String,
    pub body: Vec<u8>,
}

/// Why a request cannot be read.
#[derive(Debug, PartialEq, Eq)]
pub enum HttpError {
    /// The connection closed between two requests.
    Eof,
    /// A protocol error; the peer is answered with `400`.
    Bad(&'static str),
}

/// What an [`HttpError`] holds.
pub enum HttpFault {
    Eof,
    Bad(Seq<char>),
}

impl View for HttpError {
    type V = HttpFault;

    open spec fn view(&self) -> HttpFault {
        match self {
            HttpError::Eof => HttpFault::Eof,
            HttpError::Bad(message) => HttpFault::Bad(message@),
        }
    }
}

// ---------------------------------------------------------------------
// headers and query
// ---------------------------------------------------------------------

/// The value of the first header with the given lower case name at or after
/// line `i`.
pub open spec fn first_header(lines: Seq<Seq<char>>, name: Seq<char>, i: int) -> Option<Seq<char>>
    decreases lines.len() - i,
{
    if i < 0 || i >= lines.len() {
        None
    } else if transport::is_header(lines[i], name) {
        Some(text::trim(transport::header_text(lines[i])))
    } else {
        first_header(lines, name, i + 1)
    }
}

/// Case-insensitive header lookup: the first match in a raw header block.
pub fn header_value(headers: &str, name: &str) -> (r: Option<String>)
    ensures
        text::opt_text(r) == first_header(text::lines(headers@), text::lower(name@), 0),
{
    let chars = text::chars_of(headers);
    let lines = text::lines_of(chars.as_slice());
    let mut i: usize = 0;
    while i < lines.len()
        invariant
            i <= lines@.len(),
            text::views(lines@) == text::lines(headers@),
            first_header(text::lines(headers@), text::lower(name@), 0) == first_header(
                text::lines(headers@),
                text::lower(name@),
                i as int,
            ),
        decreases lines@.len() - i,
    {
        let line = lines[i].as_slice();
        assert(text::views(lines@)[i as int] == line@);
        if let Some((key, value)) = text::cut_at(line, ':') {
            if text::same_ignoring_case(text::trimmed(key), name) {
                return Some(text::text_of(text::trimmed(value)));
            }
        }
        i = i + 1;
    }
    None
}

/// The value of a hexadecimal digit.
pub open spec fn hex_value(b: u8) -> Option<int> {
    if 48 <= b <= 57 {
        Some(b - 48)
    } else if 65 <= b <= 70 {
        Some(b - 55)
    } else if 97 <= b <= 102 {
        Some(b - 87)
    } else {
        None
    }
}

/// The byte that two hexadecimal digits write.
pub open spec fn hex_byte(a: u8, b: u8) -> Option<int> {
    match (hex_value(a), hex_value(b)) {
        (Some(high), Some(low)) => Some(16 * high + low),
        _ => None,
    }
}

/// The bytes that the form encoding `s` stands for from position `i` on: `+`
/// is a space, `%XX` a byte, and every other byte itself.
pub open spec fn unescaped(s: Seq<u8>, i: int) -> Seq<u8>
    decreases s.len() - i,
{
    if i < 0 || i >= s.len() {
        Seq::empty()
    } else if s[i] == 43 {
        seq![32u8] + unescaped(s, i + 1)
    } else if s[i] == 37 && i + 2 < s.len() && hex_byte(s[i + 1], s[i + 2]) is Some {
        seq![hex_byte(s[i + 1], s[i + 2])->0 as u8] + unescaped(s, i + 3)
    } else {
        seq![s[i]] + unescaped(s, i + 1)
    }
}

/// The text that a form encoded value stands for.
pub open spec fn form_text(value: Seq<char>) -> Seq<char> {
    text::lossy(unescaped(encode_utf8(value), 0))
}

fn hex_digit(b: u8) -> (r: Option<u8>)
    ensures
        r matches Some(v) ==> hex_value(b) == Some(v as int) && v < 16,
        r is None ==> hex_value(b) is None,
{
    if 48 <= b && b <= 57 {
        Some(b - 48)
    } else if 65 <= b && b <= 70 {
        Some(b - 55)
    } else if 97 <= b && b <= 102 {
        Some(b - 87)
    } else {
        None
    }
}

fn escaped_byte(a: u8, b: u8) -> (r: Option<u8>)
    ensures
        r matches Some(v) ==> hex_byte(a, b) == Some(v as int),
        r is None ==> hex_byte(a, b) is None,
{
    match (hex_digit(a), hex_digit(b)) {
        (Some(high), Some(low)) => Some(16 * high + low),
        _ => None,
    }
}

/// Undo the form encoding of a byte string.
pub fn percent_decode_bytes(bytes: &[u8]) -> (r: Vec<u8>)
    ensures
        r@ == unescaped(bytes@, 0),
{
    let mut out: Vec<u8> = Vec::new();
    let mut i: usize = 0;
    while i < bytes.len()
        invariant
            i <= bytes@.len(),
            out@ + unescaped(bytes@, i as int) == unescaped(bytes@, 0),
        decreases bytes@.len() - i,
    {
        let ghost before = out@;
        if bytes[i] == 43 {
            out.push(32);
            assert(before + unescaped(bytes@, i as int) =~= out@ + unescaped(bytes@, i + 1));
            i = i + 1;
        } else {
            let decoded = if bytes[i] == 37 && bytes.len() - i > 2 {
                escaped_byte(bytes[i + 1], bytes[i + 2])
            } else {
                None
            };
            match decoded {
                Some(byte) => {
                    out.push(byte);
                    assert(before + unescaped(bytes@, i as int) =~= out@ + unescaped(bytes@, i + 3));
                    i = i + 3;
                },
                None => {
                    out.push(bytes[i]);
                    assert(before + unescaped(bytes@, i as int) =~= out@ + unescaped(bytes@, i + 1));
                    i = i + 1;
                },
            }
        }
    }
    assert(out@ + unescaped(bytes@, i as int) =~= out@);
    out
}

/// Decode an `application/x-www-form-urlencoded` value.
pub fn percent_decode(input: &str) -> (r: String)
    ensures
        r@ == form_text(input@),
        valid_utf8(unescaped(encode_utf8(input@), 0)) ==> r@ == decode_utf8(unescaped(encode_utf8(input@), 0)),
{
    let bytes: Vec<u8> = input.as_bytes_vec();
    let decoded = percent_decode_bytes(bytes.as_slice());
    text::lossy_text(decoded.as_slice())
}

/// The value of the query parameter `name` in the pairs at or after `i`: the
/// text behind the equals sign, or nothing for a bare name.
pub open spec fn query_value(pairs: Seq<Seq<char>>, name: Seq<char>, i: int) -> Option<Seq<char>>
    decreases pairs.len() - i,
{
    if i < 0 || i >= pairs.len() {
        None
    } else {
        match text::cut(pairs[i], '=') {
            Some((key, value)) => if key == name {
                Some(value)
            } else {
                query_value(pairs, name, i + 1)
            },
            None => if pairs[i] == name {
                Some(Seq::empty())
            } else {
                query_value(pairs, name, i + 1)
            },
        }
    }
}

/// The encoded value of a query parameter.
pub fn raw_query_param(query: &str, name: &str) -> (r: Option<String>)
    ensures
        text::opt_text(r) == query_value(text::pieces(query@, '&'), name@, 0),
{
    let chars = text::chars_of(query);
    let pairs = text::pieces_of(chars.as_slice(), '&');
    let mut i: usize = 0;
    while i < pairs.len()
        invariant
            i <= pairs@.len(),
            text::views(pairs@) == text::pieces(query@, '&'),
            query_value(text::pieces(query@, '&'), name@, 0) == query_value(
                text::pieces(query@, '&'),
                name@,
                i as int,
            ),
        decreases pairs@.len() - i,
    {
        let pair = pairs[i].as_slice();
        assert(text::views(pairs@)[i as int] == pair@);
        match text::cut_at(pair, '=') {
            Some((key, value)) => {
                if text::is_text(key, name) {
                    return Some(text::text_of(value));
                }
            },
            None => {
                if text::is_text(pair, name) {
                    let empty = String::new();
                    assert(empty@ =~= Seq::<char>::empty());
                    return Some(empty);
                }
            },
        }
        i = i + 1;
    }
    None
}

/// The value of the query parameter `name`, decoded.
pub open spec fn decoded_param(query: Seq<char>, name: Seq<char>) -> Option<Seq<char>> {
    match query_value(text::pieces(query, '&'), name, 0) {
        Some(value) => Some(form_text(value)),
        None => None,
    }
}

/// Extract a query parameter value (`a=1&b=2`).
pub fn query_param(query: &str, name: &str) -> (r: Option<String>)
    ensures
        text::opt_text(r) == decoded_param(query@, name@),
        match query_value(text::pieces(query@, '&'), name@, 0) {
            Some(value) => valid_utf8(unescaped(encode_utf8(value), 0)) ==> text::opt_text(r) == Some(
                decode_utf8(unescaped(encode_utf8(value), 0)),
            ),
            None => true,
        },
{
    match raw_query_param(query, name) {
        Some(value) => Some(percent_decode(value.as_str())),
        None => None,
    }
}

// ---------------------------------------------------------------------
// reading a request
// ---------------------------------------------------------------------

/// The head of a request while it is being read.
#[derive(Debug)]
pub struct RequestHead {
    pub method: String,
    pub target: String,
    pub version: String,
    pub headers: String,
}

/// The first three words of a line: the method, the target and the version.
/// The version reaches to the end of the line.
pub open spec fn line_words(s: Seq<char>) -> (Seq<char>, Seq<char>, Seq<char>) {
    match text::cut(s, ' ') {
        None => (s, Seq::empty(), "HTTP/1.1"@),
        Some((method, rest)) => match text::cut(rest, ' ') {
            None => (method, rest, "HTTP/1.1"@),
            Some((target, version)) => (method, target, version),
        },
    }
}

/// What a request line holds; an empty line is the end of the stream.
pub open spec fn request_words(line: Seq<char>) -> Result<(Seq<char>, Seq<char>, Seq<char>), HttpFault> {
    let words = line_words(text::trim_end(line));
    if line.len() == 0 {
        Err(HttpFault::Eof)
    } else if words.0.len() == 0 || words.1.len() == 0 {
        Err(HttpFault::Bad("malformed request line"@))
    } else {
        Ok(words)
    }
}

/// What a header line leads to, after the lines `headers`: the end of the head
/// or another line.
pub open spec fn after_line(headers: Seq<char>, line: Seq<char>) -> Result<bool, HttpFault> {
    if line.len() == 0 {
        Err(HttpFault::Bad("EOF in headers"@))
    } else if encode_utf8(headers).len() + encode_utf8(line).len() > MAX_HEADER_BYTES {
        Err(HttpFault::Bad("headers too large"@))
    } else {
        Ok(line == "\r\n"@ || line == "\n"@)
    }
}

/// The length of the body that follows the header lines: zero when none, or
/// none that is a number, is declared.
pub open spec fn body_length(headers: Seq<char>) -> Result<int, HttpFault> {
    let declared = match first_header(text::lines(headers), text::lower("content-length"@), 0) {
        Some(value) => number::within(number::unsigned_value(text::trim(value)), 0, usize::MAX as int),
        None => None,
    };
    let n = match declared {
        Some(n) => n,
        None => 0,
    };
    if n > transport::MAX_BODY_BYTES {
        Err(HttpFault::Bad("body too large"@))
    } else {
        Ok(n)
    }
}

/// The path and the query of a request target.
pub open spec fn target_parts(target: Seq<char>) -> (Seq<char>, Seq<char>) {
    match text::cut(target, '?') {
        Some(parts) => parts,
        None => (target, Seq::empty()),
    }
}

fn empty_text() -> (r: String)
    ensures
        r@ == Seq::<char>::empty(),
{
    let r = String::new();
    assert(r@ =~= Seq::<char>::empty());
    r
}

impl RequestHead {
    /// Read the request line, with its line end.  An empty line means that the
    /// stream has ended.
    pub fn start(line: &str) -> (r: Result<RequestHead, HttpError>)
        ensures
            match request_words(line@) {
                Ok(words) => r matches Ok(head) && {
                    &&& head.method@ == words.0
                    &&& head.target@ == words.1
                    &&& head.version@ == words.2
                    &&& head.headers@ == Seq::<char>::empty()
                },
                Err(e) => r matches Err(f) && f@ == e,
            },
    {
        let chars = text::chars_of(line);
        if chars.len() == 0 {
            return Err(HttpError::Eof);
        }
        let trimmed = text::trimmed_end(chars.as_slice());
        let (method, target, version) = match text::cut_at(trimmed, ' ') {
            None => (text::text_of(trimmed), empty_text(), String::from_str("HTTP/1.1")),
            Some((method, rest)) => match text::cut_at(rest, ' ') {
                None => (text::text_of(method), text::text_of(rest), String::from_str("HTTP/1.1")),
                Some((target, version)) => (text::text_of(method), text::text_of(target), text::text_of(version)),
            },
        };
        if method.as_str().is_empty() || target.as_str().is_empty() {
            return Err(HttpError::Bad("malformed request line"));
        }
        Ok(RequestHead { method, target, version, headers: empty_text() })
    }

    /// Take in a header line, with its line end.  The head is complete after an
    /// empty line.
    pub fn push_line(&mut self, line: &str) -> (r: Result<bool, HttpError>)
        ensures
            match after_line(old(self).headers@, line@) {
                Ok(complete) => r == Ok::<bool, HttpError>(complete),
                Err(e) => r matches Err(f) && f@ == e,
            },
            final(self).method == old(self).method,
            final(self).target == old(self).target,
            final(self).version == old(self).version,
            final(self).headers@ == (if r == Ok::<bool, HttpError>(false) {
                old(self).headers@ + line@
            } else {
                old(self).headers@
            }),
    {
        if line.is_empty() {
            return Err(HttpError::Bad("EOF in headers"));
        }
        let held: usize = self.headers.as_str().as_bytes().len();
        let more: usize = line.as_bytes().len();
        if held > MAX_HEADER_BYTES || more > MAX_HEADER_BYTES - held {
            return Err(HttpError::Bad("headers too large"));
        }
        if text::same_text(line, "\r\n") || text::same_text(line, "\n") {
            return Ok(true);
        }
        self.headers.append(line);
        Ok(false)
    }

    /// The length of the body that follows.
    pub fn content_length(&self) -> (r: Result<usize, HttpError>)
        ensures
            match body_length(self.headers@) {
                Ok(n) => r == Ok::<usize, HttpError>(n as usize) && n <= transport::MAX_BODY_BYTES,
                Err(e) => r matches Err(f) && f@ == e,
            },
    {
        let declared: Option<u64> = match header_value(self.headers.as_str(), "content-length") {
            Some(value) => {
                let chars = text::chars_of(value.as_str());
                number::parse_unsigned(text::trimmed(chars.as_slice()), usize::MAX as u64)
            },
            None => None,
        };
        let n: usize = match declared {
            Some(n) => n as usize,
            None => 0,
        };
        if n > transport::MAX_BODY_BYTES {
            return Err(HttpError::Bad("body too large"));
        }
        Ok(n)
    }

    /// The request with the given body.
    pub fn finish(self, body: Vec<u8>) -> (r: HttpRequest)
        ensures
            r.method@ == self.method@,
            r.version@ == self.version@,
            r.headers@ == self.headers@,
            (r.path@, r.query@) == target_parts(self.target@),
            r.body == body,
    {
        let chars = text::chars_of(self.target.as_str());
        let (path, query) = match text::cut_at(chars.as_slice(), '?') {
            Some((path, query)) => (text::text_of(path), text::text_of(query)),
            None => (text::text_of(chars.as_slice()), empty_text()),
        };
        HttpRequest { method: self.method, path, version: self.version, headers: self.headers, query, body }
    }
}

/// Whether the connection stays open after the response to a request with the
/// given version and header lines.
pub open spec fn stays_open(version: Seq<char>, headers: Seq<char>) -> bool {
    let connection = match first_header(text::lines(headers), text::lower("connection"@), 0) {
        Some(value) => Some(text::lower(value)),
        None => None,
    };
    if connection == Some("close"@) {
        false
    } else if connection == Some("keep-alive"@) {
        true
    } else {
        text::lower(version) != text::lower("HTTP/1.0"@)
    }
}

/// Whether the connection should be kept alive after the response.
pub fn wants_keep_alive(req: &HttpRequest) -> (r: bool)
    ensures
        r == stays_open(req.version@, req.headers@),
{
    if let Some(value) = header_value(req.headers.as_str(), "connection") {
        let chars = text::chars_of(value.as_str());
        let lower = text::to_lower(chars.as_slice());
        if text::is_text(lower.as_slice(), "close") {
            return false;
        }
        if text::is_text(lower.as_slice(), "keep-alive") {
            return true;
        }
    }
    let version = text::chars_of(req.version.as_str());
    !text::same_ignoring_case(version.as_slice(), "HTTP/1.0")
}

// ---------------------------------------------------------------------
// writing a response
// ---------------------------------------------------------------------

/// The gzip container that holds the given bytes.
pub uninterp spec fn gzipped(body: Seq<u8>) -> Option<Seq<u8>>;

/// `flate2::write::GzEncoder` at the default compression level: all of `body`
/// is written to it, then it is finished.  The container is a function of the
/// bytes (it carries no time stamp and no name) and starts with the gzip magic
/// number; its deflate stream is left unsaid.
#[verifier::external_body]
pub(crate) fn gzip_encode(body: &[u8]) -> (r: Option<Vec<u8>>)
    ensures
        r matches Some(v) ==> gzipped(body@) == Some(v@) && v@.len() > 2 && v@[0] == 0x1f && v@[1] == 0x8b,
        r is None ==> gzipped(body@) is None,
{
    let mut encoder = flate2::write::GzEncoder::new(Vec::new(), flate2::Compression::default());
    encoder.write_all(body).ok()?;
    encoder.finish().ok()
}

/// The content encoding and the bytes of a payload: gzip when the client
/// accepts it and the payload is not small.
pub open spec fn encoded(payload: Seq<u8>, accepts_gzip: bool) -> (Option<Seq<char>>, Seq<u8>) {
    if accepts_gzip && payload.len() >= COMPRESSION_THRESHOLD && gzipped(payload) is Some {
        (Some("gzip"@), gzipped(payload)->0)
    } else {
        (None, payload)
    }
}

/// The characters of an optional content encoding.
pub open spec fn encoding_name(encoding: Option<&'static str>) -> Option<Seq<char>> {
    match encoding {
        Some(name) => Some(name@),
        None => None,
    }
}

/// Apply a compression result: the compressed payload, or the payload itself
/// when there is none.
pub fn choose_body(payload: Vec<u8>, compressed: Option<Vec<u8>>) -> (r: (Option<&'static str>, Vec<u8>))
    ensures
        match compressed {
            Some(v) => encoding_name(r.0) == Some("gzip"@) && r.1 == v,
            None => r.0 is None && r.1 == payload,
        },
{
    match compressed {
        Some(v) => (Some("gzip"), v),
        None => (None, payload),
    }
}

/// Apply the compression policy to a response payload.
pub fn encode_body(payload: Vec<u8>, accepts_gzip: bool) -> (r: (Option<&'static str>, Vec<u8>))
    ensures
        (encoding_name(r.0), r.1@) == encoded(payload@, accepts_gzip),
        r.0 is Some ==> accepts_gzip && payload@.len() >= COMPRESSION_THRESHOLD,
{
    if accepts_gzip && payload.len() >= COMPRESSION_THRESHOLD {
        let compressed = gzip_encode(payload.as_slice());
        choose_body(payload, compressed)
    } else {
        choose_body(payload, None)
    }
}

/// The head of a response.
pub open spec fn response_head(
    status: Seq<char>,
    content_type: Seq<char>,
    length: nat,
    encoding: Option<Seq<char>>,
    keep_alive: bool,
) -> Seq<char> {
    "HTTP/1.1 "@ + status + "\r\nContent-Type: "@ + content_type + "\r\n"@ + (match encoding {
        Some(name) => "Content-Encoding: "@ + name + "\r\n"@,
        None => Seq::empty(),
    }) + "Content-Length: "@ + number::decimal(length) + "\r\nConnection: "@ + (if keep_alive {
        "keep-alive"@
    } else {
        "close"@
    }) + "\r\n\r\n"@
}

/// The bytes of a response.
pub open spec fn response_bytes(
    status: Seq<char>,
    content_type: Seq<char>,
    body: Seq<u8>,
    encoding: Option<Seq<char>>,
    keep_alive: bool,
    include_body: bool,
) -> Seq<u8> {
    encode_utf8(response_head(status, content_type, body.len(), encoding, keep_alive)) + (if include_body {
        body
    } else {
        Seq::empty()
    })
}

/// Build the response bytes for a body.
pub fn build_response(
    status: &str,
    content_type: &str,
    body: &[u8],
    content_encoding: Option<&'static str>,
    keep_alive: bool,
    include_body: bool,
) -> (r: Vec<u8>)
    ensures
        r@ == response_bytes(
            status@,
            content_type@,
            body@,
            encoding_name(content_encoding),
            keep_alive,
            include_body,
        ),
{
    let mut head = String::from_str("HTTP/1.1 ");
    head.append(status);
    head.append("\r\nContent-Type: ");
    head.append(content_type);
    head.append("\r\n");
    let mut encoding = empty_text();
    if let Some(name) = content_encoding {
        encoding = String::from_str("Content-Encoding: ");
        encoding.append(name);
        encoding.append("\r\n");
    }
    head.append(encoding.as_str());
    head.append("Content-Length: ");
    number::push_decimal(&mut head, body.len() as u64);
    head.append("\r\nConnection: ");
    head.append(
        if keep_alive {
            "keep-alive"
        } else {
            "close"
        },
    );
    head.append("\r\n\r\n");
    assert(head@ == response_head(
        status@,
        content_type@,
        body@.len(),
        encoding_name(content_encoding),
        keep_alive,
    ));
    let mut out: Vec<u8> = head.as_str().as_bytes_vec();
    if include_body {
        out.extend_from_slice(body);
    }
    assert(out@ =~= response_bytes(
        status@,
        content_type@,
        body@,
        encoding_name(content_encoding),
        keep_alive,
        include_body,
    ));
    out
}

/// The response to a request that cannot be read; the connection is closed.
pub fn bad_request(message: &str) -> (r: Vec<u8>)
    ensures
        r@ == response_bytes(
            "400 Bad Request"@,
            "application/json"@,
            encode_utf8("{\"error\":\""@ + message@ + "\"}"@),
            None,
            false,
            true,
        ),
{
    let body = String::from_str("{\"error\":\"").concat(message).concat("\"}");
    let bytes: Vec<u8> = body.as_str().as_bytes_vec();
    build_response("400 Bad Request", "application/json", bytes.as_slice(), None, false, true)
}

/// A request that is dispatched.
#[derive(Debug)]
pub struct Exchange {
    /// The JSON-RPC document.
    pub content: String,
    /// The JSONP callback.
    pub callback: Option<String>,
    pub keep_alive: bool,
    /// Whether the response has no body.
    pub head_only: bool,
}

/// How a request is handled.
#[derive(Debug)]
pub enum Handling {
    /// Send a response without dispatching.
    Reject { response: Vec<u8>, keep_alive: bool },
    /// Dispatch the document, then respond.
    Dispatch(Exchange, Request),
}

/// Whether a method is supported.
pub open spec fn is_supported(method: Seq<char>) -> bool {
    method == "POST"@ || method == "GET"@ || method == "HEAD"@
}

/// The document that a request carries.
pub open spec fn carried_document(body: Seq<u8>, query: Seq<char>) -> Seq<char> {
    if body.len() > 0 {
        text::lossy(body)
    } else {
        match decoded_param(query, "request"@) {
            Some(document) => document,
            None => Seq::empty(),
        }
    }
}

/// Decide how to handle a request from the given peer.
pub fn accept(request: &HttpRequest, peer_ip: Option<String>) -> (r: Handling)
    ensures
        if is_supported(request.method@) {
            r matches Handling::Dispatch(exchange, service_request) && {
                &&& exchange.content@ == carried_document(request.body@, request.query@)
                &&& text::opt_text(exchange.callback) == decoded_param(request.query@, "callback"@)
                &&& exchange.keep_alive == stays_open(request.version@, request.headers@)
                &&& exchange.head_only == (request.method@ == "HEAD"@)
                &&& transport::carries_headers(
                    service_request,
                    text::lines(request.headers@),
                    text::opt_text(peer_ip),
                )
            }
        } else {
            r matches Handling::Reject { response, keep_alive } && {
                &&& keep_alive == stays_open(request.version@, request.headers@)
                &&& response@ == response_bytes(
                    "405 Method Not Allowed"@,
                    "application/json"@,
                    encode_utf8("{\"error\":\"method not allowed\"}"@),
                    None,
                    keep_alive,
                    true,
                )
            }
        },
{
    let keep_alive = wants_keep_alive(request);
    let method = request.method.as_str();
    let head_only = text::same_text(method, "HEAD");
    if !text::same_text(method, "POST") && !text::same_text(method, "GET") && !head_only {
        let body: Vec<u8> = "{\"error\":\"method not allowed\"}".as_bytes_vec();
        let response = build_response(
            "405 Method Not Allowed",
            "application/json",
            body.as_slice(),
            None,
            keep_alive,
            true,
        );
        return Handling::Reject { response, keep_alive };
    }
    let content = if request.body.len() > 0 {
        text::lossy_text(request.body.as_slice())
    } else {
        match query_param(request.query.as_str(), "request") {
            Some(document) => document,
            None => empty_text(),
        }
    };
    let callback = query_param(request.query.as_str(), "callback");
    let service_request = transport::request_from_headers(request.headers.as_str(), peer_ip);
    Handling::Dispatch(Exchange { content, callback, keep_alive, head_only }, service_request)
}

/// The content type and the text of a response document: wrapped by a callback
/// that is not empty.
pub open spec fn rendered(callback: Option<Seq<char>>, document: Seq<char>) -> (Seq<char>, Seq<char>) {
    match callback {
        Some(name) => if name.len() > 0 {
            ("text/javascript"@, name + "("@ + document + ")"@)
        } else {
            ("application/json"@, document)
        },
        None => ("application/json"@, document),
    }
}

/// The response to a dispatched request, given the response document and the
/// request as the dispatch left it.
pub fn respond(exchange: &Exchange, document: &str, request: &Request) -> (r: Vec<u8>)
    ensures
        ({
            let text = rendered(text::opt_text(exchange.callback), document@);
            let body = encoded(encode_utf8(text.1), request.gzip_allowed());
            r@ == response_bytes("200 OK"@, text.0, body.1, body.0, exchange.keep_alive, !exchange.head_only)
        }),
{
    let mut content_type = "application/json";
    let mut payload: Vec<u8> = document.as_bytes_vec();
    if let Some(name) = &exchange.callback {
        if !name.as_str().is_empty() {
            content_type = "text/javascript";
            let wrapped = name.clone().concat("(").concat(document).concat(")");
            payload = wrapped.as_str().as_bytes_vec();
        }
    }
    let (encoding, body) = encode_body(payload, request.accepts_gzip());
    build_response("200 OK", content_type, body.as_slice(), encoding, exchange.keep_alive, !exchange.head_only)
}

// ---------------------------------------------------------------------
// laws
// ---------------------------------------------------------------------

/// A response without its body has the head of the full response, so it
/// advertises the length of the body that it omits.
pub proof fn head_response_is_the_full_head(
    status: Seq<char>,
    content_type: Seq<char>,
    body: Seq<u8>,
    encoding: Option<Seq<char>>,
    keep_alive: bool,
)
    ensures
        response_bytes(status, content_type, body, encoding, keep_alive, true) == response_bytes(
            status,
            content_type,
            body,
            encoding,
            keep_alive,
            false,
        ) + body,
{
    let head = encode_utf8(response_head(status, content_type, body.len(), encoding, keep_alive));
    assert(head + Seq::<u8>::empty() =~= head);
}

/// Small responses, and responses to clients that do not accept gzip, are not
/// compressed.
pub proof fn only_large_accepted_responses_are_compressed(payload: Seq<u8>, accepts_gzip: bool)
    ensures
        encoded(payload, accepts_gzip).0 is Some ==> accepts_gzip && payload.len() >= COMPRESSION_THRESHOLD,
        encoded(payload, accepts_gzip).0 is None ==> encoded(payload, accepts_gzip).1 == payload,
{
}

/// The hexadecimal digit of a value below sixteen.
pub open spec fn hex_digit_of(v: int) -> u8 {
    if v < 10 {
        (48 + v) as u8
    } else {
        (55 + v) as u8
    }
}

/// Every byte written as a percent sign and two hexadecimal digits.
pub open spec fn escaped(bytes: Seq<u8>) -> Seq<u8>
    decreases bytes.len(),
{
    if bytes.len() == 0 {
        Seq::empty()
    } else {
        seq![37u8, hex_digit_of(bytes[0] as int / 16), hex_digit_of(bytes[0] as int % 16)] + escaped(
            bytes.drop_first(),
        )
    }
}

proof fn lemma_unescaped_tail(s: Seq<u8>, head: Seq<u8>, i: int)
    requires
        0 <= i,
    ensures
        unescaped(head + s, head.len() + i) == unescaped(s, i),
    decreases s.len() - i,
{
    let t = head + s;
    let k = head.len() + i;
    if i < s.len() {
        assert(t[k] == s[i]);
        if i + 2 < s.len() {
            assert(t[k + 1] == s[i + 1]);
            assert(t[k + 2] == s[i + 2]);
        }
        lemma_unescaped_tail(s, head, i + 1);
        if i + 3 <= s.len() {
            lemma_unescaped_tail(s, head, i + 3);
        }
    }
}

/// Decoding undoes percent encoding.
pub proof fn decoding_undoes_percent_encoding(bytes: Seq<u8>)
    ensures
        unescaped(escaped(bytes), 0) == bytes,
    decreases bytes.len(),
{
    if bytes.len() > 0 {
        let rest = escaped(bytes.drop_first());
        let head = seq![37u8, hex_digit_of(bytes[0] as int / 16), hex_digit_of(bytes[0] as int % 16)];
        decoding_undoes_percent_encoding(bytes.drop_first());
        lemma_unescaped_tail(rest, head, 0);
        let s = head + rest;
        assert(s[0] == 37 && s[1] == head[1] && s[2] == head[2]);
        assert(16 * (bytes[0] as int / 16) + bytes[0] as int % 16 == bytes[0]);
        assert(unescaped(s, 0) =~= seq![bytes[0]] + unescaped(s, 3));
        assert(bytes =~= seq![bytes[0]] + bytes.drop_first());
    } else {
        assert(unescaped(escaped(bytes), 0) =~= bytes);
    }
}

/// A byte that is neither a plus nor a percent sign stands for itself, a plus
/// for a space, and a percent sign with two digits, in either case, for the
/// byte that they write; what follows is read on its own.
pub proof fn each_byte_stands_for_itself(b: u8, high: int, low: int, rest: Seq<u8>)
    requires
        b != 43 && b != 37,
        0 <= high < 16,
        0 <= low < 16,
    ensures
        unescaped(seq![b] + rest, 0) == seq![b] + unescaped(rest, 0),
        unescaped(seq![43u8] + rest, 0) == seq![32u8] + unescaped(rest, 0),
        unescaped(seq![37u8, hex_digit_of(high), hex_digit_of(low)] + rest, 0) == seq![(high * 16 + low) as u8]
            + unescaped(rest, 0),
        low >= 10 ==> unescaped(seq![37u8, hex_digit_of(high), (87 + low) as u8] + rest, 0) == seq![
            (high * 16 + low) as u8,
        ] + unescaped(rest, 0),
        unescaped(Seq::empty(), 0).len() == 0,
        hex_digit_of(9) == 57,
        hex_digit_of(10) == 65,
{
    lemma_unescaped_tail(rest, seq![b], 0);
    lemma_unescaped_tail(rest, seq![43u8], 0);
    let upper = seq![37u8, hex_digit_of(high), hex_digit_of(low)];
    lemma_unescaped_tail(rest, upper, 0);
    let s = upper + rest;
    assert(s[0] == 37 && s[1] == upper[1] && s[2] == upper[2]);
    assert(16 * high + low == high * 16 + low);
    if low >= 10 {
        let small = seq![37u8, hex_digit_of(high), (87 + low) as u8];
        lemma_unescaped_tail(rest, small, 0);
        let t = small + rest;
        assert(t[0] == 37 && t[1] == small[1] && t[2] == small[2]);
    }
}

proof fn lemma_query_value(pairs: Seq<Seq<char>>, name: Seq<char>, i: int, k: int)
    requires
        0 <= i <= k < pairs.len(),
        forall|j: int| i <= j < k ==> !is_pair_of(#[trigger] pairs[j], name),
    ensures
        query_value(pairs, name, i) == query_value(pairs, name, k),
    decreases k - i,
{
    if i < k {
        assert(!is_pair_of(pairs[i], name));
        let key = pairs[i].take(text::first_from(pairs[i], '=', 0));
        text::lemma_first_from(pairs[i], '=', 0);
        if pairs[i] == name {
            assert(key =~= pairs[i] || text::first_from(pairs[i], '=', 0) < pairs[i].len());
        }
        lemma_query_value(pairs, name, i + 1, k);
    }
}

/// Whether a part of a query is a pair of `name`: the name alone, or the name,
/// an equals sign and a value.
pub open spec fn is_pair_of(pair: Seq<char>, name: Seq<char>) -> bool {
    pair.take(text::first_from(pair, '=', 0)) == name
}

/// The first pair of a name gives its value, wherever it stands in the query.
pub proof fn parameters_are_found_by_name(pairs: Seq<Seq<char>>, k: int, name: Seq<char>, value: Seq<char>)
    requires
        0 <= k < pairs.len(),
        forall|i: int| 0 <= i < pairs.len() ==> !(#[trigger] pairs[i]).contains('&'),
        forall|i: int| 0 <= i < k ==> !is_pair_of(#[trigger] pairs[i], name),
        !name.contains('='),
    ensures
        pairs[k] == name + seq!['='] + value ==> decoded_param(text::join(pairs, seq!['&']), name) == Some(
            form_text(value),
        ),
        pairs[k] == name ==> decoded_param(text::join(pairs, seq!['&']), name) == Some(form_text(Seq::empty())),
{
    text::lemma_pieces_of_join(pairs, '&', pairs.len() as int);
    assert(pairs.take(pairs.len() as int) =~= pairs);
    lemma_query_value(pairs, name, 0, k);
    text::the_first_separator_cuts(name, '=', value);
}

/// A request line is read as its method, its target and its version; without
/// a version it is HTTP/1.1.
pub proof fn request_lines_read_back(method: Seq<char>, target: Seq<char>, version: Seq<char>)
    requires
        method.len() > 0,
        target.len() > 0,
        version.len() > 0,
        !method.contains(' '),
        !target.contains(' '),
        !text::is_space(target.last()),
        !text::is_space(version.last()),
    ensures
        request_words(method + seq![' '] + target + seq![' '] + version + seq!['\r', '\n']) == Ok::<
            (Seq<char>, Seq<char>, Seq<char>),
            HttpFault,
        >((method, target, version)),
        request_words(method + seq![' '] + target + seq!['\r', '\n']) == Ok::<
            (Seq<char>, Seq<char>, Seq<char>),
            HttpFault,
        >((method, target, "HTTP/1.1"@)),
        request_words(Seq::empty()) == Err::<(Seq<char>, Seq<char>, Seq<char>), HttpFault>(HttpFault::Eof),
        request_words(method + seq!['\r', '\n']) is Err,
{
    let long = method + seq![' '] + target + seq![' '] + version;
    let end = seq!['\r', '\n'];
    text::lemma_trimmed_end(long, end);
    assert(long.last() == version.last());
    assert(long =~= method + seq![' '] + (target + seq![' '] + version));
    text::the_first_separator_cuts(method, ' ', target + seq![' '] + version);
    text::the_first_separator_cuts(target, ' ', version);
    let short = method + seq![' '] + target;
    text::lemma_trimmed_end(short, end);
    assert(short.last() == target.last());
    text::the_first_separator_cuts(method, ' ', target);
    let bare = text::trim_end(method + end);
    lemma_trim_end_takes(method + end);
    assert(!bare.contains(' ')) by {
        if bare.contains(' ') {
            let i = choose|i: int| 0 <= i < bare.len() && bare[i] == ' ';
            assert((method + end)[i] == ' ');
            assert(i < method.len());
            assert(method.contains(method[i]));
        }
    }
    text::the_first_separator_cuts(bare, ' ', target);
}

proof fn lemma_trim_end_takes(s: Seq<char>)
    ensures
        text::trim_end(s).len() <= s.len(),
        forall|i: int| 0 <= i < text::trim_end(s).len() ==> text::trim_end(s)[i] == s[i],
{
    text::lemma_space_start(s, s.len() as int);
}

/// The query stands behind the first question mark of a target.
pub proof fn the_query_stands_behind_the_question_mark(path: Seq<char>, query: Seq<char>)
    requires
        !path.contains('?'),
    ensures
        target_parts(path + seq!['?'] + query) == (path, query),
        target_parts(path) == (path, Seq::<char>::empty()),
{
    text::the_first_separator_cuts(path, '?', query);
}

proof fn lemma_first_header(lines: Seq<Seq<char>>, name: Seq<char>, i: int, k: int)
    requires
        0 <= i <= k <= lines.len(),
        forall|j: int| i <= j < k ==> !transport::is_header(#[trigger] lines[j], name),
    ensures
        first_header(lines, name, i) == first_header(lines, name, k),
    decreases k - i,
{
    if i < k {
        assert(!transport::is_header(lines[i], name));
        lemma_first_header(lines, name, i + 1, k);
    }
}

/// A header is found by its name in any case, and the first one of a name
/// counts.
pub proof fn the_first_header_of_a_name_counts(lines: Seq<Seq<char>>, k: int, name: Seq<char>, value: Seq<char>)
    requires
        0 <= k < lines.len(),
        lines[k] == name + seq![':', ' '] + value,
        name.len() > 0,
        !name.contains(':'),
        !text::is_space(name[0]),
        !text::is_space(name.last()),
        value.len() > 0,
        !text::is_space(value[0]),
        !text::is_space(value.last()),
        forall|i: int| 0 <= i < k ==> !transport::is_header(#[trigger] lines[i], text::lower(name)),
    ensures
        first_header(lines, text::lower(name), 0) == Some(value),
{
    transport::lemma_header_line(name, value);
    assert(transport::is_header(lines[k], text::lower(name)));
    lemma_first_header(lines, text::lower(name), 0, k);
}

/// A `Connection` header decides whether a connection stays open; without one
/// it stays open but for HTTP/1.0.
pub proof fn the_connection_header_decides(version: Seq<char>, headers: Seq<char>)
    ensures
        ({
            let connection = first_header(text::lines(headers), "connection"@, 0);
            &&& connection matches Some(value) ==> (text::lower(value) == "close"@ ==> !stays_open(version, headers))
                && (text::lower(value) == "keep-alive"@ ==> stays_open(version, headers))
            &&& connection is None ==> (stays_open(version, headers) <==> text::lower(version) != "http/1.0"@)
        }),
{
    reveal_strlit("connection");
    reveal_strlit("close");
    reveal_strlit("keep-alive");
    reveal_strlit("HTTP/1.0");
    reveal_strlit("http/1.0");
    assert("close"@.len() == 5 && "keep-alive"@.len() == 10);
    assert("HTTP/1.0"@.len() == 8 && "http/1.0"@.len() == 8);
    assert(text::lower("connection"@) =~= "connection"@);
    assert(text::lower("HTTP/1.0"@) =~= "http/1.0"@);
}

/// The body has the length that the first `Content-Length` header writes, at
/// most 256 MiB; without one, or where it writes no number, there is no body.
pub proof fn the_body_has_its_declared_length(headers: Seq<char>, n: nat)
    requires
        n <= usize::MAX,
    ensures
        ({
            let declared = first_header(text::lines(headers), "content-length"@, 0);
            &&& declared == Some(number::decimal(n)) ==> body_length(headers) == (if n <= 268435456 {
                Ok::<int, HttpFault>(n as int)
            } else {
                Err::<int, HttpFault>(HttpFault::Bad("body too large"@))
            })
            &&& declared is None ==> body_length(headers) == Ok::<int, HttpFault>(0)
        }),
{
    reveal_strlit("content-length");
    assert(text::lower("content-length"@) =~= "content-length"@);
    let digits = number::decimal(n);
    number::lemma_decimal_reads_back(n);
    number::signed_numbers_read_back(n as int);
    assert(number::is_digit(digits[0]) && number::is_digit(digits.last()));
    let none = Seq::<char>::empty();
    assert(none + digits + none =~= digits);
    text::white_space_around_a_text_is_trimmed(none, digits, none);
}

/// A head of more than 16 KiB is refused; within that, an empty line ends it
/// and nothing else does.
pub proof fn an_empty_line_ends_the_head(headers: Seq<char>, line: Seq<char>)
    requires
        line.len() > 0,
    ensures
        encode_utf8(headers).len() + encode_utf8(line).len() > 16384 ==> after_line(headers, line) == Err::<
            bool,
            HttpFault,
        >(HttpFault::Bad("headers too large"@)),
        encode_utf8(headers).len() + encode_utf8(line).len() <= 16384 ==> after_line(headers, line) == Ok::<
            bool,
            HttpFault,
        >(line == seq!['\r', '\n'] || line == seq!['\n']),
{
    reveal_strlit("\r\n");
    reveal_strlit("\n");
    assert("\r\n"@ =~= seq!['\r', '\n']);
    assert("\n"@ =~= seq!['\n']);
}

/// A payload is compressed from 1000 bytes on, for a client that accepts it.
pub proof fn large_payloads_are_compressed(payload: Seq<u8>, accepts_gzip: bool)
    ensures
        payload.len() < 1000 || !accepts_gzip ==> encoded(payload, accepts_gzip) == (None::<Seq<char>>, payload),
        payload.len() >= 1000 && accepts_gzip ==> (gzipped(payload) matches Some(packed) ==> encoded(
            payload,
            accepts_gzip,
        ) == (Some("gzip"@), packed)),
{
}

/// A document is wrapped in a call of the callback, as a script, when there is
/// one with a name; else it stands as it is.
pub proof fn callbacks_wrap_the_document(name: Seq<char>, document: Seq<char>)
    requires
        name.len() > 0,
    ensures
        rendered(Some(name), document).0 == "text/javascript"@,
        rendered(Some(name), document).1 == name + seq!['('] + document + seq![')'],
        rendered(None, document) == ("application/json"@, document),
        rendered(Some(Seq::empty()), document) == ("application/json"@, document),
{
    reveal_strlit("(");
    reveal_strlit(")");
    assert("("@ =~= seq!['(']);
    assert(")"@ =~= seq![')']);
}

/// The body of a request is its document; a request without a body carries it
/// in the query.
pub proof fn the_body_is_the_document(body: Seq<u8>, query: Seq<char>)
    ensures
        body.len() > 0 ==> carried_document(body, query) == text::lossy(body),
        body.len() == 0 ==> (decoded_param(query, "request"@) matches Some(document) ==> carried_document(body, query)
            == document),
        body.len() == 0 && decoded_param(query, "request"@) is None ==> carried_document(body, query).len() == 0,
{
}

proof fn lemma_head_line(line: Seq<char>, rest: Seq<char>)
    requires
        !line.contains('\n'),
        line.len() > 0 ==> line.last() != '\r',
    ensures
        text::lines(line + "\r\n"@ + rest) == seq![line] + text::lines(rest),
{
    reveal_strlit("\r\n");
    assert("\r\n"@ =~= seq!['\r', '\n']);
    text::a_line_ends_at_its_feed(line, rest);
}

/// Whether a text can stand on a header line.
pub open spec fn fits_a_line(s: Seq<char>) -> bool {
    s.len() > 0 && !s.contains('\n') && s.last() != '\r'
}

proof fn lemma_joined_line(a: Seq<char>, b: Seq<char>)
    requires
        !a.contains('\n'),
        fits_a_line(b),
    ensures
        fits_a_line(a + b),
{
    assert((a + b).last() == b.last());
    if (a + b).contains('\n') {
        let i = choose|i: int| 0 <= i < (a + b).len() && (a + b)[i] == '\n';
        if i < a.len() {
            assert(a.contains(a[i]));
        } else {
            assert(b.contains(b[i - a.len()]));
        }
    }
}

proof fn lemma_head_words()
    ensures
        "\r\nContent-Type: "@ == "\r\n"@ + "Content-Type: "@,
        "\r\nConnection: "@ == "\r\n"@ + "Connection: "@,
        "\r\n\r\n"@ == "\r\n"@ + "\r\n"@,
        !"HTTP/1.1 "@.contains('\n'),
        !"Content-Type: "@.contains('\n'),
        !"Content-Encoding: "@.contains('\n'),
        !"Content-Length: "@.contains('\n'),
        !"Connection: "@.contains('\n'),
        fits_a_line("keep-alive"@),
        fits_a_line("close"@),
{
    reveal_strlit("\r\n");
    reveal_strlit("\r\n\r\n");
    assert("\r\n\r\n"@ =~= "\r\n"@ + "\r\n"@);
    assert("\r\nContent-Type: "@ =~= "\r\n"@ + "Content-Type: "@) by {
        reveal_strlit("\r\nContent-Type: ");
        reveal_strlit("Content-Type: ");
    }
    assert("\r\nConnection: "@ =~= "\r\n"@ + "Connection: "@) by {
        reveal_strlit("\r\nConnection: ");
        reveal_strlit("Connection: ");
    }
    assert(!"HTTP/1.1 "@.contains('\n')) by {
        reveal_strlit("HTTP/1.1 ");
    }
    assert(!"Content-Type: "@.contains('\n')) by {
        reveal_strlit("Content-Type: ");
    }
    assert(!"Content-Encoding: "@.contains('\n')) by {
        reveal_strlit("Content-Encoding: ");
    }
    assert(!"Content-Length: "@.contains('\n')) by {
        reveal_strlit("Content-Length: ");
    }
    assert(!"Connection: "@.contains('\n')) by {
        reveal_strlit("Connection: ");
    }
    assert(fits_a_line("keep-alive"@)) by {
        reveal_strlit("keep-alive");
        assert("keep-alive"@.len() == 10);
    }
    assert(fits_a_line("close"@)) by {
        reveal_strlit("close");
        assert("close"@.len() == 5);
    }
}

proof fn lemma_length_digits(length: nat)
    ensures
        fits_a_line(number::decimal(length)),
{
    let digits = number::decimal(length);
    number::lemma_decimal_reads_back(length);
    assert(number::is_digit(digits.last()));
    if digits.contains('\n') {
        let i = choose|i: int| 0 <= i < digits.len() && digits[i] == '\n';
        assert(number::is_digit(digits[i]));
    }
}

proof fn lemma_last_lines(a: Seq<char>, b: Seq<char>)
    requires
        fits_a_line(a),
        fits_a_line(b),
    ensures
        text::lines(a + "\r\n"@ + (b + "\r\n"@ + "\r\n"@)) == seq![a, b, Seq::empty()],
{
    let end = "\r\n"@;
    let none = Seq::<char>::empty();
    lemma_head_line(none, none);
    text::a_line_ends_at_its_feed(none, none);
    assert(none + end + none =~= end);
    assert(text::lines(end) =~= seq![none]);
    lemma_head_line(b, end);
    lemma_head_line(a, b + end + end);
    assert(text::lines(a + end + (b + end + end)) =~= seq![a, b, none]);
}

proof fn lemma_lines_with_encoding(a: Seq<char>, b: Seq<char>, c: Seq<char>, d: Seq<char>, e: Seq<char>)
    requires
        fits_a_line(a),
        fits_a_line(b),
        fits_a_line(c),
        fits_a_line(d),
        fits_a_line(e),
    ensures
        ({
            let end = "\r\n"@;
            text::lines(a + end + (b + end + (c + end + (d + end + (e + end + end))))) == seq![
                a,
                b,
                c,
                d,
                e,
                Seq::empty(),
            ]
        }),
{
    let end = "\r\n"@;
    let rest = d + end + (e + end + end);
    lemma_last_lines(d, e);
    lemma_head_line(c, rest);
    lemma_head_line(b, c + end + rest);
    lemma_head_line(a, b + end + (c + end + rest));
    assert(seq![a] + (seq![b] + (seq![c] + seq![d, e, Seq::empty()])) =~= seq![a, b, c, d, e, Seq::empty()]);
}

proof fn lemma_lines_without_encoding(a: Seq<char>, b: Seq<char>, d: Seq<char>, e: Seq<char>)
    requires
        fits_a_line(a),
        fits_a_line(b),
        fits_a_line(d),
        fits_a_line(e),
    ensures
        ({
            let end = "\r\n"@;
            text::lines(a + end + (b + end + (d + end + (e + end + end)))) == seq![a, b, d, e, Seq::empty()]
        }),
{
    let end = "\r\n"@;
    let rest = d + end + (e + end + end);
    lemma_last_lines(d, e);
    lemma_head_line(b, rest);
    lemma_head_line(a, b + end + rest);
    assert(seq![a] + (seq![b] + seq![d, e, Seq::empty()]) =~= seq![a, b, d, e, Seq::empty()]);
}

proof fn lemma_grouped(
    a: Seq<char>,
    status: Seq<char>,
    end: Seq<char>,
    b: Seq<char>,
    kind: Seq<char>,
    part: Seq<char>,
    c: Seq<char>,
    digits: Seq<char>,
    d: Seq<char>,
    kept: Seq<char>,
)
    ensures
        a + status + (end + b) + kind + end + part + c + digits + (end + d) + kept + (end + end) == (a + status) + end
            + ((b + kind) + end + (part + ((c + digits) + end + ((d + kept) + end + end)))),
{
    let front = a + status + (end + b) + kind + end + part;
    let tail = (c + digits) + end + ((d + kept) + end + end);
    assert(front + c + digits + (end + d) + kept + (end + end) =~= front + tail);
    assert(front + tail =~= (a + status) + end + ((b + kind) + end + (part + tail)));
}

/// The head of a response is its status line, the type, the encoding where
/// there is one, the length of the body in bytes and whether the connection is
/// kept, in this order, and a blank line.
pub proof fn responses_show_their_head(
    status: Seq<char>,
    content_type: Seq<char>,
    length: nat,
    encoding: Option<Seq<char>>,
    keep_alive: bool,
)
    requires
        fits_a_line(status),
        fits_a_line(content_type),
        encoding matches Some(name) ==> fits_a_line(name),
    ensures
        text::lines(response_head(status, content_type, length, encoding, keep_alive)) == seq![
            "HTTP/1.1 "@ + status,
            "Content-Type: "@ + content_type,
        ] + (match encoding {
            Some(name) => seq!["Content-Encoding: "@ + name],
            None => Seq::empty(),
        }) + seq![
            "Content-Length: "@ + number::decimal(length),
            "Connection: "@ + (if keep_alive {
                "keep-alive"@
            } else {
                "close"@
            }),
            Seq::empty(),
        ],
{
    let end = "\r\n"@;
    let digits = number::decimal(length);
    let kept = if keep_alive {
        "keep-alive"@
    } else {
        "close"@
    };
    lemma_head_words();
    lemma_length_digits(length);
    let l1 = "HTTP/1.1 "@ + status;
    let l2 = "Content-Type: "@ + content_type;
    let l4 = "Content-Length: "@ + digits;
    let l5 = "Connection: "@ + kept;
    lemma_joined_line("HTTP/1.1 "@, status);
    lemma_joined_line("Content-Type: "@, content_type);
    lemma_joined_line("Content-Length: "@, digits);
    lemma_joined_line("Connection: "@, kept);
    let part = match encoding {
        Some(name) => "Content-Encoding: "@ + name + end,
        None => Seq::empty(),
    };
    lemma_grouped(
        "HTTP/1.1 "@,
        status,
        end,
        "Content-Type: "@,
        content_type,
        part,
        "Content-Length: "@,
        digits,
        "Connection: "@,
        kept,
    );
    let head = response_head(status, content_type, length, encoding, keep_alive);
    let r4 = l4 + end + (l5 + end + end);
    assert(head == l1 + end + (l2 + end + (part + r4)));
    match encoding {
        Some(name) => {
            lemma_joined_line("Content-Encoding: "@, name);
            lemma_lines_with_encoding(l1, l2, "Content-Encoding: "@ + name, l4, l5);
            assert(seq![l1, l2] + seq!["Content-Encoding: "@ + name] + seq![l4, l5, Seq::empty()] =~= seq![
                l1,
                l2,
                "Content-Encoding: "@ + name,
                l4,
                l5,
                Seq::empty(),
            ]);
        },
        None => {
            assert(part + r4 =~= r4);
            lemma_lines_without_encoding(l1, l2, l4, l5);
            assert(seq![l1, l2] + Seq::<Seq<char>>::empty() + seq![l4, l5, Seq::empty()] =~= seq![
                l1,
                l2,
                l4,
                l5,
                Seq::empty(),
            ]);
        },
    }
}

/// A request is read when it posts or gets a document, or asks for the head of
/// one, and in no other case.
pub proof fn three_methods_are_supported(method: Seq<char>)
    ensures
        is_supported(method) <==> method == seq!['P', 'O', 'S', 'T'] || method == seq!['G', 'E', 'T'] || method == seq![
            'H',
            'E',
            'A',
            'D',
        ],
{
    reveal_strlit("POST");
    reveal_strlit("GET");
    reveal_strlit("HEAD");
    assert("POST"@ =~= seq!['P', 'O', 'S', 'T']);
    assert("GET"@ =~= seq!['G', 'E', 'T']);
    assert("HEAD"@ =~= seq!['H', 'E', 'A', 'D']);
}

} // verus!
