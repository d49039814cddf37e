//! `Content-Length` framing.
//!
//! A frame is a header block, an empty line and a body of exactly the declared
//! length:
//!
//! ```text
//! Content-Length: <n>\r\n\r\n<body of n bytes>
//! ```
//!
//! The header block may carry the HTTP-style headers that the service reads;
//! they become the [`Request`] of the frame.

use vstd::prelude::*;
use vstd::slice::*;
use vstd::string::*;
use vstd::utf8::*;

use crate::number;
use crate::request::Request;
use crate::text;

verus! {

/// Maximum accepted frame header block.
pub const MAX_HEADER_BYTES: usize = 8192;

/// Maximum accepted body (256 MiB).
pub const MAX_BODY_BYTES: usize = 268435456;

// ---------------------------------------------------------------------
// header lines
// ---------------------------------------------------------------------

/// Name and value of a header line: the texts before and after its first
/// colon.
pub open spec fn header_parts(line: Seq<char>) -> Option<(Seq<char>, Seq<char>)> {
    text::cut(line, ':')
}

/// Whether a line is a header with the given lower case name.
pub open spec fn is_header(line: Seq<char>, name: Seq<char>) -> bool {
    header_parts(line) matches Some(parts) && text::lower(text::trim(parts.0)) == name
}

/// The value of a header line.
pub open spec fn header_text(line: Seq<char>) -> Seq<char> {
    header_parts(line).unwrap().1
}

/// What the first `Content-Length` line at or after line `i` declares: the
/// length, or the message of the fault.
pub open spec fn declared_length(lines: Seq<Seq<char>>, i: int) -> Result<int, Seq<char>>
    decreases lines.len() - i,
{
    if i < 0 || i >= lines.len() {
        Err("missing Content-Length header"@)
    } else if is_header(lines[i], text::lower("content-length"@)) {
        match number::within(
            number::unsigned_value(text::trim(header_text(lines[i]))),
            0,
            usize::MAX as int,
        ) {
            Some(n) => Ok(n),
            None => Err("invalid Content-Length: "@ + text::debug_text(header_text(lines[i]))),
        }
    } else {
        declared_length(lines, i + 1)
    }
}

/// Parse the frame headers and return the declared `Content-Length`.
pub fn parse_content_length(headers: &str) -> (r: Result<usize, String>)
    ensures
        r matches Ok(n) ==> declared_length(text::lines(headers@), 0) == Ok::<int, Seq<char>>(n as int),
        r matches Err(e) ==> declared_length(text::lines(headers@), 0) == Err::<int, Seq<char>>(e@),
{
    let chars = text::chars_of(headers);
    let lines = text::lines_of(chars.as_slice());
    let mut i: usize = 0;
    while i < lines.len()
        invariant
            i <= lines@.len(),
            text::views(lines@) == text::lines(headers@),
            declared_length(text::lines(headers@), 0) == declared_length(text::lines(headers@), i as int),
        decreases lines@.len() - i,
    {
        let line = lines[i].as_slice();
        assert(text::views(lines@)[i as int] == line@);
        if let Some((name, value)) = text::cut_at(line, ':') {
            if text::same_ignoring_case(text::trimmed(name), "content-length") {
                return match number::parse_unsigned(text::trimmed(value), usize::MAX as u64) {
                    Some(n) => Ok(n as usize),
                    None => {
                        let shown = text::text_of(value);
                        let message = String::from_str("invalid Content-Length: ");
                        Err(message.concat(text::quoted(shown.as_str()).as_str()))
                    },
                };
            }
        }
        i = i + 1;
    }
    Err(String::from_str("missing Content-Length header"))
}

/// The value of the last header with the given lower case name, trimmed.
pub open spec fn last_header(lines: Seq<Seq<char>>, name: Seq<char>) -> Option<Seq<char>>
    decreases lines.len(),
{
    if lines.len() == 0 {
        None
    } else if is_header(lines.last(), name) {
        Some(text::trim(header_text(lines.last())))
    } else {
        last_header(lines.drop_last(), name)
    }
}

/// Whether `request` carries the headers of `lines` and the address `ip`.
pub open spec fn carries_headers(request: Request, lines: Seq<Seq<char>>, ip: Option<Seq<char>>) -> bool {
    &&& text::opt_text(request.client_ip) == ip
    &&& text::opt_text(request.user_agent) == last_header(lines, "user-agent"@)
    &&& text::opt_text(request.x_forwarded_for) == last_header(lines, "x-forwarded-for"@)
    &&& text::opt_text(request.content_type) == last_header(lines, "content-type"@)
    &&& text::opt_text(request.referer) == last_header(lines, "referer"@)
    &&& text::opt_text(request.accept_encoding) == last_header(lines, "accept-encoding"@)
    &&& !request.accept_encoding_removed
    &&& request.blocked_reason is None
}

proof fn lemma_header_names_differ()
    ensures
        "user-agent"@ != "x-forwarded-for"@,
        "user-agent"@ != "content-type"@,
        "user-agent"@ != "referer"@,
        "user-agent"@ != "accept-encoding"@,
        "x-forwarded-for"@ != "content-type"@,
        "x-forwarded-for"@ != "referer"@,
        "x-forwarded-for"@ != "accept-encoding"@,
        "content-type"@ != "referer"@,
        "content-type"@ != "accept-encoding"@,
        "referer"@ != "accept-encoding"@,
{
    reveal_strlit("user-agent");
    reveal_strlit("x-forwarded-for");
    reveal_strlit("content-type");
    reveal_strlit("referer");
    reveal_strlit("accept-encoding");
    assert("user-agent"@.len() == 10);
    assert("x-forwarded-for"@.len() == 15);
    assert("content-type"@.len() == 12);
    assert("referer"@.len() == 7);
    assert("accept-encoding"@.len() == 15);
    assert("x-forwarded-for"@[0] != "accept-encoding"@[0]);
}

/// Build the request metadata from the frame headers and the peer address.
/// When a header is repeated its last value counts.
pub fn request_from_headers(headers: &str, client_ip: Option<String>) -> (r: Request)
    ensures
        carries_headers(r, text::lines(headers@), text::opt_text(client_ip)),
{
    let ghost ip = text::opt_text(client_ip);
    let mut request = Request::default();
    request.client_ip = client_ip;
    let chars = text::chars_of(headers);
    let lines = text::lines_of(chars.as_slice());
    let mut i: usize = 0;
    assert(text::views(lines@).take(0) =~= Seq::<Seq<char>>::empty());
    while i < lines.len()
        invariant
            i <= lines@.len(),
            text::views(lines@) == text::lines(headers@),
            carries_headers(request, text::lines(headers@).take(i as int), ip),
        decreases lines@.len() - i,
    {
        let line = lines[i].as_slice();
        proof {
            assert(text::views(lines@)[i as int] == line@);
            let next = text::lines(headers@).take(i + 1);
            assert(next.drop_last() =~= text::lines(headers@).take(i as int));
            assert(next.last() == line@);
            lemma_header_names_differ();
        }
        if let Some((name, value)) = text::cut_at(line, ':') {
            let key = text::to_lower(text::trimmed(name));
            let content = text::text_of(text::trimmed(value));
            if text::is_text(key.as_slice(), "user-agent") {
                request.user_agent = Some(content);
            } else if text::is_text(key.as_slice(), "x-forwarded-for") {
                request.x_forwarded_for = Some(content);
            } else if text::is_text(key.as_slice(), "content-type") {
                request.content_type = Some(content);
            } else if text::is_text(key.as_slice(), "referer") {
                request.referer = Some(content);
            } else if text::is_text(key.as_slice(), "accept-encoding") {
                request.accept_encoding = Some(content);
            }
        }
        i = i + 1;
    }
    assert(text::lines(headers@).take(i as int) =~= text::lines(headers@));
    request
}

// ---------------------------------------------------------------------
// frames
// ---------------------------------------------------------------------

/// The bytes that end a header block.
pub open spec fn blank_line() -> Seq<u8> {
    seq![13u8, 10u8, 13u8, 10u8]
}

/// Whether the header terminator stands at position `i`.
pub open spec fn ends_at(buf: Seq<u8>, i: int) -> bool {
    0 <= i && i + 4 <= buf.len() && buf[i] == 13 && buf[i + 1] == 10 && buf[i + 2] == 13 && buf[i + 3] == 10
}

/// Position of the first header terminator at or after `i`.
pub open spec fn headers_end(buf: Seq<u8>, i: int) -> Option<int>
    decreases buf.len() - i,
{
    if i < 0 || i + 4 > buf.len() {
        None
    } else if ends_at(buf, i) {
        Some(i)
    } else {
        headers_end(buf, i + 1)
    }
}

/// What a buffer decodes to: nothing yet, a body, or the message of a fault.
pub open spec fn decoded(buf: Seq<u8>) -> Option<Result<Seq<u8>, Seq<char>>> {
    match headers_end(buf, 0) {
        None => None,
        Some(end) => {
            let head = buf.subrange(0, end);
            if end > MAX_HEADER_BYTES {
                Some(Err("frame headers too large"@))
            } else if !valid_utf8(head) {
                Some(Err("headers not utf-8"@))
            } else {
                match declared_length(text::lines(decode_utf8(head)), 0) {
                    Err(e) => Some(Err(e)),
                    Ok(n) => if n > MAX_BODY_BYTES {
                        Some(Err("frame body too large"@))
                    } else if buf.len() < end + 4 + n {
                        None
                    } else {
                        Some(Ok(buf.subrange(end + 4, end + 4 + n)))
                    },
                }
            }
        },
    }
}

/// The view of a decoding result.
pub open spec fn decoded_view(r: Option<Result<Vec<u8>, String>>) -> Option<Result<Seq<u8>, Seq<char>>> {
    match r {
        None => None,
        Some(Ok(body)) => Some(Ok(body@)),
        Some(Err(e)) => Some(Err(e@)),
    }
}

/// The characters before the body of a frame.
pub open spec fn frame_head(n: nat) -> Seq<char> {
    "Content-Length: "@ + number::decimal(n)
}

/// The frame of a body.
pub open spec fn framed(body: Seq<u8>) -> Seq<u8> {
    encode_utf8(frame_head(body.len())) + blank_line() + body
}

/// Locate the `\r\n\r\n` that terminates the headers.
pub fn find_headers_end(buf: &[u8]) -> (r: Option<usize>)
    ensures
        r matches Some(k) ==> headers_end(buf@, 0) == Some(k as int) && k + 4 <= buf@.len(),
        r is None ==> headers_end(buf@, 0) is None,
{
    let n: usize = buf.len();
    if n < 4 {
        return None;
    }
    let mut i: usize = 0;
    while i <= n - 4
        invariant
            n == buf@.len(),
            4 <= n,
            i <= n - 3,
            headers_end(buf@, 0) == headers_end(buf@, i as int),
        decreases n - i,
    {
        if buf[i] == 13 && buf[i + 1] == 10 && buf[i + 2] == 13 && buf[i + 3] == 10 {
            return Some(i);
        }
        i = i + 1;
    }
    None
}

/// Encode a response body as a framed message.
pub fn encode_frame(body: &[u8]) -> (r: Vec<u8>)
    ensures
        r@ == framed(body@),
{
    let mut head = String::from_str("Content-Length: ");
    number::push_decimal(&mut head, body.len() as u64);
    let mut out: Vec<u8> = head.as_str().as_bytes_vec();
    out.push(13);
    out.push(10);
    out.push(13);
    out.push(10);
    out.extend_from_slice(body);
    assert(out@ =~= framed(body@));
    out
}

/// Decode one complete frame from a byte buffer.
///
/// Returns `None` when more data is needed; `Some(Err(e))` on protocol
/// errors.
pub fn decode_frame(buf: &[u8]) -> (r: Option<Result<Vec<u8>, String>>)
    ensures
        decoded_view(r) == decoded(buf@),
{
    let header_end: usize = match find_headers_end(buf) {
        None => {
            return None;
        },
        Some(k) => k,
    };
    if header_end > MAX_HEADER_BYTES {
        return Some(Err(String::from_str("frame headers too large")));
    }
    let headers = match text::utf8_text(slice_subrange(buf, 0, header_end)) {
        Some(h) => h,
        None => {
            return Some(Err(String::from_str("headers not utf-8")));
        },
    };
    let content_length: usize = match parse_content_length(headers.as_str()) {
        Ok(n) => n,
        Err(e) => {
            return Some(Err(e));
        },
    };
    if content_length > MAX_BODY_BYTES {
        return Some(Err(String::from_str("frame body too large")));
    }
    let body_start: usize = header_end + 4;
    if buf.len() - body_start < content_length {
        return None;
    }
    let body: Vec<u8> = slice_to_vec(slice_subrange(buf, body_start, body_start + content_length));
    Some(Ok(body))
}

/// Decode one complete frame from a byte buffer (see [`decode_frame`]).
pub fn decode_frame_sync(buf: &[u8]) -> (r: Option<Result<Vec<u8>, String>>)
    ensures
        decoded_view(r) == decoded(buf@),
{
    decode_frame(buf)
}

// ---------------------------------------------------------------------
// reading a frame byte by byte
// ---------------------------------------------------------------------

/// What to do after a header byte.
#[derive(Debug, Clone, Copy, PartialEq, Eq, Structural)]
pub enum HeaderStep {
    /// Read another byte.
    More,
    /// The header block is complete.
    Complete,
    /// The header block exceeds [`MAX_HEADER_BYTES`].
    TooLarge,
}

/// Header block of a frame while it is being read.
#[derive(Debug)]
pub struct HeaderReader {
    pub buf: Vec<u8>,
}

/// Whether a header block ends with the header terminator.
pub open spec fn is_complete(block: Seq<u8>) -> bool {
    block.len() >= 4 && ends_at(block, block.len() - 4)
}

/// What a complete header block announces: its text and the body length.
pub open spec fn announced(block: Seq<u8>) -> Result<(Seq<char>, int), Seq<char>> {
    if !valid_utf8(block) {
        Err("headers not utf-8"@)
    } else {
        match declared_length(text::lines(decode_utf8(block)), 0) {
            Err(e) => Err(e),
            Ok(n) => if n > MAX_BODY_BYTES {
                Err("body too large"@)
            } else {
                Ok((decode_utf8(block), n))
            },
        }
    }
}

impl HeaderReader {
    /// A reader that has seen no byte.
    pub fn new() -> (r: HeaderReader)
        ensures
            r.buf@ == Seq::<u8>::empty(),
    {
        HeaderReader { buf: Vec::new() }
    }

    /// Take in one byte.
    pub fn push(&mut self, byte: u8) -> (r: HeaderStep)
        ensures
            final(self).buf@ == old(self).buf@.push(byte),
            r == (if final(self).buf@.len() > MAX_HEADER_BYTES {
                HeaderStep::TooLarge
            } else if is_complete(final(self).buf@) {
                HeaderStep::Complete
            } else {
                HeaderStep::More
            }),
    {
        self.buf.push(byte);
        let n: usize = self.buf.len();
        if n > MAX_HEADER_BYTES {
            return HeaderStep::TooLarge;
        }
        if n >= 4 && self.buf[n - 4] == 13 && self.buf[n - 3] == 10 && self.buf[n - 2] == 13 && self.buf[n - 1]
            == 10 {
            HeaderStep::Complete
        } else {
            HeaderStep::More
        }
    }

    /// The end of the stream: fine between frames, a fault inside the headers.
    pub fn end_of_stream(&self) -> (r: Result<(), String>)
        ensures
            r is Ok <==> self.buf@.len() == 0,
            r matches Err(e) ==> e@ == "EOF in headers"@,
    {
        if self.buf.len() == 0 {
            Ok(())
        } else {
            Err(String::from_str("EOF in headers"))
        }
    }

    /// The header text and the body length that the block announces.
    pub fn finish(&self) -> (r: Result<(String, usize), String>)
        ensures
            r matches Ok(p) ==> announced(self.buf@) == Ok::<(Seq<char>, int), Seq<char>>((p.0@, p.1 as int)),
            r matches Err(e) ==> announced(self.buf@) == Err::<(Seq<char>, int), Seq<char>>(e@),
    {
        let headers = match text::utf8_text(self.buf.as_slice()) {
            Some(h) => h,
            None => {
                return Err(String::from_str("headers not utf-8"));
            },
        };
        match parse_content_length(headers.as_str()) {
            Err(e) => Err(e),
            Ok(n) => {
                if n > MAX_BODY_BYTES {
                    Err(String::from_str("body too large"))
                } else {
                    Ok((headers, n))
                }
            },
        }
    }
}

// ---------------------------------------------------------------------
// laws
// ---------------------------------------------------------------------

proof fn lemma_headers_end_is(buf: Seq<u8>, i: int, k: int)
    requires
        0 <= i <= k,
        ends_at(buf, k),
        forall|j: int| i <= j < k ==> !ends_at(buf, j),
    ensures
        headers_end(buf, i) == Some(k),
    decreases k - i,
{
    if i < k {
        lemma_headers_end_is(buf, i + 1, k);
    }
}

proof fn lemma_no_headers_end(buf: Seq<u8>, i: int)
    requires
        0 <= i,
        forall|j: int| i <= j ==> !ends_at(buf, j),
    ensures
        headers_end(buf, i) is None,
    decreases buf.len() - i,
{
    if i + 4 <= buf.len() {
        lemma_no_headers_end(buf, i + 1);
    }
}

proof fn lemma_digit_is_plain(n: nat, i: int)
    requires
        0 <= i < number::decimal(n).len(),
    ensures
        number::is_digit(number::decimal(n)[i]),
{
    number::lemma_decimal_reads_back(n);
}

/// The characters of a frame head are printable ASCII, and a colon stands at
/// position 14 only.
proof fn lemma_frame_head(n: nat)
    ensures
        is_ascii_chars(frame_head(n)),
        frame_head(n).len() == 16 + number::decimal(n).len(),
        forall|i: int| 0 <= i < frame_head(n).len() ==> ' ' <= #[trigger] frame_head(n)[i] <= '~',
        frame_head(n)[14] == ':',
        forall|i: int| 0 <= i < 14 ==> (#[trigger] frame_head(n)[i]) != ':',
        frame_head(n).take(14) == "Content-Length"@,
        frame_head(n).skip(15) == seq![' '] + number::decimal(n),
{
    reveal_strlit("Content-Length: ");
    reveal_strlit("Content-Length");
    let h = frame_head(n);
    assert("Content-Length: "@.len() == 16);
    assert forall|i: int| 0 <= i < h.len() implies ' ' <= #[trigger] h[i] <= '~' by {
        if i >= 16 {
            lemma_digit_is_plain(n, i - 16);
            assert(h[i] == number::decimal(n)[i - 16]);
        }
    }
    assert(h.take(14) =~= "Content-Length"@);
    assert(h.skip(15) =~= seq![' '] + number::decimal(n));
}

proof fn lemma_single_line(s: Seq<char>)
    requires
        s.len() > 0,
        forall|i: int| 0 <= i < s.len() ==> s[i] != '\n',
    ensures
        text::lines(s) == seq![s],
{
    text::lemma_first_from_is(s, '\n', 0, s.len() as int);
    assert(text::line_text(s, 0, s.len() as int) =~= s);
    assert(text::lines_from(s, (s.len() + 1) as int) =~= Seq::<Seq<char>>::empty());
    assert(text::lines(s) =~= seq![s]);
}

proof fn lemma_name_is_content_length()
    ensures
        text::lower(text::trim("Content-Length"@)) == text::lower("content-length"@),
{
    reveal_strlit("Content-Length");
    reveal_strlit("content-length");
    let s = "Content-Length"@;
    assert(text::trim_start(s) =~= s);
    assert(text::trim_end(s) =~= s);
    assert(text::lower(s) =~= text::lower("content-length"@));
}

proof fn lemma_trim_leading_space(d: Seq<char>)
    requires
        d.len() > 0,
        number::all_digits(d),
    ensures
        text::trim(seq![' '] + d) == d,
{
    let s = seq![' '] + d;
    assert(s[1] == d[0]);
    assert(number::is_digit(d[0]));
    assert(text::space_end(s, 1) == 1);
    assert(text::space_end(s, 0) == 1);
    assert(text::trim_start(s) =~= d);
    assert(number::is_digit(d[d.len() - 1]));
    assert(text::space_start(d, d.len() as int) == d.len());
    assert(text::trim_end(d) =~= d);
}

/// The head of a frame declares the length it was made with.
proof fn lemma_head_declares(n: nat)
    requires
        n <= usize::MAX,
    ensures
        declared_length(text::lines(frame_head(n)), 0) == Ok::<int, Seq<char>>(n as int),
{
    let h = frame_head(n);
    let d = number::decimal(n);
    lemma_frame_head(n);
    lemma_single_line(h);
    text::lemma_first_from_is(h, ':', 0, 14);
    lemma_name_is_content_length();
    number::lemma_decimal_reads_back(n);
    lemma_trim_leading_space(d);
    assert(number::is_digit(d[0]));
    assert(text::lines(h)[0] == h);
    assert(is_header(h, text::lower("content-length"@)));
}

/// The bytes of a frame: the head one byte per character, the terminator, the
/// body.
proof fn lemma_frame_bytes(body: Seq<u8>)
    ensures
        encode_utf8(frame_head(body.len())).len() == frame_head(body.len()).len(),
        headers_end(framed(body), 0) == Some(frame_head(body.len()).len() as int),
        framed(body).subrange(0, frame_head(body.len()).len() as int) == encode_utf8(frame_head(body.len())),
        forall|j: int|
            0 <= j < frame_head(body.len()).len() ==> 32 <= #[trigger] framed(body)[j],
{
    let h = frame_head(body.len());
    let bytes = encode_utf8(h);
    lemma_frame_head(body.len());
    is_ascii_chars_encode_utf8(h);
    let f = framed(body);
    let k = h.len() as int;
    assert(bytes.len() == k);
    assert(f.subrange(0, k) =~= bytes);
    assert forall|j: int| 0 <= j < k implies 32 <= #[trigger] f[j] by {
        assert(f[j] == bytes[j]);
        assert(bytes[j] == h[j] as u8);
    }
    assert(f[k] == 13 && f[k + 1] == 10 && f[k + 2] == 13 && f[k + 3] == 10);
    lemma_headers_end_is(f, 0, k);
}

/// Decoding an encoded frame gives back the body, whatever follows the frame.
pub proof fn decode_inverts_encode(body: Seq<u8>, rest: Seq<u8>)
    requires
        body.len() <= MAX_BODY_BYTES,
    ensures
        decoded(framed(body) + rest) == Some(Ok::<Seq<u8>, Seq<char>>(body)),
{
    let h = frame_head(body.len());
    let k = h.len() as int;
    let f = framed(body);
    let buf = f + rest;
    lemma_frame_bytes(body);
    lemma_frame_head(body.len());
    lemma_decimal_is_short(body.len());
    assert(f.len() == k + 4 + body.len());
    assert(buf[k] == 13 && buf[k + 1] == 10 && buf[k + 2] == 13 && buf[k + 3] == 10) by {
        assert(f[k] == 13 && f[k + 1] == 10 && f[k + 2] == 13 && f[k + 3] == 10);
    }
    assert forall|j: int| 0 <= j < k implies !ends_at(buf, j) by {
        assert(buf[j] == f[j]);
    }
    lemma_headers_end_is(buf, 0, k);
    assert(buf.subrange(0, k) =~= f.subrange(0, k));
    encode_utf8_valid_utf8(h);
    encode_utf8_decode_utf8(h);
    lemma_head_declares(body.len());
    assert(buf.subrange(k + 4, k + 4 + body.len()) =~= body);
}

/// A frame is not decoded before its last byte has arrived.
pub proof fn decode_waits_for_the_whole_frame(body: Seq<u8>, n: int)
    requires
        body.len() <= MAX_BODY_BYTES,
        0 <= n < framed(body).len(),
    ensures
        decoded(framed(body).take(n)) is None,
{
    let h = frame_head(body.len());
    let k = h.len() as int;
    let f = framed(body);
    let buf = f.take(n);
    lemma_frame_bytes(body);
    lemma_frame_head(body.len());
    lemma_decimal_is_short(body.len());
    assert(f.len() == k + 4 + body.len());
    if n < k + 4 {
        assert forall|j: int| 0 <= j implies !ends_at(buf, j) by {
            if j < k && j + 4 <= n {
                assert(buf[j] == f[j]);
            }
        }
        lemma_no_headers_end(buf, 0);
    } else {
        assert(buf[k] == 13 && buf[k + 1] == 10 && buf[k + 2] == 13 && buf[k + 3] == 10) by {
            assert(f[k] == 13 && f[k + 1] == 10 && f[k + 2] == 13 && f[k + 3] == 10);
        }
        assert forall|j: int| 0 <= j < k implies !ends_at(buf, j) by {
            assert(buf[j] == f[j]);
        }
        lemma_headers_end_is(buf, 0, k);
        assert(buf.subrange(0, k) =~= f.subrange(0, k));
        encode_utf8_valid_utf8(h);
        encode_utf8_decode_utf8(h);
        lemma_head_declares(body.len());
    }
}

proof fn lemma_decimal_is_short(n: nat)
    requires
        n <= MAX_BODY_BYTES,
    ensures
        number::decimal(n).len() <= 9,
{
    reveal_with_fuel(number::decimal, 10);
}

/// A header line has its name, in lower case, and its value.
pub proof fn lemma_header_line(name: Seq<char>, value: Seq<char>)
    requires
        name.len() > 0,
        !name.contains(':'),
        !text::is_space(name[0]),
        !text::is_space(name.last()),
        value.len() > 0,
        !text::is_space(value[0]),
        !text::is_space(value.last()),
    ensures
        ({
            let line = name + seq![':', ' '] + value;
            &&& forall|other: Seq<char>| #[trigger] is_header(line, other) <==> text::lower(name) == other
            &&& text::trim(header_text(line)) == value
        }),
{
    let line = name + seq![':', ' '] + value;
    let blank = seq![' '];
    let none = Seq::<char>::empty();
    assert(text::is_space(' '));
    assert(line =~= name + seq![':'] + (blank + value));
    text::the_first_separator_cuts(name, ':', blank + value);
    assert(none + name + none =~= name);
    text::white_space_around_a_text_is_trimmed(none, name, none);
    assert(blank + value + none =~= blank + value);
    text::white_space_around_a_text_is_trimmed(blank, value, none);
}

/// A header line gives its value to the header of its name, in any case, over
/// an earlier line of that name, and to no other header.
pub proof fn a_header_gives_its_value(lines: Seq<Seq<char>>, name: Seq<char>, value: Seq<char>, other: Seq<char>)
    requires
        name.len() > 0,
        !name.contains(':'),
        !text::is_space(name[0]),
        !text::is_space(name.last()),
        value.len() > 0,
        !text::is_space(value[0]),
        !text::is_space(value.last()),
        other != text::lower(name),
    ensures
        last_header(lines.push(name + seq![':', ' '] + value), text::lower(name)) == Some(value),
        last_header(lines.push(name + seq![':', ' '] + value), other) == last_header(lines, other),
        last_header(Seq::empty(), other) is None,
{
    let line = name + seq![':', ' '] + value;
    lemma_header_line(name, value);
    assert(lines.push(line).drop_last() =~= lines);
    assert(lines.push(line).last() == line);
    assert(is_header(line, text::lower(name)));
    assert(!is_header(line, other));
}

/// The headers of a request reach the fields that they are named for.
pub proof fn headers_reach_their_fields(request: Request, lines: Seq<Seq<char>>, ip: Option<Seq<char>>, value: Seq<char>)
    requires
        value.len() > 0,
        !text::is_space(value[0]),
        !text::is_space(value.last()),
    ensures
        carries_headers(request, lines.push("User-Agent"@ + seq![':', ' '] + value), ip) ==> text::opt_text(
            request.user_agent,
        ) == Some(value),
        carries_headers(request, lines.push("X-Forwarded-For"@ + seq![':', ' '] + value), ip) ==> text::opt_text(
            request.x_forwarded_for,
        ) == Some(value),
        carries_headers(request, lines.push("Content-Type"@ + seq![':', ' '] + value), ip) ==> text::opt_text(
            request.content_type,
        ) == Some(value),
        carries_headers(request, lines.push("Referer"@ + seq![':', ' '] + value), ip) ==> text::opt_text(
            request.referer,
        ) == Some(value),
        carries_headers(request, lines.push("Accept-Encoding"@ + seq![':', ' '] + value), ip) ==> text::opt_text(
            request.accept_encoding,
        ) == Some(value),
        carries_headers(request, lines, ip) ==> text::opt_text(request.client_ip) == ip,
{
    reveal_strlit("User-Agent");
    reveal_strlit("user-agent");
    reveal_strlit("X-Forwarded-For");
    reveal_strlit("x-forwarded-for");
    reveal_strlit("Content-Type");
    reveal_strlit("content-type");
    reveal_strlit("Referer");
    reveal_strlit("referer");
    reveal_strlit("Accept-Encoding");
    reveal_strlit("accept-encoding");
    assert("User-Agent"@.len() == 10 && "X-Forwarded-For"@.len() == 15 && "Content-Type"@.len() == 12
        && "Referer"@.len() == 7 && "Accept-Encoding"@.len() == 15);
    assert(text::lower("User-Agent"@) =~= "user-agent"@);
    assert(text::lower("X-Forwarded-For"@) =~= "x-forwarded-for"@);
    assert(text::lower("Content-Type"@) =~= "content-type"@);
    assert(text::lower("Referer"@) =~= "referer"@);
    assert(text::lower("Accept-Encoding"@) =~= "accept-encoding"@);
    let none = Seq::<char>::empty();
    assert("user-agent"@.len() == 10 && "x-forwarded-for"@.len() == 15 && "content-type"@.len() == 12
        && "referer"@.len() == 7 && "accept-encoding"@.len() == 15);
    a_header_gives_its_value(lines, "User-Agent"@, value, none);
    a_header_gives_its_value(lines, "X-Forwarded-For"@, value, none);
    a_header_gives_its_value(lines, "Content-Type"@, value, none);
    a_header_gives_its_value(lines, "Referer"@, value, none);
    a_header_gives_its_value(lines, "Accept-Encoding"@, value, none);
}

/// The first line that declares a length counts, in any case of its name: it
/// declares the number that it writes, and without such a line there is none.
pub proof fn the_first_length_counts(before: Seq<Seq<char>>, length: nat, after: Seq<Seq<char>>)
    requires
        length <= usize::MAX,
        forall|i: int| 0 <= i < before.len() ==> !is_header(#[trigger] before[i], "content-length"@),
    ensures
        declared_length(
            before + seq!["Content-Length"@ + seq![':', ' '] + number::decimal(length)] + after,
            0,
        ) == Ok::<int, Seq<char>>(length as int),
        declared_length(before, 0) == Err::<int, Seq<char>>("missing Content-Length header"@),
{
    reveal_strlit("Content-Length");
    reveal_strlit("content-length");
    assert("Content-Length"@.len() == 14 && "content-length"@.len() == 14);
    assert(text::lower("Content-Length"@) =~= "content-length"@);
    assert(text::lower("content-length"@) =~= "content-length"@);
    let digits = number::decimal(length);
    let line = "Content-Length"@ + seq![':', ' '] + digits;
    let all = before + seq![line] + after;
    number::lemma_decimal_reads_back(length);
    number::signed_numbers_read_back(length as int);
    assert(number::is_digit(digits[0]));
    assert(number::is_digit(digits.last()));
    lemma_header_line("Content-Length"@, digits);
    assert(is_header(line, "content-length"@));
    lemma_skipped_lines(before, all, 0);
    lemma_skipped_lines(before, before, 0);
    assert(all[before.len() as int] == line);
}

proof fn lemma_skipped_lines(before: Seq<Seq<char>>, all: Seq<Seq<char>>, i: int)
    requires
        0 <= i <= before.len() <= all.len(),
        forall|k: int| 0 <= k < before.len() ==> #[trigger] all[k] == before[k],
        forall|k: int| 0 <= k < before.len() ==> !is_header(#[trigger] before[k], text::lower("content-length"@)),
    ensures
        declared_length(all, i) == declared_length(all, before.len() as int),
    decreases before.len() - i,
{
    if i < before.len() {
        assert(all[i] == before[i]);
        lemma_skipped_lines(before, all, i + 1);
    }
}

/// The limits: the headers of a frame hold at most 8 KiB, and its body at most
/// 256 MiB.  Within them, a body is the declared number of bytes behind the
/// blank line, and is waited for until all of them are there.
pub proof fn frames_are_limited(buf: Seq<u8>, end: int, n: int)
    requires
        headers_end(buf, 0) == Some(end),
        valid_utf8(buf.subrange(0, end)),
        declared_length(text::lines(decode_utf8(buf.subrange(0, end))), 0) == Ok::<int, Seq<char>>(n),
    ensures
        end > 8192 ==> decoded(buf) == Some(Err::<Seq<u8>, Seq<char>>("frame headers too large"@)),
        end <= 8192 && n > 268435456 ==> decoded(buf) == Some(Err::<Seq<u8>, Seq<char>>("frame body too large"@)),
        end <= 8192 && n <= 268435456 && buf.len() - end < 4 + n ==> decoded(buf) is None,
        end <= 8192 && n <= 268435456 && buf.len() - end >= 4 + n ==> decoded(buf) == Some(
            Ok::<Seq<u8>, Seq<char>>(buf.skip(end + 4).take(n)),
        ),
{
    if end <= 8192 && n <= 268435456 && buf.len() - end >= 4 + n && n >= 0 {
        lemma_headers_end_bounds(buf, 0);
        assert(buf.skip(end + 4).take(n) =~= buf.subrange(end + 4, end + 4 + n));
    }
    lemma_length_is_not_negative(text::lines(decode_utf8(buf.subrange(0, end))), 0);
}

proof fn lemma_headers_end_bounds(buf: Seq<u8>, i: int)
    ensures
        headers_end(buf, i) matches Some(end) ==> 0 <= i <= end && end + 4 <= buf.len(),
    decreases buf.len() - i,
{
    if i >= 0 && i + 4 <= buf.len() && !ends_at(buf, i) {
        lemma_headers_end_bounds(buf, i + 1);
    }
}

proof fn lemma_length_is_not_negative(lines: Seq<Seq<char>>, i: int)
    ensures
        declared_length(lines, i) matches Ok(n) ==> n >= 0,
    decreases lines.len() - i,
{
    if 0 <= i < lines.len() && !is_header(lines[i], text::lower("content-length"@)) {
        lemma_length_is_not_negative(lines, i + 1);
    }
}

/// A header block announces the body that its headers declare, of at most
/// 256 MiB, and hands on its own text.
pub proof fn blocks_announce_their_body(block: Seq<u8>, n: int)
    requires
        valid_utf8(block),
        declared_length(text::lines(decode_utf8(block)), 0) == Ok::<int, Seq<char>>(n),
    ensures
        n <= 268435456 ==> announced(block) == Ok::<(Seq<char>, int), Seq<char>>((decode_utf8(block), n)),
        n > 268435456 ==> announced(block) == Err::<(Seq<char>, int), Seq<char>>("body too large"@),
{
}

/// A header block is complete with the blank line that ends it.
pub proof fn a_blank_line_completes_the_block(head: Seq<u8>)
    ensures
        is_complete(head + seq![13u8, 10u8, 13u8, 10u8]),
{
    let block = head + seq![13u8, 10u8, 13u8, 10u8];
    let n = head.len() as int;
    assert(block[n] == 13 && block[n + 1] == 10 && block[n + 2] == 13 && block[n + 3] == 10);
}

} // verus!
