//! Request metadata: the headers and the peer address that the service reads.

use vstd::prelude::*;
use vstd::slice::*;
use vstd::string::*;

use crate::number;
use crate::text;

verus! {

/// Clients at or below this version get their `Accept-Encoding` header
/// stripped.
pub const MAX_COMPATIBLE_ANDROID_VERSION: i64 = 177;

/// Prefix of the user agent of the Android client.
pub const USER_AGENT_PREFIX: &'static str = "bo-android-";

/// The metadata of one request.
#[derive(Debug, Clone)]
pub struct Request {
    pub user_agent: Option<String>,
    pub client_ip: Option<String>,
    pub x_forwarded_for: Option<String>,
    pub content_type: Option<String>,
    pub referer: Option<String>,
    /// Raw `Accept-Encoding` request header.
    pub accept_encoding: Option<String>,
    /// The `Accept-Encoding` header was stripped because the client is at or
    /// below [`MAX_COMPATIBLE_ANDROID_VERSION`].
    pub accept_encoding_removed: bool,
    /// Why the request was refused; `None` when it was not.
    pub blocked_reason: Option<String>,
}

impl Default for Request {
    /// A request without any header.
    fn default() -> (r: Request)
        ensures
            r.user_agent is None,
            r.client_ip is None,
            r.x_forwarded_for is None,
            r.content_type is None,
            r.referer is None,
            r.accept_encoding is None,
            !r.accept_encoding_removed,
            r.blocked_reason is None,
    {
        Request {
            user_agent: None,
            client_ip: None,
            x_forwarded_for: None,
            content_type: None,
            referer: None,
            accept_encoding: None,
            accept_encoding_removed: false,
            blocked_reason: None,
        }
    }
}

/// The client version that a user agent names: the number behind the last
/// hyphen of its first word, when the text before that hyphen is `bo-android`.
pub open spec fn named_version(agent: Seq<char>) -> Option<int> {
    let word = agent.take(text::first_from(agent, ' ', 0));
    let k = text::last_before(word, '-', word.len() as int);
    if k >= 0 && word.take(k) == "bo-android"@ {
        number::within(number::signed_value(word.skip(k + 1)), i64::MIN as int, i64::MAX as int)
    } else {
        None
    }
}

/// The client version that a user agent names, 0 when it names none.
pub open spec fn agent_version(agent: Seq<char>) -> int {
    match named_version(agent) {
        Some(v) => v,
        None => 0,
    }
}

/// The client version that an optional user agent names.
pub open spec fn opt_agent_version(agent: Option<Seq<char>>) -> int {
    match agent {
        Some(a) => agent_version(a),
        None => 0,
    }
}

/// Whether an `Accept-Encoding` value lists `gzip`.
pub open spec fn lists_gzip(value: Seq<char>) -> bool {
    exists|i: int|
        0 <= i < text::pieces(value, ',').len() && text::lower(text::trim(#[trigger] text::pieces(value, ',')[i])) == text::lower("gzip"@)
}

/// The client version that a user agent names.
pub fn parse_named_version(agent: &str) -> (r: Option<i64>)
    ensures
        r matches Some(v) ==> named_version(agent@) == Some(v as int),
        r is None ==> named_version(agent@) is None,
{
    let chars = text::chars_of(agent);
    let e: usize = text::find_from(chars.as_slice(), ' ', 0);
    let word = slice_subrange(chars.as_slice(), 0, e);
    assert(word@ =~= agent@.take(text::first_from(agent@, ' ', 0)));
    match text::find_last(word, '-') {
        Some(k) => {
            let head = slice_subrange(word, 0, k);
            let tail = slice_subrange(word, k + 1, word.len());
            assert(head@ =~= word@.take(k as int));
            assert(tail@ =~= word@.skip(k + 1));
            if text::is_text(head, "bo-android") {
                number::parse_signed(tail)
            } else {
                None
            }
        },
        None => None,
    }
}

/// The client version that a user agent names, 0 when it names none.
pub fn parse_agent_version(agent: &str) -> (r: i64)
    ensures
        r == agent_version(agent@),
{
    match parse_named_version(agent) {
        Some(v) => v,
        None => 0,
    }
}

impl Request {
    /// The client version of the request.
    pub open spec fn version(self) -> int {
        opt_agent_version(text::opt_text(self.user_agent))
    }

    /// The address of the client: the first `X-Forwarded-For` entry, or the
    /// peer address when that header is absent or empty.
    pub open spec fn client(self) -> Option<Seq<char>> {
        match text::opt_text(self.x_forwarded_for) {
            Some(forward) => if forward.len() > 0 {
                Some(text::trim(forward.take(text::first_from(forward, ',', 0))))
            } else {
                text::opt_text(self.client_ip)
            },
            None => text::opt_text(self.client_ip),
        }
    }

    /// Whether the response may be compressed.
    pub open spec fn gzip_allowed(self) -> bool {
        !self.accept_encoding_removed && (text::opt_text(self.accept_encoding) matches Some(value) && lists_gzip(value))
    }

    /// The request without the `Accept-Encoding` header of an old client.
    pub open spec fn fixed(self) -> Request {
        Request {
            accept_encoding_removed: self.accept_encoding_removed || 0 < self.version()
                <= MAX_COMPATIBLE_ANDROID_VERSION,
            ..self
        }
    }

    /// The address of the client.
    pub fn request_client(&self) -> (r: Option<String>)
        ensures
            text::opt_text(r) == self.client(),
    {
        match &self.x_forwarded_for {
            Some(forward) => {
                let chars = text::chars_of(forward.as_str());
                if chars.len() > 0 {
                    let e: usize = text::find_from(chars.as_slice(), ',', 0);
                    let first = slice_subrange(chars.as_slice(), 0, e);
                    assert(first@ =~= forward@.take(text::first_from(forward@, ',', 0)));
                    Some(text::text_of(text::trimmed(first)))
                } else {
                    text::copy_text(&self.client_ip)
                }
            },
            None => text::copy_text(&self.client_ip),
        }
    }

    /// The integer version of a `bo-android-<int>` user agent, `0` when the
    /// header is missing or does not match.
    pub fn user_agent_version(&self) -> (r: i64)
        ensures
            r == self.version(),
    {
        match &self.user_agent {
            Some(agent) => parse_agent_version(agent.as_str()),
            None => 0,
        }
    }

    /// Strip the `Accept-Encoding` header of an old client.  Returns whether
    /// the header was stripped.
    pub fn fix_bad_accept_header(&mut self) -> (r: bool)
        ensures
            r == (0 < old(self).version() <= MAX_COMPATIBLE_ANDROID_VERSION),
            *final(self) == old(self).fixed(),
    {
        let version: i64 = self.user_agent_version();
        if version > 0 && version <= MAX_COMPATIBLE_ANDROID_VERSION {
            self.accept_encoding_removed = true;
            true
        } else {
            false
        }
    }

    /// Whether the response may be compressed for this request: the
    /// `Accept-Encoding` header lists `gzip` and was not stripped.
    pub fn accepts_gzip(&self) -> (r: bool)
        ensures
            r == self.gzip_allowed(),
    {
        if self.accept_encoding_removed {
            return false;
        }
        match &self.accept_encoding {
            Some(value) => {
                let chars = text::chars_of(value.as_str());
                let parts = text::pieces_of(chars.as_slice(), ',');
                let mut i: usize = 0;
                while i < parts.len()
                    invariant
                        i <= parts@.len(),
                        !self.accept_encoding_removed,
                        text::opt_text(self.accept_encoding) == Some(value@),
                        chars@ == value@,
                        text::views(parts@) == text::pieces(chars@, ','),
                        forall|j: int|
                            0 <= j < i ==> text::lower(text::trim(#[trigger] text::pieces(value@, ',')[j])) != text::lower("gzip"@),
                    decreases parts@.len() - i,
                {
                    assert(text::views(parts@)[i as int] == parts@[i as int]@);
                    if text::same_ignoring_case(text::trimmed(parts[i].as_slice()), "gzip") {
                        return true;
                    }
                    i = i + 1;
                }
                false
            },
            None => false,
        }
    }
}

/// A version read from a user agent is never negative.
pub proof fn agent_version_is_not_negative(agent: Seq<char>)
    ensures
        agent_version(agent) >= 0,
{
    let word = agent.take(text::first_from(agent, ' ', 0));
    text::lemma_first_from(agent, ' ', 0);
    let k = text::last_before(word, '-', word.len() as int);
    text::lemma_last_before(word, '-', word.len() as int);
    if k >= 0 {
        let tail = word.skip(k + 1);
        if tail.len() > 0 {
            assert(tail[0] == word[k + 1]);
            assert(tail[0] != '-');
        }
        number::lemma_unsigned_is_not_negative(tail);
    }
}

/// A response to an old client is never compressed: its request is handed to
/// the response as [`Request::fix_bad_accept_header`] leaves it.
pub proof fn old_clients_never_get_gzip(request: Request)
    requires
        0 < request.version() <= MAX_COMPATIBLE_ANDROID_VERSION,
    ensures
        !request.fixed().gzip_allowed(),
{
}

/// The version that a user agent names reads back, whatever follows behind a
/// space.
pub proof fn versions_read_back(version: int, rest: Seq<char>)
    requires
        0 <= version <= i64::MAX,
    ensures
        named_version("bo-android-"@ + number::signed_decimal(version)) == Some(version),
        named_version("bo-android-"@ + number::signed_decimal(version) + seq![' '] + rest) == Some(version),
{
    reveal_strlit("bo-android-");
    reveal_strlit("bo-android");
    let digits = number::signed_decimal(version);
    let word = "bo-android-"@ + digits;
    let agent = word + seq![' '] + rest;
    let n = word.len() as int;
    assert("bo-android-"@.len() == 11 && "bo-android"@.len() == 10);
    assert forall|j: int| 0 <= j < n implies word[j] != ' ' && agent[j] != ' ' && (j > 10 ==> word[j] != '-') by {
        assert(agent[j] == word[j]);
        if j >= 11 {
            number::lemma_signed_chars(version, j - 11);
            assert(word[j] == digits[j - 11]);
        } else {
            assert(word[j] == "bo-android-"@[j]);
        }
    }
    text::lemma_first_from_is(agent, ' ', 0, n);
    text::lemma_first_from_is(word, ' ', 0, n);
    assert(agent.take(n) =~= word);
    assert(word.take(n) =~= word);
    assert(word[10] == '-');
    text::lemma_last_before(word, '-', n);
    assert(text::last_before(word, '-', n) == 10);
    assert(word.take(10) =~= "bo-android"@);
    assert(word.skip(11) =~= digits);
    number::signed_numbers_read_back(version);
}

/// An agent of any other name has no version.
pub proof fn other_agents_have_no_version(agent: Seq<char>)
    requires
        !text::begins_with(agent, "bo-android-"@),
    ensures
        named_version(agent) is None,
        agent_version(agent) == 0,
{
    reveal_strlit("bo-android-");
    reveal_strlit("bo-android");
    let word = agent.take(text::first_from(agent, ' ', 0));
    text::lemma_first_from(agent, ' ', 0);
    let k = text::last_before(word, '-', word.len() as int);
    text::lemma_last_before(word, '-', word.len() as int);
    if k >= 0 && word.take(k) == "bo-android"@ {
        assert(word.take(k).len() == k);
        assert("bo-android"@.len() == 10);
        assert(k == 10);
        assert("bo-android-"@.len() == 11);
        let front = agent.subrange(0, 11);
        assert forall|j: int| 0 <= j < 11 implies front[j] == "bo-android-"@[j] by {
            assert(front[j] == word[j]);
            if j < 10 {
                assert(word[j] == word.take(k)[j]);
                assert("bo-android"@[j] == "bo-android-"@[j]);
            }
        }
        assert(front =~= "bo-android-"@);
    }
}

/// The header is stripped for the versions from 1 to 177, and for no other
/// client.
pub proof fn the_header_is_stripped_for_old_clients(request: Request)
    requires
        !request.accept_encoding_removed,
    ensures
        request.fixed().accept_encoding_removed <==> 1 <= request.version() <= 177,
        request.fixed().accept_encoding == request.accept_encoding,
        request.fixed().user_agent == request.user_agent,
        request.fixed().client() == request.client(),
{
}

/// The client is the first address that a request was forwarded for, without
/// the white space around it; without such a header it is the peer.
pub proof fn the_first_forwarded_address_is_the_client(
    request: Request,
    front: Seq<char>,
    address: Seq<char>,
    back: Seq<char>,
    others: Seq<char>,
)
    requires
        forall|j: int| 0 <= j < front.len() ==> text::is_space(#[trigger] front[j]),
        forall|j: int| 0 <= j < back.len() ==> text::is_space(#[trigger] back[j]),
        address.len() > 0,
        !text::is_space(address[0]),
        !text::is_space(address.last()),
        !address.contains(','),
    ensures
        text::opt_text(request.x_forwarded_for) == Some(front + address + back) ==> request.client() == Some(address),
        text::opt_text(request.x_forwarded_for) == Some(front + address + back + seq![','] + others)
            ==> request.client() == Some(address),
        request.x_forwarded_for is None ==> request.client() == text::opt_text(request.client_ip),
        text::opt_text(request.x_forwarded_for) == Some(Seq::<char>::empty()) ==> request.client() == text::opt_text(
            request.client_ip,
        ),
{
    let first = front + address + back;
    let all = first + seq![','] + others;
    let n = first.len() as int;
    assert(!text::is_space(','));
    assert forall|j: int| 0 <= j < n implies first[j] != ',' && all[j] != ',' by {
        assert(all[j] == first[j]);
        if j < front.len() {
            assert(first[j] == front[j]);
        } else if j < front.len() + address.len() {
            assert(first[j] == address[j - front.len()]);
            assert(address.contains(address[j - front.len()]));
        } else {
            assert(first[j] == back[j - front.len() - address.len()]);
        }
    }
    text::lemma_first_from_is(first, ',', 0, n);
    text::lemma_first_from_is(all, ',', 0, n);
    assert(first.take(n) =~= first);
    assert(all.take(n) =~= first);
    text::white_space_around_a_text_is_trimmed(front, address, back);
}

/// A list of encodings accepts gzip if and only if one of its names is gzip, in
/// any case.
pub proof fn gzip_is_accepted_where_it_is_listed(names: Seq<Seq<char>>)
    requires
        names.len() > 0,
        forall|i: int| 0 <= i < names.len() ==> !(#[trigger] names[i]).contains(','),
    ensures
        lists_gzip(text::join(names, seq![','])) <==> exists|i: int|
            0 <= i < names.len() && text::lower(text::trim(#[trigger] names[i])) == "gzip"@,
{
    reveal_strlit("gzip");
    text::lemma_pieces_of_join(names, ',', names.len() as int);
    let pieces = text::pieces(text::join(names, seq![',']), ',');
    assert(names.take(names.len() as int) =~= names);
    assert(text::lower("gzip"@) =~= "gzip"@);
    assert forall|i: int| 0 <= i < names.len() implies #[trigger] names[i] == pieces[i] by {}
}

} // verus!
