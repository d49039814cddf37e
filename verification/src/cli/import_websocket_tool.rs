//! Live import over the websocket.

use rand::seq::IndexedRandom;

use vstd::prelude::*;
use vstd::string::*;

use crate::builder;
use crate::builder::MessageNumbers;
use crate::data;
use crate::json::{Json, JsonModel};
use crate::number;
use crate::text;

verus! {

/// Indices of the servers.
pub const SERVER_INDICES: [u32; 3] = [1, 7, 8];

/// `Origin` header of the connection.
pub const ORIGIN: &'static str = "https://www.blitzortung.org";

/// Message that is sent when the connection opens.
pub const INITIALIZATION_MESSAGE: &'static str = "{\"a\":111}";

/// Seconds between two keepalive messages.
pub const KEEPALIVE_INTERVAL_SECONDS: u64 = 30;

/// Commit after more strikes than this.
pub const COMMIT_STRIKE_COUNT: u64 = 100;

/// Commit after more seconds than this.
pub const COMMIT_INTERVAL_SECONDS: u64 = 5;

/// Arguments of the importer.
#[derive(Debug, Clone, Copy, PartialEq, Eq, Structural)]
pub struct WebsocketArgs {
    pub verbose: bool,
    pub debug: bool,
    /// Connect without storing anything.
    pub test: bool,
}

/// Options of the importer.
#[derive(Debug, Clone, Copy, PartialEq, Eq, Structural)]
pub struct WebsocketOptions {
    pub verbose: bool,
    pub debug: bool,
    pub test: bool,
}

impl WebsocketOptions {
    /// The options that the arguments mean.
    pub fn from_args(args: &WebsocketArgs) -> (r: WebsocketOptions)
        ensures
            r == (WebsocketOptions { verbose: args.verbose, debug: args.debug, test: args.test }),
    {
        WebsocketOptions { verbose: args.verbose, debug: args.debug, test: args.test }
    }
}

/// `rand::seq::IndexedRandom::choose` with the generator of the thread: one of
/// the items, none of an empty slice.  Which one is left to chance.
#[verifier::external_body]
pub(crate) fn choose_item(items: &[u32]) -> (r: Option<u32>)
    ensures
        r is Some <==> items@.len() > 0,
        r matches Some(v) ==> items@.contains(v),
{
    items.choose(&mut rand::rng()).copied()
}

/// The server index of a choice; the first server without one.
pub fn chosen_server(choice: Option<u32>) -> (r: u32)
    ensures
        r == (match choice {
            Some(index) => index,
            None => 1,
        }),
{
    match choice {
        Some(index) => index,
        None => 1,
    }
}

/// A random server index.
pub fn random_server_index() -> (r: u32)
    ensures
        SERVER_INDICES@.contains(r),
{
    let indices = SERVER_INDICES;
    chosen_server(choose_item(&indices))
}

/// The address of a server.
pub open spec fn address_of(index: nat) -> Seq<char> {
    "wss://ws"@ + number::decimal(index) + ".blitzortung.org/"@
}

/// The address of a server.
pub fn server_url(index: u32) -> (r: String)
    ensures
        r@ == "wss://ws"@ + number::decimal(index as nat) + ".blitzortung.org/"@,
        r@ == address_of(index as nat),
{
    let mut out = String::from_str("wss://ws");
    number::push_decimal(&mut out, index as u64);
    out.append(".blitzortung.org/");
    out
}

/// The region of a message, 1 when it names none.
pub open spec fn message_region(message: JsonModel) -> int {
    match builder::integer_member(message, "region"@) {
        Some(region) => region,
        None => 1,
    }
}

/// The strike of a message and its region, given the message and its decimal
/// numbers; `None` when there is no message or it is no strike.
pub fn strike_from_message(message: Option<&Json>, numbers: &MessageNumbers) -> (r: Option<(data::Strike, i64)>)
    ensures
        match message {
            None => r is None,
            Some(m) => match builder::after_message(builder::blank_parts(), m@, *numbers) {
                (_, Some(_)) => r is None,
                (parts, None) => r matches Some((strike, region)) && builder::is_built(parts, strike) && region
                    == message_region(m@),
            },
        },
{
    let m = match message {
        Some(m) => m,
        None => {
            return None;
        },
    };
    match builder::build_strike_from_message(m, numbers) {
        Ok(strike) => {
            let region: i64 = match strike.region {
                Some(id) => id,
                None => 1,
            };
            Some((strike, region))
        },
        Err(_) => None,
    }
}

/// Counts stored strikes and decides when to commit.
#[derive(Debug, Clone, Copy, PartialEq, Eq, Structural)]
pub struct Importer {
    pub strike_count: u64,
    /// Seconds on a steady clock at the last commit.
    pub last_commit: u64,
}

impl Importer {
    /// The importer after a strike was stored at the time `now`, and the number
    /// of strikes to commit when a commit is due.
    pub open spec fn after_strike(self, now: u64) -> (Importer, Option<u64>) {
        let count = (self.strike_count + 1) as u64;
        if count > COMMIT_STRIKE_COUNT || now - self.last_commit > COMMIT_INTERVAL_SECONDS {
            (Importer { strike_count: 0, last_commit: now }, Some(count))
        } else {
            (Importer { strike_count: count, last_commit: self.last_commit }, None)
        }
    }

    /// Nothing stored at the time `now`.
    pub fn new(now: u64) -> (r: Importer)
        ensures
            r == (Importer { strike_count: 0, last_commit: now }),
    {
        Importer { strike_count: 0, last_commit: now }
    }

    /// A strike was stored at the time `now`; yields the number of strikes to
    /// commit when a commit is due.
    pub fn stored(&mut self, now: u64) -> (r: Option<u64>)
        requires
            old(self).strike_count < u64::MAX,
            old(self).last_commit <= now,
        ensures
            (*final(self), r) == old(self).after_strike(now),
            ({
                let count = (old(self).strike_count + 1) as u64;
                if count > COMMIT_STRIKE_COUNT || now - old(self).last_commit > COMMIT_INTERVAL_SECONDS {
                    r == Some(count) && *final(self) == (Importer { strike_count: 0, last_commit: now })
                } else {
                    r is None && *final(self) == (Importer {
                        strike_count: count,
                        last_commit: old(self).last_commit,
                    })
                }
            }),
    {
        self.strike_count = self.strike_count + 1;
        if self.strike_count > COMMIT_STRIKE_COUNT || now - self.last_commit > COMMIT_INTERVAL_SECONDS {
            let count: u64 = self.strike_count;
            self.strike_count = 0;
            self.last_commit = now;
            Some(count)
        } else {
            None
        }
    }
}

/// At most 100 stored strikes ever wait for a commit.
pub proof fn few_strikes_wait_for_a_commit(before: Importer, after: Importer, now: u64)
    requires
        before.strike_count <= COMMIT_STRIKE_COUNT,
        ({
            let count = (before.strike_count + 1) as u64;
            if count > COMMIT_STRIKE_COUNT || now - before.last_commit > COMMIT_INTERVAL_SECONDS {
                after == (Importer { strike_count: 0, last_commit: now })
            } else {
                after == (Importer { strike_count: count, last_commit: before.last_commit })
            }
        }),
    ensures
        after.strike_count <= COMMIT_STRIKE_COUNT,
{
}

/// What arrives on the connection.
#[derive(Debug)]
pub enum Frame {
    Text(String),
    Binary(Vec<u8>),
    /// A control frame without meaning for the import.
    Control,
    Close,
    Failure,
}

/// What to do with a frame.
#[derive(Debug)]
pub enum FrameStep {
    /// Handle the payload.
    Handle(String),
    /// Wait for the next frame.
    Wait,
    /// End the connection.
    Stop,
}

/// The payload of a frame that is to be handled.
pub open spec fn handled_payload(frame: Frame, test: bool) -> Option<Seq<char>> {
    match frame {
        Frame::Text(payload) => if test {
            None
        } else {
            Some(payload@)
        },
        Frame::Binary(payload) => if test {
            None
        } else {
            Some(text::lossy(payload@))
        },
        _ => None,
    }
}

/// Whether a frame ends the connection.
pub open spec fn ends_connection(frame: Frame) -> bool {
    frame is Close || frame is Failure
}

/// Decide what to do with a frame; in test mode payloads are not handled.
pub fn on_frame(frame: Frame, test: bool) -> (r: FrameStep)
    ensures
        r is Stop <==> ends_connection(frame),
        r matches FrameStep::Handle(s) ==> handled_payload(frame, test) == Some(s@),
        r is Wait ==> handled_payload(frame, test) is None,
        match frame {
            Frame::Text(payload) => if test {
                r is Wait
            } else {
                r matches FrameStep::Handle(s) && s@ == payload@
            },
            Frame::Binary(payload) => if test {
                r is Wait
            } else {
                r matches FrameStep::Handle(s) && s@ == text::lossy(payload@)
            },
            Frame::Control => r is Wait,
            Frame::Close | Frame::Failure => r is Stop,
        },
{
    match frame {
        Frame::Text(payload) => if test {
            FrameStep::Wait
        } else {
            FrameStep::Handle(payload)
        },
        Frame::Binary(payload) => if test {
            FrameStep::Wait
        } else {
            FrameStep::Handle(text::lossy_text(payload.as_slice()))
        },
        Frame::Control => FrameStep::Wait,
        Frame::Close | Frame::Failure => FrameStep::Stop,
    }
}

/// A commit is due with the strike that follows a hundred others, and with the
/// first strike more than five seconds behind the last commit; it takes every
/// strike since then.  Until then the strikes wait.
pub proof fn commits_are_due_by_count_and_by_time(before: Importer, now: u64)
    requires
        before.strike_count < u64::MAX,
        before.last_commit <= now,
    ensures
        ({
            let (after, due) = before.after_strike(now);
            &&& due is Some <==> before.strike_count >= 100 || now > before.last_commit + 5
            &&& due matches Some(n) ==> n == before.strike_count + 1 && after.strike_count == 0 && after.last_commit
                == now
            &&& due is None ==> after.strike_count == before.strike_count + 1 && after.last_commit
                == before.last_commit
        }),
{
}

/// The importer after a strike was stored at each of the first `n` times, and
/// how many strikes were committed until then.
pub open spec fn after_strikes(start: Importer, times: Seq<u64>, n: int) -> (Importer, int)
    decreases n,
{
    if n <= 0 {
        (start, 0)
    } else {
        let (before, committed) = after_strikes(start, times, n - 1);
        match before.after_strike(times[n - 1]) {
            (after, Some(count)) => (after, committed + count),
            (after, None) => (after, committed),
        }
    }
}

/// No strike is lost: every one that was stored is committed or waits for the
/// next commit, and never more than a hundred of them wait.
pub proof fn every_stored_strike_is_committed_or_waits(start: u64, times: Seq<u64>, n: int)
    requires
        0 <= n <= times.len(),
        forall|i: int| 0 <= i < times.len() ==> start <= #[trigger] times[i],
        forall|i: int, j: int| 0 <= i <= j < times.len() ==> times[i] <= times[j],
    ensures
        ({
            let (importer, committed) = after_strikes(
                Importer { strike_count: 0, last_commit: start },
                times,
                n,
            );
            &&& committed + importer.strike_count == n
            &&& importer.strike_count <= 100
        }),
    decreases n,
{
    if n > 0 {
        every_stored_strike_is_committed_or_waits(start, times, n - 1);
    }
}

/// A strike is stored under the region that its message names, and under the
/// first one when it names none.
pub proof fn strikes_keep_the_region_of_their_message(message: JsonModel, region: i64)
    ensures
        message.member("region"@) == Some(JsonModel::Int(region as int)) ==> message_region(message) == region,
        message.member("region"@) is None ==> message_region(message) == 1,
{
}

/// Every payload is handled, but none in test mode; the connection ends when it
/// is closed or fails, in test mode too, and not before.
pub proof fn payloads_are_handled_outside_test_mode(frame: Frame, test: bool)
    ensures
        frame matches Frame::Text(payload) ==> handled_payload(frame, false) == Some(payload@) && !ends_connection(frame),
        frame matches Frame::Binary(payload) ==> handled_payload(frame, false) == Some(text::lossy(payload@))
            && !ends_connection(frame),
        handled_payload(frame, true) is None,
        frame is Control ==> handled_payload(frame, test) is None && !ends_connection(frame),
        frame is Close || frame is Failure ==> handled_payload(frame, test) is None && ends_connection(frame),
{
}

/// Servers have different addresses.
pub proof fn servers_have_their_own_address(a: nat, b: nat)
    requires
        address_of(a) == address_of(b),
    ensures
        a == b,
        address_of(a) == "wss://ws"@ + number::decimal(a) + ".blitzortung.org/"@,
{
    let head = "wss://ws"@;
    let tail = ".blitzortung.org/"@;
    let x = number::decimal(a);
    let y = number::decimal(b);
    let s = head + x + tail;
    let t = head + y + tail;
    assert(s.len() == head.len() + x.len() + tail.len());
    assert(t.len() == head.len() + y.len() + tail.len());
    assert(s.subrange(head.len() as int, head.len() as int + x.len()) =~= x);
    assert(t.subrange(head.len() as int, head.len() as int + y.len()) =~= y);
    number::lemma_decimal_reads_back(a);
    number::lemma_decimal_reads_back(b);
}

} // verus!
