//! Overlay transport logic.
//!
//! The daemon process, the sockets and the proxy dialling live in the
//! host; this module holds everything about the transport that is a pure
//! function of bytes: the lifecycle state machine, the classification of
//! inbound frames, the parsing of the daemon's bootstrap lines, the
//! host-and-port split of a dial target, the acknowledgement check, and
//! the browser form handling behind the landing page.

use vstd::prelude::*;
use vstd::string::StrSliceExecFns;
use vstd::string::StringSliceAdditionalSpecFns;

use crate::config;
use crate::crypto::str_bytes;
use crate::util;
use crate::util::json_safe;
use crate::wire;

verus! {

/// Failures of the transport layer.
#[derive(Debug)]
pub enum TorError {
    StartFailed(String),
    Connection(String),
    Io(String),
}

/// A message posted from the browser landing page.
pub struct WebMessage {
    pub msg_type: String,
    pub sender: String,
    pub text: String,
    pub timestamp: String,
}

/// The bytes of the literal `web_message`.
pub open spec fn spec_web_tag() -> Seq<u8> {
    seq![119u8, 101u8, 98u8, 95u8, 109u8, 101u8, 115u8, 115u8, 97u8, 103u8, 101u8]
}

impl WebMessage {
    /// Every field may stand verbatim on the wire and the kind tag is the
    /// fixed literal.
    pub open spec fn wf(self) -> bool {
        &&& str_bytes(self.msg_type@) == spec_web_tag()
        &&& json_safe(str_bytes(self.sender@))
        &&& json_safe(str_bytes(self.text@))
        &&& json_safe(str_bytes(self.timestamp@))
    }
}

/// The lifecycle of the overlay service.
#[derive(Debug, Clone, Copy, PartialEq, Eq, Structural)]
pub enum TransportState {
    Stopped,
    Starting,
    Running,
}

/// What the host reports to the lifecycle machine.
#[derive(Debug, Clone, Copy, PartialEq, Eq, Structural)]
pub enum TransportEvent {
    StartRequested,
    HostnameRead,
    StopRequested,
}

/// What the lifecycle machine asks the host to do.
#[derive(Debug, Clone, Copy, PartialEq, Eq, Structural)]
pub enum LifecycleAction {
    /// Kill any stale daemon, prepare the directories with owner-only
    /// permissions, remove the stale lock file, spawn the daemon, start
    /// log parsing, and listen on the loopback port.
    BeginStartup,
    /// The hidden-service hostname is known: publish the address.
    PublishAddress,
    /// Stop the listener, kill the daemon, wait for it, remove the lock
    /// file.
    Shutdown,
}

/// One lifecycle transition.  Anything not in the table leaves the state
/// alone and asks nothing of the host.
pub fn lifecycle_step(state: TransportState, event: TransportEvent) -> (r: (
    TransportState,
    Option<LifecycleAction>,
))
    ensures
        state == TransportState::Stopped && event == TransportEvent::StartRequested ==> r == (
            TransportState::Starting,
            Some(LifecycleAction::BeginStartup),
        ),
        state == TransportState::Starting && event == TransportEvent::HostnameRead ==> r == (
            TransportState::Running,
            Some(LifecycleAction::PublishAddress),
        ),
        state == TransportState::Running && event == TransportEvent::StopRequested ==> r == (
            TransportState::Stopped,
            Some(LifecycleAction::Shutdown),
        ),
        state == TransportState::Starting && event == TransportEvent::StopRequested ==> r == (
            TransportState::Stopped,
            Some(LifecycleAction::Shutdown),
        ),
        !((event == TransportEvent::StartRequested && state == TransportState::Stopped) || (event
            == TransportEvent::HostnameRead && state == TransportState::Starting) || (event
            == TransportEvent::StopRequested && state != TransportState::Stopped)) ==> r == (
            state,
            None::<LifecycleAction>,
        ),
{
    match (state, event) {
        (TransportState::Stopped, TransportEvent::StartRequested) => (
            TransportState::Starting,
            Some(LifecycleAction::BeginStartup),
        ),
        (TransportState::Starting, TransportEvent::HostnameRead) => (
            TransportState::Running,
            Some(LifecycleAction::PublishAddress),
        ),
        (TransportState::Starting, TransportEvent::StopRequested) => (
            TransportState::Stopped,
            Some(LifecycleAction::Shutdown),
        ),
        (TransportState::Running, TransportEvent::StopRequested) => (
            TransportState::Stopped,
            Some(LifecycleAction::Shutdown),
        ),
        _ => (state, None),
    }
}

/// Whether an inbound frame is an HTTP request: it begins with `GET `,
/// `POST ` or `HEAD `.
pub open spec fn spec_is_http(s: Seq<u8>) -> bool {
    ||| s.len() >= 4 && s.take(4) =~= seq![71u8, 69u8, 84u8, 32u8]
    ||| s.len() >= 5 && s.take(5) =~= seq![80u8, 79u8, 83u8, 84u8, 32u8]
    ||| s.len() >= 5 && s.take(5) =~= seq![72u8, 69u8, 65u8, 68u8, 32u8]
}

/// Classify an inbound frame as HTTP or raw protocol bytes.
pub fn is_http_frame(data: &Vec<u8>) -> (r: bool)
    ensures
        r == spec_is_http(data@),
{
    let n = data.len();
    let get = n >= 4 && data[0] == 71 && data[1] == 69 && data[2] == 84 && data[3] == 32;
    let post = n >= 5 && data[0] == 80 && data[1] == 79 && data[2] == 83 && data[3] == 84
        && data[4] == 32;
    let head = n >= 5 && data[0] == 72 && data[1] == 69 && data[2] == 65 && data[3] == 68
        && data[4] == 32;
    proof {
        if n >= 4 {
            assert(data@.take(4)[0] == data@[0] && data@.take(4)[1] == data@[1] && data@.take(
                4,
            )[2] == data@[2] && data@.take(4)[3] == data@[3]);
        }
        if n >= 5 {
            assert(data@.take(5)[0] == data@[0] && data@.take(5)[1] == data@[1] && data@.take(
                5,
            )[2] == data@[2] && data@.take(5)[3] == data@[3] && data@.take(5)[4] == data@[4]);
        }
    }
    get || post || head
}

/// Bytes the acknowledgement check trims: ASCII whitespace.
pub open spec fn is_ascii_ws(b: u8) -> bool {
    b == 9 || b == 10 || b == 12 || b == 13 || b == 32
}

pub open spec fn spec_trim_ws_start(s: Seq<u8>) -> Seq<u8>
    decreases s.len(),
{
    if s.len() > 0 && is_ascii_ws(s[0]) {
        spec_trim_ws_start(s.drop_first())
    } else {
        s
    }
}

pub open spec fn spec_trim_ws_end(s: Seq<u8>) -> Seq<u8>
    decreases s.len(),
{
    if s.len() > 0 && is_ascii_ws(s[s.len() - 1]) {
        spec_trim_ws_end(s.drop_last())
    } else {
        s
    }
}

/// A successful delivery acknowledgement: the response, with surrounding
/// whitespace trimmed, is exactly `OK`.
pub open spec fn spec_is_ok_response(s: Seq<u8>) -> bool {
    spec_trim_ws_end(spec_trim_ws_start(s)) =~= seq![79u8, 75u8]
}

/// Whether a peer's response acknowledges the delivery.
pub fn is_ok_response(resp: &Vec<u8>) -> (r: bool)
    ensures
        r == spec_is_ok_response(resp@),
{
    let n = resp.len();
    let mut lo: usize = 0;
    proof {
        assert(resp@.skip(0) =~= resp@);
    }
    while lo < n && ws(resp[lo])
        invariant
            resp@.len() == n,
            lo <= n,
            spec_trim_ws_start(resp@) == spec_trim_ws_start(resp@.skip(lo as int)),
        decreases n - lo,
    {
        proof {
            assert(resp@.skip(lo as int).drop_first() =~= resp@.skip(lo + 1));
        }
        lo = lo + 1;
    }
    proof {
        assert(spec_trim_ws_start(resp@) == resp@.skip(lo as int));
        assert(resp@.skip(lo as int) =~= resp@.subrange(lo as int, n as int));
    }
    let mut hi: usize = n;
    while hi > lo && ws(resp[hi - 1])
        invariant
            resp@.len() == n,
            lo <= hi <= n,
            spec_trim_ws_start(resp@) == resp@.skip(lo as int),
            spec_trim_ws_end(resp@.skip(lo as int)) == spec_trim_ws_end(
                resp@.subrange(lo as int, hi as int),
            ),
        decreases hi,
    {
        proof {
            assert(resp@.subrange(lo as int, hi as int).drop_last() =~= resp@.subrange(
                lo as int,
                hi - 1,
            ));
        }
        hi = hi - 1;
    }
    proof {
        assert(spec_trim_ws_end(spec_trim_ws_start(resp@)) == resp@.subrange(
            lo as int,
            hi as int,
        ));
    }
    if hi - lo == 2 && resp[lo] == 79 && resp[lo + 1] == 75 {
        proof {
            assert(resp@.subrange(lo as int, hi as int) =~= seq![79u8, 75u8]);
        }
        true
    } else {
        proof {
            if resp@.subrange(lo as int, hi as int) =~= seq![79u8, 75u8] {
                assert(hi - lo == 2);
                assert(resp@[lo as int] == 79 && resp@[lo + 1] == 75);
            }
        }
        false
    }
}

fn ws(b: u8) -> (r: bool)
    ensures
        r == is_ascii_ws(b),
{
    b == 9 || b == 10 || b == 12 || b == 13 || b == 32
}

/// A decimal port number below 65536, optionally with a leading plus, as
/// the standard integer parser accepts.
pub open spec fn spec_parse_port(s: Seq<u8>) -> Option<u16>
    decreases s.len(),
{
    if s.len() > 0 && s[0] == 43 {
        spec_parse_port_digits(s.drop_first())
    } else {
        spec_parse_port_digits(s)
    }
}

pub open spec fn spec_parse_port_digits(s: Seq<u8>) -> Option<u16> {
    if s.len() > 0 && (forall|i: int| 0 <= i < s.len() ==> 48 <= #[trigger] s[i] <= 57)
        && spec_digits_value(s) < 65536 {
        Some(spec_digits_value(s) as u16)
    } else {
        None
    }
}

pub open spec fn spec_digits_value(s: Seq<u8>) -> int
    decreases s.len(),
{
    if s.len() == 0 {
        0
    } else {
        spec_digits_value(s.drop_last()) * 10 + (s.last() - 48)
    }
}

/// The host part and dial port of a peer target: everything before the
/// last colon and the port after it, or the whole string and the public
/// virtual port when no usable port is given.
pub open spec fn spec_split_host_port(s: Seq<u8>) -> (Seq<u8>, u16) {
    if exists|i: int| 0 <= i < s.len() && s[i] == 58 {
        let k = last_colon(s);
        let port = match spec_parse_port(s.skip(k + 1)) {
            Some(p) => p,
            None => config::HIDDEN_SERVICE_VIRTUAL_PORT,
        };
        (s.take(k), port)
    } else {
        (s, config::HIDDEN_SERVICE_VIRTUAL_PORT)
    }
}

/// The index of the last colon byte.
pub open spec fn last_colon(s: Seq<u8>) -> int {
    choose|k: int| 0 <= k < s.len() && s[k] == 58 && (forall|j: int|
        k < j < s.len() ==> #[trigger] s[j] != 58)
}

/// Split a dial target into host and port.
pub fn split_host_port(addr: &str) -> (r: (String, u16))
    ensures
        (str_bytes(r.0@), r.1) == spec_split_host_port(addr.spec_bytes()),
{
    let b: Vec<u8> = addr.as_bytes_vec();
    let n = b.len();
    let mut k: usize = n;
    while k > 0
        invariant
            b@ == addr.spec_bytes(),
            b@.len() == n,
            k <= n,
            forall|j: int| k <= j < n ==> #[trigger] b@[j] != 58,
        decreases k,
    {
        if b[k - 1] == 58 {
            // Split at the colon found at k - 1.
            let host = util::sub_bytes(&b, 0, k - 1);
            let portb = util::sub_bytes(&b, k, n);
            let port = match parse_port(&portb) {
                Some(p) => p,
                None => config::HIDDEN_SERVICE_VIRTUAL_PORT,
            };
            proof {
                let s = b@;
                assert(s[k - 1] == 58);
                assert(exists|i: int| 0 <= i < s.len() && s[i] == 58);
                assert(last_colon(s) == k - 1) by {
                    assert(0 <= k - 1 < s.len() && s[k - 1] == 58 && (forall|j: int|
                        k - 1 < j < s.len() ==> #[trigger] s[j] != 58));
                    let c = last_colon(s);
                    assert(0 <= c < s.len() && s[c] == 58 && (forall|j: int|
                        c < j < s.len() ==> #[trigger] s[j] != 58));
                    if c < k - 1 {
                        assert(s[k - 1] != 58);
                    }
                    if c > k - 1 {
                        assert(s[c] != 58);
                    }
                }
                assert(portb@ =~= b@.skip(k as int));
                assert(host@ =~= b@.take(k - 1));
            }
            let host_s = bytes_to_host(host, addr, k - 1);
            return (host_s, port);
        }
        k = k - 1;
    }
    proof {
        assert(forall|j: int| 0 <= j < n ==> #[trigger] b@[j] != 58);
    }
    (addr.to_owned(), config::HIDDEN_SERVICE_VIRTUAL_PORT)
}

/// The leading `k` bytes of `addr` as a string; a colon follows them, so
/// they end on a character boundary.
fn bytes_to_host(host: Vec<u8>, addr: &str, k: usize) -> (r: String)
    requires
        host@ == addr.spec_bytes().take(k as int),
        k < addr.spec_bytes().len(),
        addr.spec_bytes()[k as int] == 58,
    ensures
        str_bytes(r@) == addr.spec_bytes().take(k as int),
{
    match crate::trusted::string_from_utf8(host) {
        Some(s) => s,
        None => {
            // The byte before an ASCII colon is a character boundary, so
            // the prefix is itself UTF-8.
            proof {
                lemma_ascii_split_prefix_utf8(addr@, k as int);
                assert(false);
            }
            String::new()
        },
    }
}

/// A UTF-8 byte string cut directly before an ASCII byte splits into two
/// UTF-8 byte strings.
proof fn lemma_ascii_split_prefix_utf8(cs: Seq<char>, k: int)
    requires
        0 <= k < str_bytes(cs).len(),
        str_bytes(cs)[k] < 128,
    ensures
        exists|p: Seq<char>| vstd::utf8::encode_utf8(p) == str_bytes(cs).take(k),
    decreases cs.len(),
{
    if cs.len() > 0 {
        let first = vstd::utf8::encode_scalar(cs[0] as u32);
        if k < first.len() {
            if k == 0 {
                assert(vstd::utf8::encode_utf8(Seq::<char>::empty()) =~= str_bytes(cs).take(0));
            } else {
                // An ASCII byte cannot stand inside a multi-byte scalar:
                // every byte after the leading one carries the 0x80 marker.
                let c = cs[0] as u32;
                assert((0x80u8 | ((c & 0x3F) as u8)) >= 128) by (bit_vector);
                assert((0x80u8 | (((c >> 6) & 0x3F) as u8)) >= 128) by (bit_vector);
                assert((0x80u8 | (((c >> 12) & 0x3F) as u8)) >= 128) by (bit_vector);
                assert(str_bytes(cs)[k] == first[k]);
                assert(false);
            }
        } else {
            lemma_ascii_split_prefix_utf8(cs.drop_first(), k - first.len());
            let p2 = choose|p: Seq<char>|
                vstd::utf8::encode_utf8(p) == str_bytes(cs.drop_first()).take(k - first.len());
            let s2 = seq![cs[0]] + p2;
            assert(s2[0] == cs[0]);
            assert(s2.drop_first() =~= p2);
            assert(vstd::utf8::encode_utf8(s2) == vstd::utf8::encode_scalar(cs[0] as u32)
                + vstd::utf8::encode_utf8(s2.drop_first()));
            assert(vstd::utf8::encode_utf8(s2.drop_first()) == vstd::utf8::encode_utf8(p2));
            assert(str_bytes(cs).take(k) =~= first + str_bytes(cs.drop_first()).take(
                k - first.len(),
            ));
            assert(vstd::utf8::encode_utf8(s2) =~= str_bytes(cs).take(k));
        }
    }
}

/// Parse a port number as the dial logic accepts it.
fn parse_port(b: &Vec<u8>) -> (r: Option<u16>)
    ensures
        r == spec_parse_port(b@),
{
    let n = b.len();
    let start: usize = if n > 0 && b[0] == 43 {
        1
    } else {
        0
    };
    proof {
        if n > 0 && b@[0] == 43 {
            assert(b@.drop_first() =~= b@.skip(1));
        }
    }
    if n == start {
        return None;
    }
    let mut val: u32 = 0;
    let mut i: usize = start;
    while i < n
        invariant
            b@.len() == n,
            start <= i <= n,
            start <= 1,
            (start == 1 && n > 0 && b@[0] == 43) || (start == 0 && !(n > 0 && b@[0] == 43)),
            forall|j: int| start <= j < i ==> 48 <= #[trigger] b@[j] <= 57,
            val < 65536,
            val == spec_digits_value(b@.subrange(start as int, i as int)),
        decreases n - i,
    {
        let c = b[i];
        if !(48 <= c && c <= 57) {
            proof {
                lemma_port_digit_fails(b@, start as int, i as int);
            }
            return None;
        }
        let next = val * 10 + ((c - 48) as u32);
        proof {
            assert(b@.subrange(start as int, i + 1).drop_last() =~= b@.subrange(
                start as int,
                i as int,
            ));
            assert(b@.subrange(start as int, i + 1).last() == b@[i as int]);
        }
        if next > 65535 {
            proof {
                assert(spec_digits_value(b@.subrange(start as int, i + 1)) == val * 10 + (
                b@[i as int] - 48));
                lemma_port_value_grows(b@, start as int, i + 1);
            }
            return None;
        }
        val = next;
        i = i + 1;
    }
    proof {
        let digits = b@.subrange(start as int, n as int);
        if start == 1 {
            assert(digits =~= b@.skip(1));
            assert(b@.drop_first() =~= b@.skip(1));
        } else {
            assert(digits =~= b@);
        }
    }
    Some(val as u16)
}

/// When a non-digit byte appears, the digit run is broken and the port
/// parse fails.
proof fn lemma_port_digit_fails(s: Seq<u8>, start: int, i: int)
    requires
        0 <= start <= i < s.len(),
        !(48 <= s[i] <= 57),
        (start == 1 && s.len() > 0 && s[0] == 43) || (start == 0 && !(s.len() > 0 && s[0] == 43)),
    ensures
        spec_parse_port(s) is None,
{
    let digits = s.subrange(start, s.len() as int);
    assert(digits[i - start] == s[i]);
    assert(spec_parse_port_digits(digits) is None);
    if start == 1 {
        assert(s.drop_first() =~= s.subrange(1, s.len() as int));
    } else {
        assert(digits =~= s);
    }
}

/// Once the accumulated value passes the port range, the whole digit
/// string is out of range.
proof fn lemma_port_value_grows(s: Seq<u8>, start: int, i: int)
    requires
        0 <= start <= i <= s.len(),
        spec_digits_value(s.subrange(start, i)) > 65535,
        spec_digits_value(s.subrange(start, i)) >= 0,
        forall|j: int| start <= j < i ==> 48 <= #[trigger] s[j] <= 57,
        (start == 1 && s.len() > 0 && s[0] == 43) || (start == 0 && !(s.len() > 0 && s[0] == 43)),
    ensures
        spec_parse_port(s) is None,
    decreases s.len() - i,
{
    if i < s.len() {
        if 48 <= s[i] <= 57 {
            assert(s.subrange(start, i + 1).drop_last() =~= s.subrange(start, i));
            assert(s.subrange(start, i + 1).last() == s[i]);
            assert(spec_digits_value(s.subrange(start, i + 1)) > 65535);
            lemma_port_value_grows(s, start, i + 1);
        } else {
            lemma_port_digit_fails(s, start, i);
        }
    } else {
        let digits = s.subrange(start, s.len() as int);
        assert(spec_digits_value(digits) > 65535);
        assert(spec_parse_port_digits(digits) is None);
        if start == 1 {
            assert(s.drop_first() =~= s.subrange(1, s.len() as int));
        } else {
            assert(digits =~= s);
        }
    }
}

/// A browser form submission turned into the canonical web-message frame
/// handed to the message callback, if the posted message is non-empty.
/// The sender defaults to `Anonymous`.
pub fn web_message_from_form(sender: &str, text: &str, timestamp: &str) -> (r: Option<String>)
    ensures
        r matches Some(s) ==> exists|w: WebMessage|
            #[trigger] w.wf() && str_bytes(s@) == wire::spec_web_json(w) && w.text@ == text@
                && w.sender@ == sender@,
        (text.spec_bytes().len() > 0 && json_safe(sender.spec_bytes()) && json_safe(
            text.spec_bytes(),
        ) && json_safe(timestamp.spec_bytes())) ==> r is Some,
{
    let sb: Vec<u8> = sender.as_bytes_vec();
    let tb: Vec<u8> = text.as_bytes_vec();
    let mb: Vec<u8> = timestamp.as_bytes_vec();
    if tb.len() == 0 {
        return None;
    }
    if !(util::json_safe_check(&sb) && util::json_safe_check(&tb) && util::json_safe_check(&mb)) {
        return None;
    }
    let w = WebMessage {
        msg_type: web_tag_string(),
        sender: sender.to_owned(),
        text: text.to_owned(),
        timestamp: timestamp.to_owned(),
    };
    let bytes = wire::web_message_to_json_bytes(&w);
    let s = util::ascii_string(bytes);
    proof {
        assert(w.wf() && str_bytes(s@) == wire::spec_web_json(w) && w.text@ == text@ && w.sender@
            == sender@);
    }
    Some(s)
}

/// The literal `web_message` as a string.
pub fn web_tag_string() -> (r: String)
    ensures
        str_bytes(r@) == spec_web_tag(),
{
    let mut v: Vec<u8> = Vec::new();
    v.push(119);
    v.push(101);
    v.push(98);
    v.push(95);
    v.push(109);
    v.push(101);
    v.push(115);
    v.push(115);
    v.push(97);
    v.push(103);
    v.push(101);
    proof {
        assert(v@ =~= spec_web_tag());
        assert(forall|i: int| 0 <= i < v@.len() ==> v@[i] < 128);
    }
    util::ascii_string(v)
}

/// The bytes of the literal `Bootstrapped `.
pub open spec fn bootstrap_lit() -> Seq<u8> {
    seq![66u8, 111u8, 111u8, 116u8, 115u8, 116u8, 114u8, 97u8, 112u8, 112u8, 101u8, 100u8, 32u8]
}

/// Powers of ten grow with the exponent.
proof fn lemma_pow10_le(a: nat, c: nat)
    requires
        a <= c,
    ensures
        crate::wire::pow10(a) <= crate::wire::pow10(c),
    decreases c,
{
    if a < c {
        lemma_pow10_le(a, (c - 1) as nat);
        assert(crate::wire::pow10(c) == 10 * crate::wire::pow10((c - 1) as nat));
        lemma_pow10_pos((c - 1) as nat);
    }
}

/// Powers of ten are positive.
proof fn lemma_pow10_pos(a: nat)
    ensures
        crate::wire::pow10(a) >= 1,
    decreases a,
{
    if a > 0 {
        lemma_pow10_pos((a - 1) as nat);
    }
}

/// A progress report at position `i` of a line: the literal, one to nine
/// percentage digits, and the percent sign at `j`.
pub open spec fn bootstrap_match(s: Seq<u8>, i: int, j: int) -> bool {
    &&& 0 <= i
    &&& i + 13 < j
    &&& j < s.len()
    &&& j - (i + 13) <= 9
    &&& s.subrange(i, i + 13) =~= bootstrap_lit()
    &&& (forall|k: int| i + 13 <= k < j ==> 48 <= #[trigger] s[k] <= 57)
    &&& s[j] == 37
}

/// Parse one line of daemon output for bootstrap progress.  A reported
/// pair is never invented: the line holds the literal `Bootstrapped `
/// followed by the decimal digits of the percentage and a `%` sign; the
/// phase is the text of the parenthesized group after it, or `Connecting`
/// where none follows.  A line holding such a report is always parsed.
#[verifier::rlimit(100)]
#[verifier::spinoff_prover]
pub fn parse_bootstrap_line(line: &str) -> (r: Option<(u32, String)>)
    ensures
        r matches Some((pct, phase)) ==> exists|i: int, j: int|
            {
                &&& 0 <= i
                &&& #[trigger] line.spec_bytes().subrange(i, i + 13) =~= bootstrap_lit()
                &&& i + 13 <= j < line.spec_bytes().len()
                &&& 48 <= #[trigger] line.spec_bytes()[j] || line.spec_bytes()[j] == 37
            },
        (exists|i: int, j: int| bootstrap_match(line.spec_bytes(), i, j)) ==> r is Some,
{
    let b: Vec<u8> = line.as_bytes_vec();
    let n = b.len();
    if n < 13 {
        return None;
    }
    let mut litv: Vec<u8> = Vec::new();
    litv.push(66);
    litv.push(111);
    litv.push(111);
    litv.push(116);
    litv.push(115);
    litv.push(116);
    litv.push(114);
    litv.push(97);
    litv.push(112);
    litv.push(112);
    litv.push(101);
    litv.push(100);
    litv.push(32);
    proof {
        assert(litv@ =~= bootstrap_lit());
    }
    let mut i: usize = 0;
    while i <= n - 13
        invariant
            litv@ == bootstrap_lit(),
            b@ == line.spec_bytes(),
            b@.len() == n,
            n >= 13,
            i <= n,
            forall|i0: int, j: int| 0 <= i0 < i ==> !bootstrap_match(b@, i0, j),
        decreases n - i,
    {
        let mut hit = true;
        let ghost mut bad: int = 0;
        let mut t: usize = 0;
        while t < 13 && hit
            invariant
                litv@ == bootstrap_lit(),
                b@ == line.spec_bytes(),
                b@.len() == n,
                i + 13 <= n,
                t <= 13,
                hit ==> forall|k: int| 0 <= k < t ==> b@[i + k] == bootstrap_lit()[k],
                !hit ==> 0 <= bad < 13 && i + bad < n && b@[i + bad] != bootstrap_lit()[bad],
            decreases 13 - t,
        {
            if b[i + t] != litv[t] {
                hit = false;
                proof {
                    bad = t as int;
                }
            }
            t = t + 1;
        }
        if hit {
            let d0 = i + 13;
            let mut j: usize = d0;
            let mut pct: u32 = 0;
            let mut overflow = false;
            while j < n && 48 <= b[j] && b[j] <= 57
                invariant
                    b@ == line.spec_bytes(),
                    b@.len() == n,
                    d0 <= j <= n,
                    d0 == i + 13,
                    i + 13 <= n,
                    forall|k: int| d0 <= k < j ==> 48 <= #[trigger] b@[k] <= 57,
                    overflow ==> j - d0 >= 10,
                    !overflow ==> pct < 100000000 * 10,
                    !overflow ==> (pct as int) < crate::wire::pow10((j - d0) as nat),
                decreases n - j,
            {
                let d = (b[j] - 48) as u32;
                if !overflow && pct < 100000000 {
                    pct = pct * 10 + d;
                    proof {
                        assert(crate::wire::pow10((j + 1 - d0) as nat) == 10 * crate::wire::pow10(
                            (j - d0) as nat,
                        ));
                    }
                } else {
                    proof {
                        if !overflow {
                            assert(pct >= 100000000);
                            assert(crate::wire::pow10(0) == 1);
                            assert(crate::wire::pow10(1) == 10);
                            assert(crate::wire::pow10(2) == 100);
                            assert(crate::wire::pow10(3) == 1000);
                            assert(crate::wire::pow10(4) == 10000);
                            assert(crate::wire::pow10(5) == 100000);
                            assert(crate::wire::pow10(6) == 1000000);
                            assert(crate::wire::pow10(7) == 10000000);
                            assert(crate::wire::pow10(8) == 100000000);
                            assert(crate::wire::pow10(9) == 1000000000);
                            if j - d0 <= 8 {
                                lemma_pow10_le((j - d0) as nat, 8);
                                assert((pct as int) < crate::wire::pow10(8));
                                assert(false);
                            }
                        }
                    }
                    overflow = true;
                }
                j = j + 1;
            }
            if j > d0 && !overflow && j < n && b[j] == 37 {
                let phase = phase_after(&b, j + 1);
                proof {
                    let s2 = line.spec_bytes();
                    assert(s2.subrange(i as int, i + 13) =~= bootstrap_lit());
                }
                return Some((pct, phase));
            }
            proof {
                assert forall|j2: int| !bootstrap_match(b@, i as int, j2) by {
                    if bootstrap_match(b@, i as int, j2) {
                        assert(48 <= b@[i + 13] <= 57);
                        assert(j > d0);
                        if overflow {
                            assert(j2 <= i + 13 + 9);
                            assert(j2 < j);
                            assert(48 <= b@[j2] <= 57);
                        } else {
                            // The maximal digit run ends at `j`; a match's
                            // percent sign can only stand there.
                            if j2 < j {
                                assert(48 <= b@[j2] <= 57);
                            }
                            if j2 > j {
                                assert(48 <= b@[j as int] <= 57);
                            }
                            assert(j2 == j);
                            assert(j < n);
                            assert(b@[j as int] == 37);
                        }
                    }
                }
            }
        } else {
            proof {
                assert forall|j2: int| !bootstrap_match(b@, i as int, j2) by {
                    if bootstrap_match(b@, i as int, j2) {
                        assert(b@.subrange(i as int, i + 13)[bad] == b@[i + bad]);
                    }
                }
            }
        }
        i = i + 1;
    }
    proof {
        assert forall|i0: int, j: int| !bootstrap_match(b@, i0, j) by {
            if bootstrap_match(b@, i0, j) {
                assert(i0 + 13 < b@.len());
                assert(i0 < i);
            }
        }
    }
    None
}

/// The parenthesized phase after the percent sign, or `Connecting`.
fn phase_after(b: &Vec<u8>, from: usize) -> (r: String)
    requires
        from <= b@.len(),
{
    let n = b.len();
    if n >= 2 && from <= n - 2 && b[from] == 32 && b[from + 1] == 40 {
        let mut k: usize = from + 2;
        while k < n
            invariant
                from + 2 <= k <= n,
                b@.len() == n,
            decreases n - k,
        {
            if b[k] == 41 {
                let inner = util::sub_bytes(b, from + 2, k);
                match crate::trusted::string_from_utf8(inner) {
                    Some(s) => {
                        return s;
                    },
                    None => {
                        return connecting_string();
                    },
                }
            }
            k = k + 1;
        }
    }
    connecting_string()
}

/// The default phase label, `Connecting`.
fn connecting_string() -> (r: String)
{
    proof {
        reveal_strlit("Connecting");
    }
    "Connecting".to_owned()
}

/// Percent-decoding of a form value: `%XX` becomes the byte the two hex
/// digits spell, `+` is kept as it is, everything else passes through;
/// a malformed escape is rejected.
pub open spec fn spec_percent_decode(s: Seq<u8>) -> Option<Seq<u8>>
    decreases s.len(),
{
    if s.len() == 0 {
        Some(Seq::empty())
    } else if s[0] == 37 {
        if s.len() >= 3 && hex_val(s[1]) is Some && hex_val(s[2]) is Some {
            match spec_percent_decode(s.skip(3)) {
                Some(rest) => Some(
                    seq![((hex_val(s[1]).unwrap() * 16 + hex_val(s[2]).unwrap())) as u8] + rest,
                ),
                None => None,
            }
        } else {
            None
        }
    } else {
        match spec_percent_decode(s.drop_first()) {
            Some(rest) => Some(seq![s[0]] + rest),
            None => None,
        }
    }
}

/// The value of one hex digit byte.
pub open spec fn hex_val(b: u8) -> Option<u8> {
    if 48 <= b <= 57 {
        Some((b - 48) as u8)
    } else if 65 <= b <= 70 {
        Some((b - 65 + 10) as u8)
    } else if 97 <= b <= 102 {
        Some((b - 97 + 10) as u8)
    } else {
        None
    }
}

fn hex_digit_val(b: u8) -> (r: Option<u8>)
    ensures
        r == hex_val(b),
        r matches Some(v) ==> v < 16,
{
    if 48 <= b && b <= 57 {
        Some(b - 48)
    } else if 65 <= b && b <= 70 {
        Some(b - 65 + 10)
    } else if 97 <= b && b <= 102 {
        Some(b - 97 + 10)
    } else {
        None
    }
}

/// Percent-decode a form value.
pub fn percent_decode(s: &Vec<u8>) -> (r: Option<Vec<u8>>)
    ensures
        match r {
            Some(v) => spec_percent_decode(s@) == Some(v@),
            None => spec_percent_decode(s@) is None,
        },
{
    let n = s.len();
    let mut out: Vec<u8> = Vec::new();
    let mut i: usize = 0;
    proof {
        assert(s@.skip(0) =~= s@);
    }
    while i < n
        invariant
            s@.len() == n,
            i <= n,
            (match spec_percent_decode(s@) {
                Some(v) => spec_percent_decode(s@.skip(i as int)) matches Some(rest) && v == out@
                    + rest,
                None => spec_percent_decode(s@.skip(i as int)) is None,
            }),
        decreases n - i,
    {
        let c = s[i];
        let ghost rest = s@.skip(i as int);
        if c == 37 {
            if n - i >= 3 {
                let h1 = hex_digit_val(s[i + 1]);
                let h2 = hex_digit_val(s[i + 2]);
                match (h1, h2) {
                    (Some(a), Some(bb)) => {
                        out.push(a * 16 + bb);
                        proof {
                            assert(rest[0] == 37 && rest[1] == s@[i + 1] && rest[2] == s@[i + 2]);
                            assert(rest.skip(3) =~= s@.skip(i + 3));
                        }
                        i = i + 3;
                    },
                    _ => {
                        proof {
                            assert(rest[0] == 37 && rest[1] == s@[i + 1] && rest[2] == s@[i + 2]);
                            assert(spec_percent_decode(rest) is None);
                        }
                        return None;
                    },
                }
            } else {
                proof {
                    assert(rest[0] == 37);
                    if rest.len() >= 3 {
                        assert(rest[1] == s@[i + 1] && rest[2] == s@[i + 2]);
                    }
                    assert(spec_percent_decode(rest) is None);
                }
                return None;
            }
        } else {
            out.push(c);
            proof {
                assert(rest[0] == c);
                assert(rest.drop_first() =~= s@.skip(i + 1));
            }
            i = i + 1;
        }
    }
    proof {
        assert(s@.skip(n as int) =~= Seq::<u8>::empty());
        match spec_percent_decode(s@) {
            Some(v) => {
                assert(v =~= out@ + Seq::<u8>::empty());
                assert(v =~= out@);
            },
            None => {},
        }
    }
    Some(out)
}


/// Whether `sub` occurs anywhere in `s`.
pub open spec fn contains_sub(s: Seq<u8>, sub: Seq<u8>) -> bool {
    exists|i: int| 0 <= i && i + sub.len() <= s.len() && #[trigger] s.subrange(i, i + sub.len())
        =~= sub
}

/// Substring search.
pub fn contains_bytes(hay: &Vec<u8>, needle: &Vec<u8>) -> (r: bool)
    ensures
        r == contains_sub(hay@, needle@),
{
    let n = hay.len();
    let m = needle.len();
    if m > n {
        proof {
            assert(!contains_sub(hay@, needle@));
        }
        return false;
    }
    let mut i: usize = 0;
    while i <= n - m
        invariant
            hay@.len() == n,
            needle@.len() == m,
            m <= n,
            i <= n - m + 1,
            forall|k: int|
                0 <= k < i ==> !(#[trigger] hay@.subrange(k, k + m as int) =~= needle@),
        decreases n - i,
    {
        let mut t: usize = 0;
        let mut same = true;
        while t < m
            invariant
                hay@.len() == n,
                needle@.len() == m,
                i + m <= n,
                t <= m,
                same ==> forall|k: int| 0 <= k < t ==> hay@[i + k] == needle@[k],
                !same ==> !(hay@.subrange(i as int, i + m as int) =~= needle@),
            decreases m - t,
        {
            if hay[i + t] != needle[t] {
                proof {
                    assert(hay@.subrange(i as int, i + m as int)[t as int] == hay@[i + t]);
                }
                same = false;
            }
            t = t + 1;
        }
        if same {
            proof {
                assert(hay@.subrange(i as int, i + m as int) =~= needle@);
            }
            return true;
        }
        i = i + 1;
    }
    proof {
        assert forall|k: int| 0 <= k && k + m <= n implies !(#[trigger] hay@.subrange(
            k,
            k + m as int,
        ) =~= needle@) by {
            assert(k < i);
        }
    }
    false
}

/// Where an HTTP request is routed.
#[derive(Debug, Clone, Copy, PartialEq, Eq, Structural)]
pub enum HttpRoute {
    /// A form submission to pass to the message callback.
    PostSend,
    /// The confirmation page.
    SentPage,
    /// The landing page.
    MainPage,
}

/// The bytes of the literal `POST`.
pub open spec fn l_post() -> Seq<u8> {
    seq![80u8, 79u8, 83u8, 84u8]
}

/// The bytes of the literal `/send`.
pub open spec fn l_path_send() -> Seq<u8> {
    seq![47u8, 115u8, 101u8, 110u8, 100u8]
}

/// The bytes of the literal `/sent`.
pub open spec fn l_path_sent() -> Seq<u8> {
    seq![47u8, 115u8, 101u8, 110u8, 116u8]
}

/// Route a request by its method and path: a `POST` whose path holds
/// `/send` is a form submission, a path holding `/sent` is the
/// confirmation page, anything else is the landing page.
pub fn route_http(method: &str, path: &str) -> (r: HttpRoute)
    ensures
        r == (if method.spec_bytes() == l_post() && contains_sub(path.spec_bytes(), l_path_send()) {
            HttpRoute::PostSend
        } else if contains_sub(path.spec_bytes(), l_path_sent()) {
            HttpRoute::SentPage
        } else {
            HttpRoute::MainPage
        }),
{
    let mb: Vec<u8> = method.as_bytes_vec();
    let pb: Vec<u8> = path.as_bytes_vec();
    let mut post: Vec<u8> = Vec::new();
    post.push(80);
    post.push(79);
    post.push(83);
    post.push(84);
    let mut send_lit: Vec<u8> = Vec::new();
    send_lit.push(47);
    send_lit.push(115);
    send_lit.push(101);
    send_lit.push(110);
    send_lit.push(100);
    let mut sent_lit: Vec<u8> = Vec::new();
    sent_lit.push(47);
    sent_lit.push(115);
    sent_lit.push(101);
    sent_lit.push(110);
    sent_lit.push(116);
    proof {
        assert(post@ =~= l_post());
        assert(send_lit@ =~= l_path_send());
        assert(sent_lit@ =~= l_path_sent());
    }
    if util::bytes_eq(&mb, &post) && contains_bytes(&pb, &send_lit) {
        HttpRoute::PostSend
    } else if contains_bytes(&pb, &sent_lit) {
        HttpRoute::SentPage
    } else {
        HttpRoute::MainPage
    }
}

/// The bytes of the literal `HTTP/1.1 ` at the head of a response.
pub open spec fn l_http_pre() -> Seq<u8> {
    seq![72u8, 84u8, 84u8, 80u8, 47u8, 49u8, 46u8, 49u8, 32u8]
}

/// The header bytes between the status and the content length.
pub open spec fn l_http_mid() -> Seq<u8> {
    seq![13u8, 10u8, 67u8, 111u8, 110u8, 116u8, 101u8, 110u8, 116u8, 45u8, 84u8, 121u8, 112u8, 101u8, 58u8, 32u8, 116u8, 101u8, 120u8, 116u8, 47u8, 104u8, 116u8, 109u8, 108u8, 59u8, 32u8, 99u8, 104u8, 97u8, 114u8, 115u8, 101u8, 116u8, 61u8, 117u8, 116u8, 102u8, 45u8, 56u8, 13u8, 10u8, 67u8, 111u8, 110u8, 116u8, 101u8, 110u8, 116u8, 45u8, 76u8, 101u8, 110u8, 103u8, 116u8, 104u8, 58u8, 32u8]
}

/// The header bytes after the content length.
pub open spec fn l_http_end() -> Seq<u8> {
    seq![13u8, 10u8, 67u8, 111u8, 110u8, 110u8, 101u8, 99u8, 116u8, 105u8, 111u8, 110u8, 58u8, 32u8, 99u8, 108u8, 111u8, 115u8, 101u8, 13u8, 10u8, 13u8, 10u8]
}

/// A full response to a browser: the status line, a fixed content type,
/// the exact byte length of the body, and the body itself.
pub fn build_http_response(html: &str, status: &str) -> (r: Vec<u8>)
    ensures
        r@ == l_http_pre() + status.spec_bytes() + l_http_mid() + wire::spec_dec_u64(
            html.spec_bytes().len(),
        ) + l_http_end() + html.spec_bytes(),
{
    let mut out: Vec<u8> = Vec::new();
    emit_http_pre(&mut out);
    let sb: Vec<u8> = status.as_bytes_vec();
    util::push_bytes(&mut out, sb.as_slice());
    let ghost e1 = l_http_pre() + status.spec_bytes();
    proof {
        assert(out@ =~= e1);
    }
    emit_http_mid(&mut out);
    let hb: Vec<u8> = html.as_bytes_vec();
    let digits = wire::dec_u64(hb.len() as u64);
    util::push_bytes(&mut out, digits.as_slice());
    let ghost e2 = e1 + l_http_mid() + wire::spec_dec_u64(html.spec_bytes().len());
    proof {
        assert(out@ =~= e2);
    }
    emit_http_end(&mut out);
    util::push_bytes(&mut out, hb.as_slice());
    proof {
        assert(out@ =~= e2 + l_http_end() + html.spec_bytes());
    }
    out
}


fn emit_http_pre(out: &mut Vec<u8>)
    ensures
        final(out)@ == old(out)@ + l_http_pre(),
{
    let ghost p = out@;
    out.push(72);
    out.push(84);
    out.push(84);
    out.push(80);
    out.push(47);
    out.push(49);
    out.push(46);
    out.push(49);
    out.push(32);
    proof {
        assert(out@ =~= p + l_http_pre());
    }
}

#[verifier::rlimit(60)]
fn emit_http_mid(out: &mut Vec<u8>)
    ensures
        final(out)@ == old(out)@ + l_http_mid(),
{
    let ghost p = out@;
    out.push(13);
    out.push(10);
    out.push(67);
    out.push(111);
    out.push(110);
    out.push(116);
    out.push(101);
    out.push(110);
    out.push(116);
    out.push(45);
    out.push(84);
    out.push(121);
    out.push(112);
    out.push(101);
    out.push(58);
    out.push(32);
    out.push(116);
    out.push(101);
    out.push(120);
    out.push(116);
    out.push(47);
    out.push(104);
    out.push(116);
    out.push(109);
    out.push(108);
    out.push(59);
    out.push(32);
    out.push(99);
    out.push(104);
    out.push(97);
    out.push(114);
    out.push(115);
    out.push(101);
    out.push(116);
    out.push(61);
    out.push(117);
    out.push(116);
    out.push(102);
    out.push(45);
    out.push(56);
    out.push(13);
    out.push(10);
    out.push(67);
    out.push(111);
    out.push(110);
    out.push(116);
    out.push(101);
    out.push(110);
    out.push(116);
    out.push(45);
    out.push(76);
    out.push(101);
    out.push(110);
    out.push(103);
    out.push(116);
    out.push(104);
    out.push(58);
    out.push(32);
    proof {
        assert(out@ =~= p + l_http_mid());
    }
}

fn emit_http_end(out: &mut Vec<u8>)
    ensures
        final(out)@ == old(out)@ + l_http_end(),
{
    let ghost p = out@;
    out.push(13);
    out.push(10);
    out.push(67);
    out.push(111);
    out.push(110);
    out.push(110);
    out.push(101);
    out.push(99);
    out.push(116);
    out.push(105);
    out.push(111);
    out.push(110);
    out.push(58);
    out.push(32);
    out.push(99);
    out.push(108);
    out.push(111);
    out.push(115);
    out.push(101);
    out.push(13);
    out.push(10);
    out.push(13);
    out.push(10);
    proof {
        assert(out@ =~= p + l_http_end());
    }
}

} // verus!
