//! Framing of SMB messages on a direct-hosted TCP connection.
use vstd::prelude::*;
use vstd::slice::slice_subrange;
use crate::bytes::{copy_all, put_bytes};
use crate::nbss::length_field;
use crate::vfs::IoKind;

verus! {

/// Session message carrying an SMB PDU.
pub const SESSION_MESSAGE: u8 = 0x00;

/// Session request handshake; answered positively.
pub const SESSION_REQUEST: u8 = 0x81;

/// Positive session response.
pub const POSITIVE_RESPONSE: u8 = 0x82;

/// Session keepalive.
pub const KEEPALIVE: u8 = 0x85;

/// One complete SMB frame received from the wire.
#[derive(Debug)]
pub struct Frame(pub Vec<u8>);

/// Errors surfaced by transports.
#[derive(Clone, Copy, PartialEq, Eq, Structural, Debug)]
pub enum TransportError {
    /// Underlying I/O failure.
    Io(IoKind),
}

/// The frame that carries `data`: type, a three-byte length, most significant
/// byte first, and the data.
pub open spec fn wire_frame(data: Seq<u8>) -> Seq<u8> {
    let n = data.len();
    seq![SESSION_MESSAGE, (n / 65536 % 256) as u8, (n / 256 % 256) as u8, (n % 256) as u8] + data
}

/// Frames one message.
pub fn write_nbss_frame(data: &[u8]) -> (b: Vec<u8>)
    ensures
        b@ == wire_frame(data@),
{
    let n: usize = data.len();
    let mut b: Vec<u8> = Vec::new();
    b.push(SESSION_MESSAGE);
    b.push((n / 65536 % 256) as u8);
    b.push((n / 256 % 256) as u8);
    b.push((n % 256) as u8);
    assert(b@ =~= seq![SESSION_MESSAGE, (n / 65536 % 256) as u8, (n / 256 % 256) as u8, (n % 256) as u8]);
    put_bytes(&mut b, data);
    b
}

/// What follows a header for a reader that can answer.
#[derive(Clone, Copy, PartialEq, Eq, Structural, Debug)]
pub enum RecvPlan {
    /// A message of this length.
    Message(usize),
    /// A session request with this many bytes of names; answer it.
    Answer(usize),
    /// Nothing to read, nothing to answer.
    Ignore,
}

/// What follows a header for a reader that can answer.
pub open spec fn recv_plan(h: Seq<u8>) -> RecvPlan {
    if h[0] == SESSION_MESSAGE {
        RecvPlan::Message(length_field(h) as usize)
    } else if h[0] == SESSION_REQUEST {
        RecvPlan::Answer(length_field(h) as usize)
    } else {
        RecvPlan::Ignore
    }
}

fn header_length(h: &[u8; 4]) -> (n: usize)
    ensures
        n == length_field(h@),
{
    (h[1] % 2) as usize * 65536 + h[2] as usize * 256 + h[3] as usize
}

/// Reads a frame header for a reader that can answer.
pub fn plan_recv(h: &[u8; 4]) -> (p: RecvPlan)
    ensures
        p == recv_plan(h@),
{
    if h[0] == SESSION_MESSAGE {
        RecvPlan::Message(header_length(h))
    } else if h[0] == SESSION_REQUEST {
        RecvPlan::Answer(header_length(h))
    } else {
        RecvPlan::Ignore
    }
}

/// Reads a frame header for a reader that cannot answer: whether a message
/// follows, and how many bytes.
pub fn plan_source(h: &[u8; 4]) -> (r: (bool, usize))
    ensures
        r.0 == (h@[0] == SESSION_MESSAGE),
        r.1 == length_field(h@),
{
    (h[0] == SESSION_MESSAGE, header_length(h))
}

/// Where the next message at or after `p` lies: its bounds; none where the
/// stream ends before. Control frames are passed over.
pub open spec fn next_message(s: Seq<u8>, p: int) -> Option<(int, int)>
    decreases s.len() - p,
{
    let at = p + 4;
    let end = at + length_field(s.subrange(p, at));
    if p < 0 || at > s.len() || end > s.len() {
        None
    } else if s[p] == SESSION_MESSAGE {
        Some((at, end))
    } else if end <= p {
        None
    } else {
        next_message(s, end)
    }
}

/// Reads the next message from a stream that is at hand as a whole, passing over
/// control frames.
pub fn read_nbss_frame(s: &[u8], pos: &mut usize) -> (r: Option<Frame>)
    requires
        *old(pos) <= s@.len(),
    ensures
        *final(pos) <= s@.len(),
        match next_message(s@, *old(pos) as int) {
            Some((at, end)) => (r matches Some(f) && f.0@ == s@.subrange(at, end)) && *final(pos) == end,
            None => r is None && *final(pos) == s@.len(),
        },
{
    let n: usize = s.len();
    let mut p: usize = *pos;
    while n - p >= 4
        invariant
            p <= n == s@.len(),
            *pos == *old(pos),
            next_message(s@, p as int) == next_message(s@, *old(pos) as int),
        decreases n - p,
    {
        let h: [u8; 4] = [s[p], s[p + 1], s[p + 2], s[p + 3]];
        assert(h@ =~= s@.subrange(p as int, p + 4));
        let (message, len) = plan_source(&h);
        let at: usize = p + 4;
        if len > n - at {
            *pos = n;
            return None;
        }
        if message {
            *pos = at + len;
            return Some(Frame(copy_all(slice_subrange(s, at, at + len))));
        }
        p = at + len;
    }
    *pos = n;
    None
}

/// Frame boundaries are kept: a reader gets back the message that was framed, and
/// then stands behind it. The length field of a reader has 17 bits, so this holds
/// below 128 KiB.
pub proof fn law_wire_round_trip(data: Seq<u8>, rest: Seq<u8>)
    requires
        data.len() < 0x2_0000,
    ensures
        next_message(wire_frame(data) + rest, 0) == Some((4int, 4 + data.len() as int)),
        (wire_frame(data) + rest).subrange(4, 4 + data.len() as int) == data,
{
    let s = wire_frame(data) + rest;
    let n = data.len() as int;
    let h = s.subrange(0, 4);
    assert(h[1] == n / 65536 && h[2] == n / 256 % 256 && h[3] == n % 256);
    assert(length_field(h) == n);
    assert(s.subrange(4, 4 + n) =~= data);
}

/// A reader that can answer is told by the first byte what follows: a message, a session
/// request to answer, or nothing.
pub proof fn law_frame_kinds(h: Seq<u8>)
    requires
        h.len() == 4,
        h[1] < 2,
    ensures
        h[0] == 0 <==> recv_plan(h) is Message,
        h[0] == 0x81 <==> recv_plan(h) is Answer,
        h[0] == 0x85 ==> recv_plan(h) == RecvPlan::Ignore,
        h[0] == 0 ==> recv_plan(h) == RecvPlan::Message((h[1] * 65536 + h[2] * 256 + h[3]) as usize),
{
}

} // verus!
