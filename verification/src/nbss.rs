//! NetBIOS session service framing over a byte stream.
use vstd::prelude::*;
use vstd::slice::slice_subrange;
use crate::bytes::{copy_all, put_bytes};

verus! {

/// Type of a frame that carries an SMB message.
pub const NBSS_SESSION_MESSAGE: u8 = 0x00;

/// The longest payload that is sent.
pub const MAX_PAYLOAD: usize = 0x1_FFFE;

/// Why a frame cannot be sent or read.
#[derive(Clone, Copy, PartialEq, Eq, Structural, Debug)]
pub enum FrameError {
    TooLarge,
    /// The stream ended within a session request.
    UnexpectedEof,
}

/// One frame.
pub enum Frame {
    /// Session message carrying an SMB PDU.
    Message(Vec<u8>),
    /// A session request (type 0x81).
    SessionRequest,
    /// A session keepalive (type 0x85), or an unknown control frame.
    Keepalive,
}

/// The frame that carries a payload: type, the length in three bytes, most significant
/// byte first, and the payload.
pub open spec fn frame_bytes(payload: Seq<u8>) -> Seq<u8> {
    let n = payload.len();
    seq![NBSS_SESSION_MESSAGE, (n / 65536) as u8, (n / 256 % 256) as u8, (n % 256) as u8] + payload
}

/// Frames a payload.
pub fn write_frame(payload: &[u8]) -> (r: Result<Vec<u8>, FrameError>)
    ensures
        match r {
            Ok(b) => payload@.len() <= MAX_PAYLOAD && b@ == frame_bytes(payload@),
            Err(e) => payload@.len() > MAX_PAYLOAD && e == FrameError::TooLarge,
        },
{
    let n: usize = payload.len();
    if n > MAX_PAYLOAD {
        return Err(FrameError::TooLarge);
    }
    let mut b: Vec<u8> = Vec::new();
    b.push(NBSS_SESSION_MESSAGE);
    b.push((n / 65536) as u8);
    b.push((n / 256 % 256) as u8);
    b.push((n % 256) as u8);
    assert(b@ =~= seq![NBSS_SESSION_MESSAGE, (n / 65536) as u8, (n / 256 % 256) as u8, (n % 256) as u8]);
    put_bytes(&mut b, payload);
    Ok(b)
}

/// The 17-bit length in a frame header.
pub open spec fn length_field(h: Seq<u8>) -> int {
    h[1] % 2 * 65536 + h[2] * 256 + h[3]
}

/// What follows a frame header.
#[derive(Clone, Copy, PartialEq, Eq, Structural, Debug)]
pub enum FramePlan {
    /// A message of this length.
    Message(usize),
    /// A session request; this many bytes of names are passed over.
    SessionRequest(usize),
    Keepalive,
}

/// What follows a frame header.
pub open spec fn frame_plan(h: Seq<u8>) -> FramePlan {
    let n = length_field(h);
    if h[0] == 0x81 {
        FramePlan::SessionRequest(
            if n < 0x2000 {
                n as usize
            } else {
                0
            },
        )
    } else if h[0] == NBSS_SESSION_MESSAGE {
        FramePlan::Message(n as usize)
    } else {
        FramePlan::Keepalive
    }
}

/// Reads a frame header.
pub fn read_nbss_header(h: &[u8; 4]) -> (p: FramePlan)
    ensures
        p == frame_plan(h@),
{
    let n: usize = (h[1] % 2) as usize * 65536 + h[2] as usize * 256 + h[3] as usize;
    if h[0] == 0x81 {
        if n < 0x2000 {
            FramePlan::SessionRequest(n)
        } else {
            FramePlan::SessionRequest(0)
        }
    } else if h[0] == NBSS_SESSION_MESSAGE {
        FramePlan::Message(n)
    } else {
        FramePlan::Keepalive
    }
}

/// Whether `r` is what reading a frame at `p` of a stream gives, the reader
/// then standing at `q`. A stream that ends before the end of a header or of a
/// message gives nothing.
pub open spec fn is_frame_read(s: Seq<u8>, p: int, q: int, r: Result<Option<Frame>, FrameError>) -> bool {
    if p + 4 > s.len() {
        r == Ok::<Option<Frame>, FrameError>(None) && q == s.len()
    } else {
        let at = p + 4;
        match frame_plan(s.subrange(p, at)) {
            FramePlan::Keepalive => r == Ok::<Option<Frame>, FrameError>(Some(Frame::Keepalive)) && q == at,
            FramePlan::SessionRequest(n) => if at + n <= s.len() {
                r == Ok::<Option<Frame>, FrameError>(Some(Frame::SessionRequest)) && q == at + n
            } else {
                r == Err::<Option<Frame>, FrameError>(FrameError::UnexpectedEof) && q == s.len()
            },
            FramePlan::Message(n) => if at + n <= s.len() {
                &&& r matches Ok(Some(Frame::Message(m)))
                &&& m@ == s.subrange(at, at + n)
                &&& q == at + n
            } else {
                r == Ok::<Option<Frame>, FrameError>(None) && q == s.len()
            },
        }
    }
}

/// Reads one frame from a stream that is at hand as a whole.
pub fn read_frame(s: &[u8], pos: &mut usize) -> (r: Result<Option<Frame>, FrameError>)
    requires
        *old(pos) <= s@.len(),
    ensures
        *final(pos) <= s@.len(),
        is_frame_read(s@, *old(pos) as int, *final(pos) as int, r),
{
    let n: usize = s.len();
    let p: usize = *pos;
    if n - p < 4 {
        *pos = n;
        return Ok(None);
    }
    let h: [u8; 4] = [s[p], s[p + 1], s[p + 2], s[p + 3]];
    assert(h@ =~= s@.subrange(p as int, p + 4));
    let at: usize = p + 4;
    match read_nbss_header(&h) {
        FramePlan::Keepalive => {
            *pos = at;
            Ok(Some(Frame::Keepalive))
        },
        FramePlan::SessionRequest(len) => {
            if len > n - at {
                *pos = n;
                return Err(FrameError::UnexpectedEof);
            }
            *pos = at + len;
            Ok(Some(Frame::SessionRequest))
        },
        FramePlan::Message(len) => {
            if len > n - at {
                *pos = n;
                return Ok(None);
            }
            *pos = at + len;
            Ok(Some(Frame::Message(copy_all(slice_subrange(s, at, at + len)))))
        },
    }
}

/// A reader gets back what was framed, and then stands behind it.
pub proof fn law_frame_round_trip(payload: Seq<u8>, rest: Seq<u8>, q: int, r: Result<Option<Frame>, FrameError>)
    requires
        payload.len() <= MAX_PAYLOAD,
        is_frame_read(frame_bytes(payload) + rest, 0, q, r),
    ensures
        r matches Ok(Some(Frame::Message(m))) && m@ == payload,
        q == frame_bytes(payload).len(),
{
    let s = frame_bytes(payload) + rest;
    let n = payload.len() as int;
    let h = s.subrange(0, 4);
    assert(h[0] == NBSS_SESSION_MESSAGE && h[1] == n / 65536 && h[2] == n / 256 % 256 && h[3] == n % 256);
    assert(length_field(h) == n);
    assert(s.subrange(4, 4 + n) =~= payload);
}

/// The answer to a session request.
pub fn positive_response() -> (b: [u8; 4])
    ensures
        b@ == seq![0x82u8, 0u8, 0u8, 0u8],
{
    let b: [u8; 4] = [0x82, 0, 0, 0];
    assert(b@ =~= seq![0x82u8, 0u8, 0u8, 0u8]);
    b
}

/// A frame header is read by its first byte: a message of the length that follows, most
/// significant byte first, a session request, or nothing to read.
pub proof fn law_frame_kinds(h: Seq<u8>)
    requires
        h.len() == 4,
        h[1] < 2,
    ensures
        h[0] == 0 ==> frame_plan(h) == FramePlan::Message((h[1] * 65536 + h[2] * 256 + h[3]) as usize),
        h[0] == 0x81 <==> frame_plan(h) is SessionRequest,
        h[0] == 0x85 ==> frame_plan(h) == FramePlan::Keepalive,
        h[0] == 0x81 && h[1] == 0 && h[2] == 0 ==> frame_plan(h) == FramePlan::SessionRequest(h[3] as usize),
{
}

/// A payload is framed exactly where its length fits, and framing keeps it whole behind
/// four bytes.
pub proof fn law_payload_stands_whole(payload: Seq<u8>)
    requires
        payload.len() <= 0x1_FFFE,
    ensures
        ({
            let f = frame_bytes(payload);
            &&& f.len() == payload.len() + 4
            &&& f[0] == 0
            &&& f[1] * 65536 + f[2] * 256 + f[3] == payload.len()
            &&& f.subrange(4, f.len() as int) == payload
        }),
{
    let f = frame_bytes(payload);
    assert(f.subrange(4, f.len() as int) =~= payload);
}

} // verus!
