//! Messages between the text service and the candidate window process, and
//! their framing on the wire: a 4-byte little-endian length, then the
//! payload (a JSON document). Each message is a frame of its own.
use vstd::prelude::*;

use crate::text::{decimal, push_decimal, str_to_string, string_push_str};

verus! {

/// The port the window process listens on (on localhost).
pub const PORT: u16 = 45123;

/// Connect, read and write timeout, in milliseconds.
pub const TIMEOUT_MS: u64 = 3000;

/// The largest payload a frame may announce: 64 MiB.
pub const MAX_FRAME_LEN: u32 = 67108864;

/// Text service to window. `x`/`y` is the caret's screen position.
#[derive(Debug, Clone, PartialEq, Eq)]
pub enum ToGui {
    /// Show the window with this content.
    Show {
        buffer: String,
        candidates: Vec<String>,
        selected: usize,
        page: usize,
        total_pages: usize,
        x: i32,
        y: i32,
    },
    /// Hide the window.
    Hide,
}

/// Window to text service: a click on a candidate (index in the page) or on
/// a page arrow.
#[derive(Debug, Clone, Copy, PartialEq, Eq)]
pub enum ToDll {
    Select(usize),
    PageUp,
    PageDown,
}

/// Why a frame cannot be read.
#[derive(Debug, Clone, Copy, PartialEq, Eq)]
pub enum FrameError {
    /// The header announces more than `MAX_FRAME_LEN` bytes.
    TooLarge(u32),
}

/// The four little-endian bytes of `n` (taken modulo 2^32).
pub open spec fn le_bytes(n: nat) -> Seq<u8> {
    seq![
        (n % 256) as u8,
        ((n / 256) % 256) as u8,
        ((n / 65536) % 256) as u8,
        ((n / 16777216) % 256) as u8,
    ]
}

/// The number that four little-endian bytes stand for.
pub open spec fn le_value(b: Seq<u8>) -> nat {
    (b[0] + 256 * b[1] + 65536 * b[2] + 16777216 * b[3]) as nat
}

/// The frame that carries `payload`: its length, truncated to 32 bits as the
/// wire format has it, then the payload.
pub open spec fn frame_of(payload: Seq<u8>) -> Seq<u8> {
    le_bytes(payload.len() % 4294967296) + payload
}

/// Frames `payload` for the wire.
pub fn encode_frame(payload: &[u8]) -> (r: Vec<u8>)
    ensures
        r@ == frame_of(payload@),
{
    let len: u64 = payload.len() as u64;
    let n: u32 = (len % 4294967296) as u32;
    let mut r: Vec<u8> = Vec::new();
    r.push((n % 256) as u8);
    r.push(((n / 256) % 256) as u8);
    r.push(((n / 65536) % 256) as u8);
    r.push(((n / 16777216) % 256) as u8);
    let mut i: usize = 0;
    while i < payload.len()
        invariant
            i <= payload@.len(),
            r@ == le_bytes(n as nat) + payload@.take(i as int),
        decreases payload@.len() - i,
    {
        r.push(payload[i]);
        assert(payload@.take(i + 1) == payload@.take(i as int).push(payload@[i as int]));
        i = i + 1;
    }
    assert(payload@.take(payload@.len() as int) == payload@);
    r
}

/// The payload length announced by a frame header, or the error when it is
/// more than `MAX_FRAME_LEN`.
pub fn frame_len(header: [u8; 4]) -> (r: Result<usize, FrameError>)
    ensures
        le_value(header@) <= MAX_FRAME_LEN ==> r == Ok::<usize, FrameError>(
            le_value(header@) as usize,
        ),
        le_value(header@) > MAX_FRAME_LEN ==> r == Err::<usize, FrameError>(
            FrameError::TooLarge(le_value(header@) as u32),
        ),
{
    let b0: u32 = header[0] as u32;
    let b1: u32 = header[1] as u32;
    let b2: u32 = header[2] as u32;
    let b3: u32 = header[3] as u32;
    assert(b3 * 16777216 <= 255 * 16777216) by (nonlinear_arith)
        requires
            b3 <= 255,
    ;
    assert(b2 * 65536 <= 255 * 65536) by (nonlinear_arith)
        requires
            b2 <= 255,
    ;
    assert(b1 * 256 <= 255 * 256) by (nonlinear_arith)
        requires
            b1 <= 255,
    ;
    let len: u32 = b0 + b1 * 256 + b2 * 65536 + b3 * 16777216;
    if len > MAX_FRAME_LEN {
        Err(FrameError::TooLarge(len))
    } else {
        Ok(len as usize)
    }
}

impl FrameError {
    /// The error's text: `frame too large: <len>`.
    pub fn message(&self) -> (r: String)
        ensures
            match *self {
                FrameError::TooLarge(n) => r@ == "frame too large: "@ + decimal(n as nat),
            },
    {
        match self {
            FrameError::TooLarge(n) => {
                let mut s = str_to_string("frame too large: ");
                push_decimal(&mut s, *n as usize);
                s
            },
        }
    }
}

/// Reading back the header of a frame gives the length it was written with.
pub proof fn law_frame_header_roundtrip(n: nat)
    requires
        n < 4294967296,
    ensures
        le_value(le_bytes(n)) == n,
{
    let a = n % 256;
    let q1 = n / 256;
    let b = q1 % 256;
    let q2 = q1 / 256;
    let c = q2 % 256;
    let d = q2 / 256;
    assert(n == a + 256 * q1) by (nonlinear_arith)
        requires
            a == n % 256,
            q1 == n / 256,
    ;
    assert(q1 == b + 256 * q2) by (nonlinear_arith)
        requires
            b == q1 % 256,
            q2 == q1 / 256,
    ;
    assert(q2 == c + 256 * d) by (nonlinear_arith)
        requires
            c == q2 % 256,
            d == q2 / 256,
    ;
    assert(d < 256) by (nonlinear_arith)
        requires
            n == a + 256 * q1,
            q1 == b + 256 * q2,
            q2 == c + 256 * d,
            n < 4294967296,
            0 <= a,
            0 <= b,
            0 <= c,
            0 <= d,
    ;
    assert(n / 65536 == q2) by (nonlinear_arith)
        requires
            q1 == n / 256,
            q2 == q1 / 256,
            n >= 0,
    ;
    assert(n / 16777216 == d) by (nonlinear_arith)
        requires
            n / 65536 == q2,
            d == q2 / 256,
            n >= 0,
    ;
    assert(d % 256 == d);
}

/// A frame's header announces exactly its payload, for every payload of at
/// most `MAX_FRAME_LEN` bytes.
pub proof fn law_frame_announces_payload(payload: Seq<u8>)
    requires
        payload.len() <= MAX_FRAME_LEN,
    ensures
        le_value(frame_of(payload).take(4)) == payload.len(),
        frame_of(payload).skip(4) == payload,
{
    law_frame_header_roundtrip(payload.len());
    assert(frame_of(payload).take(4) == le_bytes(payload.len()));
    assert(frame_of(payload).skip(4) == payload);
}

} // verus!
