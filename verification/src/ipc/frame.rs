//! Frames: four bytes that give the length of the payload, lowest byte first,
//! and the payload.

use vstd::prelude::*;

use crate::text;

verus! {

/// The longest payload, in bytes.
pub const MAX_MESSAGE_SIZE: u32 = 65_536;

/// Why a frame cannot be written or read.
#[derive(Debug)]
pub enum FrameError {
    /// The payload is too long; the length is given.
    TooLarge(u32),
}

/// The number that four bytes stand for, lowest byte first.
pub open spec fn length_of(b: Seq<u8>) -> int {
    b[0] as int + b[1] as int * 0x100 + b[2] as int * 0x1_0000 + b[3] as int * 0x100_0000
}

/// The four bytes of a number, lowest byte first.
pub open spec fn length_bytes(n: int) -> Seq<u8> {
    seq![
        (n % 0x100) as u8,
        ((n / 0x100) % 0x100) as u8,
        ((n / 0x1_0000) % 0x100) as u8,
        ((n / 0x100_0000) % 0x100) as u8,
    ]
}

/// The frame of a payload.
pub open spec fn frame_of(payload: Seq<u8>) -> Seq<u8> {
    length_bytes(payload.len() as int) + payload
}

/// Frames a payload. One that is longer than the limit is refused; the error
/// gives its length, or the largest number where that is too large for it.
pub fn write_message(payload: &Vec<u8>) -> (out: Result<Vec<u8>, FrameError>)
    ensures
        out is Err <==> payload@.len() > MAX_MESSAGE_SIZE,
        match out {
            Ok(frame) => frame@ == frame_of(payload@),
            Err(FrameError::TooLarge(n)) => n == (if payload@.len() <= u32::MAX {
                payload@.len() as int
            } else {
                u32::MAX as int
            }),
        },
{
    if payload.len() > MAX_MESSAGE_SIZE as usize {
        let len: u32 = if payload.len() <= u32::MAX as usize {
            payload.len() as u32
        } else {
            u32::MAX
        };
        return Err(FrameError::TooLarge(len));
    }
    let len: u32 = payload.len() as u32;
    let mut frame: Vec<u8> = Vec::new();
    frame.push((len % 0x100) as u8);
    frame.push(((len / 0x100) % 0x100) as u8);
    frame.push(((len / 0x1_0000) % 0x100) as u8);
    frame.push(((len / 0x100_0000) % 0x100) as u8);
    let mut i: usize = 0;
    assert(frame@ =~= length_bytes(payload@.len() as int) + payload@.take(0));
    while i < payload.len()
        invariant
            i <= payload.len(),
            frame@ == length_bytes(payload@.len() as int) + payload@.take(i as int),
        decreases payload.len() - i,
    {
        frame.push(payload[i]);
        i = i + 1;
        assert(payload@.take(i as int) =~= payload@.take(i - 1).push(payload@[i - 1]));
        assert(frame@ =~= length_bytes(payload@.len() as int) + payload@.take(i as int));
    }
    assert(payload@.take(i as int) =~= payload@);
    Ok(frame)
}

/// The length of the payload that follows the four bytes. More than the limit
/// is refused.
pub fn read_length(head: [u8; 4]) -> (out: Result<u32, FrameError>)
    ensures
        match out {
            Ok(n) => n == length_of(head@) && n <= MAX_MESSAGE_SIZE,
            Err(FrameError::TooLarge(n)) => n == length_of(head@) && n > MAX_MESSAGE_SIZE,
        },
        out is Ok <==> length_of(head@) <= MAX_MESSAGE_SIZE,
{
    let n: u32 = head[0] as u32 + head[1] as u32 * 0x100 + head[2] as u32 * 0x1_0000
        + head[3] as u32 * 0x100_0000;
    if n > MAX_MESSAGE_SIZE {
        Err(FrameError::TooLarge(n))
    } else {
        Ok(n)
    }
}

/// Takes the payload out of a stream of bytes: `Ok(None)` where the stream
/// ends too early.
pub fn read_message(stream: &Vec<u8>) -> (out: Result<Option<Vec<u8>>, FrameError>)
    ensures
        match out {
            Ok(Some(p)) => stream@.len() >= 4 && length_of(stream@) <= MAX_MESSAGE_SIZE
                && stream@.len() >= 4 + length_of(stream@) && p@ == stream@.subrange(
                4,
                4 + length_of(stream@),
            ),
            Ok(None) => stream@.len() < 4 || (length_of(stream@) <= MAX_MESSAGE_SIZE
                && stream@.len() < 4 + length_of(stream@)),
            Err(FrameError::TooLarge(n)) => stream@.len() >= 4 && n == length_of(stream@) && n
                > MAX_MESSAGE_SIZE,
        },
{
    if stream.len() < 4 {
        return Ok(None);
    }
    let head: [u8; 4] = [stream[0], stream[1], stream[2], stream[3]];
    let n: u32 = match read_length(head) {
        Ok(n) => n,
        Err(e) => {
            return Err(e);
        },
    };
    let end: usize = 4 + n as usize;
    if stream.len() < end {
        return Ok(None);
    }
    let mut out: Vec<u8> = Vec::new();
    let mut i: usize = 4;
    while i < end
        invariant
            4 <= i <= end <= stream.len(),
            out@ == stream@.subrange(4, i as int),
        decreases end - i,
    {
        out.push(stream[i]);
        i = i + 1;
        assert(stream@.subrange(4, i as int) =~= stream@.subrange(4, i - 1).push(stream@[i - 1]));
    }
    Ok(Some(out))
}

/// What is said of a frame that is too large.
pub open spec fn too_large_text(n: int) -> Seq<char> {
    "message too large: "@ + text::decimal(n as nat) + " bytes (max 65536)"@
}

impl FrameError {
    /// The error in words.
    pub fn message(&self) -> (out: String)
        ensures
            match *self {
                FrameError::TooLarge(n) => out@ == too_large_text(n as int),
            },
    {
        match self {
            FrameError::TooLarge(n) => {
                let mut out: String = "message too large: ".to_owned();
                text::push_decimal(&mut out, *n as u64);
                out.push_str(" bytes (max 65536)");
                out
            },
        }
    }
}

/// Reading a frame gives back the payload that was written, whatever follows
/// the frame in the stream.
pub proof fn law_read_gives_back_written(payload: Seq<u8>, rest: Seq<u8>)
    requires
        payload.len() <= MAX_MESSAGE_SIZE,
    ensures
        ({
            let stream = frame_of(payload) + rest;
            &&& stream.len() >= 4
            &&& length_of(stream) == payload.len()
            &&& stream.len() >= 4 + length_of(stream)
            &&& stream.subrange(4, 4 + length_of(stream)) == payload
        }),
{
    let n = payload.len() as int;
    let stream = frame_of(payload) + rest;
    let b = length_bytes(n);
    assert(stream[0] == b[0] && stream[1] == b[1] && stream[2] == b[2] && stream[3] == b[3]);
    assert(stream.subrange(4, 4 + n) =~= payload);
}

/// The four bytes of a number stand for that number.
pub proof fn law_length_bytes(n: int)
    requires
        0 <= n < 0x1_0000_0000,
    ensures
        length_of(length_bytes(n)) == n,
{
}

} // verus!
