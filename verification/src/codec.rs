//! Length-prefixed frames: four bytes of little-endian length, then the payload.
use vstd::prelude::*;

verus! {

/// Maximum frame size (1 MiB), so that malformed data cannot exhaust memory.
pub const MAX_FRAME_SIZE: u32 = 1024 * 1024;

/// Errors of reading a frame.
#[derive(Clone, Copy, Debug, PartialEq, Eq, Structural)]
pub enum CodecError {
    /// The announced length exceeds the maximum.
    FrameTooLarge { size: u32 },
    /// The stream ended before a length was complete.
    ConnectionClosed,
    /// The stream ended inside a payload.
    UnexpectedEof,
}

/// A payload that was read, and where the bytes after it begin.
#[derive(Debug)]
pub struct Frame {
    pub payload: Vec<u8>,
    pub next: usize,
}

/// The four bytes that announce a length, the least significant first.
pub open spec fn length_bytes(len: u32) -> Seq<u8> {
    seq![
        (len % 256) as u8,
        (len / 256 % 256) as u8,
        (len / 65536 % 256) as u8,
        (len / 16777216) as u8,
    ]
}

/// The length that four bytes announce.
pub open spec fn announced(b: Seq<u8>) -> nat {
    (b[0] + 256 * b[1] + 65536 * b[2] + 16777216 * b[3]) as nat
}

/// A payload behind its length. The header holds the lower 32 bits of a length
/// that does not fit into it.
pub open spec fn frame(payload: Seq<u8>) -> Seq<u8> {
    length_bytes(payload.len() as u32) + payload
}

/// The frames of several payloads, one behind the other.
pub open spec fn stream(payloads: Seq<Seq<u8>>) -> Seq<u8>
    decreases payloads.len(),
{
    if payloads.len() == 0 {
        Seq::empty()
    } else {
        frame(payloads[0]) + stream(payloads.skip(1))
    }
}

/// What reading one frame from the front of a stream gives: its payload and
/// the bytes behind it.
pub open spec fn read_frame(bytes: Seq<u8>) -> Result<(Seq<u8>, Seq<u8>), CodecError> {
    if bytes.len() < 4 {
        Err(CodecError::ConnectionClosed)
    } else if announced(bytes) > MAX_FRAME_SIZE {
        Err(CodecError::FrameTooLarge { size: announced(bytes) as u32 })
    } else if bytes.len() - 4 < announced(bytes) {
        Err(CodecError::UnexpectedEof)
    } else {
        let end = 4 + announced(bytes) as int;
        Ok((bytes.subrange(4, end), bytes.skip(end)))
    }
}

/// The payloads of a whole stream, up to its end or to the first error.
pub open spec fn read_stream(bytes: Seq<u8>) -> (Seq<Seq<u8>>, CodecError)
    decreases bytes.len(),
{
    match read_frame(bytes) {
        Err(e) => (Seq::empty(), e),
        Ok((payload, rest)) => if rest.len() < bytes.len() {
            let more = read_stream(rest);
            (seq![payload] + more.0, more.1)
        } else {
            (Seq::empty(), CodecError::ConnectionClosed)
        },
    }
}

/// The length of a frame in its four header bytes, if it is within the maximum.
pub fn parse_length(header: &[u8; 4]) -> (r: Result<usize, CodecError>)
    ensures
        announced(header@) <= MAX_FRAME_SIZE ==> r == Ok::<usize, CodecError>(
            announced(header@) as usize,
        ),
        announced(header@) > MAX_FRAME_SIZE ==> r == Err::<usize, CodecError>(
            CodecError::FrameTooLarge { size: announced(header@) as u32 },
        ),
{
    let b0: u32 = header[0] as u32;
    let b1: u32 = header[1] as u32;
    let b2: u32 = header[2] as u32;
    let b3: u32 = header[3] as u32;
    let size: u32 = b0 + 256 * b1 + 65536 * b2 + 16777216 * b3;
    if size > MAX_FRAME_SIZE {
        Err(CodecError::FrameTooLarge { size })
    } else {
        Ok(size as usize)
    }
}

/// The header that announces a payload of `len` bytes.
pub fn encode_length(len: u32) -> (r: [u8; 4])
    ensures
        r@ == length_bytes(len),
{
    [
        (len % 256) as u8,
        (len / 256 % 256) as u8,
        (len / 65536 % 256) as u8,
        (len / 16777216) as u8,
    ]
}

/// The frame of a payload.
pub fn write_message(payload: &Vec<u8>) -> (r: Vec<u8>)
    ensures
        r@ == frame(payload@),
{
    let header = encode_length(#[verifier::truncate] (payload.len() as u32));
    let mut out: Vec<u8> = Vec::new();
    out.push(header[0]);
    out.push(header[1]);
    out.push(header[2]);
    out.push(header[3]);
    let mut i: usize = 0;
    assert(out@ =~= header@ + payload@.take(0));
    while i < payload.len()
        invariant
            i <= payload@.len(),
            header@.len() == 4,
            out@ == header@ + payload@.take(i as int),
        decreases payload@.len() - i,
    {
        out.push(payload[i]);
        assert(payload@.take(i as int).push(payload@[i as int]) =~= payload@.take(i as int + 1));
        assert(out@ =~= header@ + payload@.take(i as int + 1));
        i = i + 1;
    }
    assert(payload@.take(payload@.len() as int) =~= payload@);
    out
}

/// Reads the frame that begins at `from`.
pub fn read_message(bytes: &Vec<u8>, from: usize) -> (r: Result<Frame, CodecError>)
    requires
        from <= bytes@.len(),
    ensures
        match (r, read_frame(bytes@.skip(from as int))) {
            (Ok(f), Ok((payload, rest))) => f.payload@ == payload && f.next <= bytes@.len()
                && bytes@.skip(f.next as int) == rest,
            (Err(e), Err(x)) => e == x,
            _ => false,
        },
{
    let ghost tail = bytes@.skip(from as int);
    if bytes.len() - from < 4 {
        return Err(CodecError::ConnectionClosed);
    }
    let header = [bytes[from], bytes[from + 1], bytes[from + 2], bytes[from + 3]];
    assert(announced(header@) == announced(tail));
    match parse_length(&header) {
        Err(e) => Err(e),
        Ok(len) => {
            if bytes.len() - from - 4 < len {
                return Err(CodecError::UnexpectedEof);
            }
            let start: usize = from + 4;
            let total: usize = bytes.len();
            let mut payload: Vec<u8> = Vec::new();
            let mut i: usize = 0;
            while i < len
                invariant
                    i <= len,
                    total == bytes@.len(),
                    start + len <= total,
                    payload@ == bytes@.subrange(start as int, start + i),
                decreases len - i,
            {
                payload.push(bytes[start + i]);
                i = i + 1;
            }
            assert(payload@ =~= tail.subrange(4, 4 + len));
            assert(bytes@.skip(start + len) =~= tail.skip(4 + len));
            Ok(Frame { payload, next: start + len })
        },
    }
}

/// Four header bytes announce the length that was put into them.
pub proof fn law_length_round_trip(len: u32)
    ensures
        length_bytes(len).len() == 4,
        announced(length_bytes(len)) == len,
{
}

/// What was written is what is read, whatever follows it on the stream.
pub proof fn law_frame_round_trip(payload: Seq<u8>, rest: Seq<u8>)
    requires
        payload.len() <= MAX_FRAME_SIZE,
    ensures
        read_frame(frame(payload) + rest) == Ok::<(Seq<u8>, Seq<u8>), CodecError>((payload, rest)),
{
    let bytes = frame(payload) + rest;
    law_length_round_trip(payload.len() as u32);
    assert(bytes.take(4) =~= length_bytes(payload.len() as u32));
    assert(announced(bytes) == announced(bytes.take(4)));
    let end = 4 + payload.len() as int;
    assert(bytes.subrange(4, end) =~= payload);
    assert(bytes.skip(end) =~= rest);
}

/// A payload over the maximum is refused with its length, and nothing behind
/// the header is looked at.
pub proof fn law_oversized_frame_is_refused(payload: Seq<u8>, rest: Seq<u8>)
    requires
        MAX_FRAME_SIZE < payload.len() <= u32::MAX,
    ensures
        read_frame(length_bytes(payload.len() as u32) + rest) == Err::<
            (Seq<u8>, Seq<u8>),
            CodecError,
        >(CodecError::FrameTooLarge { size: payload.len() as u32 }),
{
    let bytes = length_bytes(payload.len() as u32) + rest;
    law_length_round_trip(payload.len() as u32);
    assert(bytes.take(4) =~= length_bytes(payload.len() as u32));
    assert(announced(bytes) == announced(bytes.take(4)));
}

/// A stream of frames is read back payload by payload, in order, and then
/// closes cleanly.
pub proof fn law_stream_round_trip(payloads: Seq<Seq<u8>>)
    requires
        forall|i: int| 0 <= i < payloads.len() ==> #[trigger] payloads[i].len() <= MAX_FRAME_SIZE,
    ensures
        read_stream(stream(payloads)) == (payloads, CodecError::ConnectionClosed),
    decreases payloads.len(),
{
    if payloads.len() == 0 {
        assert(payloads =~= Seq::empty());
    } else {
        let rest = stream(payloads.skip(1));
        assert forall|i: int| 0 <= i < payloads.skip(1).len() implies #[trigger] payloads.skip(
            1,
        )[i].len() <= MAX_FRAME_SIZE by {
            assert(payloads.skip(1)[i] == payloads[i + 1]);
        }
        law_stream_round_trip(payloads.skip(1));
        law_frame_round_trip(payloads[0], rest);
        law_length_round_trip(payloads[0].len() as u32);
        assert(stream(payloads).len() > rest.len());
        assert(seq![payloads[0]] + payloads.skip(1) =~= payloads);
    }
}

/// A stream that is cut off inside a frame gives an error, never a payload.
pub proof fn law_cut_frame_gives_no_payload(payload: Seq<u8>, kept: int)
    requires
        payload.len() <= MAX_FRAME_SIZE,
        0 <= kept < frame(payload).len(),
    ensures
        read_frame(frame(payload).take(kept)) == Err::<(Seq<u8>, Seq<u8>), CodecError>(
            if kept < 4 {
                CodecError::ConnectionClosed
            } else {
                CodecError::UnexpectedEof
            },
        ),
{
    law_length_round_trip(payload.len() as u32);
    let cut = frame(payload).take(kept);
    if kept >= 4 {
        assert(cut.take(4) =~= length_bytes(payload.len() as u32));
        assert(announced(cut) == announced(cut.take(4)));
    }
}

/// The header holds the length digit by digit to the base 256, the least significant first.
pub proof fn law_length_is_little_endian(len: u32)
    ensures
        ({
            let b = length_bytes(len);
            &&& b.len() == 4
            &&& b[0] + 256 * (b[1] + 256 * (b[2] + 256 * b[3])) == len
        }),
{
}

/// A frame is four bytes longer than its payload and ends with it.
pub proof fn law_frame_ends_with_its_payload(payload: Seq<u8>)
    ensures
        frame(payload).len() == payload.len() + 4,
        frame(payload).skip(4) == payload,
{
    assert(frame(payload).skip(4) =~= payload);
}

/// The limit of a frame is one mebibyte: a length up to it is accepted, one above refused.
pub proof fn law_frame_limit(len: u32, rest: Seq<u8>)
    ensures
        len <= 1048576 ==> !(read_frame(length_bytes(len) + rest) matches Err(
            CodecError::FrameTooLarge { .. },
        )),
        len > 1048576 ==> read_frame(length_bytes(len) + rest) == Err::<
            (Seq<u8>, Seq<u8>),
            CodecError,
        >(CodecError::FrameTooLarge { size: len }),
{
    let bytes = length_bytes(len) + rest;
    law_length_round_trip(len);
    assert(bytes.take(4) =~= length_bytes(len));
    assert(announced(bytes) == announced(bytes.take(4)));
}

} // verus!
