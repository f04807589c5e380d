use vstd::prelude::*;
use vstd::string::StringSliceAdditionalSpecFns;

verus! {

/// Message type of a frame that asks a peer to run a prompt.
pub const REQUEST_TYPE: u8 = 2;

/// Message type of a frame that carries a peer's result.
pub const RESPONSE_TYPE: u8 = 3;

/// Bytes in a frame header: one type byte and a four-byte length.
pub const HEADER_LEN: usize = 5;

/// What can be wrong with a frame on the peer link.
#[derive(Clone, Copy, Debug, PartialEq, Eq, Structural)]
pub enum FrameError {
    /// Fewer bytes arrived than the header or the declared length requires.
    Truncated,
    /// The first byte is not the message type this role accepts.
    UnexpectedType(u8),
    /// The payload does not fit in a four-byte length.
    PayloadTooLarge,
}

/// The four little-endian bytes of `n`.
pub open spec fn le32(n: u32) -> Seq<u8> {
    seq![
        (n % 256) as u8,
        ((n / 256) % 256) as u8,
        ((n / 65536) % 256) as u8,
        ((n / 16777216) % 256) as u8,
    ]
}

/// The number that four little-endian bytes stand for.
pub open spec fn le32_value(b: Seq<u8>) -> int {
    b[0] + 256 * b[1] + 65536 * b[2] + 16777216 * b[3]
}

/// A frame: the type byte, the payload's length in little-endian, the payload.
pub open spec fn frame(kind: u8, payload: Seq<u8>) -> Seq<u8> {
    seq![kind] + le32(payload.len() as u32) + payload
}

/// The length a well-typed header declares.
pub open spec fn declared_len(bytes: Seq<u8>) -> int {
    le32_value(bytes.subrange(1, 5))
}

/// The outcome of reading a header of type `expected` from `bytes`.
pub open spec fn header_outcome(expected: u8, bytes: Seq<u8>) -> Result<u32, FrameError> {
    if bytes.len() < 5 {
        Err(FrameError::Truncated)
    } else if bytes[0] != expected {
        Err(FrameError::UnexpectedType(bytes[0]))
    } else {
        Ok(declared_len(bytes) as u32)
    }
}

/// The outcome of reading one whole frame of type `expected` from `bytes`.
pub open spec fn frame_outcome(expected: u8, bytes: Seq<u8>) -> Result<Seq<u8>, FrameError> {
    match header_outcome(expected, bytes) {
        Err(e) => Err(e),
        Ok(n) => if bytes.len() < 5 + n {
            Err(FrameError::Truncated)
        } else {
            Ok(bytes.subrange(5, 5 + n))
        },
    }
}

proof fn lemma_le32_round_trip(n: u32)
    ensures
        le32(n).len() == 4,
        le32_value(le32(n)) == n,
{
    assert(le32_value(le32(n)) == n) by (nonlinear_arith);
}

/// Writes `n` as four little-endian bytes.
pub fn le32_bytes(n: u32) -> (r: [u8; 4])
    ensures
        r@ == le32(n),
{
    let r = [
        (n % 256) as u8,
        ((n / 256) % 256) as u8,
        ((n / 65536) % 256) as u8,
        ((n / 16777216) % 256) as u8,
    ];
    assert(r@ =~= le32(n));
    r
}

/// Frames `payload` under the message type `kind`.
pub fn encode_frame(kind: u8, payload: &[u8]) -> (r: Result<Vec<u8>, FrameError>)
    ensures
        r is Err <==> payload@.len() > u32::MAX,
        r is Err ==> r->Err_0 == FrameError::PayloadTooLarge,
        r is Ok ==> r->Ok_0@ == frame(kind, payload@),
{
    if payload.len() > 0xffff_ffffusize {
        return Err(FrameError::PayloadTooLarge);
    }
    let len = le32_bytes(payload.len() as u32);
    let mut out: Vec<u8> = Vec::new();
    out.push(kind);
    out.extend_from_slice(&len);
    out.extend_from_slice(payload);
    assert(out@ =~= frame(kind, payload@));
    Ok(out)
}

/// The frame that asks a peer to run `prompt`.
pub fn encode_request(prompt: &str) -> (r: Result<Vec<u8>, FrameError>)
    ensures
        r is Err <==> prompt.spec_bytes().len() > u32::MAX,
        r is Ok ==> r->Ok_0@ == frame(REQUEST_TYPE, prompt.spec_bytes()),
{
    encode_frame(REQUEST_TYPE, prompt.as_bytes())
}

/// The frame that carries a peer's serialized result.
pub fn encode_response(data: &[u8]) -> (r: Result<Vec<u8>, FrameError>)
    ensures
        r is Err <==> data@.len() > u32::MAX,
        r is Ok ==> r->Ok_0@ == frame(RESPONSE_TYPE, data@),
{
    encode_frame(RESPONSE_TYPE, data)
}

/// Reads a frame header that must carry the message type `expected`, and
/// returns the payload length it declares.
///
/// A header shorter than five bytes is truncated; a header of any other type
/// is refused, so the caller closes the connection without answering.
pub fn read_header(expected: u8, bytes: &[u8]) -> (r: Result<u32, FrameError>)
    ensures
        r == header_outcome(expected, bytes@),
{
    if bytes.len() < HEADER_LEN {
        return Err(FrameError::Truncated);
    }
    if bytes[0] != expected {
        return Err(FrameError::UnexpectedType(bytes[0]));
    }
    let n: u32 = bytes[1] as u32 + 256 * (bytes[2] as u32) + 65536 * (bytes[3] as u32)
        + 16777216 * (bytes[4] as u32);
    assert(bytes@.subrange(1, 5)[0] == bytes@[1]);
    assert(bytes@.subrange(1, 5)[3] == bytes@[4]);
    Ok(n)
}

/// Reads one whole frame of type `expected` and returns its payload.
///
/// Fewer payload bytes than the header declares is a truncated frame; bytes
/// after the payload are not part of the frame.
pub fn decode_frame(expected: u8, bytes: &[u8]) -> (r: Result<Vec<u8>, FrameError>)
    ensures
        r is Ok <==> frame_outcome(expected, bytes@) is Ok,
        r is Ok ==> r->Ok_0@ == frame_outcome(expected, bytes@)->Ok_0,
        r is Err ==> frame_outcome(expected, bytes@) == Err::<Seq<u8>, FrameError>(r->Err_0),
{
    let n = read_header(expected, bytes)?;
    if bytes.len() - HEADER_LEN < n as usize {
        return Err(FrameError::Truncated);
    }
    let end = HEADER_LEN + n as usize;
    let mut payload: Vec<u8> = Vec::new();
    payload.extend_from_slice(&bytes[HEADER_LEN..end]);
    assert(payload@ =~= bytes@.subrange(5, end as int));
    Ok(payload)
}

/// Framing then reading gives back the payload.
pub proof fn lemma_frame_round_trip(kind: u8, payload: Seq<u8>)
    requires
        payload.len() <= u32::MAX,
    ensures
        frame_outcome(kind, frame(kind, payload)) == Ok::<Seq<u8>, FrameError>(payload),
{
    let f = frame(kind, payload);
    lemma_le32_round_trip(payload.len() as u32);
    assert(f.subrange(1, 5) =~= le32(payload.len() as u32));
    assert(f.subrange(5, 5 + payload.len() as int) =~= payload);
}

/// A frame whose first byte is not the expected type is refused, whatever follows.
pub proof fn lemma_foreign_type_refused(expected: u8, bytes: Seq<u8>)
    requires
        bytes.len() >= 1,
        bytes[0] != expected,
    ensures
        frame_outcome(expected, bytes) is Err,
        bytes.len() >= 5 ==> frame_outcome(expected, bytes) == Err::<Seq<u8>, FrameError>(
            FrameError::UnexpectedType(bytes[0]),
        ),
{
}

/// A frame that declares more payload bytes than arrived is truncated.
pub proof fn lemma_short_payload_truncated(expected: u8, bytes: Seq<u8>)
    requires
        bytes.len() >= 5,
        bytes[0] == expected,
        bytes.len() < 5 + declared_len(bytes),
    ensures
        frame_outcome(expected, bytes) == Err::<Seq<u8>, FrameError>(FrameError::Truncated),
{
    let b = bytes.subrange(1, 5);
    assert(0 <= declared_len(bytes) <= u32::MAX) by {
        assert(0 <= b[0] <= 255 && 0 <= b[1] <= 255 && 0 <= b[2] <= 255 && 0 <= b[3] <= 255);
    }
}

} // verus!
