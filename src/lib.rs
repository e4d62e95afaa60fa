//! Framing and message codec for small calculator RPCs exchanged with a
//! real-time peer over a raw byte channel, with trace correlation carried
//! across the boundary.
use vstd::prelude::*;

pub mod crc;
pub mod varint;
pub mod proto;
pub mod wire;
pub mod otel_trace;

pub use crate::crc::crc32;
use crate::proto::{
    CalcRequest, CalcResponse, RequestModel, ResponseModel, TraceCtx, request_bytes,
    response_bytes, request_decoded, response_decoded, trace_view, trace_wf,
    encode_request_payload, encode_response_payload, decode_request_payload,
    decode_response_payload, lemma_request_bytes_len, lemma_response_bytes_len,
    lemma_request_payload_round_trip, lemma_response_payload_round_trip,
};
use crate::wire::{
    MsgType, WireError, frame_bytes, frame_parsed, le16_at, build_frame, parse_and_verify,
    lemma_frame_round_trip, lemma_one_byte_change_detected, PROTO_VERSION, SYNC, TYPE_REQ,
    TYPE_RESP,
};

verus! {

/// Why a frame did not decode to the message asked for.
#[derive(Clone, Copy, Debug, PartialEq, Eq, Structural)]
pub enum FrameError {
    /// Fewer than ten bytes.
    ShortHeader,
    /// The first two bytes are not the sync marker; carries what they read as.
    BadSync(u16),
    /// A version this codec does not speak.
    UnknownVersion(u8),
    /// The declared length does not account for exactly the bytes present.
    Length,
    /// The checksum does not match.
    Crc,
    /// A type byte other than request or response.
    UnknownType(u8),
    /// A known type, but not the one asked for.
    Type,
    /// The payload does not follow the message schema.
    Decode,
}

pub open spec fn frame_error(e: WireError) -> FrameError {
    match e {
        WireError::Short => FrameError::ShortHeader,
        WireError::BadSync(v) => FrameError::BadSync(v),
        WireError::UnknownVersion(v) => FrameError::UnknownVersion(v),
        WireError::BadLen => FrameError::Length,
        WireError::BadCrc => FrameError::Crc,
        WireError::UnknownType(t) => FrameError::UnknownType(t),
    }
}

fn to_frame_error(e: WireError) -> (r: FrameError)
    ensures
        r == frame_error(e),
{
    match e {
        WireError::Short => FrameError::ShortHeader,
        WireError::BadSync(v) => FrameError::BadSync(v),
        WireError::UnknownVersion(v) => FrameError::UnknownVersion(v),
        WireError::BadLen => FrameError::Length,
        WireError::BadCrc => FrameError::Crc,
        WireError::UnknownType(t) => FrameError::UnknownType(t),
    }
}

/// The frame that carries a request.
pub open spec fn request_frame(m: RequestModel) -> Seq<u8> {
    frame_bytes(PROTO_VERSION, TYPE_REQ, request_bytes(m))
}

/// The frame that carries a response.
pub open spec fn response_frame(m: ResponseModel) -> Seq<u8> {
    frame_bytes(PROTO_VERSION, TYPE_RESP, response_bytes(m))
}

/// The payload of a frame that parses and has type `typ`.
pub open spec fn frame_payload(f: Seq<u8>, typ: u8) -> Result<Seq<u8>, FrameError> {
    match frame_parsed(f) {
        Err(e) => Err(frame_error(e)),
        Ok((p, _, t)) => if t != typ {
            Err(FrameError::Type)
        } else {
            Ok(p)
        },
    }
}

/// What a frame decodes to when a request is expected.
pub open spec fn request_frame_decoded(f: Seq<u8>) -> Result<RequestModel, FrameError> {
    match frame_payload(f, TYPE_REQ) {
        Err(e) => Err(e),
        Ok(p) => match request_decoded(p) {
            Some(m) => Ok(m),
            None => Err(FrameError::Decode),
        },
    }
}

/// What a frame decodes to when a response is expected.
pub open spec fn response_frame_decoded(f: Seq<u8>) -> Result<ResponseModel, FrameError> {
    match frame_payload(f, TYPE_RESP) {
        Err(e) => Err(e),
        Ok(p) => match response_decoded(p) {
            Some(m) => Ok(m),
            None => Err(FrameError::Decode),
        },
    }
}

/// Checks a frame and hands back its payload if it has the expected type.
fn split_payload(frame: &[u8], expect: MsgType) -> (r: Result<Vec<u8>, FrameError>)
    ensures
        match r {
            Ok(p) => frame_payload(frame@, expect.spec_code()) == Ok::<_, FrameError>(p@),
            Err(e) => frame_payload(frame@, expect.spec_code()) == Err::<Seq<u8>, _>(e),
        },
{
    let (payload, _ver, typ) = match parse_and_verify(frame) {
        Ok(x) => x,
        Err(e) => return Err(to_frame_error(e)),
    };
    if typ != expect.code() {
        return Err(FrameError::Type);
    }
    Ok(payload)
}

/// Encodes a request and frames it.
pub fn encode_calc_request(a: i32, b: i32, trace: Option<TraceCtx>) -> (r: Vec<u8>)
    requires
        trace_wf(trace_view(trace)),
    ensures
        r@ == request_frame(RequestModel { a, b, trace: trace_view(trace) }),
{
    let msg = CalcRequest { a, b, trace };
    let payload = encode_request_payload(&msg);
    proof {
        lemma_request_bytes_len(msg@);
    }
    build_frame(PROTO_VERSION, TYPE_REQ, payload.as_slice())
}

/// Encodes a response and frames it.
pub fn encode_calc_response(resp: &CalcResponse) -> (r: Vec<u8>)
    requires
        trace_wf(resp@.trace),
    ensures
        r@ == response_frame(resp@),
{
    let payload = encode_response_payload(resp);
    proof {
        lemma_response_bytes_len(resp@);
    }
    build_frame(PROTO_VERSION, TYPE_RESP, payload.as_slice())
}

/// Checks a frame and decodes the request it carries.
pub fn decode_calc_request(frame: &[u8]) -> (r: Result<CalcRequest, FrameError>)
    ensures
        match r {
            Ok(m) => request_frame_decoded(frame@) == Ok::<_, FrameError>(m@),
            Err(e) => request_frame_decoded(frame@) == Err::<RequestModel, _>(e),
        },
{
    let payload = split_payload(frame, MsgType::CalcReq)?;
    match decode_request_payload(payload.as_slice()) {
        Ok(m) => Ok(m),
        Err(_) => Err(FrameError::Decode),
    }
}

/// Checks a frame and decodes the response it carries.
pub fn decode_calc_response(frame: &[u8]) -> (r: Result<CalcResponse, FrameError>)
    ensures
        match r {
            Ok(m) => response_frame_decoded(frame@) == Ok::<_, FrameError>(m@),
            Err(e) => response_frame_decoded(frame@) == Err::<ResponseModel, _>(e),
        },
{
    let payload = split_payload(frame, MsgType::CalcResp)?;
    match decode_response_payload(payload.as_slice()) {
        Ok(m) => Ok(m),
        Err(_) => Err(FrameError::Decode),
    }
}

/// The frame layout version that `guard_header` accepts.
pub const FRAME_VERSION: u8 = 0x01;

/// What the ten header bytes say, checked without the checksum: version, type
/// and declared length, or the first of size, sync, version and type that fails.
pub open spec fn header_guarded(h: Seq<u8>) -> Result<(u8, u8, u16), FrameError> {
    if h.len() < 10 {
        Err(FrameError::ShortHeader)
    } else if le16_at(h, 0) != SYNC {
        Err(FrameError::BadSync(le16_at(h, 0)))
    } else if h[2] != FRAME_VERSION {
        Err(FrameError::UnknownVersion(h[2]))
    } else if h[3] != TYPE_REQ && h[3] != TYPE_RESP {
        Err(FrameError::UnknownType(h[3]))
    } else {
        Ok((h[2], h[3], le16_at(h, 4)))
    }
}

/// Checks the header of a frame: sync marker, version and type.
pub fn guard_header(hdr: &[u8]) -> (r: Result<(u8, u8, u16), FrameError>)
    ensures
        r == header_guarded(hdr@),
{
    if hdr.len() < 10 {
        return Err(FrameError::ShortHeader);
    }
    let sync = (hdr[0] as u16) | ((hdr[1] as u16) << 8u16);
    if sync != SYNC {
        return Err(FrameError::BadSync(sync));
    }
    let ver = hdr[2];
    if ver != FRAME_VERSION {
        return Err(FrameError::UnknownVersion(ver));
    }
    let typ = hdr[3];
    if typ != TYPE_REQ && typ != TYPE_RESP {
        return Err(FrameError::UnknownType(typ));
    }
    let len = (hdr[4] as u16) | ((hdr[5] as u16) << 8u16);
    Ok((ver, typ, len))
}

/// A request frame without trace, beside the trace id and flags it carries:
/// none and zero.
pub fn encode_calc_request_with_trace(a: i32, b: i32) -> (r: (Vec<u8>, Vec<u8>, u64))
    ensures
        r.0@ == request_frame(RequestModel { a, b, trace: None }),
        r.1@.len() == 0,
        r.2 == 0,
{
    (encode_calc_request(a, b, None), Vec::new(), 0)
}

// ---- laws ------------------------------------------------------------------

/// Every request, with no trace or a well-formed one, decodes from its frame
/// to itself.
pub proof fn lemma_request_round_trip(m: RequestModel)
    requires
        trace_wf(m.trace),
    ensures
        request_frame_decoded(request_frame(m)) == Ok::<_, FrameError>(m),
{
    lemma_request_bytes_len(m);
    lemma_frame_round_trip(TYPE_REQ, request_bytes(m));
    lemma_request_payload_round_trip(m);
}

/// Every response, with no trace or a well-formed one, decodes from its frame
/// to itself.
pub proof fn lemma_response_round_trip(m: ResponseModel)
    requires
        trace_wf(m.trace),
    ensures
        response_frame_decoded(response_frame(m)) == Ok::<_, FrameError>(m),
{
    lemma_response_bytes_len(m);
    lemma_frame_round_trip(TYPE_RESP, response_bytes(m));
    lemma_response_payload_round_trip(m);
}

/// A frame that decodes, with any one byte changed, decodes as neither a
/// request nor a response.
pub proof fn lemma_corrupted_frame_rejected(f: Seq<u8>, g: Seq<u8>, i: int)
    requires
        request_frame_decoded(f) is Ok || response_frame_decoded(f) is Ok,
        g.len() == f.len(),
        0 <= i < f.len(),
        g[i] != f[i],
        forall|j: int| 0 <= j < f.len() && j != i ==> g[j] == f[j],
    ensures
        request_frame_decoded(g) is Err,
        response_frame_decoded(g) is Err,
{
    lemma_one_byte_change_detected(f, g, i);
}

} // verus!
