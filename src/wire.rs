//! The frame around a payload:
//! `[sync: 2][version: 1][type: 1][length: 2][crc32: 4][payload: length]`,
//! integers little-endian, the CRC taken over version, type, length and payload.
use vstd::prelude::*;
use crate::crc::{
    crc32_of, crc32_feed, crc_register, lemma_crc_register_append, lemma_crc_register_one_byte,
};

pub use crate::crc::crc32;

verus! {

/// The marker that starts every frame.
pub const SYNC: u16 = 0xA55A;

/// The frame layout version this codec speaks.
pub const PROTO_VERSION: u8 = 1;

pub const VER: u8 = PROTO_VERSION;

/// Type byte of a request frame.
pub const TYPE_REQ: u8 = 1;

/// Type byte of a response frame.
pub const TYPE_RESP: u8 = 2;

/// Header bytes before the payload.
pub const HEADER_LEN: usize = 10;

/// The two kinds of message a frame can carry.
#[derive(Clone, Copy, Debug, PartialEq, Eq, Structural)]
pub enum MsgType {
    CalcReq,
    CalcResp,
}

impl MsgType {
    pub open spec fn spec_code(self) -> u8 {
        match self {
            MsgType::CalcReq => TYPE_REQ,
            MsgType::CalcResp => TYPE_RESP,
        }
    }

    /// The type byte of this kind of message.
    pub fn code(self) -> (r: u8)
        ensures
            r == self.spec_code(),
    {
        match self {
            MsgType::CalcReq => TYPE_REQ,
            MsgType::CalcResp => TYPE_RESP,
        }
    }
}

/// Why a frame was refused.
#[derive(Clone, Copy, Debug, PartialEq, Eq, Structural)]
pub enum WireError {
    /// Fewer than ten bytes.
    Short,
    /// The first two bytes are not the sync marker; carries what they read as.
    BadSync(u16),
    /// A version this codec does not speak.
    UnknownVersion(u8),
    /// The declared length does not account for exactly the bytes present.
    BadLen,
    /// The checksum does not match.
    BadCrc,
    /// A type byte other than request or response.
    UnknownType(u8),
}

pub open spec fn le16_at(s: Seq<u8>, i: int) -> u16 {
    (s[i] as u16) | ((s[i + 1] as u16) << 8u16)
}

pub open spec fn le32_at(s: Seq<u8>, i: int) -> u32 {
    (s[i] as u32) | ((s[i + 1] as u32) << 8u32) | ((s[i + 2] as u32) << 16u32) | ((s[i + 3] as u32)
        << 24u32)
}

pub open spec fn le16_bytes(v: u16) -> Seq<u8> {
    seq![(v & 0xff) as u8, (v >> 8u16) as u8]
}

pub open spec fn le32_bytes(v: u32) -> Seq<u8> {
    seq![
        (v & 0xff) as u8,
        ((v >> 8u32) & 0xff) as u8,
        ((v >> 16u32) & 0xff) as u8,
        (v >> 24u32) as u8,
    ]
}

/// Version, type and length: the header bytes that the checksum covers.
pub open spec fn header_fields(ver: u8, typ: u8, len: u16) -> Seq<u8> {
    seq![ver, typ] + le16_bytes(len)
}

/// The bytes the checksum is taken over.
pub open spec fn protected(ver: u8, typ: u8, payload: Seq<u8>) -> Seq<u8> {
    header_fields(ver, typ, payload.len() as u16) + payload
}

/// The frame that carries `payload`.
pub open spec fn frame_bytes(ver: u8, typ: u8, payload: Seq<u8>) -> Seq<u8> {
    le16_bytes(SYNC) + header_fields(ver, typ, payload.len() as u16) + le32_bytes(
        crc32_of(protected(ver, typ, payload)),
    ) + payload
}

/// The declared payload length of a frame.
pub open spec fn declared_len(f: Seq<u8>) -> int {
    le16_at(f, 4) as int
}

/// What the checksum of a frame of the right length should be.
pub open spec fn expected_crc(f: Seq<u8>) -> u32 {
    crc32_of(f.subrange(2, 6) + f.subrange(10, f.len() as int))
}

/// What a frame reads as: payload, version and type, or the first check it
/// fails, in this order: size, sync, version, length, checksum, type.
pub open spec fn frame_parsed(f: Seq<u8>) -> Result<(Seq<u8>, u8, u8), WireError> {
    if f.len() < 10 {
        Err(WireError::Short)
    } else if le16_at(f, 0) != SYNC {
        Err(WireError::BadSync(le16_at(f, 0)))
    } else if f[2] != PROTO_VERSION {
        Err(WireError::UnknownVersion(f[2]))
    } else if f.len() != 10 + declared_len(f) {
        Err(WireError::BadLen)
    } else if le32_at(f, 6) != expected_crc(f) {
        Err(WireError::BadCrc)
    } else if f[3] != TYPE_REQ && f[3] != TYPE_RESP {
        Err(WireError::UnknownType(f[3]))
    } else {
        Ok((f.subrange(10, f.len() as int), f[2], f[3]))
    }
}

pub proof fn lemma_le16_round_trip(v: u16)
    ensures
        le16_at(le16_bytes(v), 0) == v,
{
    let b0 = (v & 0xff) as u8;
    let b1 = (v >> 8u16) as u8;
    assert((b0 as u16) | ((b1 as u16) << 8u16) == v) by (bit_vector)
        requires
            b0 == (v & 0xff) as u8,
            b1 == (v >> 8u16) as u8,
    ;
}

pub proof fn lemma_le32_round_trip(v: u32)
    ensures
        le32_at(le32_bytes(v), 0) == v,
{
    let b0 = (v & 0xff) as u8;
    let b1 = ((v >> 8u32) & 0xff) as u8;
    let b2 = ((v >> 16u32) & 0xff) as u8;
    let b3 = (v >> 24u32) as u8;
    assert((b0 as u32) | ((b1 as u32) << 8u32) | ((b2 as u32) << 16u32) | ((b3 as u32) << 24u32)
        == v) by (bit_vector)
        requires
            b0 == (v & 0xff) as u8,
            b1 == ((v >> 8u32) & 0xff) as u8,
            b2 == ((v >> 16u32) & 0xff) as u8,
            b3 == (v >> 24u32) as u8,
    ;
}

fn push_le16(out: &mut Vec<u8>, v: u16)
    ensures
        final(out)@ == old(out)@ + le16_bytes(v),
{
    out.push((v & 0xff) as u8);
    out.push((v >> 8u16) as u8);
    assert(final(out)@ =~= old(out)@ + le16_bytes(v));
}

fn push_le32(out: &mut Vec<u8>, v: u32)
    ensures
        final(out)@ == old(out)@ + le32_bytes(v),
{
    out.push((v & 0xff) as u8);
    out.push(((v >> 8u32) & 0xff) as u8);
    out.push(((v >> 16u32) & 0xff) as u8);
    out.push((v >> 24u32) as u8);
    assert(final(out)@ =~= old(out)@ + le32_bytes(v));
}

fn read_le16(s: &[u8], i: usize) -> (r: u16)
    requires
        i + 2 <= s@.len(),
    ensures
        r == le16_at(s@, i as int),
{
    (s[i] as u16) | ((s[i + 1] as u16) << 8u16)
}

fn read_le32(s: &[u8], i: usize) -> (r: u32)
    requires
        i + 4 <= s@.len(),
    ensures
        r == le32_at(s@, i as int),
{
    (s[i] as u32) | ((s[i + 1] as u32) << 8u32) | ((s[i + 2] as u32) << 16u32) | ((s[i + 3] as u32)
        << 24u32)
}

/// CRC-32 of `head + body`, fed in two pieces.
fn crc32_of_parts(head: &[u8], body: &[u8]) -> (r: u32)
    ensures
        r == crc32_of(head@ + body@),
{
    let st = crc32_feed(0xFFFF_FFFF, head);
    let st = crc32_feed(st, body);
    proof {
        lemma_crc_register_append(0xFFFF_FFFF, head@, body@);
    }
    !st
}

/// Wraps `payload` in a frame of the given version and type.
pub fn build_frame(ver: u8, typ: u8, payload: &[u8]) -> (r: Vec<u8>)
    requires
        payload@.len() <= u16::MAX,
    ensures
        r@ == frame_bytes(ver, typ, payload@),
{
    let len = payload.len() as u16;
    let mut head: Vec<u8> = Vec::with_capacity(4);
    head.push(ver);
    head.push(typ);
    push_le16(&mut head, len);
    assert(head@ =~= header_fields(ver, typ, len));
    let crc = crc32_of_parts(head.as_slice(), payload);
    let mut out: Vec<u8> = Vec::with_capacity(HEADER_LEN + payload.len());
    push_le16(&mut out, SYNC);
    out.extend_from_slice(head.as_slice());
    push_le32(&mut out, crc);
    out.extend_from_slice(payload);
    assert(out@ =~= frame_bytes(ver, typ, payload@));
    out
}

/// Checks a frame and hands back its payload, version and type.
pub fn parse_and_verify(frame: &[u8]) -> (r: Result<(Vec<u8>, u8, u8), WireError>)
    ensures
        match r {
            Ok((p, v, t)) => frame_parsed(frame@) == Ok::<_, WireError>((p@, v, t)),
            Err(e) => frame_parsed(frame@) == Err::<(Seq<u8>, u8, u8), _>(e),
        },
{
    if frame.len() < HEADER_LEN {
        return Err(WireError::Short);
    }
    let sync = read_le16(frame, 0);
    if sync != SYNC {
        return Err(WireError::BadSync(sync));
    }
    let ver = frame[2];
    if ver != PROTO_VERSION {
        return Err(WireError::UnknownVersion(ver));
    }
    let len = read_le16(frame, 4) as usize;
    if frame.len() - HEADER_LEN != len {
        return Err(WireError::BadLen);
    }
    let got = read_le32(frame, 6);
    let head = vstd::slice::slice_subrange(frame, 2, 6);
    let payload = vstd::slice::slice_subrange(frame, HEADER_LEN, frame.len());
    let want = crc32_of_parts(head, payload);
    if got != want {
        return Err(WireError::BadCrc);
    }
    let typ = frame[3];
    if typ != TYPE_REQ && typ != TYPE_RESP {
        return Err(WireError::UnknownType(typ));
    }
    Ok((vstd::slice::slice_to_vec(payload), ver, typ))
}

// ---- laws ------------------------------------------------------------------

proof fn lemma_le16_one_byte(a0: u8, a1: u8, b0: u8, b1: u8)
    requires
        (a0 != b0 && a1 == b1) || (a0 == b0 && a1 != b1),
    ensures
        (a0 as u16) | ((a1 as u16) << 8u16) != (b0 as u16) | ((b1 as u16) << 8u16),
{
    assert((a0 != b0 && a1 == b1) || (a0 == b0 && a1 != b1) ==> (a0 as u16) | ((a1 as u16) << 8u16)
        != (b0 as u16) | ((b1 as u16) << 8u16)) by (bit_vector);
}

proof fn lemma_le32_differs(a0: u8, a1: u8, a2: u8, a3: u8, b0: u8, b1: u8, b2: u8, b3: u8)
    requires
        a0 != b0 || a1 != b1 || a2 != b2 || a3 != b3,
    ensures
        (a0 as u32) | ((a1 as u32) << 8u32) | ((a2 as u32) << 16u32) | ((a3 as u32) << 24u32) != (
        b0 as u32) | ((b1 as u32) << 8u32) | ((b2 as u32) << 16u32) | ((b3 as u32) << 24u32),
{
    assert(a0 != b0 || a1 != b1 || a2 != b2 || a3 != b3 ==> (a0 as u32) | ((a1 as u32) << 8u32) | (
    (a2 as u32) << 16u32) | ((a3 as u32) << 24u32) != (b0 as u32) | ((b1 as u32) << 8u32) | ((
    b2 as u32) << 16u32) | ((b3 as u32) << 24u32)) by (bit_vector);
}

/// What a built frame holds, field by field.
pub proof fn lemma_frame_fields(ver: u8, typ: u8, p: Seq<u8>)
    requires
        p.len() <= u16::MAX,
    ensures
        ({
            let f = frame_bytes(ver, typ, p);
            &&& f.len() == 10 + p.len()
            &&& le16_at(f, 0) == SYNC
            &&& f[2] == ver
            &&& f[3] == typ
            &&& declared_len(f) == p.len()
            &&& le32_at(f, 6) == crc32_of(protected(ver, typ, p))
            &&& expected_crc(f) == crc32_of(protected(ver, typ, p))
            &&& f.subrange(10, f.len() as int) == p
        }),
{
    let f = frame_bytes(ver, typ, p);
    let len = p.len() as u16;
    let crc = crc32_of(protected(ver, typ, p));
    lemma_le16_round_trip(SYNC);
    lemma_le16_round_trip(len);
    lemma_le32_round_trip(crc);
    let sb = le16_bytes(SYNC);
    let lb = le16_bytes(len);
    let cb = le32_bytes(crc);
    assert(f[0] == sb[0] && f[1] == sb[1]);
    assert(f[4] == lb[0] && f[5] == lb[1]);
    assert(f[6] == cb[0] && f[7] == cb[1] && f[8] == cb[2] && f[9] == cb[3]);
    assert(f.subrange(2, 6) =~= header_fields(ver, typ, len));
    assert(f.subrange(10, f.len() as int) =~= p);
}

/// A frame built with the current version and a known type parses back to its
/// payload, version and type.
pub proof fn lemma_frame_round_trip(typ: u8, p: Seq<u8>)
    requires
        p.len() <= u16::MAX,
        typ == TYPE_REQ || typ == TYPE_RESP,
    ensures
        frame_parsed(frame_bytes(PROTO_VERSION, typ, p)) == Ok::<_, WireError>((p, PROTO_VERSION, typ)),
{
    lemma_frame_fields(PROTO_VERSION, typ, p);
}

/// Changing any single byte of a frame that parses (so any single bit of its
/// payload, length field or checksum) makes it fail to parse.
pub proof fn lemma_one_byte_change_detected(f: Seq<u8>, g: Seq<u8>, i: int)
    requires
        frame_parsed(f) is Ok,
        g.len() == f.len(),
        0 <= i < f.len(),
        g[i] != f[i],
        forall|j: int| 0 <= j < f.len() && j != i ==> g[j] == f[j],
    ensures
        frame_parsed(g) is Err,
{
    if i < 2 {
        lemma_le16_one_byte(g[0], g[1], f[0], f[1]);
    } else if i == 2 {
    } else if i == 4 || i == 5 {
        lemma_le16_one_byte(g[4], g[5], f[4], f[5]);
    } else if 6 <= i < 10 {
        lemma_le32_differs(g[6], g[7], g[8], g[9], f[6], f[7], f[8], f[9]);
        assert(g.subrange(2, 6) =~= f.subrange(2, 6));
        assert(g.subrange(10, g.len() as int) =~= f.subrange(10, f.len() as int));
    } else {
        assert(le32_at(g, 6) == le32_at(f, 6));
        let pf = f.subrange(2, 6) + f.subrange(10, f.len() as int);
        let pg = g.subrange(2, 6) + g.subrange(10, g.len() as int);
        let k = if i == 3 {
            1
        } else {
            i - 6
        };
        assert(pf[k] == f[i] && pg[k] == g[i]);
        assert forall|j: int| 0 <= j < pf.len() && j != k implies pg[j] == pf[j] by {
            if j < 4 {
                assert(pf[j] == f[j + 2] && pg[j] == g[j + 2]);
            } else {
                assert(pf[j] == f[j + 6] && pg[j] == g[j + 6]);
            }
        }
        lemma_crc_register_one_byte(0xFFFF_FFFF, pf, pg, k);
        let rf = crc_register(0xFFFF_FFFF, pf);
        let rg = crc_register(0xFFFF_FFFF, pg);
        assert(rf != rg ==> !rf != !rg) by (bit_vector);
    }
}

/// A frame that parses, cut short: below ten bytes it is too short; from ten
/// bytes on its declared length no longer matches.
pub proof fn lemma_truncation_detected(f: Seq<u8>, n: int)
    requires
        frame_parsed(f) is Ok,
        0 <= n < f.len(),
    ensures
        n < 10 ==> frame_parsed(f.take(n)) == Err::<(Seq<u8>, u8, u8), _>(WireError::Short),
        n >= 10 ==> frame_parsed(f.take(n)) == Err::<(Seq<u8>, u8, u8), _>(WireError::BadLen),
{
    let g = f.take(n);
    if n >= 10 {
        assert(g[0] == f[0] && g[1] == f[1] && g[2] == f[2] && g[4] == f[4] && g[5] == f[5]);
    }
}

/// A frame of any other type than request or response, with a checksum that
/// matches, is refused for its type, and the error carries that type.
pub proof fn lemma_unknown_type_reported(typ: u8, p: Seq<u8>)
    requires
        p.len() <= u16::MAX,
        typ != TYPE_REQ,
        typ != TYPE_RESP,
    ensures
        frame_parsed(frame_bytes(PROTO_VERSION, typ, p)) == Err::<(Seq<u8>, u8, u8), _>(
            WireError::UnknownType(typ),
        ),
{
    lemma_frame_fields(PROTO_VERSION, typ, p);
}

/// A frame of another version is refused for its version, and the error carries
/// that version, though its checksum matches.
pub proof fn lemma_unknown_version_reported(ver: u8, typ: u8, p: Seq<u8>)
    requires
        p.len() <= u16::MAX,
        ver != PROTO_VERSION,
    ensures
        frame_parsed(frame_bytes(ver, typ, p)) == Err::<(Seq<u8>, u8, u8), _>(
            WireError::UnknownVersion(ver),
        ),
{
    lemma_frame_fields(ver, typ, p);
}

} // verus!
