//! The calculator messages and their protobuf-compatible payload encoding.
//!
//! Schema: `CalcRequest { a = 1 (int32), b = 2 (int32), trace = 3 (TraceCtx) }`,
//! `CalcResponse { result = 1 (int32), trace = 2 (TraceCtx) }`,
//! `TraceCtx { trace_id = 1 (bytes), span_id = 2 (bytes), flags = 3 (uint32) }`.
//! Scalars equal to zero and empty byte strings are left out when encoding and
//! read back as zero or empty; fields with unknown tags are skipped, groups
//! included; a repeated scalar keeps its last value, and a repeated trace field
//! is merged into the one before it, its identifier sizes checked once the whole
//! message is read.
use vstd::prelude::*;
use crate::varint::{
    varint_bytes, varint_at, varint_prefix, push_varint, read_varint, lemma_varint_round_trip,
};

verus! {

/// Distributed-trace identifiers carried beside a message.
#[derive(Clone, Debug, PartialEq, Eq)]
pub struct TraceCtx {
    pub trace_id: Vec<u8>,
    pub span_id: Vec<u8>,
    /// Bit 0: the trace is sampled.
    pub flags: u32,
}

#[derive(Clone, Debug, PartialEq, Eq)]
pub struct CalcRequest {
    pub a: i32,
    pub b: i32,
    pub trace: Option<TraceCtx>,
}

#[derive(Clone, Debug, PartialEq, Eq)]
pub struct CalcResponse {
    pub result: i32,
    pub trace: Option<TraceCtx>,
}

/// A `TraceCtx` as mathematical values.
pub struct TraceModel {
    pub trace_id: Seq<u8>,
    pub span_id: Seq<u8>,
    pub flags: u32,
}

impl TraceModel {
    /// A trace id of 16 bytes and a span id of 8.
    pub open spec fn wf(self) -> bool {
        self.trace_id.len() == 16 && self.span_id.len() == 8
    }
}

pub struct RequestModel {
    pub a: i32,
    pub b: i32,
    pub trace: Option<TraceModel>,
}

pub struct ResponseModel {
    pub result: i32,
    pub trace: Option<TraceModel>,
}

impl View for TraceCtx {
    type V = TraceModel;

    open spec fn view(&self) -> TraceModel {
        TraceModel { trace_id: self.trace_id@, span_id: self.span_id@, flags: self.flags }
    }
}

pub open spec fn trace_view(t: Option<TraceCtx>) -> Option<TraceModel> {
    match t {
        Some(t) => Some(t@),
        None => None,
    }
}

/// An absent trace, or one with identifiers of the right sizes.
pub open spec fn trace_wf(t: Option<TraceModel>) -> bool {
    match t {
        Some(t) => t.wf(),
        None => true,
    }
}

impl View for CalcRequest {
    type V = RequestModel;

    open spec fn view(&self) -> RequestModel {
        RequestModel { a: self.a, b: self.b, trace: trace_view(self.trace) }
    }
}

impl View for CalcResponse {
    type V = ResponseModel;

    open spec fn view(&self) -> ResponseModel {
        ResponseModel { result: self.result, trace: trace_view(self.trace) }
    }
}

/// A payload that does not follow the schema.
#[derive(Clone, Copy, Debug, PartialEq, Eq, Structural)]
pub enum DecodeError {
    Malformed,
}

// ---- encoding --------------------------------------------------------------

/// The key byte of a field: its tag and wire type (0 varint, 2 length-delimited).
pub open spec fn key_byte(tag: u8, wire_type: u8) -> u8 {
    (tag * 8 + wire_type) as u8
}

/// An int32 travels as the varint of its sign extension to 64 bits.
pub open spec fn int32_wire(v: i32) -> u64 {
    (v as i64) as u64
}

pub open spec fn int32_field(tag: u8, v: i32) -> Seq<u8> {
    if v == 0 {
        Seq::empty()
    } else {
        seq![key_byte(tag, 0)] + varint_bytes(int32_wire(v) as nat)
    }
}

pub open spec fn uint32_field(tag: u8, v: u32) -> Seq<u8> {
    if v == 0 {
        Seq::empty()
    } else {
        seq![key_byte(tag, 0)] + varint_bytes(v as nat)
    }
}

pub open spec fn delimited(tag: u8, c: Seq<u8>) -> Seq<u8> {
    seq![key_byte(tag, 2)] + varint_bytes(c.len()) + c
}

pub open spec fn bytes_field(tag: u8, c: Seq<u8>) -> Seq<u8> {
    if c.len() == 0 {
        Seq::empty()
    } else {
        delimited(tag, c)
    }
}

pub open spec fn trace_bytes(t: TraceModel) -> Seq<u8> {
    bytes_field(1, t.trace_id) + bytes_field(2, t.span_id) + uint32_field(3, t.flags)
}

pub open spec fn trace_field(tag: u8, t: Option<TraceModel>) -> Seq<u8> {
    match t {
        Some(t) => delimited(tag, trace_bytes(t)),
        None => Seq::empty(),
    }
}

pub open spec fn request_bytes(m: RequestModel) -> Seq<u8> {
    int32_field(1, m.a) + int32_field(2, m.b) + trace_field(3, m.trace)
}

pub open spec fn response_bytes(m: ResponseModel) -> Seq<u8> {
    int32_field(1, m.result) + trace_field(2, m.trace)
}

fn push_int32_field(out: &mut Vec<u8>, tag: u8, v: i32)
    requires
        1 <= tag <= 15,
    ensures
        final(out)@ == old(out)@ + int32_field(tag, v),
{
    if v != 0 {
        out.push(tag * 8);
        let w: u64 = #[verifier::truncate] ((v as i64) as u64);
        push_varint(out, w);
        assert(final(out)@ =~= old(out)@ + int32_field(tag, v));
    } else {
        assert(final(out)@ =~= old(out)@ + int32_field(tag, v));
    }
}

fn push_uint32_field(out: &mut Vec<u8>, tag: u8, v: u32)
    requires
        1 <= tag <= 15,
    ensures
        final(out)@ == old(out)@ + uint32_field(tag, v),
{
    if v != 0 {
        out.push(tag * 8);
        push_varint(out, v as u64);
    }
    assert(final(out)@ =~= old(out)@ + uint32_field(tag, v));
}

fn push_bytes(out: &mut Vec<u8>, c: &[u8])
    ensures
        final(out)@ == old(out)@ + c@,
{
    let ghost start = out@;
    let mut i: usize = 0;
    while i < c.len()
        invariant
            i <= c@.len(),
            out@ == start + c@.take(i as int),
        decreases c.len() - i,
    {
        out.push(c[i]);
        assert(c@.take(i + 1) =~= c@.take(i as int).push(c@[i as int]));
        i = i + 1;
    }
    assert(c@.take(i as int) =~= c@);
}

fn push_delimited(out: &mut Vec<u8>, tag: u8, c: &[u8])
    requires
        1 <= tag <= 15,
    ensures
        final(out)@ == old(out)@ + delimited(tag, c@),
{
    out.push(tag * 8 + 2);
    push_varint(out, c.len() as u64);
    push_bytes(out, c);
    assert(final(out)@ =~= old(out)@ + delimited(tag, c@));
}

fn push_bytes_field(out: &mut Vec<u8>, tag: u8, c: &[u8])
    requires
        1 <= tag <= 15,
    ensures
        final(out)@ == old(out)@ + bytes_field(tag, c@),
{
    if c.len() > 0 {
        push_delimited(out, tag, c);
    } else {
        assert(final(out)@ =~= old(out)@ + bytes_field(tag, c@));
    }
}

/// The payload bytes of a trace context.
pub fn encode_trace(t: &TraceCtx) -> (r: Vec<u8>)
    ensures
        r@ == trace_bytes(t@),
{
    let mut out: Vec<u8> = Vec::new();
    push_bytes_field(&mut out, 1, t.trace_id.as_slice());
    push_bytes_field(&mut out, 2, t.span_id.as_slice());
    push_uint32_field(&mut out, 3, t.flags);
    assert(out@ =~= trace_bytes(t@));
    out
}

fn push_trace_field(out: &mut Vec<u8>, tag: u8, t: &Option<TraceCtx>)
    requires
        1 <= tag <= 15,
    ensures
        final(out)@ == old(out)@ + trace_field(tag, trace_view(*t)),
{
    match t {
        Some(t) => {
            let body = encode_trace(t);
            push_delimited(out, tag, body.as_slice());
        },
        None => {
            assert(final(out)@ =~= old(out)@ + trace_field(tag, trace_view(*t)));
        },
    }
}

/// The payload bytes of a request.
pub fn encode_request_payload(m: &CalcRequest) -> (r: Vec<u8>)
    ensures
        r@ == request_bytes(m@),
{
    let mut out: Vec<u8> = Vec::new();
    push_int32_field(&mut out, 1, m.a);
    push_int32_field(&mut out, 2, m.b);
    push_trace_field(&mut out, 3, &m.trace);
    assert(out@ =~= request_bytes(m@));
    out
}

/// The payload bytes of a response.
pub fn encode_response_payload(m: &CalcResponse) -> (r: Vec<u8>)
    ensures
        r@ == response_bytes(m@),
{
    let mut out: Vec<u8> = Vec::new();
    push_int32_field(&mut out, 1, m.result);
    push_trace_field(&mut out, 2, &m.trace);
    assert(out@ =~= response_bytes(m@));
    out
}

// ---- decoding --------------------------------------------------------------

/// How deep unknown fields may nest: a top-level message skips with this
/// budget, a nested message with one less, and each group inside an unknown
/// field takes one more. A field that finds the budget spent is refused.
pub const RECURSION_LIMIT: u32 = 100;

/// A field's value as its wire type gives it. A length-delimited field
/// records its length; its bytes are the ones just before the next field.
#[derive(Clone, Copy, Debug, PartialEq, Eq, Structural)]
pub enum Field {
    Varint(u64),
    Fixed64,
    Delimited(u64),
    Group,
    Fixed32,
}

/// The key at `pos`: tag, wire type and where the value starts. Keys above
/// `u32::MAX`, tag 0 and wire types 6 and 7 are refused.
pub open spec fn key_at(s: Seq<u8>, pos: int) -> Option<(u32, u64, int)> {
    match varint_at(s.subrange(pos, s.len() as int)) {
        None => None,
        Some((key, kl)) => if key > u32::MAX || key / 8 == 0 || key % 8 >= 6 {
            None
        } else {
            Some(((key / 8) as u32, key % 8, pos + kl))
        },
    }
}

/// A value of wire type varint, 64-bit, length-delimited or 32-bit that starts
/// at `p`, and where it ends; none for groups or a value that runs past the end.
pub open spec fn plain_value(s: Seq<u8>, p: int, wt: u64) -> Option<(Field, int)> {
    if wt == 0 {
        match varint_at(s.subrange(p, s.len() as int)) {
            Some((v, vl)) => Some((Field::Varint(v), p + vl)),
            None => None,
        }
    } else if wt == 1 {
        if p + 8 <= s.len() {
            Some((Field::Fixed64, p + 8))
        } else {
            None
        }
    } else if wt == 2 {
        match varint_at(s.subrange(p, s.len() as int)) {
            Some((n, nl)) => if p + nl + n <= s.len() {
                Some((Field::Delimited(n), p + nl + n))
            } else {
                None
            },
            None => None,
        }
    } else if wt == 5 {
        if p + 4 <= s.len() {
            Some((Field::Fixed32, p + 4))
        } else {
            None
        }
    } else {
        None
    }
}

/// Where the group opened with `tag` ends: just after the first end-group key
/// at its own level, which must carry `tag`. The fields inside are skipped,
/// groups within it included; each needs `budget` above zero, and a group
/// inside hands its own fields one less.
pub open spec fn group_end(s: Seq<u8>, pos: int, tag: u32, budget: nat) -> Option<int>
    decreases s.len() - pos,
{
    if pos < 0 || pos >= s.len() {
        None
    } else {
        match key_at(s, pos) {
            None => None,
            Some((t, wt, p)) => if !(pos < p <= s.len()) {
                None
            } else if wt == 4 {
                if t == tag {
                    Some(p)
                } else {
                    None
                }
            } else if budget == 0 {
                None
            } else if wt == 3 {
                match group_end(s, p, t, (budget - 1) as nat) {
                    Some(q) => if p < q <= s.len() {
                        group_end(s, q, tag, budget)
                    } else {
                        None
                    },
                    None => None,
                }
            } else {
                match plain_value(s, p, wt) {
                    Some((_, q)) => if p < q <= s.len() {
                        group_end(s, q, tag, budget)
                    } else {
                        None
                    },
                    None => None,
                }
            },
        }
    }
}

/// The field that starts at `pos`: its tag, its value and where the next one
/// starts, skipped with `budget`. A stray end-group key is refused.
pub open spec fn next_field(s: Seq<u8>, pos: int, budget: nat) -> Option<(u32, Field, int)> {
    if budget == 0 {
        None
    } else {
        match key_at(s, pos) {
            None => None,
            Some((tag, wt, p)) => if wt == 3 {
                match group_end(s, p, tag, (budget - 1) as nat) {
                    Some(q) => Some((tag, Field::Group, q)),
                    None => None,
                }
            } else {
                match plain_value(s, p, wt) {
                    Some((f, q)) => Some((tag, f, q)),
                    None => None,
                }
            },
        }
    }
}

/// The bytes of a length-delimited field that ends at `end`.
pub open spec fn field_content(s: Seq<u8>, f: Field, end: int) -> Seq<u8> {
    match f {
        Field::Delimited(n) => s.subrange(end - n, end),
        _ => Seq::empty(),
    }
}

pub open spec fn trace_apply(acc: TraceModel, tag: u32, f: Field, c: Seq<u8>) -> Option<TraceModel> {
    if tag == 1 {
        match f {
            Field::Delimited(_) => Some(TraceModel { trace_id: c, ..acc }),
            _ => None,
        }
    } else if tag == 2 {
        match f {
            Field::Delimited(_) => Some(TraceModel { span_id: c, ..acc }),
            _ => None,
        }
    } else if tag == 3 {
        match f {
            Field::Varint(v) => Some(TraceModel { flags: v as u32, ..acc }),
            _ => None,
        }
    } else {
        Some(acc)
    }
}

/// The trace fields from `pos` on, applied to `acc` in order: each one present
/// replaces what `acc` held.
pub open spec fn trace_from(s: Seq<u8>, pos: int, acc: TraceModel) -> Option<TraceModel>
    decreases s.len() - pos,
{
    if pos < 0 || pos >= s.len() {
        Some(acc)
    } else {
        match next_field(s, pos, (RECURSION_LIMIT - 1) as nat) {
            Some((tag, f, next)) => if pos < next <= s.len() {
                match trace_apply(acc, tag, f, field_content(s, f, next)) {
                    Some(acc2) => trace_from(s, next, acc2),
                    None => None,
                }
            } else {
                None
            },
            None => None,
        }
    }
}

pub open spec fn empty_trace() -> TraceModel {
    TraceModel { trace_id: Seq::empty(), span_id: Seq::empty(), flags: 0 }
}

/// The trace that a further occurrence of the trace field is merged into.
pub open spec fn trace_base(t: Option<TraceModel>) -> TraceModel {
    match t {
        Some(t) => t,
        None => empty_trace(),
    }
}

/// What a lone trace payload decodes to: fields in order, the last of a tag
/// winning, and identifiers of 16 and 8 bytes.
pub open spec fn trace_decoded(s: Seq<u8>) -> Option<TraceModel> {
    match trace_from(s, 0, empty_trace()) {
        Some(t) => if t.wf() {
            Some(t)
        } else {
            None
        },
        None => None,
    }
}

pub open spec fn request_apply(acc: RequestModel, tag: u32, f: Field, c: Seq<u8>) -> Option<
    RequestModel,
> {
    if tag == 1 {
        match f {
            Field::Varint(v) => Some(RequestModel { a: v as i32, ..acc }),
            _ => None,
        }
    } else if tag == 2 {
        match f {
            Field::Varint(v) => Some(RequestModel { b: v as i32, ..acc }),
            _ => None,
        }
    } else if tag == 3 {
        match f {
            Field::Delimited(_) => match trace_from(c, 0, trace_base(acc.trace)) {
                Some(t) => Some(RequestModel { trace: Some(t), ..acc }),
                None => None,
            },
            _ => None,
        }
    } else {
        Some(acc)
    }
}

pub open spec fn request_from(s: Seq<u8>, pos: int, acc: RequestModel) -> Option<RequestModel>
    decreases s.len() - pos,
{
    if pos < 0 || pos >= s.len() {
        Some(acc)
    } else {
        match next_field(s, pos, RECURSION_LIMIT as nat) {
            Some((tag, f, next)) => if pos < next <= s.len() {
                match request_apply(acc, tag, f, field_content(s, f, next)) {
                    Some(acc2) => request_from(s, next, acc2),
                    None => None,
                }
            } else {
                None
            },
            None => None,
        }
    }
}

/// What a request payload decodes to: its fields in order, occurrences of the
/// trace field merged, and then a trace, if any, with identifiers of 16 and 8
/// bytes.
pub open spec fn request_decoded(s: Seq<u8>) -> Option<RequestModel> {
    match request_from(s, 0, RequestModel { a: 0, b: 0, trace: None }) {
        Some(m) => if trace_wf(m.trace) {
            Some(m)
        } else {
            None
        },
        None => None,
    }
}

pub open spec fn response_apply(acc: ResponseModel, tag: u32, f: Field, c: Seq<u8>) -> Option<
    ResponseModel,
> {
    if tag == 1 {
        match f {
            Field::Varint(v) => Some(ResponseModel { result: v as i32, ..acc }),
            _ => None,
        }
    } else if tag == 2 {
        match f {
            Field::Delimited(_) => match trace_from(c, 0, trace_base(acc.trace)) {
                Some(t) => Some(ResponseModel { trace: Some(t), ..acc }),
                None => None,
            },
            _ => None,
        }
    } else {
        Some(acc)
    }
}

pub open spec fn response_from(s: Seq<u8>, pos: int, acc: ResponseModel) -> Option<ResponseModel>
    decreases s.len() - pos,
{
    if pos < 0 || pos >= s.len() {
        Some(acc)
    } else {
        match next_field(s, pos, RECURSION_LIMIT as nat) {
            Some((tag, f, next)) => if pos < next <= s.len() {
                match response_apply(acc, tag, f, field_content(s, f, next)) {
                    Some(acc2) => response_from(s, next, acc2),
                    None => None,
                }
            } else {
                None
            },
            None => None,
        }
    }
}

/// What a response payload decodes to, on the same rules as a request.
pub open spec fn response_decoded(s: Seq<u8>) -> Option<ResponseModel> {
    match response_from(s, 0, ResponseModel { result: 0, trace: None }) {
        Some(m) => if trace_wf(m.trace) {
            Some(m)
        } else {
            None
        },
        None => None,
    }
}

fn read_key(s: &[u8], pos: usize) -> (r: Option<(u32, u64, usize)>)
    requires
        pos <= s@.len(),
    ensures
        r is None <==> key_at(s@, pos as int) is None,
        r matches Some((t, w, p)) ==> key_at(s@, pos as int) == Some((t, w, p as int)) && pos < p
            <= s@.len(),
{
    let (key, p) = match read_varint(s, pos) {
        Some(x) => x,
        None => return None,
    };
    if key > 0xFFFF_FFFF || key / 8 == 0 || key % 8 >= 6 {
        return None;
    }
    Some(((key / 8) as u32, key % 8, p))
}

fn read_plain(s: &[u8], p: usize, wt: u64) -> (r: Option<(Field, usize)>)
    requires
        p <= s@.len(),
    ensures
        r is None <==> plain_value(s@, p as int, wt) is None,
        r matches Some((f, q)) ==> plain_value(s@, p as int, wt) == Some((f, q as int)) && p < q
            <= s@.len() && (f matches Field::Delimited(n) ==> n < q - p),
{
    if wt == 0 {
        match read_varint(s, p) {
            Some((v, q)) => Some((Field::Varint(v), q)),
            None => None,
        }
    } else if wt == 1 {
        if s.len() - p >= 8 {
            Some((Field::Fixed64, p + 8))
        } else {
            None
        }
    } else if wt == 2 {
        match read_varint(s, p) {
            Some((n, q)) => {
                if n <= (s.len() - q) as u64 {
                    Some((Field::Delimited(n), q + n as usize))
                } else {
                    None
                }
            },
            None => None,
        }
    } else if wt == 5 {
        if s.len() - p >= 4 {
            Some((Field::Fixed32, p + 4))
        } else {
            None
        }
    } else {
        None
    }
}

/// Skips the rest of the group opened with `tag`; returns where it ends.
fn skip_group(s: &[u8], pos: usize, tag: u32, budget: u32) -> (r: Option<usize>)
    requires
        pos <= s@.len(),
    ensures
        r is None <==> group_end(s@, pos as int, tag, budget as nat) is None,
        r matches Some(q) ==> group_end(s@, pos as int, tag, budget as nat) == Some(q as int) && pos
            < q <= s@.len(),
    decreases s@.len() - pos,
{
    if pos >= s.len() {
        return None;
    }
    let (t, wt, p) = match read_key(s, pos) {
        Some(x) => x,
        None => return None,
    };
    if wt == 4 {
        if t == tag {
            return Some(p);
        } else {
            return None;
        }
    }
    if budget == 0 {
        return None;
    }
    if wt == 3 {
        match skip_group(s, p, t, budget - 1) {
            Some(q) => skip_group(s, q, tag, budget),
            None => None,
        }
    } else {
        match read_plain(s, p, wt) {
            Some((_, q)) => skip_group(s, q, tag, budget),
            None => None,
        }
    }
}

/// Reads the field that starts at `pos`, skipping with `budget`.
pub fn read_field(s: &[u8], pos: usize, budget: u32) -> (r: Option<(u32, Field, usize)>)
    requires
        pos < s@.len(),
    ensures
        r is None <==> next_field(s@, pos as int, budget as nat) is None,
        r matches Some((tag, f, next)) ==> next_field(s@, pos as int, budget as nat) == Some(
            (tag, f, next as int),
        ) && pos < next <= s@.len() && (f matches Field::Delimited(n) ==> n <= next - pos),
{
    if budget == 0 {
        return None;
    }
    let (tag, wt, p) = match read_key(s, pos) {
        Some(x) => x,
        None => return None,
    };
    if wt == 3 {
        match skip_group(s, p, tag, budget - 1) {
            Some(q) => Some((tag, Field::Group, q)),
            None => None,
        }
    } else {
        match read_plain(s, p, wt) {
            Some((f, q)) => Some((tag, f, q)),
            None => None,
        }
    }
}

fn empty_trace_ctx() -> (r: TraceCtx)
    ensures
        r@ == empty_trace(),
{
    TraceCtx { trace_id: Vec::new(), span_id: Vec::new(), flags: 0 }
}

/// Reads the trace fields of `s` over `base`: each field present replaces the
/// one in `base`. Identifier sizes are not checked here.
pub fn merge_trace(s: &[u8], base: TraceCtx) -> (r: Result<TraceCtx, DecodeError>)
    ensures
        match r {
            Ok(t) => trace_from(s@, 0, base@) == Some(t@),
            Err(_) => trace_from(s@, 0, base@) is None,
        },
{
    let mut pos: usize = 0;
    let mut trace_id: Vec<u8> = base.trace_id;
    let mut span_id: Vec<u8> = base.span_id;
    let mut flags: u32 = base.flags;
    while pos < s.len()
        invariant
            pos <= s@.len(),
            trace_from(s@, pos as int, TraceModel { trace_id: trace_id@, span_id: span_id@, flags })
                == trace_from(s@, 0, base@),
        decreases s.len() - pos,
    {
        let (tag, f, next) = match read_field(s, pos, RECURSION_LIMIT - 1) {
            Some(x) => x,
            None => return Err(DecodeError::Malformed),
        };
        if tag == 1 || tag == 2 {
            match f {
                Field::Delimited(n) => {
                    let c = vstd::slice::slice_to_vec(
                        vstd::slice::slice_subrange(s, next - n as usize, next),
                    );
                    if tag == 1 {
                        trace_id = c;
                    } else {
                        span_id = c;
                    }
                },
                _ => return Err(DecodeError::Malformed),
            }
        } else if tag == 3 {
            match f {
                Field::Varint(v) => {
                    let w: u32 = #[verifier::truncate] (v as u32);
                    flags = w;
                },
                _ => return Err(DecodeError::Malformed),
            }
        }
        pos = next;
    }
    Ok(TraceCtx { trace_id, span_id, flags })
}

/// Decodes a trace payload; identifiers of other sizes than 16 and 8 are malformed.
pub fn decode_trace(s: &[u8]) -> (r: Result<TraceCtx, DecodeError>)
    ensures
        match r {
            Ok(t) => trace_decoded(s@) == Some(t@),
            Err(_) => trace_decoded(s@) is None,
        },
{
    let t = merge_trace(s, empty_trace_ctx())?;
    if t.trace_id.len() != 16 || t.span_id.len() != 8 {
        return Err(DecodeError::Malformed);
    }
    Ok(t)
}

/// Merges one occurrence of the trace field into what earlier ones gave.
fn merge_trace_field(c: &[u8], prior: Option<TraceCtx>) -> (r: Result<TraceCtx, DecodeError>)
    ensures
        match r {
            Ok(t) => trace_from(c@, 0, trace_base(trace_view(prior))) == Some(t@),
            Err(_) => trace_from(c@, 0, trace_base(trace_view(prior))) is None,
        },
{
    let base = match prior {
        Some(t) => t,
        None => empty_trace_ctx(),
    };
    merge_trace(c, base)
}

/// Refuses a decoded trace whose identifiers are not 16 and 8 bytes.
fn check_trace(t: &Option<TraceCtx>) -> (r: bool)
    ensures
        r == trace_wf(trace_view(*t)),
{
    match t {
        Some(t) => t.trace_id.len() == 16 && t.span_id.len() == 8,
        None => true,
    }
}

/// Decodes a request payload.
pub fn decode_request_payload(s: &[u8]) -> (r: Result<CalcRequest, DecodeError>)
    ensures
        match r {
            Ok(m) => request_decoded(s@) == Some(m@),
            Err(_) => request_decoded(s@) is None,
        },
{
    let mut pos: usize = 0;
    let mut a: i32 = 0;
    let mut b: i32 = 0;
    let mut trace: Option<TraceCtx> = None;
    while pos < s.len()
        invariant
            pos <= s@.len(),
            request_from(s@, pos as int, RequestModel { a, b, trace: trace_view(trace) })
                == request_from(s@, 0, RequestModel { a: 0, b: 0, trace: None }),
        decreases s.len() - pos,
    {
        let (tag, f, next) = match read_field(s, pos, RECURSION_LIMIT) {
            Some(x) => x,
            None => return Err(DecodeError::Malformed),
        };
        if tag == 1 || tag == 2 {
            match f {
                Field::Varint(v) => {
                    let w: i32 = #[verifier::truncate] (v as i32);
                    if tag == 1 {
                        a = w;
                    } else {
                        b = w;
                    }
                },
                _ => return Err(DecodeError::Malformed),
            }
        } else if tag == 3 {
            match f {
                Field::Delimited(n) => {
                    let c = vstd::slice::slice_subrange(s, next - n as usize, next);
                    match merge_trace_field(c, trace) {
                        Ok(t) => {
                            trace = Some(t);
                        },
                        Err(e) => return Err(e),
                    }
                },
                _ => return Err(DecodeError::Malformed),
            }
        }
        pos = next;
    }
    if !check_trace(&trace) {
        return Err(DecodeError::Malformed);
    }
    Ok(CalcRequest { a, b, trace })
}

/// Decodes a response payload.
pub fn decode_response_payload(s: &[u8]) -> (r: Result<CalcResponse, DecodeError>)
    ensures
        match r {
            Ok(m) => response_decoded(s@) == Some(m@),
            Err(_) => response_decoded(s@) is None,
        },
{
    let mut pos: usize = 0;
    let mut result: i32 = 0;
    let mut trace: Option<TraceCtx> = None;
    while pos < s.len()
        invariant
            pos <= s@.len(),
            response_from(s@, pos as int, ResponseModel { result, trace: trace_view(trace) })
                == response_from(s@, 0, ResponseModel { result: 0, trace: None }),
        decreases s.len() - pos,
    {
        let (tag, f, next) = match read_field(s, pos, RECURSION_LIMIT) {
            Some(x) => x,
            None => return Err(DecodeError::Malformed),
        };
        if tag == 1 {
            match f {
                Field::Varint(v) => {
                    let w: i32 = #[verifier::truncate] (v as i32);
                    result = w;
                },
                _ => return Err(DecodeError::Malformed),
            }
        } else if tag == 2 {
            match f {
                Field::Delimited(n) => {
                    let c = vstd::slice::slice_subrange(s, next - n as usize, next);
                    match merge_trace_field(c, trace) {
                        Ok(t) => {
                            trace = Some(t);
                        },
                        Err(e) => return Err(e),
                    }
                },
                _ => return Err(DecodeError::Malformed),
            }
        }
        pos = next;
    }
    if !check_trace(&trace) {
        return Err(DecodeError::Malformed);
    }
    Ok(CalcResponse { result, trace })
}

// ---- round trips -----------------------------------------------------------

proof fn lemma_key_at(t: Seq<u8>, key: u8)
    requires
        t.len() > 0,
        t[0] == key,
        key < 128,
    ensures
        varint_at(t) == Some((key as u64, 1nat)),
{
    assert(varint_prefix(t, 10) == Some((key as nat, 1nat)));
}

/// A varint field written at `pos` reads back.
proof fn lemma_varint_field_next(s: Seq<u8>, pos: int, tag: u8, w: u64, budget: nat)
    requires
        1 <= tag <= 15,
        budget >= 1,
        0 <= pos,
        pos + 1 + varint_bytes(w as nat).len() <= s.len(),
        s.subrange(pos, pos + 1 + varint_bytes(w as nat).len()) == seq![key_byte(tag, 0)]
            + varint_bytes(w as nat),
    ensures
        next_field(s, pos, budget) == Some(
            (tag as u32, Field::Varint(w), pos + 1 + varint_bytes(w as nat).len()),
        ),
{
    let vb = varint_bytes(w as nat);
    let end = pos + 1 + vb.len();
    let rest = s.subrange(end, s.len() as int);
    let t = s.subrange(pos, s.len() as int);
    assert(t =~= seq![key_byte(tag, 0)] + (vb + rest)) by {
        assert(t =~= s.subrange(pos, end) + rest);
    }
    let key = key_byte(tag, 0);
    assert(key == tag * 8);
    lemma_key_at(t, key);
    assert(s.subrange(pos + 1, s.len() as int) =~= t.subrange(1, t.len() as int));
    assert((seq![key] + (vb + rest)).subrange(1, t.len() as int) =~= vb + rest);
    lemma_varint_round_trip(w, rest);
    assert((key as u64) / 8 == tag as u64 && (key as u64) % 8 == 0);
}

/// A length-delimited field written at `pos` reads back, with its bytes.
proof fn lemma_delimited_next(s: Seq<u8>, pos: int, tag: u8, c: Seq<u8>, budget: nat)
    requires
        1 <= tag <= 15,
        budget >= 1,
        c.len() <= u64::MAX,
        0 <= pos,
        pos + delimited(tag, c).len() <= s.len(),
        s.subrange(pos, pos + delimited(tag, c).len()) == delimited(tag, c),
    ensures
        next_field(s, pos, budget) == Some(
            (tag as u32, Field::Delimited(c.len() as u64), pos + delimited(tag, c).len()),
        ),
        field_content(s, Field::Delimited(c.len() as u64), pos + delimited(tag, c).len()) == c,
{
    let vb = varint_bytes(c.len());
    let end = pos + delimited(tag, c).len();
    let rest = s.subrange(end, s.len() as int);
    let t = s.subrange(pos, s.len() as int);
    assert(t =~= seq![key_byte(tag, 2)] + (vb + c + rest)) by {
        assert(t =~= s.subrange(pos, end) + rest);
    }
    let key = key_byte(tag, 2);
    assert(key == tag * 8 + 2);
    lemma_key_at(t, key);
    assert(s.subrange(pos + 1, s.len() as int) =~= t.subrange(1, t.len() as int));
    assert((seq![key] + (vb + c + rest)).subrange(1, t.len() as int) =~= vb + (c + rest));
    lemma_varint_round_trip(c.len() as u64, c + rest);
    assert((key as u64) / 8 == tag as u64 && (key as u64) % 8 == 2);
    assert(s.subrange(end - c.len(), end) =~= c) by {
        let d = delimited(tag, c);
        assert(s.subrange(end - c.len(), end) =~= s.subrange(pos, end).subrange(
            1 + vb.len() as int,
            d.len() as int,
        ));
        assert(d.subrange(1 + vb.len() as int, d.len() as int) =~= c);
    }
}

proof fn lemma_int32_wire(v: i32)
    ensures
        int32_wire(v) as i32 == v,
{
    assert(((v as i64) as u64) as i32 == v) by (bit_vector);
}

proof fn lemma_u32_wire(v: u32)
    ensures
        (v as u64) as u32 == v,
{
    assert((v as u64) as u32 == v) by (bit_vector);
}

/// The bytes of a well-formed trace read back as that trace.
#[verifier::spinoff_prover]
#[verifier::rlimit(30)]
pub proof fn lemma_trace_round_trip(t: TraceModel)
    requires
        t.wf(),
    ensures
        trace_from(trace_bytes(t), 0, empty_trace()) == Some(t),
        trace_decoded(trace_bytes(t)) == Some(t),
{
    let s = trace_bytes(t);
    let ti = bytes_field(1, t.trace_id);
    let si = bytes_field(2, t.span_id);
    let fl = uint32_field(3, t.flags);
    assert(ti == delimited(1, t.trace_id));
    assert(si == delimited(2, t.span_id));
    let p1 = ti.len() as int;
    let p2 = p1 + si.len();
    assert(s.subrange(0, p1) =~= ti);
    assert(s.subrange(p1, p2) =~= si);
    lemma_delimited_next(s, 0, 1, t.trace_id, (RECURSION_LIMIT - 1) as nat);
    lemma_delimited_next(s, p1, 2, t.span_id, (RECURSION_LIMIT - 1) as nat);
    let acc1 = TraceModel { trace_id: t.trace_id, ..empty_trace() };
    let acc2 = TraceModel { trace_id: t.trace_id, span_id: t.span_id, flags: 0 };
    assert(trace_from(s, 0, empty_trace()) == trace_from(s, p1, acc1));
    assert(trace_from(s, p1, acc1) == trace_from(s, p2, acc2));
    if t.flags != 0 {
        assert(s.subrange(p2, s.len() as int) =~= fl);
        lemma_varint_field_next(s, p2, 3, t.flags as u64, (RECURSION_LIMIT - 1) as nat);
        lemma_u32_wire(t.flags);
        assert(trace_from(s, p2, acc2) == trace_from(s, s.len() as int, t));
    } else {
        assert(acc2 == t);
    }
}

/// The payload of a request whose trace, if any, is well formed is short.
pub proof fn lemma_request_bytes_len(m: RequestModel)
    requires
        trace_wf(m.trace),
    ensures
        request_bytes(m).len() <= 128,
{
    lemma_varint_round_trip(int32_wire(m.a), Seq::empty());
    lemma_varint_round_trip(int32_wire(m.b), Seq::empty());
    lemma_trace_field_len(3, m.trace);
}

/// The payload of a response whose trace, if any, is well formed is short.
pub proof fn lemma_response_bytes_len(m: ResponseModel)
    requires
        trace_wf(m.trace),
    ensures
        response_bytes(m).len() <= 128,
{
    lemma_varint_round_trip(int32_wire(m.result), Seq::empty());
    lemma_trace_field_len(2, m.trace);
}

proof fn lemma_trace_field_len(tag: u8, t: Option<TraceModel>)
    requires
        trace_wf(t),
    ensures
        trace_field(tag, t).len() <= 80,
{
    if let Some(t) = t {
        lemma_varint_round_trip(16, Seq::empty());
        lemma_varint_round_trip(8, Seq::empty());
        lemma_varint_round_trip(t.flags as u64, Seq::empty());
        let n = trace_bytes(t).len();
        assert(n <= 60);
        lemma_varint_round_trip(n as u64, Seq::empty());
    }
}

/// The payload of a request reads back as that request.
#[verifier::spinoff_prover]
#[verifier::rlimit(30)]
pub proof fn lemma_request_payload_round_trip(m: RequestModel)
    requires
        trace_wf(m.trace),
    ensures
        request_decoded(request_bytes(m)) == Some(m),
{
    let s = request_bytes(m);
    let fa = int32_field(1, m.a);
    let fb = int32_field(2, m.b);
    let ft = trace_field(3, m.trace);
    let p1 = fa.len() as int;
    let p2 = p1 + fb.len();
    let acc0 = RequestModel { a: 0, b: 0, trace: None };
    let acc1 = RequestModel { a: m.a, b: 0, trace: None };
    let acc2 = RequestModel { a: m.a, b: m.b, trace: None };
    lemma_request_bytes_len(m);
    if m.a != 0 {
        assert(s.subrange(0, p1) =~= fa);
        lemma_varint_field_next(s, 0, 1, int32_wire(m.a), RECURSION_LIMIT as nat);
        lemma_int32_wire(m.a);
        assert(request_from(s, 0, acc0) == request_from(s, p1, acc1));
    } else {
        assert(acc0 == acc1);
    }
    if m.b != 0 {
        assert(s.subrange(p1, p2) =~= fb);
        lemma_varint_field_next(s, p1, 2, int32_wire(m.b), RECURSION_LIMIT as nat);
        lemma_int32_wire(m.b);
        assert(request_from(s, p1, acc1) == request_from(s, p2, acc2));
    } else {
        assert(acc1 == acc2);
    }
    match m.trace {
        Some(t) => {
            let tb = trace_bytes(t);
            assert(s.subrange(p2, s.len() as int) =~= delimited(3, tb));
            lemma_delimited_next(s, p2, 3, tb, RECURSION_LIMIT as nat);
            lemma_trace_round_trip(t);
            assert(request_from(s, p2, acc2) == request_from(s, s.len() as int, m));
        },
        None => {
            assert(acc2 == m);
        },
    }
}

/// The payload of a response reads back as that response.
#[verifier::spinoff_prover]
#[verifier::rlimit(30)]
pub proof fn lemma_response_payload_round_trip(m: ResponseModel)
    requires
        trace_wf(m.trace),
    ensures
        response_decoded(response_bytes(m)) == Some(m),
{
    let s = response_bytes(m);
    let fr = int32_field(1, m.result);
    let p1 = fr.len() as int;
    let acc0 = ResponseModel { result: 0, trace: None };
    let acc1 = ResponseModel { result: m.result, trace: None };
    lemma_response_bytes_len(m);
    if m.result != 0 {
        assert(s.subrange(0, p1) =~= fr);
        lemma_varint_field_next(s, 0, 1, int32_wire(m.result), RECURSION_LIMIT as nat);
        lemma_int32_wire(m.result);
        assert(response_from(s, 0, acc0) == response_from(s, p1, acc1));
    } else {
        assert(acc0 == acc1);
    }
    match m.trace {
        Some(t) => {
            let tb = trace_bytes(t);
            assert(s.subrange(p1, s.len() as int) =~= delimited(2, tb));
            lemma_delimited_next(s, p1, 2, tb, RECURSION_LIMIT as nat);
            lemma_trace_round_trip(t);
            assert(response_from(s, p1, acc1) == response_from(s, s.len() as int, m));
        },
        None => {
            assert(acc1 == m);
        },
    }
}

} // verus!
