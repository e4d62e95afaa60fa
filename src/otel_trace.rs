//! Trace bridge: a span's identifiers to the `TraceCtx` that travels with a
//! message, and a received `TraceCtx` back to a remote parent for a local span.
use vstd::prelude::*;
use opentelemetry::trace::{SpanContext, SpanId, TraceContextExt, TraceFlags, TraceId, TraceState};
use crate::proto::{TraceCtx, TraceModel, trace_view};

verus! {

#[verifier::external_type_specification]
#[verifier::external_body]
pub struct ExContext(opentelemetry::Context);

/// A span context as the tracing runtime reports it, in plain values.
#[derive(Clone, Copy, Debug, PartialEq, Eq)]
pub struct SpanInfo {
    pub trace_id: [u8; 16],
    pub span_id: [u8; 8],
    pub sampled: bool,
}

/// A parent span context that belongs to another process: it only parents
/// local spans and is never closed here.
#[derive(Clone, Copy, Debug, PartialEq, Eq)]
pub struct RemoteParent {
    pub trace_id: [u8; 16],
    pub span_id: [u8; 8],
    /// Bit 0: sampled.
    pub flags: u8,
    pub is_remote: bool,
}

pub struct ParentModel {
    pub trace_id: Seq<u8>,
    pub span_id: Seq<u8>,
    pub flags: u8,
    pub is_remote: bool,
}

impl View for RemoteParent {
    type V = ParentModel;

    open spec fn view(&self) -> ParentModel {
        ParentModel {
            trace_id: self.trace_id@,
            span_id: self.span_id@,
            flags: self.flags,
            is_remote: self.is_remote,
        }
    }
}

pub open spec fn trace_ref_view(t: Option<&TraceCtx>) -> Option<TraceModel> {
    match t {
        Some(t) => Some(t@),
        None => None,
    }
}

pub open spec fn all_zero(s: Seq<u8>) -> bool {
    forall|i: int| 0 <= i < s.len() ==> s[i] == 0
}

/// Identifiers name a span when neither is all zeros.
pub open spec fn ids_valid(trace_id: Seq<u8>, span_id: Seq<u8>) -> bool {
    !all_zero(trace_id) && !all_zero(span_id)
}

/// The trace context captured from a span: none for an invalid span.
pub open spec fn captured(s: SpanInfo) -> Option<TraceModel> {
    if ids_valid(s.trace_id@, s.span_id@) {
        Some(
            TraceModel {
                trace_id: s.trace_id@,
                span_id: s.span_id@,
                flags: if s.sampled {
                    1
                } else {
                    0
                },
            },
        )
    } else {
        None
    }
}

/// The remote parent rebuilt from a received trace context: none for an absent
/// one or one with identifiers of the wrong sizes.
pub open spec fn reconstructed(t: Option<TraceModel>) -> Option<ParentModel> {
    match t {
        Some(t) => if t.wf() {
            Some(
                ParentModel {
                    trace_id: t.trace_id,
                    span_id: t.span_id,
                    flags: (t.flags % 2) as u8,
                    is_remote: true,
                },
            )
        } else {
            None
        },
        None => None,
    }
}

/// Relies on opentelemetry's SpanContext::is_valid, which holds when neither the
/// trace id nor the span id is zero.
#[verifier::external_body]
fn span_ids_valid(trace_id: [u8; 16], span_id: [u8; 8]) -> (r: bool)
    ensures
        r == ids_valid(trace_id@, span_id@),
{
    SpanContext::new(
        TraceId::from_bytes(trace_id),
        SpanId::from_bytes(span_id),
        TraceFlags::default(),
        false,
        TraceState::default(),
    ).is_valid()
}

/// Relies on opentelemetry's Context::current: the context of this thread,
/// whatever it holds.
#[verifier::external_body]
fn current_context() -> (r: opentelemetry::Context) {
    opentelemetry::Context::current()
}

/// Relies on opentelemetry's TraceContextExt::span and the SpanContext accessors:
/// the identifiers and sampled flag of the span that `cx` holds, whatever it is.
#[verifier::external_body]
fn span_of(cx: &opentelemetry::Context) -> (r: SpanInfo) {
    let span = cx.span();
    let sc = span.span_context();
    SpanInfo {
        trace_id: sc.trace_id().to_bytes(),
        span_id: sc.span_id().to_bytes(),
        sampled: sc.is_sampled(),
    }
}

/// Relies on opentelemetry's TraceContextExt::with_remote_span_context: `cx`
/// with `p`, marked remote, as its span context.
#[verifier::external_body]
fn with_remote_parent(cx: &opentelemetry::Context, p: &RemoteParent) -> (r: opentelemetry::Context) {
    let sc = SpanContext::new(
        TraceId::from_bytes(p.trace_id),
        SpanId::from_bytes(p.span_id),
        TraceFlags::new(p.flags),
        p.is_remote,
        TraceState::default(),
    );
    cx.with_remote_span_context(sc)
}

fn bytes_of<const N: usize>(a: &[u8; N]) -> (r: Vec<u8>)
    ensures
        r@ == a@,
{
    vstd::slice::slice_to_vec(a.as_slice())
}

/// The trace context of a span, to send with a message; none for an invalid span.
pub fn capture(span: &SpanInfo) -> (r: Option<TraceCtx>)
    ensures
        trace_view(r) == captured(*span),
{
    if !span_ids_valid(span.trace_id, span.span_id) {
        return None;
    }
    let flags: u32 = if span.sampled {
        1
    } else {
        0
    };
    Some(TraceCtx { trace_id: bytes_of(&span.trace_id), span_id: bytes_of(&span.span_id), flags })
}

/// The trace context of the span active in this thread; none if there is no
/// valid one.
pub fn current() -> (r: Option<TraceCtx>)
    ensures
        r matches Some(t) ==> t@.wf() && ids_valid(t.trace_id@, t.span_id@) && (t.flags == 0
            || t.flags == 1),
{
    let cx = current_context();
    let span = span_of(&cx);
    capture(&span)
}

/// A remote parent from a received trace context; none for an absent one or one
/// whose identifiers are not 16 and 8 bytes.
pub fn reconstruct(t: Option<&TraceCtx>) -> (r: Option<RemoteParent>)
    ensures
        match r {
            Some(p) => reconstructed(trace_ref_view(t)) == Some(p@),
            None => reconstructed(trace_ref_view(t)) is None,
        },
{
    let t = match t {
        Some(t) => t,
        None => return None,
    };
    if t.trace_id.len() != 16 || t.span_id.len() != 8 {
        return None;
    }
    let mut trace_id: [u8; 16] = [0u8; 16];
    let mut i: usize = 0;
    while i < 16
        invariant
            i <= 16,
            t.trace_id@.len() == 16,
            forall|j: int| 0 <= j < i ==> trace_id@[j] == t.trace_id@[j],
        decreases 16 - i,
    {
        trace_id[i] = t.trace_id[i];
        i = i + 1;
    }
    let mut span_id: [u8; 8] = [0u8; 8];
    let mut k: usize = 0;
    while k < 8
        invariant
            k <= 8,
            t.span_id@.len() == 8,
            forall|j: int| 0 <= j < k ==> span_id@[j] == t.span_id@[j],
        decreases 8 - k,
    {
        span_id[k] = t.span_id[k];
        k = k + 1;
    }
    assert(trace_id@ =~= t.trace_id@);
    assert(span_id@ =~= t.span_id@);
    Some(RemoteParent { trace_id, span_id, flags: (t.flags % 2) as u8, is_remote: true })
}

/// The current context with a received trace context as its remote parent; none
/// for an absent one or one whose identifiers are not 16 and 8 bytes.
pub fn from_proto(t: Option<&TraceCtx>) -> (r: Option<opentelemetry::Context>)
    ensures
        r is Some <==> reconstructed(trace_ref_view(t)) is Some,
{
    match reconstruct(t) {
        Some(p) => {
            let cx = current_context();
            Some(with_remote_parent(&cx, &p))
        },
        None => None,
    }
}

/// The identifiers of a valid span come out of capture and reconstruction byte
/// for byte; an invalid span gives no trace context, and an absent one no parent.
pub proof fn lemma_capture_reconstruct(s: SpanInfo)
    ensures
        captured(s) matches Some(t) ==> reconstructed(Some(t)) == Some(
            ParentModel {
                trace_id: s.trace_id@,
                span_id: s.span_id@,
                flags: if s.sampled {
                    1
                } else {
                    0
                },
                is_remote: true,
            },
        ),
        captured(s) is None <==> !ids_valid(s.trace_id@, s.span_id@),
        reconstructed(None) is None,
{
}

} // verus!
