use linux_gateway::otel_trace::{capture, current, from_proto, reconstruct, SpanInfo};
use linux_gateway::proto::{
    decode_request_payload, decode_trace, encode_trace, CalcRequest, CalcResponse, DecodeError,
    TraceCtx,
};
use linux_gateway::wire::{build_frame, parse_and_verify, MsgType, WireError, SYNC, TYPE_RESP};
use linux_gateway::{
    crc32, decode_calc_request, decode_calc_response, encode_calc_request,
    encode_calc_request_with_trace, encode_calc_response, FrameError,
};

fn sample_trace() -> TraceCtx {
    TraceCtx {
        trace_id: (1..=16).collect(),
        span_id: (0xA0..0xA8).collect(),
        flags: 1,
    }
}

fn response_frame(result: i32) -> Vec<u8> {
    encode_calc_response(&CalcResponse { result, trace: None })
}

#[test]
fn request_scenario_header_and_values() {
    let f = encode_calc_request(7, 35, None);
    assert!(f.len() >= 10);
    assert_eq!(&f[0..2], &SYNC.to_le_bytes()[..]);
    assert_eq!(f[2], 1);
    assert_eq!(f[3], 1);
    assert_eq!(&f[4..6], &[4, 0][..]);
    assert_eq!(&f[10..], &[0x08, 0x07, 0x10, 0x23][..]);
    let req = decode_calc_request(&f).unwrap();
    assert_eq!((req.a, req.b, req.trace), (7, 35, None));
}

#[test]
fn response_scenario_and_payload_corruption() {
    let f = response_frame(42);
    assert_eq!(decode_calc_response(&f).unwrap().result, 42);
    let mut g = f.clone();
    g[10] ^= 0xFF;
    assert_eq!(decode_calc_response(&g), Err(FrameError::Crc));
}

#[test]
fn single_byte_input_is_too_short() {
    assert_eq!(decode_calc_request(&[0x7F]), Err(FrameError::ShortHeader));
    assert_eq!(parse_and_verify(&[0x7F]), Err(WireError::Short));
}

#[test]
fn forced_version_is_reported() {
    let mut f = encode_calc_request(7, 35, None);
    f[2] = 0x7F;
    assert_eq!(decode_calc_request(&f), Err(FrameError::UnknownVersion(0x7F)));
    // also with a checksum that matches the changed header
    let g = build_frame(0x7F, 1, &f[10..]);
    assert_eq!(decode_calc_request(&g), Err(FrameError::UnknownVersion(0x7F)));
    assert_eq!(parse_and_verify(&g), Err(WireError::UnknownVersion(0x7F)));
}

#[test]
fn round_trip_extreme_values() {
    for (a, b) in [(0, 0), (-1, 1), (i32::MIN, i32::MAX), (127, 128), (-300, 70000)] {
        let req = decode_calc_request(&encode_calc_request(a, b, None)).unwrap();
        assert_eq!((req.a, req.b, req.trace), (a, b, None));
    }
    for r in [0, -1, i32::MIN, i32::MAX, 12345] {
        let resp = decode_calc_response(&response_frame(r)).unwrap();
        assert_eq!((resp.result, resp.trace), (r, None));
    }
}

#[test]
fn negative_int_takes_ten_bytes() {
    let f = encode_calc_request(-1, 0, None);
    assert_eq!(
        &f[10..],
        &[0x08, 0xFF, 0xFF, 0xFF, 0xFF, 0xFF, 0xFF, 0xFF, 0xFF, 0xFF, 0x01][..]
    );
}

#[test]
fn every_single_bit_flip_is_rejected() {
    let f = encode_calc_request(7, 35, Some(sample_trace()));
    for i in 0..f.len() {
        for bit in 0..8 {
            let mut g = f.clone();
            g[i] ^= 1 << bit;
            assert!(decode_calc_request(&g).is_err(), "byte {i} bit {bit}");
            assert!(decode_calc_response(&g).is_err());
        }
    }
}

#[test]
fn length_and_crc_flips_give_their_errors() {
    let f = response_frame(42);
    let mut g = f.clone();
    g[4] ^= 0x01;
    assert_eq!(parse_and_verify(&g), Err(WireError::BadLen));
    let mut g = f.clone();
    g[7] ^= 0x80;
    assert_eq!(parse_and_verify(&g), Err(WireError::BadCrc));
}

#[test]
fn truncation_errors() {
    let f = encode_calc_request(1000, -5, Some(sample_trace()));
    for n in 0..f.len() {
        let e = decode_calc_request(&f[..n]).unwrap_err();
        if n < 10 {
            assert_eq!(e, FrameError::ShortHeader);
        } else {
            assert_eq!(e, FrameError::Length);
        }
    }
}

#[test]
fn unknown_type_is_reported() {
    for t in [0u8, 3, 0x7F, 0xFF] {
        let f = build_frame(1, t, &[0x08, 0x01]);
        assert_eq!(parse_and_verify(&f), Err(WireError::UnknownType(t)));
        assert_eq!(decode_calc_request(&f), Err(FrameError::UnknownType(t)));
    }
}

#[test]
fn bad_sync_is_reported() {
    let mut f = response_frame(1);
    f[0] = 0x00;
    f[1] = 0x11;
    assert_eq!(decode_calc_response(&f), Err(FrameError::BadSync(0x1100)));
}

#[test]
fn other_known_type_is_refused() {
    let f = response_frame(5);
    assert_eq!(decode_calc_request(&f), Err(FrameError::Type));
    let g = encode_calc_request(1, 2, None);
    assert_eq!(decode_calc_response(&g), Err(FrameError::Type));
}

#[test]
fn malformed_payload_is_reported() {
    // truncated varint
    let f = build_frame(1, 1, &[0x08, 0x80]);
    assert_eq!(decode_calc_request(&f), Err(FrameError::Decode));
    // tag zero
    let f = build_frame(1, 2, &[0x00, 0x01]);
    assert_eq!(decode_calc_response(&f), Err(FrameError::Decode));
    // field a with the length-delimited wire type
    let f = build_frame(1, 1, &[0x0A, 0x00]);
    assert_eq!(decode_calc_request(&f), Err(FrameError::Decode));
    // length prefix beyond the payload
    let f = build_frame(1, 1, &[0x1A, 0x05, 0x00]);
    assert_eq!(decode_calc_request(&f), Err(FrameError::Decode));
    assert_eq!(decode_request_payload(&[0x1A, 0x05, 0x00]), Err(DecodeError::Malformed));
}

#[test]
fn trace_with_wrong_id_sizes_is_malformed() {
    let mut t = sample_trace();
    t.trace_id.pop();
    let body = encode_trace(&t);
    assert_eq!(decode_trace(&body), Err(DecodeError::Malformed));
    let mut payload = vec![0x1A, body.len() as u8];
    payload.extend_from_slice(&body);
    let f = build_frame(1, 1, &payload);
    assert_eq!(decode_calc_request(&f), Err(FrameError::Decode));
}

#[test]
fn unknown_fields_are_skipped() {
    // field 9 varint, field 10 fixed64, field 11 bytes, field 12 fixed32, then b = 3
    let mut p = vec![0x48, 0x96, 0x01, 0x51];
    p.extend_from_slice(&[0; 8]);
    p.extend_from_slice(&[0x5A, 0x02, 0xAA, 0xBB, 0x65, 1, 2, 3, 4, 0x10, 0x03]);
    let f = build_frame(1, 1, &p);
    let req = decode_calc_request(&f).unwrap();
    assert_eq!((req.a, req.b, req.trace), (0, 3, None));
}

#[test]
fn last_occurrence_of_a_field_wins() {
    let f = build_frame(1, 2, &[0x08, 0x01, 0x08, 0x02]);
    assert_eq!(decode_calc_response(&f).unwrap().result, 2);
}

#[test]
fn trace_round_trips_and_is_echoed() {
    let t = sample_trace();
    let f = encode_calc_request(7, 35, Some(t.clone()));
    let req = decode_calc_request(&f).unwrap();
    assert_eq!(req, CalcRequest { a: 7, b: 35, trace: Some(t.clone()) });
    let rf = encode_calc_response(&CalcResponse { result: 42, trace: req.trace.clone() });
    let resp = decode_calc_response(&rf).unwrap();
    assert_eq!(resp.trace, Some(t));
}

#[test]
fn crc32_known_values() {
    assert_eq!(crc32(b"123456789"), 0xCBF4_3926);
    assert_eq!(crc32(b""), 0);
    for data in [&b"hello"[..], &[0u8; 33][..], &[0xFF, 0x00, 0x5A][..]] {
        assert_eq!(crc32(data), crc32fast::hash(data));
    }
}

#[test]
fn msg_type_codes() {
    assert_eq!(MsgType::CalcReq.code(), 1);
    assert_eq!(MsgType::CalcResp.code(), TYPE_RESP);
}

#[test]
fn request_with_trace_stub_shape() {
    let (frame, trace_id, flags) = encode_calc_request_with_trace(2, 3);
    assert_eq!(frame, encode_calc_request(2, 3, None));
    assert!(trace_id.is_empty());
    assert_eq!(flags, 0);
}

#[test]
fn capture_then_reconstruct_keeps_ids() {
    let span = SpanInfo {
        trace_id: [0x11; 16],
        span_id: [0x22, 0, 0, 0, 0, 0, 0, 7],
        sampled: true,
    };
    let t = capture(&span).unwrap();
    assert_eq!(t.trace_id, vec![0x11; 16]);
    assert_eq!(t.span_id, span.span_id.to_vec());
    assert_eq!(t.flags, 1);
    let p = reconstruct(Some(&t)).unwrap();
    assert_eq!(p.trace_id, span.trace_id);
    assert_eq!(p.span_id, span.span_id);
    assert_eq!(p.flags, 1);
    assert!(p.is_remote);
    let unsampled = capture(&SpanInfo { sampled: false, ..span }).unwrap();
    assert_eq!(unsampled.flags, 0);
}

#[test]
fn invalid_span_gives_no_trace() {
    let zero_trace = SpanInfo { trace_id: [0; 16], span_id: [1; 8], sampled: true };
    let zero_span = SpanInfo { trace_id: [1; 16], span_id: [0; 8], sampled: true };
    assert!(capture(&zero_trace).is_none());
    assert!(capture(&zero_span).is_none());
}

#[test]
fn reconstruct_absent_or_bad_sizes() {
    assert!(reconstruct(None).is_none());
    let mut t = sample_trace();
    t.span_id.push(0);
    assert!(reconstruct(Some(&t)).is_none());
    assert!(from_proto(Some(&t)).is_none());
    assert!(from_proto(None).is_none());
    assert!(from_proto(Some(&sample_trace())).is_some());
}

#[test]
fn no_active_span_captures_nothing() {
    assert!(current().is_none());
}

#[test]
fn unknown_group_field_is_skipped() {
    let f = build_frame(1, 1, &[0x23, 0x24]);
    assert_eq!(
        decode_calc_request(&f),
        Ok(CalcRequest { a: 0, b: 0, trace: None })
    );
    // a group holding a field with a known tag and a nested group, then b = 5
    let f = build_frame(1, 1, &[0x23, 0x08, 0x01, 0x2B, 0x2C, 0x24, 0x10, 0x05]);
    let req = decode_calc_request(&f).unwrap();
    assert_eq!((req.a, req.b), (0, 5));
    let f = build_frame(1, 2, &[0x08, 0x09, 0x23, 0x5A, 0x01, 0x00, 0x24]);
    assert_eq!(decode_calc_response(&f).unwrap().result, 9);
}

#[test]
fn broken_groups_are_malformed() {
    for p in [
        &[0x23, 0x2C][..],       // end marker of another tag
        &[0x24][..],             // end marker with no group open
        &[0x23, 0x08, 0x01][..], // group never closed
        &[0x1B, 0x1C][..],       // trace field written as a group
    ] {
        let f = build_frame(1, 1, p);
        assert_eq!(decode_calc_request(&f), Err(FrameError::Decode), "{p:?}");
    }
}

#[test]
fn group_nesting_is_bounded() {
    let nested = |n: usize| {
        let mut p = vec![0x23; n];
        p.extend(std::iter::repeat(0x24).take(n));
        p
    };
    assert!(decode_request_payload(&nested(100)).is_ok());
    assert_eq!(decode_request_payload(&nested(101)), Err(DecodeError::Malformed));
}

#[test]
fn repeated_trace_field_is_merged() {
    let full = sample_trace();
    let only_span = TraceCtx { trace_id: vec![], span_id: vec![9; 8], flags: 0 };
    let mut p = vec![0x08, 0x07];
    for t in [&full, &only_span] {
        let body = encode_trace(t);
        p.push(0x1A);
        p.push(body.len() as u8);
        p.extend_from_slice(&body);
    }
    let req = decode_calc_request(&build_frame(1, 1, &p)).unwrap();
    let merged = TraceCtx { trace_id: full.trace_id.clone(), span_id: vec![9; 8], flags: 1 };
    assert_eq!(req, CalcRequest { a: 7, b: 0, trace: Some(merged) });

    // each part alone is incomplete; merged they carry both identifiers
    let only_trace = TraceCtx { trace_id: full.trace_id.clone(), span_id: vec![], flags: 0 };
    let mut p = vec![];
    for t in [&only_trace, &only_span] {
        let body = encode_trace(t);
        assert_eq!(decode_trace(&body), Err(DecodeError::Malformed));
        p.push(0x12);
        p.push(body.len() as u8);
        p.extend_from_slice(&body);
    }
    let resp = decode_calc_response(&build_frame(1, 2, &p)).unwrap();
    assert_eq!(
        resp.trace,
        Some(TraceCtx { trace_id: full.trace_id.clone(), span_id: vec![9; 8], flags: 0 })
    );
}
