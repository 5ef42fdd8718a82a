//! The framed codec driven from outside, over real RLP bytes.

use framed_codec::{FramedError, RecordCodec, StructuralError};

fn codec() -> RecordCodec<u64> {
    RecordCodec::new()
}

fn encoded(v: u64) -> Vec<u8> {
    let mut out = Vec::new();
    codec().encode(v, &mut out).unwrap();
    out
}

#[test]
fn idle_empty_buffer_is_not_an_error() {
    let c = codec();
    let mut buf: Vec<u8> = Vec::new();
    let r = c.decode(&mut buf);
    assert!(matches!(r, Ok(None)));
    assert!(buf.is_empty());
    let r2 = c.decode(&mut buf);
    assert!(matches!(r2, Ok(None)));
}

#[test]
fn round_trip_with_arbitrary_suffix() {
    let c = codec();
    let rec: u64 = 0xCE05050505;
    let enc = encoded(rec);
    let suffix = vec![0xdeu8, 0xad, 0xbe, 0xef];
    let mut buf = enc.clone();
    buf.extend_from_slice(&suffix);
    let r = c.decode(&mut buf).unwrap();
    assert_eq!(r, Some(rec));
    assert_eq!(buf, suffix);
}

#[test]
fn byte_accounting_on_success() {
    let c = codec();
    for rec in [0u64, 1, 0x7f, 0x80, 0xff, 0x0505, 0xCE05050505, u64::MAX] {
        let enc = encoded(rec);
        let mut buf = enc.clone();
        buf.extend_from_slice(&[0x11, 0x22, 0x33]);
        let before = buf.len();
        let r = c.decode(&mut buf).unwrap();
        assert_eq!(r, Some(rec));
        assert_eq!(enc.len() + buf.len(), before);
    }
}

#[test]
fn truncated_prefix_is_parse_error() {
    let c = codec();
    let rec: u64 = 0x0102030405060708;
    let enc = encoded(rec);
    assert_eq!(enc.len(), 9);
    for cut in 1..enc.len() {
        let mut buf = enc[..cut].to_vec();
        let e = c.decode(&mut buf).unwrap_err();
        assert!(matches!(e.cause, StructuralError::InputTooShort));
        assert_eq!(e.bytes, &enc[..cut]);
        assert_eq!(buf, &enc[..cut]);
    }
}

#[test]
fn concatenation_decodes_in_order() {
    let c = codec();
    let records = [0u64, 0x42, 0xCAFEBABE];
    let mut buf = Vec::new();
    for r in records {
        c.encode(r, &mut buf).unwrap();
    }
    for expected in records {
        let r = c.decode(&mut buf).unwrap();
        assert_eq!(r, Some(expected));
    }
    assert!(buf.is_empty());
    assert!(matches!(c.decode(&mut buf), Ok(None)));
}

#[test]
fn decoding_and_encoding_are_deterministic() {
    let c = codec();
    let mut a = encoded(0xBBCCB5);
    let mut b = a.clone();
    let ra = c.decode(&mut a).unwrap();
    let rb = c.decode(&mut b).unwrap();
    assert_eq!(ra, rb);
    assert_eq!(a, b);

    let once = encoded(0xFFC0B5);
    let twice = encoded(0xFFC0B5);
    assert_eq!(once, twice);
}

#[test]
fn two_records_then_idle_scenario() {
    let c = codec();
    let rec_a: u64 = u64::MAX;
    let rec_b: u64 = 0x0505;
    let enc_a = encoded(rec_a);
    let enc_b = encoded(rec_b);
    assert_eq!(enc_a.len(), 9);
    assert_eq!(enc_b.len(), 3);

    let mut buf = enc_a.clone();
    buf.extend_from_slice(&enc_b);
    assert_eq!(buf.len(), 12);

    let first = c.decode(&mut buf).unwrap();
    assert_eq!(first, Some(rec_a));
    assert_eq!(buf.len(), 3);

    let second = c.decode(&mut buf).unwrap();
    assert_eq!(second, Some(rec_b));
    assert_eq!(buf.len(), 0);

    let third = c.decode(&mut buf);
    assert!(matches!(third, Ok(None)));
}

#[test]
fn encode_produces_exact_canonical_bytes() {
    assert_eq!(encoded(0), vec![0x80]);
    assert_eq!(encoded(9), vec![0x09]);
    assert_eq!(encoded(0x7f), vec![0x7f]);
    assert_eq!(encoded(0x80), vec![0x81, 0x80]);
    assert_eq!(encoded(0x0505), vec![0x82, 0x05, 0x05]);
    assert_eq!(encoded(0xCE05050505), vec![0x85, 0xCE, 0x05, 0x05, 0x05, 0x05]);
    assert_eq!(
        encoded(u64::MAX),
        vec![0x88, 0xff, 0xff, 0xff, 0xff, 0xff, 0xff, 0xff, 0xff]
    );
}

#[test]
fn encode_matches_reference_encoder() {
    for v in [0u64, 1, 0x7f, 0x80, 0x100, 0xBBCCB5, u64::MAX] {
        assert_eq!(encoded(v), alloy_rlp::encode(v));
    }
}

#[test]
fn decode_exact_values() {
    let c = codec();
    let cases: &[(&[u8], u64)] = &[
        (&[0x80], 0),
        (&[0x09], 9),
        (&[0x7f], 0x7f),
        (&[0x81, 0x80], 0x80),
        (&[0x82, 0x05, 0x05], 0x0505),
    ];
    for (bytes, expected) in cases {
        let mut buf = bytes.to_vec();
        let r = c.decode(&mut buf).unwrap();
        assert_eq!(r, Some(*expected));
        assert!(buf.is_empty());
    }
}

#[test]
fn malformed_bytes_report_their_cause() {
    let c = codec();
    let cases: &[(&[u8], fn(&StructuralError) -> bool)] = &[
        (&[0x00], |e| matches!(e, StructuralError::LeadingZero)),
        (&[0x81, 0x05], |e| {
            matches!(e, StructuralError::NonCanonicalSingleByte)
        }),
        (&[0x82, 0x00, 0x05], |e| {
            matches!(e, StructuralError::LeadingZero)
        }),
        (&[0xc0], |e| matches!(e, StructuralError::UnexpectedList)),
        (&[0xb8, 0x01, 0x05], |e| {
            matches!(e, StructuralError::NonCanonicalSize)
        }),
        (
            &[0x89, 0x01, 0x02, 0x03, 0x04, 0x05, 0x06, 0x07, 0x08, 0x09],
            |e| matches!(e, StructuralError::Overflow),
        ),
        (&[0x85, 0x01, 0x02], |e| {
            matches!(e, StructuralError::InputTooShort)
        }),
    ];
    for (bytes, check) in cases {
        let mut buf = bytes.to_vec();
        let e: FramedError = c.decode(&mut buf).unwrap_err();
        assert!(check(&e.cause), "wrong cause for {bytes:?}: {:?}", e.cause);
        assert_eq!(e.bytes, bytes.to_vec());
        assert_eq!(buf, bytes.to_vec());
    }
}

#[test]
fn encode_appends_without_rewriting() {
    let c = codec();
    let mut dst = vec![0x01u8, 0x02, 0x03];
    c.encode(0x0505, &mut dst).unwrap();
    assert_eq!(dst, vec![0x01, 0x02, 0x03, 0x82, 0x05, 0x05]);
}

#[test]
fn default_codec_works_like_new() {
    let c: RecordCodec<u64> = RecordCodec::default();
    let mut buf = encoded(7);
    let r = c.decode(&mut buf).unwrap();
    assert_eq!(r, Some(7));
}
