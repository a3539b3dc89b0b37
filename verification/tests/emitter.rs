use tracing_perfetto::emit::{EmitError, ProtoEmitter};

fn varint(mut v: u64) -> Vec<u8> {
    let mut out = Vec::new();
    loop {
        let byte = (v % 128) as u8;
        v /= 128;
        if v > 0 {
            out.push(byte | 0x80);
        } else {
            out.push(byte);
            return out;
        }
    }
}

#[test]
fn varint_and_string_fields() {
    let mut out = ProtoEmitter::new();
    out.varint_field(1, 42);
    out.string_field(3, "example");
    assert_eq!(
        out.as_bytes(),
        &[8, 42, 26, 7, 101, 120, 97, 109, 112, 108, 101]
    );
}

#[test]
fn varint_boundaries() {
    for (v, expected) in [
        (0u64, vec![0u8]),
        (1, vec![1]),
        (127, vec![127]),
        (128, vec![0x80, 1]),
        (300, vec![0xac, 2]),
        (16383, vec![0xff, 0x7f]),
        (16384, vec![0x80, 0x80, 1]),
        (u64::MAX, vec![0xff, 0xff, 0xff, 0xff, 0xff, 0xff, 0xff, 0xff, 0xff, 1]),
    ] {
        let mut out = ProtoEmitter::new();
        out.varint_field(1, v);
        let mut want = vec![8u8];
        want.extend(expected.iter());
        assert_eq!(out.as_bytes(), &want[..], "value {v}");
        assert_eq!(varint(v), expected);
    }
}

fn decode_varint(bytes: &[u8]) -> (u64, usize) {
    let mut value: u64 = 0;
    let mut shift = 0;
    let mut used = 0;
    for &b in bytes {
        value |= ((b & 0x7f) as u64) << shift;
        shift += 7;
        used += 1;
        if b & 0x80 == 0 {
            break;
        }
    }
    (value, used)
}

#[test]
fn varint_round_trips() {
    for v in [0u64, 1, 5, 127, 128, 129, 300, 99999, 1 << 20, 1 << 40, u64::MAX] {
        let mut out = ProtoEmitter::new();
        out.varint_field(1, v);
        let bytes = out.as_bytes();
        assert_eq!(bytes[0], 8);
        let (decoded, used) = decode_varint(&bytes[1..]);
        assert_eq!(decoded, v);
        assert_eq!(used, bytes.len() - 1);
    }
}

#[test]
fn bytes_field_matches_string_field() {
    let mut a = ProtoEmitter::new();
    a.string_field(2, "abc");
    let mut b = ProtoEmitter::new();
    b.bytes_field(2, b"abc");
    assert_eq!(a.as_bytes(), b.as_bytes());
}

#[test]
fn double_field_little_endian() {
    let mut out = ProtoEmitter::new();
    let bits = 2.5f64.to_bits();
    out.double_field(5, bits);
    let mut want = vec![0x29u8];
    want.extend(2.5f64.to_le_bytes());
    assert_eq!(out.as_bytes(), &want[..]);
}

#[test]
fn clear_empties_the_buffer() {
    let mut out = ProtoEmitter::new();
    out.varint_field(1, 7);
    assert!(!out.as_bytes().is_empty());
    out.clear();
    assert!(out.as_bytes().is_empty());
    out.varint_field(1, 7);
    assert_eq!(out.as_bytes(), &[8, 7]);
}

#[test]
fn nested_wraps_body_with_three_byte_length() {
    let mut out = ProtoEmitter::new();
    let body = [1u8, 2, 3];
    assert_eq!(out.nested(11, &body), Ok(()));
    // tag (11 << 3 | 2), then the non-minimal three-byte varint of 3.
    assert_eq!(out.as_bytes(), &[0x5a, 0x83, 0x80, 0x00, 1, 2, 3]);
    let (len, used) = decode_varint(&out.as_bytes()[1..4]);
    assert_eq!(len, 3);
    assert_eq!(used, 3);
    assert_eq!(&out.as_bytes()[4..], &body);
}

#[test]
fn nested_small_wraps_body_with_two_byte_length() {
    let mut out = ProtoEmitter::new();
    let body = [9u8; 5];
    assert_eq!(out.nested_small(2, &body), Ok(()));
    assert_eq!(&out.as_bytes()[..3], &[0x12, 0x85, 0x00]);
    let (len, used) = decode_varint(&out.as_bytes()[1..3]);
    assert_eq!(len, 5);
    assert_eq!(used, 2);
    assert_eq!(&out.as_bytes()[3..], &body);
}

#[test]
fn nested_boundary_sizes() {
    let max_ok = vec![7u8; (1 << 21) - 1];
    let mut out = ProtoEmitter::new();
    assert_eq!(out.nested(1, &max_ok), Ok(()));
    assert_eq!(out.as_bytes().len(), 1 + 3 + max_ok.len());

    let too_big = vec![7u8; 1 << 21];
    let mut out2 = ProtoEmitter::new();
    assert_eq!(out2.nested(1, &too_big), Err(EmitError::NestedMessageTooLarge));
    assert!(out2.as_bytes().is_empty());
}

#[test]
fn nested_small_boundary_sizes() {
    let max_ok = vec![7u8; (1 << 14) - 1];
    let mut out = ProtoEmitter::new();
    assert_eq!(out.nested_small(1, &max_ok), Ok(()));
    assert_eq!(out.as_bytes().len(), 1 + 2 + max_ok.len());

    let too_big = vec![7u8; 1 << 14];
    let mut out2 = ProtoEmitter::new();
    assert_eq!(
        out2.nested_small(1, &too_big),
        Err(EmitError::NestedMessageTooLarge)
    );
    assert!(out2.as_bytes().is_empty());
}
