use parity_scale_codec::{Compact, Decode, Encode};
use xcm_teleport::compact::{decode_compact, encode_compact};
use xcm_teleport::error::DecodeError;

fn encoded(value: u128) -> Vec<u8> {
    let mut out = Vec::new();
    encode_compact(value, &mut out);
    out
}

#[test]
fn compact_single_byte_form() {
    assert_eq!(encoded(0), vec![0x00]);
    assert_eq!(encoded(1), vec![0x04]);
    assert_eq!(encoded(42), vec![0xa8]);
    assert_eq!(encoded(63), vec![0xfc]);
}

#[test]
fn compact_two_byte_form() {
    assert_eq!(encoded(64), vec![0x01, 0x01]);
    assert_eq!(encoded(1002), vec![0xa9, 0x0f]);
    assert_eq!(encoded(16383), vec![0xfd, 0xff]);
}

#[test]
fn compact_four_byte_form() {
    assert_eq!(encoded(16384), vec![0x02, 0x00, 0x01, 0x00]);
    assert_eq!(encoded((1 << 30) - 1), vec![0xfe, 0xff, 0xff, 0xff]);
}

#[test]
fn compact_long_form() {
    assert_eq!(encoded(1 << 30), vec![0x03, 0x00, 0x00, 0x00, 0x40]);
    assert_eq!(encoded(u32::MAX as u128), vec![0x03, 0xff, 0xff, 0xff, 0xff]);
    assert_eq!(
        encoded(1_000_000_000_000),
        vec![0x07, 0x00, 0x10, 0xa5, 0xd4, 0xe8]
    );
    let mut widest = vec![0x33];
    widest.extend_from_slice(&[0xff; 16]);
    assert_eq!(encoded(u128::MAX), widest);
}

#[test]
fn compact_appends_to_what_is_there() {
    let mut out = vec![9, 9];
    encode_compact(64, &mut out);
    assert_eq!(out, vec![9, 9, 0x01, 0x01]);
}

fn samples() -> Vec<u128> {
    let mut values = vec![0u128, 1, 63, 64, 65, 255, 256, 16383, 16384, 16385];
    values.push((1 << 30) - 1);
    values.push(1 << 30);
    values.push((1 << 30) + 1);
    values.push(u32::MAX as u128);
    values.push(u32::MAX as u128 + 1);
    values.push(u64::MAX as u128);
    values.push(u64::MAX as u128 + 1);
    values.push(1_000_000_000_000);
    values.push(u128::MAX - 1);
    values.push(u128::MAX);
    let mut shift = 0;
    while shift < 128 {
        values.push(1u128 << shift);
        values.push((1u128 << shift) - 1);
        values.push((1u128 << shift) | 1);
        shift += 1;
    }
    values
}

#[test]
fn compact_agrees_with_the_scale_codec() {
    for value in samples() {
        assert_eq!(encoded(value), Compact(value).encode(), "value {}", value);
    }
}

#[test]
fn compact_round_trip() {
    for value in samples() {
        let bytes = encoded(value);
        assert_eq!(decode_compact(&bytes), Ok((value, bytes.len())), "value {}", value);
    }
}

#[test]
fn compact_decoding_stops_at_the_end_of_the_integer() {
    assert_eq!(decode_compact(&[0xa9, 0x0f, 0xff, 0xff]), Ok((1002, 2)));
    assert_eq!(decode_compact(&[0x04, 0x00]), Ok((1, 1)));
    assert_eq!(
        decode_compact(&[0x07, 0x00, 0x10, 0xa5, 0xd4, 0xe8, 0x01]),
        Ok((1_000_000_000_000, 6))
    );
}

#[test]
fn compact_decoding_needs_all_bytes() {
    assert_eq!(decode_compact(&[]), Err(DecodeError::UnexpectedEnd));
    assert_eq!(decode_compact(&[0x01]), Err(DecodeError::UnexpectedEnd));
    assert_eq!(decode_compact(&[0x02, 0x00, 0x01]), Err(DecodeError::UnexpectedEnd));
    assert_eq!(decode_compact(&[0x03, 0x00, 0x00, 0x00]), Err(DecodeError::UnexpectedEnd));
    assert_eq!(decode_compact(&[0x07, 0x00, 0x10, 0xa5, 0xd4]), Err(DecodeError::UnexpectedEnd));
}

#[test]
fn compact_decoding_refuses_longer_forms() {
    // 63 in two bytes, 16383 in four bytes, 2^30 - 1 in the long form
    assert_eq!(decode_compact(&[0xfd, 0x00]), Err(DecodeError::NonCanonical));
    assert_eq!(decode_compact(&[0x01, 0x00]), Err(DecodeError::NonCanonical));
    assert_eq!(decode_compact(&[0xfe, 0xff, 0x00, 0x00]), Err(DecodeError::NonCanonical));
    assert_eq!(decode_compact(&[0x03, 0xff, 0xff, 0xff, 0x3f]), Err(DecodeError::NonCanonical));
    // a long form whose top byte is zero
    assert_eq!(
        decode_compact(&[0x07, 0x00, 0x00, 0x00, 0x40, 0x00]),
        Err(DecodeError::NonCanonical)
    );
}

#[test]
fn compact_decoding_refuses_more_than_sixteen_bytes() {
    let mut bytes = vec![0x37];
    bytes.extend_from_slice(&[0xff; 17]);
    assert_eq!(decode_compact(&bytes), Err(DecodeError::OutOfRange));
    assert_eq!(decode_compact(&[0xff]), Err(DecodeError::OutOfRange));
}

#[test]
fn compact_decoding_accepts_what_the_scale_codec_accepts() {
    let inputs: Vec<Vec<u8>> = vec![
        vec![],
        vec![0x00],
        vec![0xfc],
        vec![0x01],
        vec![0x01, 0x00],
        vec![0xfd, 0x00],
        vec![0x01, 0x01],
        vec![0x02, 0x00, 0x01, 0x00],
        vec![0xfe, 0xff, 0x00, 0x00],
        vec![0x03, 0xff, 0xff, 0xff, 0x3f],
        vec![0x03, 0x00, 0x00, 0x00, 0x40],
        vec![0x07, 0x00, 0x00, 0x00, 0x40, 0x00],
        vec![0x07, 0x00, 0x10, 0xa5, 0xd4, 0xe8],
        vec![0x13, 1, 2, 3, 4, 5, 6, 7, 8],
        vec![0x13, 1, 2, 3, 4, 5, 6, 7, 0],
        vec![0x33, 1, 2, 3, 4, 5, 6, 7, 8, 9, 10, 11, 12, 13, 14, 15, 16],
        vec![0x33, 1, 2, 3, 4, 5, 6, 7, 8, 9, 10, 11, 12, 13, 14, 15, 0],
        vec![0x37, 1, 2, 3, 4, 5, 6, 7, 8, 9, 10, 11, 12, 13, 14, 15, 16, 17],
    ];
    for input in inputs {
        let theirs = Compact::<u128>::decode(&mut &input[..]).ok().map(|c| c.0);
        let ours = decode_compact(&input).ok().map(|found| found.0);
        assert_eq!(ours, theirs, "input {:?}", input);
    }
}
