//! Frame codec behavior: length-prefix framing, the compression
//! envelope, and the decompression cap.

use drivesrv::codec::{
    compress_envelope, decompress_envelope, encode_for_wire, encode_frame,
    frame_len, CodecError,
};

#[test]
fn frame_is_length_prefix_then_payload() {
    let framed = encode_frame(&[1, 2, 3]);
    assert_eq!(framed, vec![3, 0, 0, 0, 1, 2, 3]);
}

#[test]
fn empty_frame_is_four_zero_bytes() {
    let framed = encode_frame(&[]);
    assert_eq!(framed, vec![0, 0, 0, 0]);
}

#[test]
fn frame_len_reads_header_back() {
    let framed = encode_frame(&[9; 300]);
    assert_eq!(frame_len(&framed[..4]), 300);
}

#[test]
fn compress_then_decompress_is_identity() {
    for payload in [
        Vec::new(),
        b"abc".to_vec(),
        vec![0u8; 401],
        (0..=255u8).cycle().take(5000).collect::<Vec<u8>>(),
    ] {
        let enveloped = compress_envelope(&payload).unwrap();
        assert_eq!(&enveloped[..4], b"ABG:");
        assert!(enveloped.len() > 4);
        let back = decompress_envelope(&enveloped, drivesrv::DEFAULT_FRAME_CAP).unwrap();
        assert_eq!(back, payload);
    }
}

#[test]
fn untagged_payload_passes_through() {
    let back = decompress_envelope(b"hello", drivesrv::DEFAULT_FRAME_CAP).unwrap();
    assert_eq!(back, b"hello");
}

#[test]
fn oversized_inflation_is_refused() {
    let big = vec![7u8; drivesrv::DEFAULT_FRAME_CAP + 1];
    let enveloped = compress_envelope(&big).unwrap();
    let r = decompress_envelope(&enveloped, drivesrv::DEFAULT_FRAME_CAP);
    assert_eq!(r, Err(CodecError::TooLarge));
}

#[test]
fn garbage_after_tag_is_refused() {
    let r = decompress_envelope(b"ABG:notdeflate", drivesrv::DEFAULT_FRAME_CAP);
    assert_eq!(r, Err(CodecError::Deflate));
}

#[test]
fn vehicle_frames_travel_compressed() {
    let payload = b"Os:player:alice:0-0:{}".to_vec();
    let wire = encode_for_wire(&payload).unwrap();
    let body = &wire[4..];
    assert_eq!(&body[..4], b"ABG:");
    let back = decompress_envelope(body, drivesrv::DEFAULT_FRAME_CAP).unwrap();
    assert_eq!(back, payload);
}

#[test]
fn small_plain_frames_travel_raw() {
    let payload = b"Sn-alice".to_vec();
    let wire = encode_for_wire(&payload).unwrap();
    assert_eq!(&wire[4..], &payload[..]);
}

#[test]
fn large_frames_travel_compressed() {
    let payload = vec![65u8; 401];
    let wire = encode_for_wire(&payload).unwrap();
    assert_eq!(&wire[4..8], b"ABG:");
}

