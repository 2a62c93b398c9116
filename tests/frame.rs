use relay_server::frame::{FrameCodec, FrameError, DEFAULT_MAX_FRAME_LEN};

fn round_trip(msg: &[u8]) {
    let codec = FrameCodec::new();
    let bytes = codec.encode(msg).unwrap();
    assert_eq!(bytes.len(), msg.len() + 4);
    let frames = codec.decode_stream(&bytes).unwrap();
    assert_eq!(frames, vec![msg.to_vec()]);
}

#[test]
fn round_trip_empty_message() {
    round_trip(&[]);
}

#[test]
fn round_trip_one_byte() {
    round_trip(&[0xab]);
}

#[test]
fn round_trip_large_message() {
    let msg: Vec<u8> = (0..300_000u32).map(|i| (i % 251) as u8).collect();
    round_trip(&msg);
}

#[test]
fn encode_writes_big_endian_length_then_payload() {
    let codec = FrameCodec::new();
    let bytes = codec.encode(b"hello").unwrap();
    assert_eq!(bytes, vec![0, 0, 0, 5, b'h', b'e', b'l', b'l', b'o']);
    let long = vec![7u8; 0x0102];
    let bytes = codec.encode(&long).unwrap();
    assert_eq!(&bytes[..4], &[0, 0, 1, 2]);
}

#[test]
fn encode_refuses_message_over_limit() {
    let codec = FrameCodec::with_max_frame_len(3);
    assert_eq!(codec.max_frame_len(), 3);
    assert_eq!(codec.encode(b"abcd"), Err(FrameError::TooLarge));
    assert!(codec.encode(b"abc").is_ok());
}

#[test]
fn default_limit_and_clamping() {
    assert_eq!(FrameCodec::new().max_frame_len(), DEFAULT_MAX_FRAME_LEN);
    assert_eq!(FrameCodec::new().max_frame_len(), 8 * 1024 * 1024);
    assert_eq!(FrameCodec::with_max_frame_len(usize::MAX).max_frame_len(), 0xffff_ffff);
}

#[test]
fn decode_stream_of_several_frames() {
    let codec = FrameCodec::new();
    let bytes = vec![0, 0, 0, 2, b'h', b'i', 0, 0, 0, 0, 0, 0, 0, 1, b'!'];
    let frames = codec.decode_stream(&bytes).unwrap();
    assert_eq!(frames, vec![b"hi".to_vec(), vec![], b"!".to_vec()]);
}

#[test]
fn decode_stream_cut_inside_payload_is_truncated() {
    let codec = FrameCodec::new();
    let bytes = vec![0, 0, 0, 10, 1, 2, 3];
    assert_eq!(codec.decode_stream(&bytes), Err(FrameError::Truncated));
}

#[test]
fn decode_stream_cut_inside_header_is_truncated() {
    let codec = FrameCodec::new();
    let bytes = vec![0, 0, 0, 1, 9, 0, 0];
    assert_eq!(codec.decode_stream(&bytes), Err(FrameError::Truncated));
}

#[test]
fn decode_stream_header_over_limit_is_too_large() {
    let codec = FrameCodec::with_max_frame_len(4);
    let bytes = vec![0, 0, 0, 5, 1, 2, 3, 4, 5];
    assert_eq!(codec.decode_stream(&bytes), Err(FrameError::TooLarge));
}

#[test]
fn split_frames_keeps_unfinished_tail() {
    let codec = FrameCodec::new();
    let bytes = vec![0, 0, 0, 1, b'x', 0, 0, 0, 3, b'a'];
    let (frames, rest, too_large) = codec.split_frames(&bytes);
    assert_eq!(frames, vec![b"x".to_vec()]);
    assert_eq!(rest, vec![0, 0, 0, 3, b'a']);
    assert!(!too_large);
}

#[test]
fn split_frames_stops_at_oversized_header() {
    let codec = FrameCodec::with_max_frame_len(2);
    let bytes = vec![0, 0, 0, 1, b'x', 0, 0, 0, 3, b'a', b'b', b'c'];
    let (frames, rest, too_large) = codec.split_frames(&bytes);
    assert_eq!(frames, vec![b"x".to_vec()]);
    assert_eq!(rest, vec![0, 0, 0, 3, b'a', b'b', b'c']);
    assert!(too_large);
}
