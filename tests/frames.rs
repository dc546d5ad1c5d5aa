use wsproto::frame::{
    classify, close_frame, frame_header, parse_frame, parse_head, payload_len, unmask, within_cap,
    FrameError, FrameHead, IncomingFrame, PAYLOAD_SIZE_CAP,
};
use wsproto::stream::{drain_done, read_message, reassemble, ReadStep, StreamState};
use wsproto::schema::{Message, Schema, Variant};
use wsproto::codec::{FieldKind, Value};

fn masked(opcode_byte: u8, payload: &[u8], key: [u8; 4]) -> Vec<u8> {
    let mut v = vec![opcode_byte, 0x80 | payload.len() as u8];
    v.extend_from_slice(&key);
    for (i, b) in payload.iter().enumerate() {
        v.push(b ^ key[i % 4]);
    }
    v
}

#[test]
fn masked_binary_frame_parses() {
    let bytes = masked(0x82, &[1, 2, 3, 4, 5], [9, 8, 7, 6]);
    let (f, n) = parse_frame(&bytes, PAYLOAD_SIZE_CAP).unwrap();
    assert_eq!(f, IncomingFrame::Data { payload: vec![1, 2, 3, 4, 5], fin: true });
    assert_eq!(n, bytes.len());
}

#[test]
fn unmasked_frame_is_violation() {
    for payload in [&[][..], &[1u8, 2, 3][..]] {
        let mut v = vec![0x82, payload.len() as u8];
        v.extend_from_slice(payload);
        assert_eq!(parse_frame(&v, PAYLOAD_SIZE_CAP), Err(FrameError::Violation));
    }
    assert_eq!(parse_head(0x82, 0x05), Err(FrameError::Violation));
}

#[test]
fn over_cap_rejected_before_payload() {
    let header = vec![0x82, 0x80 | 126, 0x01, 0x00, 1, 2, 3, 4];
    assert_eq!(parse_frame(&header, PAYLOAD_SIZE_CAP), Err(FrameError::Violation));
    assert!(!within_cap(129, PAYLOAD_SIZE_CAP));
    assert!(within_cap(128, PAYLOAD_SIZE_CAP));
}

#[test]
fn incomplete_frames() {
    assert_eq!(parse_frame(&[0x82], PAYLOAD_SIZE_CAP), Err(FrameError::Incomplete));
    assert_eq!(parse_frame(&[0x82, 0x83, 1, 2, 3, 4, 5], PAYLOAD_SIZE_CAP), Err(FrameError::Incomplete));
}

#[test]
fn text_frame_is_violation() {
    let bytes = masked(0x81, b"hi", [1, 2, 3, 4]);
    assert_eq!(parse_frame(&bytes, PAYLOAD_SIZE_CAP), Err(FrameError::Violation));
}

#[test]
fn control_frames_classify() {
    assert_eq!(parse_frame(&masked(0x89, &[], [0; 4]), 128).unwrap().0, IncomingFrame::Ping);
    assert_eq!(parse_frame(&masked(0x8A, &[], [0; 4]), 128).unwrap().0, IncomingFrame::Pong);
    assert_eq!(parse_frame(&masked(0x88, &[], [0; 4]), 128).unwrap().0, IncomingFrame::Close);
    let h = FrameHead { fin: false, opcode: 0, len7: 1 };
    assert_eq!(classify(&h, vec![7]), Ok(IncomingFrame::Data { payload: vec![7], fin: false }));
}

#[test]
fn extended_lengths_read() {
    let h = parse_head(0x82, 0x80 | 126).unwrap();
    assert_eq!(payload_len(&h, &[0x01, 0x02]), 0x0102);
    let h = parse_head(0x82, 0x80 | 127).unwrap();
    assert_eq!(payload_len(&h, &[0, 0, 0, 0, 0, 1, 0, 0]), 65536);
    let h = parse_head(0x02, 0x85).unwrap();
    assert_eq!(h, FrameHead { fin: false, opcode: 2, len7: 5 });
}

#[test]
fn unmask_xors_cyclically() {
    let mut p = vec![0x01, 0x02, 0x03, 0x04, 0x05];
    unmask(&mut p, [0xff, 0x00, 0xff, 0x00]);
    assert_eq!(p, vec![0xfe, 0x02, 0xfc, 0x04, 0xfa]);
}

#[test]
fn outbound_header_tiers() {
    assert_eq!(frame_header(5), vec![0x82, 5]);
    assert_eq!(frame_header(125), vec![0x82, 125]);
    assert_eq!(frame_header(126), vec![0x82, 126, 0, 126]);
    assert_eq!(frame_header(65535), vec![0x82, 126, 0xff, 0xff]);
    assert_eq!(frame_header(70000), vec![0x82, 127, 0, 0, 0, 0, 0, 0x01, 0x11, 0x70]);
}

#[test]
fn large_message_round_trips_through_long_header() {
    let payload: Vec<u8> = (0..70000u32).map(|i| (i % 251) as u8).collect();
    let header = frame_header(payload.len());
    assert_eq!(header.len(), 10);
    assert_eq!(header[1], 127);
    let mut len_bytes = [0u8; 8];
    len_bytes.copy_from_slice(&header[2..10]);
    assert_eq!(u64::from_be_bytes(len_bytes), 70000);
    let h = parse_head(header[0], header[1] | 0x80).unwrap();
    assert_eq!(payload_len(&h, &header[2..10]), 70000);
    let mut frame = header.clone();
    frame[1] |= 0x80;
    frame.extend_from_slice(&[0, 0, 0, 0]);
    frame.extend_from_slice(&payload);
    let (f, _) = parse_frame(&frame, u64::MAX).unwrap();
    assert_eq!(f, IncomingFrame::Data { payload, fin: true });
}

#[test]
fn close_frame_bytes() {
    assert_eq!(close_frame(), vec![0x88, 0x00]);
}

#[test]
fn fragments_reassemble_like_one_frame() {
    let two = vec![
        IncomingFrame::Data { payload: vec![0x41], fin: false },
        IncomingFrame::Data { payload: vec![0x42], fin: true },
    ];
    let one = vec![IncomingFrame::Data { payload: vec![0x41, 0x42], fin: true }];
    assert_eq!(reassemble(&two), Some(vec![0x41, 0x42]));
    assert_eq!(reassemble(&two), reassemble(&one));
    let schema = Schema {
        name: "T".to_string(),
        variants: vec![
            Variant { name: "A".to_string(), fields: vec![] },
            Variant { name: "B".to_string(), fields: vec![] },
            Variant { name: "C".to_string(), fields: vec![] },
            Variant { name: "D".to_string(), fields: vec![] },
            Variant { name: "E".to_string(), fields: vec![] },
        ],
    };
    let two = vec![
        IncomingFrame::Data { payload: vec![0x04], fin: false },
        IncomingFrame::Data { payload: vec![0x42], fin: true },
    ];
    let one = vec![IncomingFrame::Data { payload: vec![0x04, 0x42], fin: true }];
    assert_eq!(read_message(&schema, &two), Some(Message { opcode: 4, args: vec![] }));
    assert_eq!(read_message(&schema, &two), read_message(&schema, &one));
}

#[test]
fn reassembly_skips_control_frames_and_needs_fin() {
    let frames = vec![
        IncomingFrame::Ping,
        IncomingFrame::Data { payload: vec![1], fin: false },
        IncomingFrame::Pong,
        IncomingFrame::Data { payload: vec![2], fin: true },
        IncomingFrame::Data { payload: vec![3], fin: true },
    ];
    assert_eq!(reassemble(&frames), Some(vec![1, 2]));
    assert_eq!(reassemble(&vec![IncomingFrame::Data { payload: vec![1], fin: false }]), None);
    let schema = Schema { name: "T".to_string(), variants: vec![Variant { name: "U".to_string(), fields: vec![FieldKind::U8] }] };
    assert_eq!(read_message(&schema, &vec![IncomingFrame::Data { payload: vec![0, 9], fin: true }]), Some(Message { opcode: 0, args: vec![Value::U8(9)] }));
    assert_eq!(read_message(&schema, &vec![IncomingFrame::Data { payload: vec![1, 9], fin: true }]), None);
}

#[test]
fn close_frame_marks_closed_and_replies() {
    let mut st = StreamState::new();
    assert_eq!(st.on_frame(&IncomingFrame::Data { payload: vec![1], fin: false }), ReadStep::Continue);
    assert_eq!(st.on_frame(&IncomingFrame::Close), ReadStep::Closed);
    assert!(st.closed);
}

#[test]
fn close_frame_ends_the_read() {
    let schema = Schema { name: "T".to_string(), variants: vec![Variant { name: "A".to_string(), fields: vec![] }] };
    let frames = vec![IncomingFrame::Close, IncomingFrame::Data { payload: vec![0], fin: true }];
    assert_eq!(reassemble(&frames), None);
    assert_eq!(read_message(&schema, &frames), None);
    let frames = vec![
        IncomingFrame::Data { payload: vec![0], fin: false },
        IncomingFrame::Close,
        IncomingFrame::Data { payload: vec![], fin: true },
    ];
    assert_eq!(read_message(&schema, &frames), None);
}

#[test]
fn shutdown_twice_is_noop() {
    let mut st = StreamState::new();
    assert!(st.begin_shutdown());
    assert!(st.closed);
    assert!(!st.begin_shutdown());
    assert!(st.closed);
}

#[test]
fn shutdown_after_peer_close_is_noop() {
    let mut st = StreamState::new();
    st.on_frame(&IncomingFrame::Close);
    assert!(!st.begin_shutdown());
}

#[test]
fn drain_stops_on_close_failure_or_limit() {
    assert!(drain_done(None, 1));
    assert!(drain_done(Some(&IncomingFrame::Close), 1));
    assert!(!drain_done(Some(&IncomingFrame::Ping), 1));
    assert!(drain_done(Some(&IncomingFrame::Ping), 10));
}
