use webssh_rs::protocol::{
    choose_frame, decode_frame, encode_frame, BinaryMessage, FrameError, FLAG_COMPRESSED, FLAG_PLAIN,
};

fn output_payload(msg: &BinaryMessage) -> Vec<u8> {
    match msg {
        BinaryMessage::TerminalOutput { data, compressed } => {
            bincode::serialize(&(0u32, data, *compressed)).unwrap()
        }
        _ => panic!("Wrong message type"),
    }
}

fn output_data(serialized: &[u8]) -> Vec<u8> {
    let (variant, data, _compressed): (u32, Vec<u8>, bool) = bincode::deserialize(serialized).unwrap();
    assert_eq!(variant, 0);
    data
}

#[test]
fn test_binary_serialization() {
    let msg = BinaryMessage::terminal_output(b"Hello, World!".to_vec());
    let binary = encode_frame(&output_payload(&msg)).unwrap();
    let deserialized = output_data(&decode_frame(&binary).unwrap());
    assert_eq!(deserialized, "Hello, World!".as_bytes().to_vec());
}

#[test]
fn test_compression() {
    let large_data = "A".repeat(2000);
    let msg = BinaryMessage::terminal_output(large_data.clone().into_bytes());
    let binary = encode_frame(&output_payload(&msg)).unwrap();

    assert_eq!(binary[0], 1);

    let deserialized = output_data(&decode_frame(&binary).unwrap());
    assert_eq!(deserialized, large_data.as_bytes().to_vec());
}

#[test]
fn small_frame_is_stored_plain() {
    let frame = encode_frame(&[7, 8, 9]).unwrap();
    assert_eq!(frame, vec![FLAG_PLAIN, 7, 8, 9]);
}

#[test]
fn threshold_sized_frame_is_stored_plain() {
    let payload = vec![0u8; 1024];
    let frame = encode_frame(&payload).unwrap();
    assert_eq!(frame.len(), 1025);
    assert_eq!(frame[0], FLAG_PLAIN);
}

#[test]
fn compressed_frame_body_differs_from_payload() {
    let payload = vec![b'z'; 4096];
    let frame = encode_frame(&payload).unwrap();
    assert_eq!(frame[0], FLAG_COMPRESSED);
    assert!(frame.len() < payload.len());
    assert_ne!(&frame[1..], &payload[..]);
    assert_eq!(decode_frame(&frame).unwrap(), payload);
}

#[test]
fn incompressible_large_payload_stays_plain() {
    let mut payload = Vec::new();
    let mut x: u32 = 12345;
    for _ in 0..2048 {
        x = x.wrapping_mul(1103515245).wrapping_add(12345);
        payload.push((x >> 16) as u8);
    }
    let frame = encode_frame(&payload).unwrap();
    assert_eq!(frame[0], FLAG_PLAIN);
    assert_eq!(&frame[1..], &payload[..]);
}

#[test]
fn choose_frame_prefers_shorter_body() {
    assert_eq!(choose_frame(&[1, 2, 3, 4], &[9]), vec![FLAG_COMPRESSED, 9]);
    assert_eq!(choose_frame(&[1, 2], &[9, 9]), vec![FLAG_PLAIN, 1, 2]);
}

#[test]
fn empty_frame_is_rejected() {
    assert_eq!(decode_frame(&[]), Err(FrameError::Empty));
}

#[test]
fn corrupt_compressed_frame_is_rejected() {
    assert_eq!(decode_frame(&[FLAG_COMPRESSED, 1, 2, 3]), Err(FrameError::Decompression));
}

#[test]
fn unknown_flag_reads_as_plain() {
    assert_eq!(decode_frame(&[2, 5, 6]), Ok(vec![5, 6]));
}

#[test]
fn terminal_output_marks_large_payloads() {
    match BinaryMessage::terminal_output(vec![0u8; 512]) {
        BinaryMessage::TerminalOutput { compressed, .. } => assert!(!compressed),
        _ => panic!("Wrong message type"),
    }
    match BinaryMessage::terminal_output(vec![0u8; 513]) {
        BinaryMessage::TerminalOutput { compressed, .. } => assert!(compressed),
        _ => panic!("Wrong message type"),
    }
}

#[test]
fn message_constructors_fill_fields() {
    match BinaryMessage::terminal_input("ls\n".to_string()) {
        BinaryMessage::TerminalInput { data } => assert_eq!(data, "ls\n"),
        _ => panic!("Wrong message type"),
    }
    match BinaryMessage::resize(120, 40) {
        BinaryMessage::Resize { cols, rows } => assert_eq!((cols, rows), (120, 40)),
        _ => panic!("Wrong message type"),
    }
    match BinaryMessage::session_info("s1".to_string(), "hello".to_string()) {
        BinaryMessage::SessionInfo { session_id, message } => {
            assert_eq!(session_id, "s1");
            assert_eq!(message, "hello");
        }
        _ => panic!("Wrong message type"),
    }
    match BinaryMessage::error("E1".to_string(), "bad".to_string()) {
        BinaryMessage::Error { code, message } => {
            assert_eq!(code, "E1");
            assert_eq!(message, "bad");
        }
        _ => panic!("Wrong message type"),
    }
}
