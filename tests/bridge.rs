use webssh_rs::bridge::{
    clamp_dimensions, clean_control_sequences, input_closed_notice, judge_read, judge_write, InputBacklog,
    receive_frame, resize_ack, ChannelRead, ChannelWrite, ClientFrame, IoErrorKind, KeepaliveClock,
    OutputWatch, ReadVerdict, ReceiverStep, ServerFrame, WSCommand, WriteVerdict,
};

fn info_text(frame: &ServerFrame) -> String {
    match frame {
        ServerFrame::Info { message } => message.clone(),
        _ => panic!("expected an info frame"),
    }
}

#[test]
fn resize_then_ping() {
    let step = receive_frame(ClientFrame::Command(WSCommand::Resize { rows: 10, cols: 10 }), true);
    match step {
        ReceiverStep::ForwardResize { rows, cols, ack } => {
            assert_eq!((rows, cols), (24, 80));
            assert_eq!(info_text(&ack), "Terminal resized to 80x24");
        }
        _ => panic!("expected a resize"),
    }
    match receive_frame(ClientFrame::Command(WSCommand::Ping), true) {
        ReceiverStep::Reply(ServerFrame::Pong) => {}
        _ => panic!("expected a pong"),
    }
}

#[test]
fn large_resize_is_kept() {
    match receive_frame(ClientFrame::Command(WSCommand::Resize { rows: 50, cols: 200 }), true) {
        ReceiverStep::ForwardResize { rows, cols, ack } => {
            assert_eq!((rows, cols), (50, 200));
            assert_eq!(info_text(&ack), "Terminal resized to 200x50");
        }
        _ => panic!("expected a resize"),
    }
}

#[test]
fn resize_without_queue_is_dropped() {
    assert!(matches!(
        receive_frame(ClientFrame::Command(WSCommand::Resize { rows: 30, cols: 90 }), false),
        ReceiverStep::Ignore
    ));
}

#[test]
fn clamp_raises_small_sizes_only() {
    assert_eq!(clamp_dimensions(0, 0), (24, 80));
    assert_eq!(clamp_dimensions(23, 81), (24, 81));
    assert_eq!(clamp_dimensions(24, 79), (24, 80));
    assert_eq!(clamp_dimensions(u32::MAX, u32::MAX), (u32::MAX, u32::MAX));
}

#[test]
fn resize_ack_writes_decimal_sizes() {
    assert_eq!(info_text(&resize_ack(0, 4294967295)), "Terminal resized to 4294967295x0");
    assert_eq!(info_text(&resize_ack(1000, 10)), "Terminal resized to 10x1000");
}

#[test]
fn input_command_forwards_utf8_bytes() {
    let step = receive_frame(ClientFrame::Command(WSCommand::Input { data: "echo hi\n".to_string() }), true);
    match step {
        ReceiverStep::ForwardInput(bytes) => assert_eq!(bytes, b"echo hi\n".to_vec()),
        _ => panic!("expected input"),
    }
    match receive_frame(ClientFrame::Command(WSCommand::Input { data: "é".to_string() }), true) {
        ReceiverStep::ForwardInput(bytes) => assert_eq!(bytes, vec![0xc3, 0xa9]),
        _ => panic!("expected input"),
    }
}

#[test]
fn binary_frame_is_forwarded_verbatim() {
    match receive_frame(ClientFrame::Binary(vec![0, 1, 255]), true) {
        ReceiverStep::ForwardInput(bytes) => assert_eq!(bytes, vec![0, 1, 255]),
        _ => panic!("expected input"),
    }
}

#[test]
fn malformed_and_control_frames_are_dropped() {
    assert!(matches!(receive_frame(ClientFrame::Malformed, true), ReceiverStep::Ignore));
    assert!(matches!(receive_frame(ClientFrame::Other, true), ReceiverStep::Ignore));
    assert!(matches!(receive_frame(ClientFrame::Close, true), ReceiverStep::Stop));
}

#[test]
fn closed_input_notice_text() {
    match input_closed_notice() {
        ServerFrame::Error { message } => {
            assert_eq!(message, "SSH connection has been closed. Please reconnect.")
        }
        _ => panic!("expected an error frame"),
    }
}

#[test]
fn plain_output_has_no_refresh() {
    let mut watch = OutputWatch::new();
    let frames = watch.on_chunk(b"hello\r\n".to_vec());
    assert_eq!(frames.data, b"hello\r\n".to_vec());
    assert_eq!(frames.refresh, None);
    let frames = watch.on_chunk(b"\x1b[1mbold\x1b[0m".to_vec());
    assert_eq!(frames.refresh, None);
}

#[test]
fn clear_screen_latches_fullscreen() {
    let mut watch = OutputWatch::new();
    let frames = watch.on_chunk(b"ab\x1b[2Jcd".to_vec());
    assert_eq!(frames.data, b"ab\x1b[2Jcd".to_vec());
    assert_eq!(frames.refresh, Some(true));
    let frames = watch.on_chunk(b"plain".to_vec());
    assert_eq!(frames.refresh, Some(true));
    assert!(watch.saw_fullscreen);
}

#[test]
fn cursor_home_latches_fullscreen() {
    let mut watch = OutputWatch::new();
    assert_eq!(watch.on_chunk(b"\x1b[H".to_vec()).refresh, Some(true));
}

#[test]
fn top_header_asks_refresh_without_fullscreen() {
    let mut watch = OutputWatch::new();
    let frames = watch.on_chunk(b"top - 10:00:01 up 1 day".to_vec());
    assert_eq!(frames.refresh, Some(false));
    let frames = watch.on_chunk(b"\x1b[H".to_vec());
    assert_eq!(frames.refresh, Some(true));
    let mut other = OutputWatch::new();
    assert_eq!(other.on_chunk(b"%Cpu(s):  1.0 us".to_vec()).refresh, Some(false));
    let mut third = OutputWatch::new();
    assert_eq!(third.on_chunk(b"Tasks: 100 total".to_vec()).refresh, Some(false));
}

#[test]
fn output_passes_through_unchanged() {
    let raw = b"\x1b[31mred\x1b[0m\x07".to_vec();
    assert_eq!(clean_control_sequences(&raw), raw);
}

#[test]
fn eof_farewell() {
    match judge_read(ChannelRead::Nothing { eof: true }) {
        ReadVerdict::Farewell(bytes) => {
            assert_eq!(bytes, b"\r\n[SSH connection closed]\r\n".to_vec());
            let mut watch = OutputWatch::new();
            let frames = watch.on_chunk(bytes);
            assert_eq!(frames.data, b"\r\n[SSH connection closed]\r\n".to_vec());
            assert_eq!(frames.refresh, None);
        }
        _ => panic!("expected a farewell"),
    }
}

#[test]
fn read_outcomes_are_judged() {
    match judge_read(ChannelRead::Data(b"hi\n".to_vec())) {
        ReadVerdict::Forward(bytes) => assert_eq!(bytes, b"hi\n".to_vec()),
        _ => panic!("expected forward"),
    }
    assert!(matches!(judge_read(ChannelRead::Data(Vec::new())), ReadVerdict::Idle));
    assert!(matches!(judge_read(ChannelRead::Nothing { eof: false }), ReadVerdict::Idle));
    assert!(matches!(judge_read(ChannelRead::Failed(IoErrorKind::WouldBlock)), ReadVerdict::Idle));
    assert!(matches!(judge_read(ChannelRead::Failed(IoErrorKind::Other)), ReadVerdict::Fail));
}

#[test]
fn write_outcomes_are_judged() {
    assert!(matches!(judge_write(&ChannelWrite::Done), WriteVerdict::Next));
    assert!(matches!(judge_write(&ChannelWrite::FlushFailed(IoErrorKind::WouldBlock)), WriteVerdict::Next));
    assert!(matches!(judge_write(&ChannelWrite::FlushFailed(IoErrorKind::Other)), WriteVerdict::Fail));
    let w = |kind, text: &str| ChannelWrite::WriteFailed { kind, message: text.to_string() };
    assert!(matches!(judge_write(&w(IoErrorKind::WouldBlock, "x")), WriteVerdict::Later));
    assert!(matches!(judge_write(&w(IoErrorKind::BrokenPipe, "x")), WriteVerdict::Shutdown));
    assert!(matches!(judge_write(&w(IoErrorKind::ConnectionReset, "x")), WriteVerdict::Shutdown));
    assert!(matches!(judge_write(&w(IoErrorKind::Other, "channel closed")), WriteVerdict::Shutdown));
    assert!(matches!(judge_write(&w(IoErrorKind::Other, "timed out")), WriteVerdict::Fail));
}

#[test]
fn keepalive_clock_counts_interval() {
    let mut clock = KeepaliveClock::new(30_000, 1_000);
    assert!(!clock.due(30_999));
    assert!(clock.due(31_000));
    clock.sent(31_000);
    assert!(!clock.due(31_001));
    assert!(!clock.due(500));
}

#[test]
fn blocked_write_keeps_the_chunk_for_next_round() {
    let mut backlog = InputBacklog::new();
    assert!(backlog.take().is_none());
    let blocked = ChannelWrite::WriteFailed { kind: IoErrorKind::WouldBlock, message: "again".to_string() };
    assert!(backlog.settle(b"ls -l\n".to_vec(), 0, &blocked) == WriteVerdict::Later);
    assert_eq!(backlog.take(), Some(b"ls -l\n".to_vec()));
    assert!(backlog.take().is_none());
}

#[test]
fn partial_write_keeps_the_rest() {
    let mut backlog = InputBacklog::new();
    assert!(backlog.settle(b"abcdef".to_vec(), 4, &ChannelWrite::Done) == WriteVerdict::Later);
    assert_eq!(backlog.pending, Some(b"ef".to_vec()));
    let rest = backlog.take().unwrap();
    assert!(backlog.settle(rest, 2, &ChannelWrite::Done) == WriteVerdict::Next);
    assert!(backlog.pending.is_none());
}

#[test]
fn failed_write_holds_nothing_back() {
    let mut backlog = InputBacklog::new();
    let closed = ChannelWrite::WriteFailed { kind: IoErrorKind::BrokenPipe, message: "x".to_string() };
    assert!(backlog.settle(b"abc".to_vec(), 0, &closed) == WriteVerdict::Shutdown);
    assert!(backlog.pending.is_none());
    let flush_blocked = ChannelWrite::FlushFailed(IoErrorKind::WouldBlock);
    assert!(backlog.settle(b"abc".to_vec(), 3, &flush_blocked) == WriteVerdict::Next);
    assert!(backlog.pending.is_none());
}
