use wasapi_core::errors::ErrorKind;
use wasapi_core::inner::{
    capt_apply_silence, capt_resize_buffer, capture_chunk_bytes, clock_ticks, frame_ticks,
    play_wait_outcome, CaptLoopState, CaptSend, LoopAction, PlayLoopState, PlayRecv, SignalStep,
    StreamCmd,
};

#[test]
fn playback_start_then_stop_is_a_net_noop() {
    let mut st = PlayLoopState::new();
    assert!(!st.running);
    let (cmds, exit) = st.handle_signals(true, false, false);
    assert_eq!(cmds, vec![StreamCmd::Start]);
    assert!(!exit);
    assert!(st.running);
    let (cmds, exit) = st.handle_signals(false, true, false);
    assert_eq!(cmds, vec![StreamCmd::Stop]);
    assert!(!exit);
    // back where it started: the stream state is unchanged overall
    assert!(!st.running);
}

#[test]
fn playback_signals_idempotent_within_one_look() {
    let mut st = PlayLoopState::new();
    // start and stop both set in the same iteration cancel out
    let (cmds, _) = st.handle_signals(true, true, false);
    assert_eq!(cmds, vec![StreamCmd::Start, StreamCmd::Stop]);
    assert!(!st.running);
    // exit always stops the stream on the way out
    let (cmds, exit) = st.handle_signals(false, false, true);
    assert_eq!(cmds, vec![StreamCmd::Stop]);
    assert!(exit);
}

#[test]
fn playback_chunk_auto_starts_stopped_stream() {
    let mut st = PlayLoopState::new();
    let (cmds, action) = st.on_recv(&PlayRecv::Chunk, false);
    assert_eq!(cmds, vec![StreamCmd::Start]);
    assert_eq!(action, LoopAction::WriteChunk);
    assert!(st.running);
    let (cmds, action) = st.on_recv(&PlayRecv::Chunk, false);
    assert!(cmds.is_empty());
    assert_eq!(action, LoopAction::WriteChunk);
}

#[test]
fn playback_timeout_stops_running_stream() {
    let mut st = PlayLoopState::new();
    st.on_recv(&PlayRecv::Chunk, false);
    let (cmds, action) = st.on_recv(&PlayRecv::Timeout, false);
    assert_eq!(cmds, vec![StreamCmd::Stop]);
    assert_eq!(action, LoopAction::Idle);
    assert!(!st.running);
}

#[test]
fn playback_disconnect_honours_exit_signal() {
    let mut st = PlayLoopState::new();
    let (cmds, action) = st.on_recv(&PlayRecv::Disconnected, true);
    assert_eq!(cmds, vec![StreamCmd::Stop]);
    assert_eq!(action, LoopAction::ExitOk);
    let mut st = PlayLoopState::new();
    let (cmds, action) = st.on_recv(&PlayRecv::Disconnected, false);
    assert!(cmds.is_empty());
    assert_eq!(action, LoopAction::Fail);
}

#[test]
fn playback_missed_event_resets_running_stream() {
    let mut st = PlayLoopState::new();
    st.on_recv(&PlayRecv::Chunk, false);
    let (cmds, missed) = st.check_clock(1_000_000, 300_000);
    assert!(!missed);
    assert!(cmds.is_empty());
    let (cmds, missed) = st.check_clock(2_000_000, 300_000);
    assert!(missed);
    assert_eq!(cmds, vec![StreamCmd::Stop, StreamCmd::Reset, StreamCmd::Start]);
}

#[test]
fn playback_wait_timeout_is_fatal() {
    assert!(play_wait_outcome(true).is_none());
    let e = play_wait_outcome(false).unwrap();
    assert_eq!(e.kind, ErrorKind::EventTimeout);
}

#[test]
fn tick_conversions() {
    // 10_000 clock units at 10_000 units per second: one second
    assert_eq!(clock_ticks(10_000, 10_000), 10_000_000);
    assert_eq!(clock_ticks(0, 48_000), 0);
    // 480 frames at 48 kHz: 10 ms
    assert_eq!(frame_ticks(480, 48_000), 100_000);
}

#[test]
fn capture_stop_skips_and_stopped_stream_pauses() {
    let mut st = CaptLoopState::new();
    let (_, step) = st.handle_signals(false, false, false);
    assert_eq!(step, SignalStep::Pause);
    let (cmds, step) = st.handle_signals(true, false, false);
    assert_eq!(cmds, vec![StreamCmd::Start]);
    assert_eq!(step, SignalStep::Proceed);
    let (cmds, step) = st.handle_signals(false, true, false);
    assert_eq!(cmds, vec![StreamCmd::Stop]);
    assert_eq!(step, SignalStep::Skip);
    let (cmds, step) = st.handle_signals(false, false, true);
    assert_eq!(cmds, vec![StreamCmd::Stop]);
    assert_eq!(step, SignalStep::Exit);
}

#[test]
fn capture_recheck_sees_late_stop_and_exit() {
    let mut st = CaptLoopState::new();
    st.handle_signals(true, false, false);
    let (_, step) = st.recheck_signals(false, false);
    assert_eq!(step, SignalStep::Proceed);
    let (cmds, step) = st.recheck_signals(true, false);
    assert_eq!(cmds, vec![StreamCmd::Stop]);
    assert_eq!(step, SignalStep::Skip);
    let (cmds, step) = st.recheck_signals(false, true);
    assert_eq!(cmds, vec![StreamCmd::Stop]);
    assert_eq!(step, SignalStep::Exit);
}

#[test]
fn capture_wait_marks_inactivity_once() {
    let mut st = CaptLoopState::new();
    assert!(st.on_wait(false));
    assert!(!st.on_wait(false));
    assert!(!st.on_wait(true));
    assert!(!st.inactive);
}

#[test]
fn capture_full_queue_keeps_buffer_and_number() {
    let mut st = CaptLoopState::new();
    for _ in 0..3 {
        let (_, r) = st.record_send(CaptSend::Sent);
        r.unwrap();
    }
    assert_eq!(st.chunk_nbr, 3);
    // chunk 3 does not fit: the buffer is saved, the number stays
    let buf = vec![1u8, 2, 3];
    let (_, r) = st.record_send(CaptSend::Full(buf.clone()));
    r.unwrap();
    assert_eq!(st.chunk_nbr, 3);
    assert_eq!(st.take_saved_buffer(), Some(buf));
    assert_eq!(st.take_saved_buffer(), None);
    // the retried send of chunk 3 finally advances the number
    let (_, r) = st.record_send(CaptSend::Sent);
    r.unwrap();
    assert_eq!(st.chunk_nbr, 4);
}

#[test]
fn capture_closed_queue_is_fatal() {
    let mut st = CaptLoopState::new();
    let (cmds, r) = st.record_send(CaptSend::Closed);
    assert_eq!(cmds, vec![StreamCmd::Stop]);
    assert_eq!(r.unwrap_err().kind, ErrorKind::ChannelClosed);
}

#[test]
fn capture_exclusive_mode_expects_one_chunk() {
    assert_eq!(capture_chunk_bytes(256, 256, 4).unwrap(), 1024);
    let err = capture_chunk_bytes(255, 256, 4).unwrap_err();
    assert_eq!(err.kind, ErrorKind::ExclusiveModeAnomaly);
}

#[test]
fn capture_buffer_resize_and_silence() {
    let mut buf = vec![7u8; 1536];
    capt_resize_buffer(&mut buf, 1024);
    assert_eq!(buf.len(), 1024);
    assert!(buf.iter().all(|&b| b == 7));
    capt_apply_silence(&mut buf, false);
    assert!(buf.iter().all(|&b| b == 7));
    capt_apply_silence(&mut buf, true);
    assert!(buf.iter().all(|&b| b == 0));
}
