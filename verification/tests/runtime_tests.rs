use wasapi_core::directory::Direction;
use wasapi_core::errors::ErrorKind;
use wasapi_core::runtime::{
    do_close, do_drain_prepare, do_drain_step, do_flush, do_get_avail_bytes, do_get_buffer_bytes,
    do_get_byte_pos, do_read, do_start, do_stop, do_write, finish_capt_runtime,
    finish_play_runtime, make_capt_channels, make_play_channels, CaptSyncData, PlaySyncData,
    RuntimeData,
};

// chunk_bytes = 1024, frame_bytes = 4, chunk_frames = 256, queue_capacity = 8
fn play_setup() -> (RuntimeData, PlaySyncData) {
    let (pending, sync) = make_play_channels(8);
    let rtd = finish_play_runtime("0".to_string(), "out".to_string(), pending, 256, 4);
    (rtd, sync)
}

fn capt_setup() -> (RuntimeData, CaptSyncData) {
    let (pending, sync) = make_capt_channels(8, 1536).unwrap();
    let rtd = finish_capt_runtime("1".to_string(), "in".to_string(), pending, 256, 4);
    (rtd, sync)
}

fn bytes(len: usize, seed: u8) -> Vec<u8> {
    let mut v = Vec::with_capacity(len);
    for i in 0..len {
        v.push(seed.wrapping_add((i % 251) as u8));
    }
    v
}

#[test]
fn playback_write_through() {
    let (mut rtd, sync) = play_setup();
    let data = bytes(512, 1);
    let n = do_write(&mut rtd, &data, 0, 512).unwrap();
    assert_eq!(n, 512);
    assert_eq!(sync.rx_dev.len(), 0);
    assert_eq!(rtd.leftovers_pos, 512);
    let n = do_write(&mut rtd, &data, 0, 512).unwrap();
    assert_eq!(n, 512);
    assert_eq!(sync.rx_dev.len(), 1);
    assert_eq!(rtd.leftovers_pos, 0);
    let chunk = sync.rx_dev.recv().unwrap();
    assert_eq!(chunk.len(), 1024);
    assert_eq!(&chunk[..512], &data[..]);
    assert_eq!(&chunk[512..], &data[..]);
}

#[test]
fn playback_exact_multiple() {
    let (mut rtd, sync) = play_setup();
    let data = bytes(4096, 7);
    let n = do_write(&mut rtd, &data, 0, 4096).unwrap();
    assert_eq!(n, 4096);
    assert_eq!(sync.rx_dev.len(), 4);
    assert_eq!(rtd.leftovers_pos, 0);
    for k in 0..4 {
        let chunk = sync.rx_dev.recv().unwrap();
        assert_eq!(&chunk[..], &data[k * 1024..(k + 1) * 1024]);
    }
}

#[test]
fn playback_offset_window() {
    let (mut rtd, sync) = play_setup();
    let data = bytes(2048, 3);
    let n = do_write(&mut rtd, &data, 1000, 1048).unwrap();
    assert_eq!(n, 1048);
    assert_eq!(sync.rx_dev.len(), 1);
    assert_eq!(rtd.leftovers_pos, 24);
    let chunk = sync.rx_dev.recv().unwrap();
    assert_eq!(&chunk[..], &data[1000..2024]);
}

#[test]
fn playback_queue_fill_and_free() {
    let (mut rtd, sync) = play_setup();
    let data = bytes(1024, 9);
    for _ in 0..8 {
        do_write(&mut rtd, &data, 0, 1024).unwrap();
    }
    assert_eq!(sync.rx_dev.len(), 8);
    // the queue is full: no room without the inner side consuming
    assert_eq!(do_get_avail_bytes(&rtd, &Direction::Render).unwrap(), 0);
    // once the inner side takes one chunk, one more write goes through
    let _ = sync.rx_dev.recv().unwrap();
    let n = do_write(&mut rtd, &data, 0, 1024).unwrap();
    assert_eq!(n, 1024);
    assert_eq!(sync.rx_dev.len(), 8);
}

#[test]
fn playback_queue_outlives_inner_receiver() {
    // the draining receiver inside the record keeps the queue open even
    // after the inner side is gone, so writes still land and flush can
    // still empty them out
    let (mut rtd, sync) = play_setup();
    drop(sync);
    let data = bytes(2048, 2);
    let n = do_write(&mut rtd, &data, 0, 2048).unwrap();
    assert_eq!(n, 2048);
    assert_eq!(do_get_avail_bytes(&rtd, &Direction::Render).unwrap(), 6 * 1024);
    do_flush(&mut rtd).unwrap();
    assert_eq!(do_get_avail_bytes(&rtd, &Direction::Render).unwrap(), 8 * 1024);
}

#[test]
fn capture_partial_read() {
    let (mut rtd, sync) = capt_setup();
    let chunk = bytes(1024, 5);
    sync.tx_dev.send((0, chunk.clone())).unwrap();
    let mut out = vec![0u8; 1024];
    let n = do_read(&mut rtd, &mut out, 0, 600).unwrap();
    assert_eq!(n, 600);
    assert_eq!(rtd.leftovers_pos, 424);
    assert_eq!(&out[..600], &chunk[..600]);
    // the consumed buffer went back to the prealloc queue
    assert_eq!(sync.rx_prealloc.len(), 17);
    let n = do_read(&mut rtd, &mut out, 0, 424).unwrap();
    assert_eq!(n, 424);
    assert_eq!(rtd.leftovers_pos, 0);
    assert_eq!(&out[..424], &chunk[600..]);
}

#[test]
fn capture_read_from_leftovers_never_touches_queue() {
    let (mut rtd, sync) = capt_setup();
    let chunk = bytes(1024, 11);
    sync.tx_dev.send((0, chunk.clone())).unwrap();
    let mut out = vec![0u8; 1024];
    do_read(&mut rtd, &mut out, 0, 600).unwrap();
    assert_eq!(rtd.leftovers_pos, 424);
    // park a second chunk; a read the leftovers satisfy must not take it
    sync.tx_dev.send((1, bytes(1024, 12))).unwrap();
    let n = do_read(&mut rtd, &mut out, 0, 400).unwrap();
    assert_eq!(n, 400);
    assert_eq!(rtd.leftovers_pos, 24);
    assert_eq!(sync.tx_dev.len(), 1);
    assert_eq!(&out[..400], &chunk[600..1000]);
}

#[test]
fn capture_chunk_numbers_advance_without_drop() {
    let (mut rtd, sync) = capt_setup();
    for nbr in 0..4u64 {
        sync.tx_dev.send((nbr, bytes(1024, nbr as u8))).unwrap();
    }
    let mut out = vec![0u8; 4096];
    let n = do_read(&mut rtd, &mut out, 0, 4096).unwrap();
    assert_eq!(n, 4096);
    assert_eq!(rtd.leftovers_pos, 0);
    // four chunks, each one step: no jump beyond the step means no drop
    assert_eq!(rtd.capt_last_chunk_nbr, 4);
}

#[test]
fn capture_dropped_chunk_fast_forwards() {
    let (mut rtd, sync) = capt_setup();
    sync.tx_dev.send((0, bytes(1024, 1))).unwrap();
    // chunks 1 and 2 never arrive: the device side dropped them
    sync.tx_dev.send((3, bytes(1024, 2))).unwrap();
    let mut out = vec![0u8; 2048];
    do_read(&mut rtd, &mut out, 0, 2048).unwrap();
    // the expected number fast-forwarded to the received one
    assert_eq!(rtd.capt_last_chunk_nbr, 3);
}

#[test]
fn capture_flush_counts_and_recycles() {
    let (mut rtd, sync) = capt_setup();
    for nbr in 0..3u64 {
        sync.tx_dev.send((nbr, bytes(1024, nbr as u8))).unwrap();
    }
    let prealloc_before = sync.rx_prealloc.len();
    do_flush(&mut rtd).unwrap();
    assert_eq!(rtd.capt_flushed_cnt, 3);
    assert_eq!(sync.tx_dev.len(), 0);
    assert_eq!(sync.rx_prealloc.len(), prealloc_before + 3);
    // the next read accounts for the flushed chunks: no drop seen
    sync.tx_dev.send((3, bytes(1024, 9))).unwrap();
    let mut out = vec![0u8; 1024];
    do_read(&mut rtd, &mut out, 0, 1024).unwrap();
    assert_eq!(rtd.capt_last_chunk_nbr, 4);
    assert_eq!(rtd.capt_flushed_cnt, 0);
}

#[test]
fn render_flush_empties_queue() {
    let (mut rtd, sync) = play_setup();
    let data = bytes(3072, 4);
    do_write(&mut rtd, &data, 0, 3072).unwrap();
    assert_eq!(sync.rx_dev.len(), 3);
    do_flush(&mut rtd).unwrap();
    assert_eq!(sync.rx_dev.len(), 0);
}

#[test]
fn capture_oversized_chunk_is_refused() {
    let (mut rtd, sync) = capt_setup();
    sync.tx_dev.send((0, bytes(2048, 1))).unwrap();
    let mut out = vec![0u8; 4096];
    let err = do_read(&mut rtd, &mut out, 0, 2048).unwrap_err();
    assert_eq!(err.kind, ErrorKind::ExclusiveModeAnomaly);
}

#[test]
fn capture_read_after_queue_closed() {
    let (mut rtd, sync) = capt_setup();
    drop(sync);
    let mut out = vec![0u8; 1024];
    let err = do_read(&mut rtd, &mut out, 0, 1024).unwrap_err();
    assert_eq!(err.kind, ErrorKind::ChannelClosed);
}

#[test]
fn drain_playback_waits_for_queue_and_device() {
    let (mut rtd, sync) = play_setup();
    let data = bytes(3072, 8);
    do_write(&mut rtd, &data, 0, 3072).unwrap();
    do_drain_prepare(&rtd);
    assert!(!do_drain_step(&rtd));
    // the inner side consumes everything
    while sync.rx_dev.try_recv().is_ok() {}
    assert!(do_drain_step(&rtd));
    // draining asserted the stop signal
    assert!(sync.stop_signal.load(core::sync::atomic::Ordering::Relaxed));
}

#[test]
fn drain_capture_stops_first_then_waits_for_host() {
    let (rtd, sync) = capt_setup();
    sync.tx_dev.send((0, bytes(1024, 1))).unwrap();
    do_drain_prepare(&rtd);
    assert!(sync.stop_signal.load(core::sync::atomic::Ordering::Relaxed));
    assert!(!do_drain_step(&rtd));
    let _ = rtd.capt_rx_dev.as_ref().unwrap().recv().unwrap();
    assert!(do_drain_step(&rtd));
}

#[test]
fn buffer_bytes_is_capacity_times_chunk() {
    let (rtd, _sync) = play_setup();
    assert_eq!(do_get_buffer_bytes(&rtd, &Direction::Render).unwrap(), 8 * 1024);
    let err = do_get_buffer_bytes(&rtd, &Direction::Capture).unwrap_err();
    assert_eq!(err.kind, ErrorKind::DirectionMismatch);
}

#[test]
fn avail_bytes_render_counts_free_slots() {
    let (mut rtd, sync) = play_setup();
    assert_eq!(do_get_avail_bytes(&rtd, &Direction::Render).unwrap(), 8 * 1024);
    let data = bytes(2048, 1);
    do_write(&mut rtd, &data, 0, 2048).unwrap();
    assert_eq!(sync.rx_dev.len(), 2);
    assert_eq!(do_get_avail_bytes(&rtd, &Direction::Render).unwrap(), 6 * 1024);
}

#[test]
fn avail_bytes_capture_counts_pending_and_leftovers() {
    let (mut rtd, sync) = capt_setup();
    sync.tx_dev.send((0, bytes(1024, 1))).unwrap();
    sync.tx_dev.send((1, bytes(1024, 2))).unwrap();
    assert_eq!(do_get_avail_bytes(&rtd, &Direction::Capture).unwrap(), 2048);
    let mut out = vec![0u8; 600];
    do_read(&mut rtd, &mut out, 0, 600).unwrap();
    // one chunk left in the queue, 424 bytes parked
    assert_eq!(do_get_avail_bytes(&rtd, &Direction::Capture).unwrap(), 1024 + 424);
}

#[test]
fn byte_pos_subtracts_or_adds_queued_bytes() {
    let (mut rtd, sync) = play_setup();
    let data = bytes(2048 + 100, 1);
    do_write(&mut rtd, &data, 0, 2148).unwrap();
    assert_eq!(sync.rx_dev.len(), 2);
    assert_eq!(rtd.leftovers_pos, 100);
    let pos = do_get_byte_pos(&rtd, &Direction::Render, 10_000).unwrap();
    assert_eq!(pos, 10_000 - 2048 - 100);

    let (mut crtd, csync) = capt_setup();
    csync.tx_dev.send((0, bytes(1024, 1))).unwrap();
    let mut out = vec![0u8; 600];
    do_read(&mut crtd, &mut out, 0, 600).unwrap();
    let pos = do_get_byte_pos(&crtd, &Direction::Capture, 500).unwrap();
    assert_eq!(pos, 500 + 424);
}

#[test]
fn zero_capacity_capture_channels_still_build() {
    let (pending, sync) = make_capt_channels(0, 64).unwrap();
    assert_eq!(sync.rx_prealloc.len(), 0);
    let rtd = finish_capt_runtime("9".to_string(), "in".to_string(), pending, 256, 4);
    assert_eq!(rtd.queue_chunks, 0);
}

#[test]
fn zero_length_calls_do_nothing() {
    let (mut rtd, sync) = play_setup();
    let data = bytes(16, 1);
    assert_eq!(do_write(&mut rtd, &data, 0, 0).unwrap(), 0);
    assert_eq!(rtd.leftovers_pos, 0);
    assert_eq!(sync.rx_dev.len(), 0);

    let (mut crtd, csync) = capt_setup();
    let mut out = vec![0u8; 16];
    assert_eq!(do_read(&mut crtd, &mut out, 0, 0).unwrap(), 0);
    assert_eq!(csync.tx_dev.len(), 0);
}

#[test]
fn capture_read_spanning_two_chunks() {
    let (mut rtd, sync) = capt_setup();
    let first = bytes(1024, 21);
    let second = bytes(1024, 22);
    sync.tx_dev.send((0, first.clone())).unwrap();
    sync.tx_dev.send((1, second.clone())).unwrap();
    let mut out = vec![0u8; 1536];
    let n = do_read(&mut rtd, &mut out, 0, 1536).unwrap();
    assert_eq!(n, 1536);
    assert_eq!(&out[..1024], &first[..]);
    assert_eq!(&out[1024..], &second[..512]);
    assert_eq!(rtd.leftovers_pos, 512);
    let mut rest = vec![0u8; 512];
    do_read(&mut rtd, &mut rest, 0, 512).unwrap();
    assert_eq!(&rest[..], &second[512..]);
}

#[test]
fn render_byte_pos_never_goes_negative() {
    let (mut rtd, _sync) = play_setup();
    let data = bytes(2048, 1);
    do_write(&mut rtd, &data, 0, 2048).unwrap();
    // the host claims a position smaller than what is queued here
    assert_eq!(do_get_byte_pos(&rtd, &Direction::Render, 100).unwrap(), 0);
}

#[test]
fn signals_follow_direction_checks() {
    let (rtd, sync) = play_setup();
    assert_eq!(
        do_start(&rtd, &Direction::Capture).unwrap_err().kind,
        ErrorKind::DirectionMismatch
    );
    assert!(!sync.start_signal.load(core::sync::atomic::Ordering::Relaxed));
    do_start(&rtd, &Direction::Render).unwrap();
    assert!(sync.start_signal.load(core::sync::atomic::Ordering::Relaxed));
    do_stop(&rtd, &Direction::Render).unwrap();
    assert!(sync.stop_signal.load(core::sync::atomic::Ordering::Relaxed));
    do_close(&rtd, &Direction::Render).unwrap();
    assert!(sync.exit_signal.load(core::sync::atomic::Ordering::Relaxed));
}
