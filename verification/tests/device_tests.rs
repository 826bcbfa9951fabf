use wasapi_core::directory::{
    do_get_device_cnt, do_get_mixer_desc, locate_device, parse_device_id, u32_to_decimal,
    Direction,
};
use wasapi_core::errors::{DeviceError, Disconnected, ErrorKind};
use wasapi_core::opener::{
    apartment_init_recoverable, compute_buffer_geometry, compute_period, lcm,
    prealloc_chunk_bytes, RPC_E_CHANGED_MODE_CODE, S_FALSE_CODE,
};
use wasapi_core::tracker::DeviceTimeTracker;

#[test]
fn decimal_ids_round_trip() {
    assert_eq!(u32_to_decimal(0), "0");
    assert_eq!(u32_to_decimal(7), "7");
    assert_eq!(u32_to_decimal(1234567890), "1234567890");
    assert_eq!(parse_device_id("0").unwrap(), 0);
    assert_eq!(parse_device_id("42").unwrap(), 42);
    assert_eq!(parse_device_id("+9").unwrap(), 9);
    assert_eq!(parse_device_id("4294967295").unwrap(), u32::MAX);
}

#[test]
fn bad_device_ids_are_not_found() {
    for bad in ["", "+", "x", "1x", "-3", "4294967296", "999999999999999999999"] {
        let err = parse_device_id(bad).unwrap_err();
        assert_eq!(err.kind, ErrorKind::DeviceNotFound, "id {:?}", bad);
    }
}

#[test]
fn flat_index_splits_render_then_capture() {
    assert_eq!(locate_device(0, 3, 2).unwrap(), (Direction::Render, 0));
    assert_eq!(locate_device(2, 3, 2).unwrap(), (Direction::Render, 2));
    assert_eq!(locate_device(3, 3, 2).unwrap(), (Direction::Capture, 0));
    assert_eq!(locate_device(4, 3, 2).unwrap(), (Direction::Capture, 1));
    let err = locate_device(5, 3, 2).unwrap_err();
    assert_eq!(err.kind, ErrorKind::DeviceNotFound);
}

#[test]
fn device_count_adds_both_collections() {
    assert_eq!(do_get_device_cnt(3, 2).unwrap(), 5);
    assert_eq!(do_get_device_cnt(0, 0).unwrap(), 0);
}

#[test]
fn mixer_desc_spells_id_and_marks_exclusive() {
    let desc = do_get_mixer_desc(4, "Speakers", "rear jack".to_string());
    assert_eq!(desc.deviceID, "4");
    assert_eq!(desc.max_lines, 1);
    assert_eq!(desc.name, "EXCL: Speakers");
    assert_eq!(desc.description, "rear jack");
}

#[test]
fn device_error_carries_kind_and_text() {
    let e = DeviceError::new("it broke");
    assert_eq!(e.kind, ErrorKind::IoFailure);
    assert_eq!(e.message(), "it broke");
    let e = DeviceError::with_kind(ErrorKind::FormatUnsupported, "no such shape");
    assert_eq!(e.kind, ErrorKind::FormatUnsupported);
    assert_eq!(e.message(), "no such shape");
    let d = Disconnected::FormatChange;
    assert_ne!(d, Disconnected::Error);
}

#[test]
fn lcm_of_frame_and_block_sizes() {
    assert_eq!(lcm(4, 128), 128);
    assert_eq!(lcm(6, 128), 384);
    assert_eq!(lcm(128, 4), 128);
    assert_eq!(lcm(3, 7), 21);
    assert_eq!(lcm(12, 12), 12);
    assert_eq!(lcm(1, 1), 1);
}

#[test]
fn period_aligns_to_whole_segments() {
    // frame_bytes 4, stereo 16-bit at 48 kHz: align to lcm(4,128)=128 bytes,
    // one segment is 128*1e7/48000 ticks; eleven segments of ~26666.67
    // ticks round to 293333.
    assert_eq!(compute_period(50_000, 4, 2, 48000), 293_333);
    // a minimum period above the aligned value forces one more segment
    let p = compute_period(300_000, 4, 2, 48000);
    assert_eq!(p, 293_333 + 26_666);
}

#[test]
fn buffer_geometry_counts_whole_chunks() {
    let (est, chunks) = compute_buffer_geometry(48000, 293_333, 4, 4 * 1407 * 8).unwrap();
    assert_eq!(est, 1407);
    assert_eq!(chunks, 8);
    // a period too short to hold one frame is refused
    let err = compute_buffer_geometry(1, 100, 4, 65536).unwrap_err();
    assert_eq!(err.kind, ErrorKind::ClientInit);
}

#[test]
fn prealloc_allows_half_a_chunk_of_headroom() {
    assert_eq!(prealloc_chunk_bytes(1407, 4), 8442);
    assert_eq!(prealloc_chunk_bytes(256, 4), 1536);
}

#[test]
fn apartment_results_already_initialized_pass() {
    assert!(apartment_init_recoverable(0));
    assert!(apartment_init_recoverable(S_FALSE_CODE));
    assert!(apartment_init_recoverable(RPC_E_CHANGED_MODE_CODE));
    assert!(!apartment_init_recoverable(0x8000_4005));
}

#[test]
fn tracker_ignores_zero_clock() {
    let mut t = DeviceTimeTracker::new();
    for _ in 0..5 {
        assert!(!t.event_missing(0, 300_000));
    }
    // still nothing after a first valid reading and more zeros
    assert!(!t.event_missing(1_000_000, 300_000));
    assert!(!t.event_missing(0, 300_000));
    assert!(!t.event_missing(0, 300_000));
}

#[test]
fn tracker_tolerates_clock_within_half_a_frame() {
    let mut t = DeviceTimeTracker::new();
    assert!(!t.event_missing(1_000_000, 300_000));
    // advance of 450000 ticks over one 300000-tick frame: exactly the
    // tolerance boundary, not beyond it
    assert!(!t.event_missing(1_450_000, 300_000));
}

#[test]
fn tracker_reports_clock_running_ahead() {
    let mut t = DeviceTimeTracker::new();
    assert!(!t.event_missing(1_000_000, 300_000));
    assert!(t.event_missing(1_450_001, 300_000));
    // the tracker started over: the next reading is a fresh baseline
    assert!(!t.event_missing(9_000_000, 300_000));
}

#[test]
fn tracker_accumulates_frames_across_zero_readings() {
    let mut t = DeviceTimeTracker::new();
    assert!(!t.event_missing(1_000_000, 300_000));
    // two frames pass while the clock reads zero
    assert!(!t.event_missing(0, 300_000));
    assert!(!t.event_missing(0, 300_000));
    // 900000 elapsed frame time + 150000 tolerance: 2050001 is beyond it
    assert!(t.event_missing(2_050_001, 300_000));
}
