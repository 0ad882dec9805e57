use neural_dvr::capture::{CaptureAction, CaptureEvent, CaptureFailure, CaptureSession};
use neural_dvr::frames::{extract_next_jpeg, take_frames};

#[test]
fn frame_after_garbage() {
    let mut buf = vec![1, 2, 0xFF, 0xD8, 7, 8, 0xFF, 0xD9, 9, 10];
    let f = extract_next_jpeg(&mut buf);
    assert_eq!(f, Some(vec![0xFF, 0xD8, 7, 8, 0xFF, 0xD9]));
    assert_eq!(buf, vec![9, 10]);
}

#[test]
fn shortest_frame() {
    let mut buf = vec![0xFF, 0xD8, 0xFF, 0xD9];
    assert_eq!(extract_next_jpeg(&mut buf), Some(vec![0xFF, 0xD8, 0xFF, 0xD9]));
    assert!(buf.is_empty());
}

#[test]
fn end_marker_overlapping_start_is_not_an_end() {
    // FF D8 D9: the D9 belongs to no end marker that starts at index 2 or later.
    let mut buf = vec![0xFF, 0xD8, 0xD9, 0x00];
    assert_eq!(extract_next_jpeg(&mut buf), None);
    assert_eq!(buf, vec![0xFF, 0xD8, 0xD9, 0x00]);
}

#[test]
fn no_start_marker_keeps_small_buffer() {
    let mut buf = vec![0xFF, 0xD9, 1, 2, 0xFF];
    assert_eq!(extract_next_jpeg(&mut buf), None);
    assert_eq!(buf, vec![0xFF, 0xD9, 1, 2, 0xFF]);
}

#[test]
fn no_start_marker_clears_large_buffer() {
    let mut buf = vec![0u8; 1024 * 1024 + 1];
    assert_eq!(extract_next_jpeg(&mut buf), None);
    assert!(buf.is_empty());
    let mut kept = vec![0u8; 1024 * 1024];
    assert_eq!(extract_next_jpeg(&mut kept), None);
    assert_eq!(kept.len(), 1024 * 1024);
}

#[test]
fn partial_frame_drops_leading_garbage() {
    let mut buf = vec![5, 5, 0xFF, 0xD8, 1, 2, 3];
    assert_eq!(extract_next_jpeg(&mut buf), None);
    assert_eq!(buf, vec![0xFF, 0xD8, 1, 2, 3]);
}

#[test]
fn partial_frame_too_large_is_cleared() {
    let mut buf = vec![0xFF, 0xD8];
    buf.extend(vec![0u8; 4 * 1024 * 1024]);
    assert_eq!(extract_next_jpeg(&mut buf), None);
    assert!(buf.is_empty());
}

#[test]
fn take_frames_across_chunks() {
    let mut pending = Vec::new();
    let first = take_frames(&mut pending, &[0xFF, 0xD8, 1, 0xFF]);
    assert!(first.is_empty());
    assert_eq!(pending, vec![0xFF, 0xD8, 1, 0xFF]);
    let second = take_frames(&mut pending, &[0xD9, 0xFF, 0xD8, 2, 0xFF, 0xD9, 0xFF, 0xD8, 3]);
    assert_eq!(
        second,
        vec![vec![0xFF, 0xD8, 1, 0xFF, 0xD9], vec![0xFF, 0xD8, 2, 0xFF, 0xD9]]
    );
    assert_eq!(pending, vec![0xFF, 0xD8, 3]);
}

fn transports() -> Vec<Option<String>> {
    vec![Some("tcp".to_string()), Some("udp".to_string()), None]
}

#[test]
fn capture_first_frame_flagged_once() {
    let mut s = CaptureSession::new(transports());
    assert_eq!(s.current_transport(), Some(Some("tcp".to_string())));
    match s.on_event(CaptureEvent::Data(vec![0xFF, 0xD8, 1])) {
        CaptureAction::Publish { frames, first_frame } => {
            assert!(frames.is_empty());
            assert!(!first_frame);
        }
        other => panic!("unexpected {:?}", other),
    }
    match s.on_event(CaptureEvent::Data(vec![0xFF, 0xD9, 0xFF, 0xD8, 2, 0xFF, 0xD9])) {
        CaptureAction::Publish { frames, first_frame } => {
            assert_eq!(frames.len(), 2);
            assert!(first_frame);
        }
        other => panic!("unexpected {:?}", other),
    }
    match s.on_event(CaptureEvent::Data(vec![0xFF, 0xD8, 3, 0xFF, 0xD9])) {
        CaptureAction::Publish { frames, first_frame } => {
            assert_eq!(frames, vec![vec![0xFF, 0xD8, 3, 0xFF, 0xD9]]);
            assert!(!first_frame);
        }
        other => panic!("unexpected {:?}", other),
    }
    match s.on_event(CaptureEvent::Exited { success: false }) {
        CaptureAction::Finish(f) => assert_eq!(f, CaptureFailure::ExitedWhileStreaming),
        other => panic!("unexpected {:?}", other),
    }
}

#[test]
fn capture_clean_exit_after_streaming_is_success() {
    let mut s = CaptureSession::new(transports());
    match s.on_event(CaptureEvent::Data(vec![0xFF, 0xD8, 7, 0xFF, 0xD9])) {
        CaptureAction::Publish { frames, first_frame } => {
            assert_eq!(frames, vec![vec![0xFF, 0xD8, 7, 0xFF, 0xD9]]);
            assert!(first_frame);
        }
        other => panic!("unexpected {:?}", other),
    }
    match s.on_event(CaptureEvent::Exited { success: true }) {
        CaptureAction::Done => {}
        other => panic!("unexpected {:?}", other),
    }
    assert_eq!(s.current_transport(), Some(Some("tcp".to_string())));
}

#[test]
fn capture_clean_exit_before_first_frame_tries_next() {
    let mut s = CaptureSession::new(transports());
    match s.on_event(CaptureEvent::Exited { success: true }) {
        CaptureAction::TryNext => {}
        other => panic!("unexpected {:?}", other),
    }
    assert_eq!(s.current_transport(), Some(Some("udp".to_string())));
    assert_eq!(s.failure(), CaptureFailure::ExitedBeforeFirstFrame);
}

#[test]
fn capture_tries_every_transport() {
    let mut s = CaptureSession::new(transports());
    match s.on_event(CaptureEvent::SpawnFailed) {
        CaptureAction::TryNext => {}
        other => panic!("unexpected {:?}", other),
    }
    assert_eq!(s.current_transport(), Some(Some("udp".to_string())));
    match s.on_event(CaptureEvent::Data(vec![1, 2, 3])) {
        CaptureAction::Publish { frames, first_frame } => {
            assert!(frames.is_empty());
            assert!(!first_frame);
        }
        other => panic!("unexpected {:?}", other),
    }
    match s.on_event(CaptureEvent::ReadFailed) {
        CaptureAction::TryNext => {}
        other => panic!("unexpected {:?}", other),
    }
    assert_eq!(s.current_transport(), Some(None));
    match s.on_event(CaptureEvent::Exited { success: false }) {
        CaptureAction::Finish(f) => assert_eq!(f, CaptureFailure::ExitedBeforeFirstFrame),
        other => panic!("unexpected {:?}", other),
    }
    assert_eq!(s.current_transport(), None);
    assert_eq!(s.failure(), CaptureFailure::ExitedBeforeFirstFrame);
}

#[test]
fn capture_read_failure_while_streaming_ends_session() {
    let mut s = CaptureSession::new(transports());
    let _ = s.on_event(CaptureEvent::Data(vec![0xFF, 0xD8, 0xFF, 0xD9]));
    match s.on_event(CaptureEvent::ReadFailed) {
        CaptureAction::Finish(f) => assert_eq!(f, CaptureFailure::ReadFailedWhileStreaming),
        other => panic!("unexpected {:?}", other),
    }
}

#[test]
fn capture_without_transports() {
    let mut s = CaptureSession::new(Vec::new());
    assert_eq!(s.current_transport(), None);
    assert_eq!(s.failure(), CaptureFailure::NoTransport);
    match s.on_event(CaptureEvent::NoStdout) {
        CaptureAction::Finish(f) => assert_eq!(f, CaptureFailure::NoStdout),
        other => panic!("unexpected {:?}", other),
    }
}
