use chobits::osf::{expression_stem, frames_of, osf_plan, FrameCursor, OsfPlan, OsfPlayer, FRAME_LEN};

fn expression(frame_count: usize) -> Vec<u8> {
    let mut data = vec![0u8; FRAME_LEN * frame_count];
    for f in 0..frame_count {
        data[f * FRAME_LEN] = f as u8;
    }
    data
}

#[test]
fn read_frames_parses_exact_chunks() {
    let frames = frames_of(&expression(3));
    assert_eq!(frames.len(), 3);
    assert_eq!(frames[0][0], 0);
    assert_eq!(frames[2][0], 2);
    assert!(frames.iter().all(|f| f.len() == FRAME_LEN));
}

#[test]
fn read_frames_drops_trailing_partial_frame() {
    let mut data = vec![0u8; FRAME_LEN + 10];
    data[0] = 42;
    let frames = frames_of(&data);
    assert_eq!(frames.len(), 1);
    assert_eq!(frames[0][0], 42);
}

#[test]
fn new_errors_when_fallback_missing() {
    let files = vec![("happy.osf.bin".to_string(), expression(1))];
    let result = OsfPlayer::from_files("/exprs", "neutral", files);
    let err = result.err().expect("expected missing fallback error");
    assert!(err.contains("Fallback expression file does not exist"));
    assert_eq!(err, "Fallback expression file does not exist: \"/exprs/neutral.osf.bin\"");
}

#[test]
fn missing_fallback_message_quotes_the_path() {
    let files = vec![("happy.osf.bin".to_string(), expression(1))];
    let err = OsfPlayer::from_files("/it's", "neutral", files).err().expect("error");
    assert_eq!(err, "Fallback expression file does not exist: \"/it's/neutral.osf.bin\"");
}

#[test]
fn new_lists_expressions_sorted() {
    let files = vec![
        ("zebra.osf.bin".to_string(), expression(1)),
        ("alpha.osf.bin".to_string(), expression(1)),
        ("notes.txt".to_string(), vec![1, 2, 3]),
        ("neutral.osf.bin".to_string(), expression(1)),
    ];
    let player = OsfPlayer::from_files("/exprs", "neutral", files).unwrap();
    assert_eq!(player.get_available_expressions(), vec!["alpha", "neutral", "zebra"]);
}

#[test]
fn load_named_falls_back() {
    let files = vec![
        ("neutral.osf.bin".to_string(), expression(1)),
        ("happy.osf.bin".to_string(), expression(2)),
    ];
    let player = OsfPlayer::from_files("/exprs", "neutral", files).unwrap();
    assert_eq!(player.load_named("happy").unwrap().len(), 2);
    assert_eq!(player.load_named("missing").unwrap().len(), 1);
}

#[test]
fn expression_stem_strips_suffix() {
    assert_eq!(expression_stem("happy.osf.bin"), Some("happy".to_string()));
    assert_eq!(expression_stem("happy.bin"), None);
}

#[test]
fn play_sends_all_frames_once() {
    let mut c = FrameCursor::new(2, false);
    assert_eq!(c.advance(), Some(0));
    assert_eq!(c.advance(), Some(1));
    assert_eq!(c.advance(), None);
}

#[test]
fn play_looping_repeats_until_cancel() {
    let mut c = FrameCursor::new(1, true);
    for _ in 0..3 {
        assert_eq!(c.advance(), Some(0));
    }
    assert_eq!(osf_plan(0, true), OsfPlan::WaitForCancel);
    assert_eq!(osf_plan(0, false), OsfPlan::Nothing);
    assert_eq!(osf_plan(3, false), OsfPlan::Send(FrameCursor::new(3, false)));
}

#[test]
fn cursor_sends_once_then_nothing() {
    let mut c = FrameCursor::new(3, false);
    let sent: Vec<Option<usize>> = (0..6).map(|_| c.advance()).collect();
    assert_eq!(sent, vec![Some(0), Some(1), Some(2), None, None, None]);
}

#[test]
fn looping_cursor_cycles_frames() {
    let mut c = FrameCursor::new(3, true);
    let sent: Vec<Option<usize>> = (0..8).map(|_| c.advance()).collect();
    assert_eq!(sent, vec![Some(0), Some(1), Some(2), Some(0), Some(1), Some(2), Some(0), Some(1)]);
}
