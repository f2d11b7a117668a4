use kara::waiting::{file_wait, pieces_wait, video_wait, Wait};

#[test]
fn a_video_has_a_second_to_begin() {
    assert_eq!(video_wait(true, u64::MAX), Wait::Ready);
    assert_eq!(video_wait(false, 1_000_000_000), Wait::Sleep(10));
    assert_eq!(video_wait(false, 1_000_000_001), Wait::GiveUp);
}

#[test]
fn missing_pieces_are_not_waited_for_forever() {
    assert_eq!(pieces_wait(true, 0), Wait::Ready);
    assert_eq!(pieces_wait(false, 1_499_999_999), Wait::Sleep(15));
    assert_eq!(pieces_wait(false, 1_500_000_000), Wait::Ready);
}

#[test]
fn a_file_is_looked_for_fifty_times() {
    let mut slept = 0;
    while let Wait::Sleep(ms) = file_wait(false, slept) {
        assert_eq!(ms, 20);
        slept += 1;
    }
    assert_eq!(slept, 50);
    assert_eq!(file_wait(false, 50), Wait::GiveUp);
    assert_eq!(file_wait(true, 50), Wait::Ready);
}
