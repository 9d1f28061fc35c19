use kern::{crlf, read_more, wait_step, Wait};

#[test]
fn wait_without_timeout_blocks_until_ready() {
    for now in [0u64, 10, 1_000_000, u64::MAX] {
        assert_eq!(wait_step(None, 0, now, false), Wait::Pending);
    }
    assert_eq!(wait_step(None, 0, 5, true), Wait::Ready);
}

#[test]
fn wait_with_timeout_fails_only_after_it_elapsed() {
    let start = 1_000;
    assert_eq!(wait_step(Some(100), start, 1_000, false), Wait::Pending);
    assert_eq!(wait_step(Some(100), start, 1_099, false), Wait::Pending);
    assert_eq!(wait_step(Some(100), start, 1_100, false), Wait::TimedOut);
    assert_eq!(wait_step(Some(100), start, 9_000, false), Wait::TimedOut);
    assert_eq!(wait_step(Some(100), start, 9_000, true), Wait::Ready);
    // A timer that reads less than the start counts as no time elapsed.
    assert_eq!(wait_step(Some(100), start, 10, false), Wait::Pending);
    assert_eq!(wait_step(Some(0), start, 10, false), Wait::TimedOut);
}

#[test]
fn line_feeds_become_crlf() {
    assert_eq!(crlf(b"a\nb\n"), b"a\r\nb\r\n".to_vec());
    assert_eq!(crlf(b""), Vec::<u8>::new());
    assert_eq!(crlf(b"\r"), b"\r".to_vec());
}

#[test]
fn bulk_read_takes_only_ready_bytes_within_room() {
    assert!(read_more(1, 4, true));
    assert!(!read_more(1, 4, false));
    assert!(!read_more(4, 4, true));
}
