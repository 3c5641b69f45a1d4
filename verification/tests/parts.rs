use tail_rust::copier::{after_read, after_write, append_bytes, copy_to_end, CopyStep};
use tail_rust::failure::{FailureKind, SourceError};
use tail_rust::skipper::ForwardSkipper;
use tail_rust::window::LineWindow;

#[test]
fn a_read_of_nothing_ends_the_copy() {
    assert_eq!(after_read(0), CopyStep::Done);
    assert_eq!(after_read(1), CopyStep::Write { length: 1 });
    assert_eq!(after_read(1024), CopyStep::Write { length: 1024 });
}

#[test]
fn a_short_write_is_a_write_failure() {
    assert_eq!(after_write(5, 5), Ok(()));
    assert_eq!(after_write(0, 0), Ok(()));
    assert_eq!(after_write(5, 3), Err(FailureKind::WriteFailure));
    assert_eq!(after_write(5, 0), Err(FailureKind::WriteFailure));
}

#[test]
fn copy_to_end_copies_from_the_offset() {
    let source = b"a\nb\nc\nd\n";
    let mut sink = b">>".to_vec();
    copy_to_end(source, 4, &mut sink);
    assert_eq!(sink, b">>c\nd\n".to_vec());
    let mut all = Vec::new();
    copy_to_end(source, 0, &mut all);
    assert_eq!(all, source.to_vec());
    let mut none = Vec::new();
    copy_to_end(source, 8, &mut none);
    assert_eq!(none, Vec::<u8>::new());
}

#[test]
fn copy_to_end_copies_more_than_one_block() {
    let source: Vec<u8> = (0..5000u32).map(|i| (i % 251) as u8).collect();
    for offset in [0usize, 1, 1023, 1024, 1025, 3976, 4999, 5000] {
        let mut sink = Vec::new();
        copy_to_end(&source, offset, &mut sink);
        assert_eq!(sink, source[offset..].to_vec());
    }
}

#[test]
fn append_bytes_extends_the_sink() {
    let mut sink = b"ab".to_vec();
    append_bytes(&mut sink, b"cd\n");
    assert_eq!(sink, b"abcd\n".to_vec());
    append_bytes(&mut sink, b"");
    assert_eq!(sink, b"abcd\n".to_vec());
}

#[test]
fn the_window_keeps_the_newest_lines() {
    let mut window = LineWindow::new(2);
    assert_eq!(window.len(), 0);
    window.push(b"a\n".to_vec());
    assert_eq!(window.len(), 1);
    window.push(b"b\n".to_vec());
    assert_eq!(window.len(), 2);
    window.push(b"c".to_vec());
    assert_eq!(window.len(), 2);
    assert_eq!(window.line(0), &b"b\n".to_vec());
    assert_eq!(window.line(1), &b"c".to_vec());
    let mut sink = Vec::new();
    window.write_to(&mut sink);
    assert_eq!(sink, b"b\nc".to_vec());
}

#[test]
fn the_window_never_holds_more_than_its_capacity() {
    for capacity in [0usize, 1, 3, 10] {
        let mut window = LineWindow::new(capacity);
        for i in 0..50usize {
            window.push(format!("{}\n", i).into_bytes());
            assert!(window.len() <= capacity);
            assert_eq!(window.len(), capacity.min(i + 1));
            assert!(window.lines.len() <= capacity);
        }
        let mut sink = Vec::new();
        window.write_to(&mut sink);
        let mut expected = Vec::new();
        for i in (50 - capacity)..50 {
            expected.extend_from_slice(format!("{}\n", i).as_bytes());
        }
        assert_eq!(sink, expected);
    }
}

#[test]
fn a_window_without_capacity_keeps_nothing() {
    let mut window = LineWindow::new(0);
    window.push(b"a\n".to_vec());
    window.push(b"b\n".to_vec());
    assert_eq!(window.len(), 0);
    let mut sink = b"x".to_vec();
    window.write_to(&mut sink);
    assert_eq!(sink, b"x".to_vec());
}

#[test]
fn the_skipper_lets_lines_pass_after_the_count() {
    let mut skipper = ForwardSkipper::new(2);
    assert_eq!(skipper.remaining, 2);
    assert!(!skipper.passes());
    assert_eq!(skipper.remaining, 1);
    assert!(!skipper.passes());
    assert_eq!(skipper.remaining, 0);
    assert!(skipper.passes());
    assert!(skipper.passes());
    assert_eq!(skipper.remaining, 0);
}

#[test]
fn a_skipper_of_zero_lets_everything_pass() {
    let mut skipper = ForwardSkipper::new(0);
    for _ in 0..5 {
        assert!(skipper.passes());
    }
}

#[test]
fn a_failure_reports_program_source_and_detail() {
    let error = SourceError::new("missing.txt", FailureKind::OpenFailure, "no such file");
    assert_eq!(error.source_name, "missing.txt");
    assert_eq!(error.kind, FailureKind::OpenFailure);
    assert_eq!(error.detail, "no such file");
    assert_eq!(error.report("tail"), "tail: missing.txt: no such file");
    let broken = SourceError::new("-", FailureKind::WriteFailure, "broken pipe");
    assert_eq!(broken.report("./tail"), "./tail: -: broken pipe");
}
