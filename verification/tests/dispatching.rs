use tail_rust::dispatch::{
    advance, header_line, is_standard_input, run_batch, select_strategy, source_names,
    BatchReport, Event, MemorySource, Phase, Strategy,
};
use tail_rust::failure::{FailureKind, SourceError};
use tail_rust::options::{Direction, TailOptions};

fn options_for(item_count: usize, direction: Direction, headers: bool, files: &[&str]) -> TailOptions {
    TailOptions {
        show_help: false,
        show_version: false,
        output_headers: headers,
        item_count,
        direction,
        files: files.iter().map(|name| name.to_string()).collect(),
    }
}

fn readable(name: &str, seekable: bool, content: &[u8]) -> MemorySource {
    MemorySource { name: name.to_string(), seekable, content: Ok(content.to_vec()) }
}

fn unreadable(name: &str, detail: &str) -> MemorySource {
    MemorySource { name: name.to_string(), seekable: true, content: Err(detail.to_string()) }
}

#[test]
fn from_the_top_every_source_is_skipped_through() {
    assert_eq!(select_strategy(Direction::FromTop, true), Strategy::Skip);
    assert_eq!(select_strategy(Direction::FromTop, false), Strategy::Skip);
}

#[test]
fn from_the_bottom_seekability_decides() {
    assert_eq!(select_strategy(Direction::FromBottom, true), Strategy::Scan);
    assert_eq!(select_strategy(Direction::FromBottom, false), Strategy::Window);
}

#[test]
fn a_dash_names_the_standard_input() {
    assert!(is_standard_input("-"));
    assert!(!is_standard_input(""));
    assert!(!is_standard_input("--"));
    assert!(!is_standard_input("a"));
    assert!(!is_standard_input("-a"));
    assert!(!is_standard_input("\u{2212}"));
}

#[test]
fn the_header_names_the_source() {
    assert_eq!(header_line("notes.txt"), "==> notes.txt <==");
    assert_eq!(header_line("-"), "==> standard input <==");
    assert_eq!(header_line(""), "==>  <==");
    assert_eq!(header_line("dir/é.log"), "==> dir/é.log <==");
}

#[test]
fn a_seekable_source_is_scanned_then_copied() {
    let direction = Direction::FromBottom;
    let scanning = advance(direction, Phase::Opening, Event::Opened { seekable: true });
    assert_eq!(scanning, Phase::Scanning);
    let copying = advance(direction, scanning, Event::Finished);
    assert_eq!(copying, Phase::Copying);
    assert_eq!(advance(direction, copying, Event::Finished), Phase::Done);
}

#[test]
fn a_stream_goes_through_the_window() {
    let direction = Direction::FromBottom;
    let windowing = advance(direction, Phase::Opening, Event::Opened { seekable: false });
    assert_eq!(windowing, Phase::Windowing);
    assert_eq!(advance(direction, windowing, Event::Finished), Phase::Done);
}

#[test]
fn from_the_top_the_phase_is_skipping() {
    for seekable in [true, false] {
        let skipping = advance(Direction::FromTop, Phase::Opening, Event::Opened { seekable });
        assert_eq!(skipping, Phase::Skipping);
        assert_eq!(advance(Direction::FromTop, skipping, Event::Finished), Phase::Done);
    }
}

#[test]
fn a_failure_ends_the_source_with_its_kind() {
    let kinds = [
        FailureKind::OpenFailure,
        FailureKind::SeekFailure,
        FailureKind::ReadFailure,
        FailureKind::WriteFailure,
    ];
    let live = [Phase::Opening, Phase::Scanning, Phase::Windowing, Phase::Skipping, Phase::Copying];
    for kind in kinds {
        for phase in live {
            for direction in [Direction::FromTop, Direction::FromBottom] {
                assert_eq!(
                    advance(direction, phase, Event::Failure { kind }),
                    Phase::Failed { kind }
                );
            }
        }
    }
}

#[test]
fn done_and_failed_are_final() {
    let events = [
        Event::Opened { seekable: true },
        Event::Opened { seekable: false },
        Event::Finished,
        Event::Failure { kind: FailureKind::ReadFailure },
    ];
    let failed = Phase::Failed { kind: FailureKind::SeekFailure };
    for event in events {
        assert_eq!(advance(Direction::FromBottom, Phase::Done, event), Phase::Done);
        assert_eq!(advance(Direction::FromTop, failed, event), failed);
    }
}

#[test]
fn an_unexpected_event_changes_nothing() {
    assert_eq!(advance(Direction::FromBottom, Phase::Opening, Event::Finished), Phase::Opening);
    let opened = Event::Opened { seekable: true };
    for phase in [Phase::Scanning, Phase::Windowing, Phase::Skipping, Phase::Copying] {
        assert_eq!(advance(Direction::FromBottom, phase, opened), phase);
    }
}

#[test]
fn a_report_without_failures_exits_with_zero() {
    let report = BatchReport::new();
    assert!(!report.failed());
    assert_eq!(report.exit_status(), 0);
    assert!(report.failures.is_empty());
}

#[test]
fn a_recorded_failure_makes_the_run_fail() {
    let mut report = BatchReport::new();
    report.record(SourceError::new("b", FailureKind::OpenFailure, "denied"));
    assert!(report.failed());
    assert_eq!(report.exit_status(), 1);
    report.record(SourceError::new("c", FailureKind::ReadFailure, "gone"));
    assert_eq!(report.exit_status(), 1);
    assert_eq!(report.failures.len(), 2);
    assert_eq!(report.failures[0].source_name, "b");
    assert_eq!(report.failures[1].kind, FailureKind::ReadFailure);
}

#[test]
fn without_files_the_standard_input_is_the_source() {
    let none = options_for(10, Direction::FromBottom, false, &[]);
    assert_eq!(source_names(&none), vec!["-".to_string()]);
    let some = options_for(10, Direction::FromBottom, true, &["b", "a", "-"]);
    assert_eq!(source_names(&some), vec!["b".to_string(), "a".to_string(), "-".to_string()]);
}

#[test]
fn a_batch_goes_on_after_a_source_that_cannot_be_opened() {
    let options = options_for(2, Direction::FromBottom, true, &["first", "second", "third"]);
    let sources = vec![
        readable("first", true, b"a\nb\nc\nd\n"),
        unreadable("second", "No such file or directory"),
        readable("third", true, b"x\ny\nz"),
    ];
    let outcome = run_batch(&options, &sources);
    assert_eq!(
        outcome.output,
        b"==> first <==\nc\nd\n==> second <==\n==> third <==\ny\nz".to_vec()
    );
    assert_eq!(
        outcome.report.failures,
        vec![SourceError::new("second", FailureKind::OpenFailure, "No such file or directory")]
    );
    assert!(outcome.report.failed());
    assert_eq!(outcome.report.exit_status(), 1);
    assert_eq!(
        outcome.report.failures[0].report("tail"),
        "tail: second: No such file or directory"
    );
}

#[test]
fn a_batch_without_headers_writes_only_the_tails() {
    let options = options_for(1, Direction::FromBottom, false, &["first", "second", "third"]);
    let sources = vec![
        readable("first", true, b"a\nb\n"),
        unreadable("second", "denied"),
        readable("third", false, b"x\ny"),
    ];
    let outcome = run_batch(&options, &sources);
    assert_eq!(outcome.output, b"b\ny".to_vec());
    assert_eq!(outcome.report.failures.len(), 1);
    assert_eq!(outcome.report.failures[0].source_name, "second");
    assert_eq!(outcome.report.failures[0].detail, "denied");
}

#[test]
fn a_batch_in_which_all_sources_open_succeeds() {
    let options = options_for(1, Direction::FromTop, true, &["-", "log"]);
    let sources = vec![readable("-", false, b"a\nb\nc\n"), readable("log", true, b"1\n2\n")];
    let outcome = run_batch(&options, &sources);
    assert_eq!(
        outcome.output,
        b"==> standard input <==\nb\nc\n==> log <==\n2\n".to_vec()
    );
    assert!(!outcome.report.failed());
    assert_eq!(outcome.report.exit_status(), 0);
}

#[test]
fn an_empty_batch_writes_nothing() {
    let options = options_for(3, Direction::FromBottom, true, &[]);
    let outcome = run_batch(&options, &Vec::new());
    assert_eq!(outcome.output, Vec::<u8>::new());
    assert_eq!(outcome.report.exit_status(), 0);
}

#[test]
fn every_failing_source_is_reported_in_order() {
    let options = options_for(5, Direction::FromBottom, false, &[]);
    let sources = vec![
        unreadable("one", "first error"),
        readable("two", true, b"kept\n"),
        unreadable("three", "second error"),
        unreadable("four", "third error"),
    ];
    let outcome = run_batch(&options, &sources);
    assert_eq!(outcome.output, b"kept\n".to_vec());
    let names: Vec<&str> =
        outcome.report.failures.iter().map(|failure| failure.source_name.as_str()).collect();
    assert_eq!(names, vec!["one", "three", "four"]);
    assert!(outcome.report.failures.iter().all(|failure| failure.kind == FailureKind::OpenFailure));
}
