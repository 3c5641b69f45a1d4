use std::io::{Cursor, Read, Seek, SeekFrom};
use tail_rust::scanner::{scan_block, BlockRequest, BlockScan, ScanState, BLOCK_CAPACITY};

fn expected_tail(data: &[u8], n: usize) -> Vec<u8> {
    if n == 0 {
        return Vec::new();
    }
    let mut starts = vec![0usize];
    for (i, &byte) in data.iter().enumerate() {
        if byte == b'\n' && i + 1 < data.len() {
            starts.push(i + 1);
        }
    }
    if data.is_empty() {
        return Vec::new();
    }
    let first = if starts.len() > n { starts[starts.len() - n] } else { 0 };
    data[first..].to_vec()
}

/// Runs the scan on a cursor with relative seeks, as on a file, and copies
/// the rest from the cursor. Returns the output and the number of reads.
fn scan_with_cursor(data: &[u8], n: usize) -> (Vec<u8>, usize) {
    let mut source = Cursor::new(data.to_vec());
    let length = data.len() as u64;
    source.seek(SeekFrom::End(0)).unwrap();
    let mut state = ScanState::new(length, n);
    let mut buffer = [0u8; BLOCK_CAPACITY];
    let mut output = Vec::new();
    let mut reads = 0usize;
    let mut total_read = 0u64;
    while let Some(request) = state.next_read() {
        assert!(request.length >= 1);
        assert!(request.length <= BLOCK_CAPACITY);
        let position = source.seek(SeekFrom::Current(-(request.seek_back as i64))).unwrap();
        assert_eq!(position, request.offset);
        source.read_exact(&mut buffer[..request.length]).unwrap();
        reads += 1;
        total_read += request.length as u64;
        let found = state.feed(&buffer[..request.length]);
        assert!(total_read <= length);
        assert_eq!(state.bytes_scanned(), total_read);
        assert_eq!(state.bytes_remaining + total_read, length);
        assert_eq!(state.last_read_length, request.length);
        assert!(state.newline_count <= n);
        if let Some(start) = found {
            assert!(start >= 1 && start <= request.length);
            output.extend_from_slice(&buffer[start..request.length]);
            assert_eq!(state.start, Some(request.offset + start as u64));
            assert!(state.next_read().is_none());
        }
    }
    let start = state.start.unwrap();
    if start == 0 {
        source.seek(SeekFrom::Start(0)).unwrap();
    }
    assert_eq!(source.stream_position().unwrap(), state.resume_offset());
    source.read_to_end(&mut output).unwrap();
    assert_eq!(output, data[start as usize..].to_vec());
    (output, reads)
}

#[test]
fn scan_block_finds_the_cut() {
    assert_eq!(scan_block(b"a\nb\nc\nd\n", 2, true), BlockScan::Found { start: 4 });
    assert_eq!(scan_block(b"a\nb\nc\nd\n", 3, true), BlockScan::Found { start: 2 });
    assert_eq!(scan_block(b"a\nb\nc\nd\n", 4, true), BlockScan::Pending { lines: 4 });
    assert_eq!(scan_block(b"a\nb\nc", 1, true), BlockScan::Found { start: 4 });
    assert_eq!(scan_block(b"a\nb\nc", 3, true), BlockScan::Pending { lines: 3 });
    assert_eq!(scan_block(b"a\nb\nc", 0, true), BlockScan::Found { start: 5 });
    assert_eq!(scan_block(b"a\nb\n", 0, true), BlockScan::Found { start: 4 });
}

#[test]
fn scan_block_in_front_of_other_bytes() {
    assert_eq!(scan_block(b"a\nb\nc", 0, false), BlockScan::Found { start: 4 });
    assert_eq!(scan_block(b"a\nb\nc", 1, false), BlockScan::Found { start: 2 });
    assert_eq!(scan_block(b"a\nb\nc", 2, false), BlockScan::Pending { lines: 2 });
    assert_eq!(scan_block(b"a\nb\n", 0, false), BlockScan::Found { start: 4 });
    assert_eq!(scan_block(b"abc", 0, false), BlockScan::Pending { lines: 0 });
    assert_eq!(scan_block(b"abc", 5, false), BlockScan::Pending { lines: 0 });
    assert_eq!(scan_block(b"", 0, false), BlockScan::Pending { lines: 0 });
    assert_eq!(scan_block(b"", 0, true), BlockScan::Pending { lines: 0 });
    assert_eq!(scan_block(b"\n\n\n", usize::MAX, false), BlockScan::Pending { lines: 3 });
}

#[test]
fn a_new_scan_has_scanned_nothing() {
    let state = ScanState::new(3000, 10);
    assert_eq!(state.source_len, 3000);
    assert_eq!(state.item_count, 10);
    assert_eq!(state.bytes_remaining, 3000);
    assert_eq!(state.newline_count, 0);
    assert_eq!(state.last_read_length, 0);
    assert_eq!(state.start, None);
    assert_eq!(state.bytes_scanned(), 0);
}

#[test]
fn no_line_wanted_needs_no_read() {
    let state = ScanState::new(3000, 0);
    assert_eq!(state.start, Some(3000));
    assert_eq!(state.next_read(), None);
    assert_eq!(state.resume_offset(), 3000);
    assert_eq!(state.bytes_scanned(), 0);
    let (output, reads) = scan_with_cursor(b"a\nb\nc", 0);
    assert_eq!(output, Vec::<u8>::new());
    assert_eq!(reads, 0);
}

#[test]
fn an_empty_source_starts_at_zero() {
    let state = ScanState::new(0, 5);
    assert_eq!(state.start, Some(0));
    assert_eq!(state.next_read(), None);
    assert_eq!(state.resume_offset(), 0);
    let empty = ScanState::new(0, 0);
    assert_eq!(empty.start, Some(0));
    assert_eq!(empty.next_read(), None);
}

#[test]
fn requests_walk_backward_block_by_block() {
    let data = vec![b'x'; 3000];
    let mut state = ScanState::new(3000, 1);
    assert_eq!(
        state.next_read(),
        Some(BlockRequest { seek_back: 1024, offset: 1976, length: 1024 })
    );
    assert_eq!(state.feed(&data[1976..3000]), None);
    assert_eq!(state.newline_count, 1);
    assert_eq!(
        state.next_read(),
        Some(BlockRequest { seek_back: 2048, offset: 952, length: 1024 })
    );
    assert_eq!(state.feed(&data[952..1976]), None);
    assert_eq!(
        state.next_read(),
        Some(BlockRequest { seek_back: 1976, offset: 0, length: 952 })
    );
    assert_eq!(state.feed(&data[0..952]), None);
    assert_eq!(state.start, Some(0));
    assert_eq!(state.next_read(), None);
    assert_eq!(state.bytes_remaining, 0);
    assert_eq!(state.bytes_scanned(), 3000);
    assert_eq!(state.resume_offset(), 0);
}

#[test]
fn the_scan_stops_in_the_block_that_holds_the_start() {
    let mut data = vec![b'x'; 3000];
    data[2999] = b'\n';
    data[2500] = b'\n';
    data[2000] = b'\n';
    data[100] = b'\n';
    let mut state = ScanState::new(3000, 2);
    let request = state.next_read().unwrap();
    assert_eq!(request.offset, 1976);
    let found = state.feed(&data[1976..3000]);
    assert_eq!(found, Some(25));
    assert_eq!(state.start, Some(2001));
    assert_eq!(state.next_read(), None);
    assert_eq!(state.bytes_scanned(), 1024);
    assert_eq!(state.resume_offset(), 3000);
    let (output, reads) = scan_with_cursor(&data, 2);
    assert_eq!(output, data[2001..].to_vec());
    assert_eq!(reads, 1);
}

#[test]
fn the_start_may_lie_in_an_earlier_block() {
    let mut data = vec![b'x'; 3000];
    data[2999] = b'\n';
    data[100] = b'\n';
    let (output, reads) = scan_with_cursor(&data, 1);
    assert_eq!(output, data[101..].to_vec());
    assert_eq!(reads, 3);
    let (whole, reads) = scan_with_cursor(&data, 2);
    assert_eq!(whole, data);
    assert_eq!(reads, 3);
}

#[test]
fn a_terminator_that_ends_a_block_is_found_from_the_next() {
    let mut data = vec![b'x'; 2048];
    data[1023] = b'\n';
    let (output, reads) = scan_with_cursor(&data, 1);
    assert_eq!(output, data[1024..].to_vec());
    assert_eq!(reads, 2);
    let mut state = ScanState::new(2048, 1);
    state.next_read().unwrap();
    assert_eq!(state.feed(&data[1024..2048]), None);
    let request = state.next_read().unwrap();
    assert_eq!(request, BlockRequest { seek_back: 2048, offset: 0, length: 1024 });
    assert_eq!(state.feed(&data[0..1024]), Some(1024));
    assert_eq!(state.start, Some(1024));
    assert_eq!(state.resume_offset(), 1024);
}

#[test]
fn scanning_with_relative_seeks_gives_the_last_lines() {
    let mut state = 12345u64;
    for round in 0..60usize {
        let length = (round * 173) % 4200;
        let mut data = Vec::with_capacity(length);
        for _ in 0..length {
            state = state.wrapping_mul(6364136223846793005).wrapping_add(1442695040888963407);
            let pick = (state >> 33) % (5 + (round as u64 % 40));
            data.push(if pick == 0 { b'\n' } else { b'q' });
        }
        for n in [0usize, 1, 2, 3, 10, 100, usize::MAX] {
            let (output, reads) = scan_with_cursor(&data, n);
            assert_eq!(output, expected_tail(&data, n));
            assert!(reads <= (length + BLOCK_CAPACITY - 1) / BLOCK_CAPACITY);
        }
    }
}

#[test]
fn small_sources_are_read_in_one_block() {
    let (output, reads) = scan_with_cursor(b"a\nb\nc\nd\n", 2);
    assert_eq!(output, b"c\nd\n".to_vec());
    assert_eq!(reads, 1);
    let (output, reads) = scan_with_cursor(b"a\nb\nc", 1);
    assert_eq!(output, b"c".to_vec());
    assert_eq!(reads, 1);
    let (output, reads) = scan_with_cursor(b"", 5);
    assert_eq!(output, Vec::<u8>::new());
    assert_eq!(reads, 0);
    let (output, reads) = scan_with_cursor(b"a\nb\nc\nd\n", 4);
    assert_eq!(output, b"a\nb\nc\nd\n".to_vec());
    assert_eq!(reads, 1);
}
