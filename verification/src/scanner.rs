//! Finding where the last lines of a seekable source begin, by reading
//! blocks from its end toward its start.
//!
//! The scan keeps two cursors: the bytes not yet scanned and the length of
//! the block read last. Its caller performs the seeks and reads that
//! `ScanState::next_read` asks for and hands each block to
//! `ScanState::feed`.

use crate::lines::{
    is_boundary, last_lines, lemma_boundary_is_line_offset, lemma_line_count_concat,
    lemma_line_count_front, lemma_line_count_zero, lemma_line_offset_bounds, line_count,
    tail_start, terminators, TERMINATOR,
};
use vstd::prelude::*;

verus! {

/// The most bytes that one read asks for.
pub const BLOCK_CAPACITY: usize = 1024;

/// The lines that the bytes of `s` add to the count of a backward scan.
/// At the end of the source the bytes are a stream of their own, whose last
/// line need not be terminated; before other bytes each terminator ends one
/// more line.
pub open spec fn lines_begun(s: Seq<u8>, at_end: bool) -> nat {
    if at_end {
        line_count(s)
    } else {
        terminators(s)
    }
}

/// Position `j` of the block is where the wanted lines begin: it follows a
/// terminator, or is the end of the source, and the bytes from `j` on add
/// exactly `wanted` lines.
pub open spec fn is_cut(block: Seq<u8>, j: int, wanted: nat, at_end: bool) -> bool {
    &&& 0 < j <= block.len()
    &&& (block[j - 1] == TERMINATOR || (at_end && j == block.len()))
    &&& lines_begun(block.skip(j), at_end) == wanted
}

/// The result of scanning one block.
#[derive(Clone, Copy, Debug, PartialEq, Eq, Structural)]
pub enum BlockScan {
    /// The wanted lines begin at this index of the block.
    Found { start: usize },
    /// The block adds this many lines, no more than were wanted.
    Pending { lines: usize },
}

/// Scanning one byte further toward the front adds a line where that
/// byte is a terminator, or the last byte of the source.
pub proof fn lemma_lines_begun_step(block: Seq<u8>, i: int, at_end: bool)
    requires
        0 <= i < block.len(),
    ensures
        lines_begun(block.skip(i), at_end) == lines_begun(block.skip(i + 1), at_end) + if block[i]
            == TERMINATOR || (at_end && i == block.len() - 1) {
            1nat
        } else {
            0nat
        },
{
    let t = block.skip(i);
    assert(t.skip(1) =~= block.skip(i + 1));
    assert(t[0] == block[i]);
    if at_end {
        lemma_line_count_front(t);
    }
}

/// A suffix of a block adds no more lines than the block.
pub proof fn lemma_lines_begun_suffix(block: Seq<u8>, j: int, at_end: bool)
    requires
        0 <= j <= block.len(),
    ensures
        lines_begun(block.skip(j), at_end) <= lines_begun(block, at_end),
    decreases j,
{
    if j == 0 {
        assert(block.skip(0) =~= block);
    } else {
        lemma_lines_begun_step(block, j - 1, at_end);
        lemma_lines_begun_suffix(block, j - 1, at_end);
    }
}

/// A block has at most one cut for a number of wanted lines.
pub proof fn lemma_cut_is_unique(block: Seq<u8>, j: int, k: int, wanted: nat, at_end: bool)
    requires
        is_cut(block, j, wanted, at_end),
        is_cut(block, k, wanted, at_end),
    ensures
        j == k,
{
    if j != k {
        let (low, high) = if j < k {
            (j, k)
        } else {
            (k, j)
        };
        let tail = block.skip(low);
        lemma_lines_begun_step(block, high - 1, at_end);
        lemma_lines_begun_suffix(tail, high - 1 - low, at_end);
        assert(tail.skip(high - 1 - low) =~= block.skip(high - 1));
    }
}

/// Scans a block from its last byte to its first for the place where the
/// `wanted` lines begin. `at_end` says that the block is the end of the
/// source.
pub fn scan_block(block: &[u8], wanted: usize, at_end: bool) -> (r: BlockScan)
    ensures
        r is Found <==> lines_begun(block@, at_end) > wanted,
        match r {
            BlockScan::Found { start } => is_cut(block@, start as int, wanted as nat, at_end),
            BlockScan::Pending { lines } => lines == lines_begun(block@, at_end),
        },
{
    let len = block.len();
    let mut i: usize = len;
    let mut seen: usize = 0;
    assert(block@.skip(len as int) =~= Seq::<u8>::empty());
    while i > 0
        invariant
            i <= len,
            len == block@.len(),
            seen <= wanted,
            seen == lines_begun(block@.skip(i as int), at_end),
        decreases i,
    {
        proof {
            lemma_lines_begun_step(block@, i - 1, at_end);
        }
        if block[i - 1] == TERMINATOR || (at_end && i == len) {
            if seen == wanted {
                proof {
                    lemma_lines_begun_suffix(block@, i - 1, at_end);
                }
                return BlockScan::Found { start: i };
            }
            seen = seen + 1;
        }
        i = i - 1;
    }
    assert(block@.skip(0) =~= block@);
    BlockScan::Pending { lines: seen }
}

/// One read that the scan asks for.
#[derive(Clone, Copy, Debug, PartialEq, Eq, Structural)]
pub struct BlockRequest {
    /// How far to seek backward from the cursor, which stands behind the
    /// block read last: the length of this block and of that one.
    pub seek_back: u64,
    /// The offset of the block from the start of the source.
    pub offset: u64,
    /// The number of bytes to read.
    pub length: usize,
}

/// The state of one backward scan.
#[derive(Clone, Copy, Debug, PartialEq, Eq, Structural)]
pub struct ScanState {
    /// The length of the source.
    pub source_len: u64,
    /// The number of lines wanted.
    pub item_count: usize,
    /// The bytes in front of what has been scanned.
    pub bytes_remaining: u64,
    /// The lines counted in what has been scanned, never more than are
    /// wanted: the scan is over at the terminator that would exceed them.
    pub newline_count: usize,
    /// The length of the block read last.
    pub last_read_length: usize,
    /// The offset at which the wanted lines begin, once it is known.
    pub start: Option<u64>,
}

impl ScanState {
    pub open spec fn wf(&self) -> bool {
        &&& self.bytes_remaining + self.last_read_length <= self.source_len
        &&& self.last_read_length <= BLOCK_CAPACITY
        &&& self.newline_count <= self.item_count
        &&& (self.bytes_remaining == self.source_len ==> self.newline_count == 0)
        &&& match self.start {
            Some(p) => p <= self.source_len,
            None => self.bytes_remaining > 0 && self.item_count > 0,
        }
    }

    /// The state before anything is read.
    pub open spec fn initial(source_len: u64, item_count: usize) -> ScanState {
        ScanState {
            source_len,
            item_count,
            bytes_remaining: source_len,
            newline_count: 0,
            last_read_length: 0,
            start: if item_count == 0 {
                Some(source_len)
            } else if source_len == 0 {
                Some(0u64)
            } else {
                None
            },
        }
    }

    /// The read that comes next; none once the start is known.
    pub open spec fn next_request(&self) -> Option<BlockRequest> {
        if self.start is Some {
            None
        } else {
            let length = if self.bytes_remaining < BLOCK_CAPACITY {
                self.bytes_remaining as usize
            } else {
                BLOCK_CAPACITY
            };
            Some(
                BlockRequest {
                    seek_back: (length + self.last_read_length) as u64,
                    offset: (self.bytes_remaining - length) as u64,
                    length,
                },
            )
        }
    }

    /// How `feed` takes the scan from `self` to `next` on the given block,
    /// and what it returns.
    pub open spec fn feed_result(&self, block: Seq<u8>, next: ScanState, r: Option<usize>) -> bool {
        let at_end = self.bytes_remaining == self.source_len;
        let wanted = (self.item_count - self.newline_count) as nat;
        &&& next.source_len == self.source_len
        &&& next.item_count == self.item_count
        &&& next.bytes_remaining == self.bytes_remaining - block.len()
        &&& next.last_read_length == block.len()
        &&& (r is Some <==> lines_begun(block, at_end) > wanted)
        &&& match r {
            Some(j) => {
                &&& is_cut(block, j as int, wanted, at_end)
                &&& next.newline_count == self.item_count
                &&& next.start == Some((next.bytes_remaining + j) as u64)
            },
            None => {
                &&& next.newline_count == self.newline_count + lines_begun(block, at_end)
                &&& next.start == if next.bytes_remaining == 0 {
                    Some(0u64)
                } else {
                    None
                }
            },
        }
    }

    /// The offset from which the rest of the source is to be copied once the
    /// scan is over: the start of the source where the scan reached it
    /// without finding more lines than wanted, else the cursor, behind the
    /// block read last.
    pub open spec fn resume_at(&self) -> nat {
        if self.start == Some(0u64) {
            0
        } else {
            (self.bytes_remaining + self.last_read_length) as nat
        }
    }

    /// The scan has scanned the bytes of `data` behind `bytes_remaining`,
    /// and what it holds is true of `data`.
    pub open spec fn tracks(&self, data: Seq<u8>) -> bool {
        &&& self.wf()
        &&& data.len() == self.source_len
        &&& match self.start {
            Some(p) => p == tail_start(data, self.item_count as nat),
            None => self.newline_count == line_count(data.skip(self.bytes_remaining as int)),
        }
    }

    /// Begins the scan of a source of `source_len` bytes for its last
    /// `item_count` lines. With no line wanted the start is the end of the
    /// source; in an empty source it is offset 0.
    pub fn new(source_len: u64, item_count: usize) -> (state: ScanState)
        ensures
            state == ScanState::initial(source_len, item_count),
            state.wf(),
    {
        ScanState {
            source_len,
            item_count,
            bytes_remaining: source_len,
            newline_count: 0,
            last_read_length: 0,
            start: if item_count == 0 {
                Some(source_len)
            } else if source_len == 0 {
                Some(0)
            } else {
                None
            },
        }
    }

    /// The block to read next: the bytes just in front of what has been
    /// scanned, at most `BLOCK_CAPACITY` of them.
    pub fn next_read(&self) -> (r: Option<BlockRequest>)
        requires
            self.wf(),
        ensures
            r == self.next_request(),
    {
        if self.start.is_some() {
            None
        } else {
            let length: usize = if self.bytes_remaining < BLOCK_CAPACITY as u64 {
                self.bytes_remaining as usize
            } else {
                BLOCK_CAPACITY
            };
            Some(
                BlockRequest {
                    seek_back: (length + self.last_read_length) as u64,
                    offset: self.bytes_remaining - length as u64,
                    length,
                },
            )
        }
    }

    /// Takes the block that `next_read` asked for. Returns the index in the
    /// block at which the wanted lines begin, if they begin in it: the
    /// bytes of the block from there on are output, and the scan is over.
    pub fn feed(&mut self, block: &[u8]) -> (r: Option<usize>)
        requires
            old(self).wf(),
            old(self).next_request() matches Some(request) && block@.len() == request.length,
        ensures
            final(self).wf(),
            old(self).feed_result(block@, *final(self), r),
    {
        let at_end = self.bytes_remaining == self.source_len;
        let wanted = self.item_count - self.newline_count;
        let length = block.len();
        self.bytes_remaining = self.bytes_remaining - length as u64;
        self.last_read_length = length;
        match scan_block(block, wanted, at_end) {
            BlockScan::Found { start } => {
                self.newline_count = self.item_count;
                self.start = Some(self.bytes_remaining + start as u64);
                Some(start)
            },
            BlockScan::Pending { lines } => {
                self.newline_count = self.newline_count + lines;
                if self.bytes_remaining == 0 {
                    self.start = Some(0);
                }
                None
            },
        }
    }

    /// The bytes scanned so far.
    pub fn bytes_scanned(&self) -> (r: u64)
        requires
            self.wf(),
        ensures
            r == self.source_len - self.bytes_remaining,
            r <= self.source_len,
    {
        self.source_len - self.bytes_remaining
    }

    /// Where the copy of the rest of the source begins once the scan is
    /// over.
    pub fn resume_offset(&self) -> (r: u64)
        requires
            self.wf(),
        ensures
            r == self.resume_at(),
            r <= self.source_len,
    {
        match self.start {
            Some(0) => 0,
            _ => self.bytes_remaining + self.last_read_length as u64,
        }
    }
}

/// The initial state tracks every source of its length. Where it knows the
/// start already, the source from `resume_at` on is the last lines of the
/// source.
pub proof fn lemma_initial_tracks(data: Seq<u8>, item_count: usize)
    requires
        data.len() <= u64::MAX,
    ensures
        ScanState::initial(data.len() as u64, item_count).tracks(data),
        ScanState::initial(data.len() as u64, item_count).start is Some ==> data.skip(
            ScanState::initial(data.len() as u64, item_count).resume_at() as int,
        ) == last_lines(data, item_count as nat),
{
    lemma_line_count_zero(data);
    lemma_line_offset_bounds(data, line_count(data));
    assert(data.skip(data.len() as int) =~= Seq::<u8>::empty());
    lemma_line_count_zero(data.skip(data.len() as int));
    assert(data.skip(0) =~= data);
}

/// The block asked for lies just in front of what has been scanned, holds a
/// byte at least and no more than `BLOCK_CAPACITY`, and is reached from the
/// cursor, which stands behind the block read last, by seeking back over
/// both blocks.
pub proof fn lemma_request_follows_cursor(state: ScanState)
    requires
        state.wf(),
        state.next_request() is Some,
    ensures
        ({
            let request = state.next_request()->0;
            &&& 1 <= request.length <= BLOCK_CAPACITY
            &&& request.offset + request.length == state.bytes_remaining
            &&& state.bytes_remaining + state.last_read_length - request.seek_back
                == request.offset
        }),
{
}

/// Each block fed takes the scan at least one byte toward the start of
/// the source and never lowers the count of lines. The scan is over as soon
/// as more lines than wanted are found or the start of the source is
/// reached, and no sooner. What has been scanned never exceeds the source.
pub proof fn lemma_feed_progress(
    state: ScanState,
    block: Seq<u8>,
    next: ScanState,
    r: Option<usize>,
)
    requires
        state.wf(),
        state.next_request() matches Some(request) && block.len() == request.length,
        state.feed_result(block, next, r),
    ensures
        next.bytes_remaining < state.bytes_remaining,
        next.newline_count >= state.newline_count,
        (state.source_len - state.bytes_remaining) + block.len() <= state.source_len,
        next.start is Some <==> r is Some || next.bytes_remaining == 0,
{
}

/// Fed the block that it asked for, out of the source that it tracks, a
/// scan tracks that source still. Once the start is known, what `feed`
/// pointed at in the block, followed by the source from `resume_at` on, is
/// the last lines of the source.
pub proof fn lemma_feed_tracks(
    state: ScanState,
    block: Seq<u8>,
    next: ScanState,
    r: Option<usize>,
    data: Seq<u8>,
)
    requires
        state.tracks(data),
        state.next_request() matches Some(request) && block == data.subrange(
            request.offset as int,
            request.offset + request.length,
        ),
        state.feed_result(block, next, r),
    ensures
        next.tracks(data),
        next.start is Some ==> (match r {
            Some(j) => block.skip(j as int),
            None => Seq::<u8>::empty(),
        }) + data.skip(next.resume_at() as int) == last_lines(data, state.item_count as nat),
{
    let n = state.item_count as nat;
    let rem = state.bytes_remaining as int;
    let m = block.len() as int;
    let rest = data.skip(rem);
    let at_end = state.bytes_remaining == state.source_len;
    let wanted = (state.item_count - state.newline_count) as nat;
    assert forall|j: int| 0 <= j <= m implies #[trigger] line_count(data.skip(rem - m + j))
        == state.newline_count + lines_begun(block.skip(j), at_end) by {
        assert(data.skip(rem - m + j) =~= block.skip(j) + rest);
        if at_end {
            assert(block.skip(j) + rest =~= block.skip(j));
        } else {
            lemma_line_count_concat(block.skip(j), rest);
        }
    }
    assert(block.skip(0) =~= block);
    match r {
        Some(j) => {
            let p = rem - m + j;
            assert(line_count(data.skip(rem - m + j)) == n);
            if block[j - 1] == TERMINATOR {
                assert(data[p - 1] == block[j - 1]);
            }
            assert(is_boundary(data, p));
            lemma_boundary_is_line_offset(data, p);
            assert(tail_start(data, n) == p);
            assert(data.skip(p) =~= block.skip(j as int) + rest);
        },
        None => {
            assert(line_count(data.skip(rem - m + 0)) == next.newline_count);
            if next.bytes_remaining == 0 {
                assert(data.skip(0) =~= data);
                assert(Seq::<u8>::empty() + data.skip(0) =~= data);
            }
        },
    }
}

} // verus!
