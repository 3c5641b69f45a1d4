//! The three ways of tailing, run on a source held in memory.

use crate::copier::{append_bytes, copy_to_end};
use crate::lines::{
    after_lines, first_line_len, last_lines, lemma_first_line_len_bounds, lemma_line_at,
    lemma_line_offset_bounds, lemma_line_offset_step, line_count, line_end, line_offset,
    lines_of,
};
use crate::options::Direction;
use crate::scanner::{lemma_feed_tracks, lemma_initial_tracks, ScanState};
use crate::skipper::ForwardSkipper;
use crate::window::{keep_last, lemma_keep_last_push, lemma_window_holds_last_lines, LineWindow};
use vstd::prelude::*;
use vstd::slice::{slice_subrange, slice_to_vec};

verus! {

/// The last `n` lines of a seekable source: a backward scan for their
/// start, then a copy from there to the end.
pub fn tail_seekable(data: &[u8], n: usize) -> (out: Vec<u8>)
    ensures
        out@ == last_lines(data@, n as nat),
{
    let len = data.len();
    let mut out: Vec<u8> = Vec::new();
    let mut state = ScanState::new(len as u64, n);
    proof {
        lemma_initial_tracks(data@, n);
        assert(out@ + data@.skip(state.resume_at() as int) =~= data@.skip(
            state.resume_at() as int,
        ));
    }
    loop
        invariant
            len == data@.len(),
            state.tracks(data@),
            state.item_count == n,
            state.start is None ==> out@.len() == 0,
            state.start is Some ==> out@ + data@.skip(state.resume_at() as int) == last_lines(
                data@,
                n as nat,
            ),
        ensures
            state.start is Some,
        decreases state.bytes_remaining,
    {
        match state.next_read() {
            None => {
                break ;
            },
            Some(request) => {
                let ghost before = state;
                let block = slice_subrange(
                    data,
                    request.offset as usize,
                    request.offset as usize + request.length,
                );
                let found = state.feed(block);
                proof {
                    lemma_feed_tracks(before, block@, state, found, data@);
                }
                if let Some(j) = found {
                    append_bytes(&mut out, slice_subrange(block, j, block.len()));
                    assert(out@ =~= block@.skip(j as int));
                } else {
                    assert(out@ =~= Seq::<u8>::empty());
                }
            },
        }
    }
    copy_to_end(data, state.resume_offset() as usize, &mut out);
    out
}

/// The last `n` lines of a source that is read forward only: its lines go
/// through a window of capacity `n`, and what the window holds at the end
/// is written.
pub fn tail_streaming(data: &[u8], n: usize) -> (out: Vec<u8>)
    ensures
        out@ == last_lines(data@, n as nat),
{
    let len = data.len();
    let mut window = LineWindow::new(n);
    let mut position: usize = 0;
    let ghost mut k: nat = 0;
    proof {
        assert(lines_of(data@).take(0) =~= Seq::<Seq<u8>>::empty());
    }
    while position < len
        invariant
            position <= len,
            len == data@.len(),
            window.wf(),
            window.capacity == n,
            k <= line_count(data@),
            position == line_offset(data@, k),
            window@ == keep_last(lines_of(data@).take(k as int), n as nat),
        decreases len - position,
    {
        proof {
            lemma_line_offset_bounds(data@, line_count(data@));
            lemma_line_at(data@, k);
            lemma_line_offset_step(data@, k);
        }
        let end = line_end(data, position);
        let line = slice_to_vec(slice_subrange(data, position, end));
        proof {
            let seen = lines_of(data@).take(k as int);
            lemma_keep_last_push(seen, line@, n as nat);
            assert(seen.push(line@) =~= lines_of(data@).take(k as int + 1));
        }
        window.push(line);
        position = end;
        proof {
            k = k + 1;
        }
    }
    proof {
        if k < line_count(data@) {
            lemma_line_at(data@, k);
        }
        assert(lines_of(data@).take(k as int) =~= lines_of(data@));
        lemma_window_holds_last_lines(data@, n as nat);
    }
    let mut out: Vec<u8> = Vec::new();
    window.write_to(&mut out);
    assert(out@ =~= window@.flatten());
    out
}

/// What follows the first `n` lines of a source: each line is taken in
/// turn, passed over while lines are left to skip, and copied after that.
pub fn tail_from_top(data: &[u8], n: usize) -> (out: Vec<u8>)
    ensures
        out@ == after_lines(data@, n as nat),
{
    let len = data.len();
    let mut out: Vec<u8> = Vec::new();
    let mut skipper = ForwardSkipper::new(n);
    let mut position: usize = 0;
    proof {
        assert(data@.skip(0) =~= data@);
        assert(out@ + after_lines(data@, n as nat) =~= after_lines(data@, n as nat));
    }
    while position < len
        invariant
            position <= len,
            len == data@.len(),
            out@ + after_lines(data@.skip(position as int), skipper.remaining as nat)
                == after_lines(data@, n as nat),
        decreases len - position,
    {
        let ghost rest = data@.skip(position as int);
        let ghost before = out@;
        let ghost remaining = skipper.remaining as nat;
        let end = line_end(data, position);
        proof {
            lemma_first_line_len_bounds(rest);
            assert(rest.skip(end - position) =~= data@.skip(end as int));
        }
        if skipper.passes() {
            append_bytes(&mut out, slice_subrange(data, position, end));
            proof {
                assert(rest.skip(0) =~= rest);
                assert(data@.skip(end as int).skip(0) =~= data@.skip(end as int));
                assert(out@ + data@.skip(end as int) =~= before + rest);
            }
        } else {
            proof {
                let f = first_line_len(rest) as int;
                let next = line_offset(rest.skip(f), (remaining - 1) as nat) as int;
                lemma_line_offset_bounds(rest.skip(f), (remaining - 1) as nat);
                assert(rest.skip(f + next) =~= rest.skip(f).skip(next));
            }
        }
        position = end;
    }
    proof {
        let rest = data@.skip(position as int);
        assert(rest.len() == 0);
        lemma_line_offset_bounds(rest, skipper.remaining as nat);
        assert(out@ + after_lines(rest, skipper.remaining as nat) =~= out@);
    }
    out
}

/// What one source gives for the count and direction.
pub open spec fn tail_of(data: Seq<u8>, item_count: nat, direction: Direction) -> Seq<u8> {
    match direction {
        Direction::FromTop => after_lines(data, item_count),
        Direction::FromBottom => last_lines(data, item_count),
    }
}

} // verus!
