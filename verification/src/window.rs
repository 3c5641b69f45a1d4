//! The rolling window that keeps the last lines of a stream which can only
//! be read forward.

use crate::copier::append_bytes;
use crate::lines::{
    last_lines, lemma_last_lines_are_trailing, line_count, line_views, lines_kept, lines_of,
};
use std::collections::VecDeque;
use vstd::prelude::*;

verus! {

/// The last `n` items of a sequence; all of it where it has no more.
pub open spec fn keep_last<A>(s: Seq<A>, n: nat) -> Seq<A> {
    if s.len() <= n {
        s
    } else {
        s.skip(s.len() - n)
    }
}

/// At most `capacity` lines, oldest first.
#[derive(Clone, Debug)]
pub struct LineWindow {
    pub lines: VecDeque<Vec<u8>>,
    pub capacity: usize,
}

impl View for LineWindow {
    type V = Seq<Seq<u8>>;

    open spec fn view(&self) -> Seq<Seq<u8>> {
        line_views(self.lines@)
    }
}

impl LineWindow {
    /// The window never holds more lines than its capacity.
    pub open spec fn wf(&self) -> bool {
        self.lines@.len() <= self.capacity
    }

    /// An empty window for `capacity` lines.
    pub fn new(capacity: usize) -> (window: LineWindow)
        ensures
            window.wf(),
            window.capacity == capacity,
            window@ == Seq::<Seq<u8>>::empty(),
    {
        let window = LineWindow { lines: VecDeque::new(), capacity };
        assert(window@ =~= Seq::<Seq<u8>>::empty());
        window
    }

    /// Takes the next line of the stream. A full window drops its oldest
    /// line first; a window of capacity 0 keeps nothing.
    pub fn push(&mut self, line: Vec<u8>)
        requires
            old(self).wf(),
        ensures
            final(self).wf(),
            final(self).capacity == old(self).capacity,
            final(self)@ == keep_last(old(self)@.push(line@), old(self).capacity as nat),
    {
        let ghost before = self@;
        if self.capacity == 0 {
            assert(before.push(line@).skip(1) =~= before);
            return ;
        }
        if self.lines.len() == self.capacity {
            self.lines.pop_front();
            assert(self@ =~= before.skip(1));
        }
        self.lines.push_back(line);
        assert(self@ =~= keep_last(before.push(line@), self.capacity as nat));
    }

    /// The number of lines held.
    pub fn len(&self) -> (n: usize)
        ensures
            n == self@.len(),
    {
        self.lines.len()
    }

    /// The line at position `i`, the oldest at 0.
    pub fn line(&self, i: usize) -> (line: &Vec<u8>)
        requires
            i < self@.len(),
        ensures
            line@ == self@[i as int],
    {
        &self.lines[i]
    }

    /// Appends the lines held to the sink, in the order of their arrival,
    /// each as it was given.
    pub fn write_to(&self, sink: &mut Vec<u8>)
        ensures
            final(sink)@ == old(sink)@ + self@.flatten(),
    {
        let count = self.lines.len();
        let mut i: usize = 0;
        proof {
            assert(self@.take(0) =~= Seq::<Seq<u8>>::empty());
            assert(sink@ =~= old(sink)@ + self@.take(0).flatten());
        }
        while i < count
            invariant
                i <= count,
                count == self@.len(),
                sink@ == old(sink)@ + self@.take(i as int).flatten(),
            decreases count - i,
        {
            let line = &self.lines[i];
            proof {
                let done = self@.take(i as int);
                assert(self@.take(i + 1) =~= done.push(line@));
                done.lemma_flatten_push(line@);
            }
            append_bytes(sink, line.as_slice());
            i = i + 1;
            assert(sink@ =~= old(sink)@ + self@.take(i as int).flatten());
        }
        assert(self@.take(count as int) =~= self@);
    }
}

/// Pushing into what was kept of a sequence keeps what would have been
/// kept of the longer sequence.
pub proof fn lemma_keep_last_push<A>(s: Seq<A>, x: A, n: nat)
    ensures
        keep_last(keep_last(s, n).push(x), n) == keep_last(s.push(x), n),
{
    assert(keep_last(keep_last(s, n).push(x), n) =~= keep_last(s.push(x), n));
}

/// What a window of capacity `n` holds after it was given the lines one by
/// one, beginning empty.
pub open spec fn window_after(lines: Seq<Seq<u8>>, n: nat) -> Seq<Seq<u8>>
    decreases lines.len(),
{
    if lines.len() == 0 {
        Seq::empty()
    } else {
        keep_last(window_after(lines.drop_last(), n).push(lines.last()), n)
    }
}

/// A window that was given any lines holds the last `n` of them, in the
/// order in which they came, and never more than `n`.
pub proof fn lemma_window_after(lines: Seq<Seq<u8>>, n: nat)
    ensures
        window_after(lines, n) == keep_last(lines, n),
        window_after(lines, n).len() <= n,
    decreases lines.len(),
{
    if lines.len() > 0 {
        lemma_window_after(lines.drop_last(), n);
        lemma_keep_last_push(lines.drop_last(), lines.last(), n);
        assert(lines.drop_last().push(lines.last()) =~= lines);
    }
}

/// A window of capacity `n` that was given the lines of a stream, one by
/// one, writes the last `n` lines of the stream: its `min(n, L)` trailing
/// lines, in their order.
pub proof fn lemma_window_holds_last_lines(s: Seq<u8>, n: nat)
    ensures
        keep_last(lines_of(s), n) == lines_of(s).skip(line_count(s) - lines_kept(s, n)),
        keep_last(lines_of(s), n).len() == lines_kept(s, n),
        keep_last(lines_of(s), n).flatten() == last_lines(s, n),
{
    lemma_last_lines_are_trailing(s, n);
    assert(keep_last(lines_of(s), n) =~= lines_of(s).skip(line_count(s) - lines_kept(s, n)));
}

} // verus!
