//! Lines of a byte stream: what they are, how many there are, and at which
//! offset each begins.
//!
//! A line is a run of bytes up to and including a terminator; bytes after
//! the last terminator form a final line without one.

use vstd::prelude::*;

verus! {

/// The byte that ends a line.
pub const TERMINATOR: u8 = 10;

/// The length of the first line of `s`, its terminator included.
pub open spec fn first_line_len(s: Seq<u8>) -> nat
    decreases s.len(),
{
    if s.len() == 0 {
        0
    } else if s[0] == TERMINATOR {
        1
    } else {
        1 + first_line_len(s.skip(1))
    }
}

/// The lines of `s`, in order. Concatenated they give `s` back.
pub open spec fn lines_of(s: Seq<u8>) -> Seq<Seq<u8>>
    decreases s.len(),
{
    if s.len() == 0 {
        Seq::empty()
    } else {
        proof {
            lemma_first_line_len_bounds(s);
        }
        seq![s.take(first_line_len(s) as int)] + lines_of(s.skip(first_line_len(s) as int))
    }
}

/// The number of lines of `s`.
pub open spec fn line_count(s: Seq<u8>) -> nat {
    lines_of(s).len()
}

/// The number of terminators in `s`.
pub open spec fn terminators(s: Seq<u8>) -> nat
    decreases s.len(),
{
    if s.len() == 0 {
        0
    } else if s[0] == TERMINATOR {
        1 + terminators(s.skip(1))
    } else {
        terminators(s.skip(1))
    }
}

/// The offset at which line `k` of `s` begins, lines counted from zero;
/// the length of `s` where it has no such line.
pub open spec fn line_offset(s: Seq<u8>, k: nat) -> nat
    decreases k,
{
    if k == 0 || s.len() == 0 {
        0
    } else {
        first_line_len(s) + line_offset(s.skip(first_line_len(s) as int), (k - 1) as nat)
    }
}

/// The offset at which the last `n` lines of `s` begin; zero where `s` has
/// no more than `n` lines.
pub open spec fn tail_start(s: Seq<u8>, n: nat) -> nat {
    if line_count(s) <= n {
        0
    } else {
        line_offset(s, (line_count(s) - n) as nat)
    }
}

/// The last `n` lines of `s`; all of `s` where it has no more than `n`.
pub open spec fn last_lines(s: Seq<u8>, n: nat) -> Seq<u8> {
    s.skip(tail_start(s, n) as int)
}

/// What is left of `s` after its first `n` lines; nothing where it has no
/// more than `n`.
pub open spec fn after_lines(s: Seq<u8>, n: nat) -> Seq<u8> {
    s.skip(line_offset(s, n) as int)
}

/// A position between two lines of `s`, before its first or after its last.
pub open spec fn is_boundary(s: Seq<u8>, p: int) -> bool {
    0 <= p <= s.len() && (p == 0 || p == s.len() || s[p - 1] == TERMINATOR)
}

pub proof fn lemma_first_line_len_bounds(s: Seq<u8>)
    ensures
        first_line_len(s) <= s.len(),
        s.len() > 0 ==> first_line_len(s) >= 1,
    decreases s.len(),
{
    if s.len() > 0 && s[0] != TERMINATOR {
        lemma_first_line_len_bounds(s.skip(1));
    }
}

/// The first line ends with the first terminator, and holds no other.
pub proof fn lemma_first_line_shape(s: Seq<u8>)
    requires
        s.len() > 0,
    ensures
        forall|i: int| 0 <= i < first_line_len(s) - 1 ==> s[i] != TERMINATOR,
        first_line_len(s) < s.len() ==> s[first_line_len(s) - 1] == TERMINATOR,
    decreases s.len(),
{
    lemma_first_line_len_bounds(s);
    if s[0] != TERMINATOR && s.len() > 1 {
        let t = s.skip(1);
        lemma_first_line_shape(t);
        lemma_first_line_len_bounds(t);
        assert forall|i: int| 0 <= i < first_line_len(s) - 1 implies s[i] != TERMINATOR by {
            if i > 0 {
                assert(s[i] == t[i - 1]);
            }
        }
        if first_line_len(s) < s.len() {
            assert(s[first_line_len(s) - 1] == t[first_line_len(t) - 1]);
        }
    }
}

/// A non-empty stream has one line more than what follows its first line.
pub proof fn lemma_line_count_unfold(s: Seq<u8>)
    requires
        s.len() > 0,
    ensures
        line_count(s) == 1 + line_count(s.skip(first_line_len(s) as int)),
        lines_of(s)[0] == s.take(first_line_len(s) as int),
{
    lemma_first_line_len_bounds(s);
}

/// A line offset lies within the stream, and reaches its end from the line
/// count on.
pub proof fn lemma_line_offset_bounds(s: Seq<u8>, k: nat)
    ensures
        line_offset(s, k) <= s.len(),
        k >= line_count(s) ==> line_offset(s, k) == s.len(),
        is_boundary(s, line_offset(s, k) as int),
    decreases k,
{
    if k == 0 || s.len() == 0 {
    } else {
        lemma_first_line_len_bounds(s);
        lemma_first_line_shape(s);
        lemma_line_count_unfold(s);
        let f = first_line_len(s) as int;
        lemma_line_offset_bounds(s.skip(f), (k - 1) as nat);
        let p = line_offset(s.skip(f), (k - 1) as nat) as int;
        if p > 0 && p < s.skip(f).len() {
            assert(s.skip(f)[p - 1] == s[f + p - 1]);
        }
    }
}

/// The lines from offset `line_offset(s, k)` on are the lines of `s` from
/// line `k` on.
pub proof fn lemma_lines_from_offset(s: Seq<u8>, k: nat)
    ensures
        lines_of(s.skip(line_offset(s, k) as int)) == lines_of(s).skip(
            if k <= line_count(s) {
                k as int
            } else {
                line_count(s) as int
            },
        ),
    decreases k,
{
    if k == 0 || s.len() == 0 {
        assert(s.skip(0) =~= s);
        assert(lines_of(s).skip(0) =~= lines_of(s));
    } else {
        lemma_first_line_len_bounds(s);
        lemma_line_count_unfold(s);
        let f = first_line_len(s) as int;
        let rest = s.skip(f);
        let j = (k - 1) as nat;
        lemma_lines_from_offset(rest, j);
        lemma_line_offset_bounds(rest, j);
        let x = line_offset(rest, j) as int;
        assert(s.skip(f + x) =~= rest.skip(x));
        let m = if j <= line_count(rest) {
            j as int
        } else {
            line_count(rest) as int
        };
        assert(lines_of(s).skip(m + 1) =~= lines_of(rest).skip(m));
    }
}

/// The lines of a stream, concatenated, are the stream.
pub proof fn lemma_lines_flatten(s: Seq<u8>)
    ensures
        lines_of(s).flatten() == s,
    decreases s.len(),
{
    if s.len() == 0 {
        assert(lines_of(s).flatten() =~= s);
    } else {
        lemma_first_line_len_bounds(s);
        let f = first_line_len(s) as int;
        lemma_lines_flatten(s.skip(f));
        assert(lines_of(s).drop_first() =~= lines_of(s.skip(f)));
        assert(s.take(f) + s.skip(f) =~= s);
    }
}

/// The first line of a stream ends no later than any boundary after its
/// start.
pub proof fn lemma_first_line_before_boundary(s: Seq<u8>, p: int)
    requires
        is_boundary(s, p),
        p > 0,
    ensures
        first_line_len(s) <= p,
    decreases s.len(),
{
    if s[0] != TERMINATOR {
        let t = s.skip(1);
        if p == 1 {
            assert(t.len() == 0);
            assert(first_line_len(t) == 0);
        } else {
            if p < s.len() {
                assert(t[p - 2] == s[p - 1]);
            }
            lemma_first_line_before_boundary(t, p - 1);
        }
    }
}

/// A boundary is the offset of a line: the one that leaves after it as
/// many lines as the rest of the stream has.
pub proof fn lemma_boundary_is_line_offset(s: Seq<u8>, p: int)
    requires
        is_boundary(s, p),
    ensures
        line_count(s.skip(p)) <= line_count(s),
        line_offset(s, (line_count(s) - line_count(s.skip(p))) as nat) == p,
    decreases s.len(),
{
    if p == 0 {
        assert(s.skip(0) =~= s);
    } else {
        lemma_first_line_len_bounds(s);
        lemma_line_count_unfold(s);
        lemma_first_line_before_boundary(s, p);
        let f = first_line_len(s) as int;
        let rest = s.skip(f);
        if p - f > 0 && p < s.len() {
            assert(rest[p - f - 1] == s[p - 1]);
        }
        assert(rest.skip(p - f) =~= s.skip(p));
        lemma_boundary_is_line_offset(rest, p - f);
    }
}

/// Whether the byte at the front of `s` begins a line count of its own:
/// a terminator does, and so does the only byte of a stream.
pub open spec fn front_counts(s: Seq<u8>) -> bool {
    s.len() > 0 && (s[0] == TERMINATOR || s.len() == 1)
}

/// One byte more at the front adds a line exactly where `front_counts`
/// holds.
pub proof fn lemma_line_count_front(s: Seq<u8>)
    requires
        s.len() > 0,
    ensures
        line_count(s) == line_count(s.skip(1)) + if front_counts(s) {
            1nat
        } else {
            0nat
        },
{
    lemma_line_count_unfold(s);
    lemma_first_line_len_bounds(s);
    let t = s.skip(1);
    if s[0] == TERMINATOR {
    } else if s.len() == 1 {
        assert(first_line_len(t) == 0);
        assert(s.skip(1).len() == 0);
    } else {
        lemma_line_count_unfold(t);
        lemma_first_line_len_bounds(t);
        assert(t.skip(first_line_len(t) as int) =~= s.skip(first_line_len(s) as int));
    }
}

/// In front of a non-empty stream, bytes add one line for each
/// terminator among them.
pub proof fn lemma_line_count_concat(x: Seq<u8>, y: Seq<u8>)
    requires
        y.len() > 0,
    ensures
        line_count(x + y) == terminators(x) + line_count(y),
    decreases x.len(),
{
    if x.len() == 0 {
        assert(x + y =~= y);
    } else {
        let t = x + y;
        assert(t.skip(1) =~= x.skip(1) + y);
        lemma_line_count_front(t);
        lemma_line_count_concat(x.skip(1), y);
    }
}

/// A stream without bytes has no line, and any other has one at least.
pub proof fn lemma_line_count_zero(s: Seq<u8>)
    ensures
        line_count(s) == 0 <==> s.len() == 0,
{
    if s.len() > 0 {
        lemma_line_count_unfold(s);
    }
}

/// The smaller of a wanted number of lines and the number there is.
pub open spec fn lines_kept(s: Seq<u8>, n: nat) -> nat {
    if n <= line_count(s) {
        n
    } else {
        line_count(s)
    }
}

/// The last `n` lines of a stream are its trailing `min(n, L)` lines,
/// where `L` is its line count: split into lines they are the same lines,
/// byte for byte and in the same order, and joined they are the output.
pub proof fn lemma_last_lines_are_trailing(s: Seq<u8>, n: nat)
    ensures
        lines_of(last_lines(s, n)) == lines_of(s).skip(line_count(s) - lines_kept(s, n)),
        line_count(last_lines(s, n)) == lines_kept(s, n),
        last_lines(s, n) == lines_of(s).skip(line_count(s) - lines_kept(s, n)).flatten(),
{
    let k = (line_count(s) - lines_kept(s, n)) as nat;
    assert(tail_start(s, n) == line_offset(s, k));
    lemma_lines_from_offset(s, k);
    lemma_lines_flatten(last_lines(s, n));
}

/// What is left after the first `n` lines of a stream are its lines from
/// line `n` on, `max(L - n, 0)` of them where `L` is its line count, each
/// byte for byte.
pub proof fn lemma_after_lines_are_rest(s: Seq<u8>, n: nat)
    ensures
        lines_of(after_lines(s, n)) == lines_of(s).skip(lines_kept(s, n) as int),
        line_count(after_lines(s, n)) == line_count(s) - lines_kept(s, n),
        after_lines(s, n) == lines_of(s).skip(lines_kept(s, n) as int).flatten(),
{
    lemma_lines_from_offset(s, n);
    lemma_lines_flatten(after_lines(s, n));
}

/// With no line wanted the last lines are empty, and nothing is passed
/// over from the top.
pub proof fn lemma_zero_lines(s: Seq<u8>)
    ensures
        last_lines(s, 0) == Seq::<u8>::empty(),
        after_lines(s, 0) == s,
{
    lemma_line_count_zero(s);
    lemma_line_offset_bounds(s, line_count(s));
    assert(s.skip(s.len() as int) =~= Seq::<u8>::empty());
    assert(s.skip(0) =~= s);
}

/// A stream that has no more lines than wanted is its own last lines.
pub proof fn lemma_last_lines_of_short_stream(s: Seq<u8>, n: nat)
    requires
        line_count(s) <= n,
    ensures
        last_lines(s, n) == s,
{
    assert(s.skip(0) =~= s);
}

/// Taking the last lines of the last lines, as many as they are, changes
/// nothing.
pub proof fn lemma_last_lines_idempotent(s: Seq<u8>, n: nat)
    ensures
        last_lines(last_lines(s, n), line_count(last_lines(s, n))) == last_lines(s, n),
{
    lemma_last_lines_of_short_stream(last_lines(s, n), line_count(last_lines(s, n)));
}

/// Each line begins where the one before it ends.
pub proof fn lemma_line_offset_step(s: Seq<u8>, k: nat)
    ensures
        line_offset(s, k + 1) == line_offset(s, k) + first_line_len(
            s.skip(line_offset(s, k) as int),
        ),
    decreases k,
{
    assert(s.skip(0) =~= s);
    if s.len() == 0 {
    } else if k == 0 {
        assert(line_offset(s.skip(first_line_len(s) as int), 0) == 0);
    } else {
        lemma_first_line_len_bounds(s);
        let f = first_line_len(s) as int;
        let rest = s.skip(f);
        let j = (k - 1) as nat;
        lemma_line_offset_step(rest, j);
        lemma_line_offset_bounds(rest, j);
        assert(s.skip(f + line_offset(rest, j)) =~= rest.skip(line_offset(rest, j) as int));
    }
}

/// Line `k` of a stream is its bytes from the offset of line `k` to the
/// offset of the next, and it is not empty.
pub proof fn lemma_line_at(s: Seq<u8>, k: nat)
    requires
        k < line_count(s),
    ensures
        line_offset(s, k) < line_offset(s, k + 1) <= s.len(),
        lines_of(s)[k as int] == s.subrange(
            line_offset(s, k) as int,
            line_offset(s, k + 1) as int,
        ),
{
    let p = line_offset(s, k) as int;
    let t = s.skip(p);
    lemma_lines_from_offset(s, k);
    lemma_line_offset_bounds(s, k);
    lemma_line_offset_bounds(s, k + 1);
    lemma_line_offset_step(s, k);
    assert(lines_of(t).len() == line_count(s) - k);
    lemma_line_count_zero(t);
    lemma_first_line_len_bounds(t);
    lemma_line_count_unfold(t);
    assert(lines_of(t)[0] == lines_of(s)[k as int]);
    assert(t.take(first_line_len(t) as int) =~= s.subrange(p, p + first_line_len(t)));
}

/// Every line holds a byte at least and no terminator before its last
/// byte; every line but the last ends with a terminator.
pub proof fn lemma_line_shape(s: Seq<u8>, k: nat)
    requires
        k < line_count(s),
    ensures
        lines_of(s)[k as int].len() >= 1,
        forall|i: int|
            0 <= i < lines_of(s)[k as int].len() - 1 ==> lines_of(s)[k as int][i] != TERMINATOR,
        k + 1 < line_count(s) ==> lines_of(s)[k as int].last() == TERMINATOR,
{
    let p = line_offset(s, k) as int;
    let t = s.skip(p);
    lemma_line_at(s, k);
    lemma_line_offset_step(s, k);
    lemma_lines_from_offset(s, k);
    lemma_line_count_zero(t);
    lemma_first_line_shape(t);
    lemma_first_line_len_bounds(t);
    let line = lines_of(s)[k as int];
    assert(line =~= t.take(first_line_len(t) as int));
    if k + 1 < line_count(s) {
        lemma_line_count_unfold(t);
        lemma_line_count_zero(t.skip(first_line_len(t) as int));
    }
}

/// The views of the lines of a vector of lines.
pub open spec fn line_views(lines: Seq<Vec<u8>>) -> Seq<Seq<u8>> {
    lines.map_values(|line: Vec<u8>| line@)
}

/// Finds the end of the line that begins at `from`: the offset behind its
/// terminator, or the end of the data.
pub fn line_end(data: &[u8], from: usize) -> (end: usize)
    requires
        from <= data@.len(),
    ensures
        end == from + first_line_len(data@.skip(from as int)),
        end <= data@.len(),
{
    let len = data.len();
    let mut i = from;
    while i < len
        invariant
            from <= i <= len,
            len == data@.len(),
            first_line_len(data@.skip(from as int)) == (i - from) + first_line_len(
                data@.skip(i as int),
            ),
        decreases len - i,
    {
        assert(data@.skip(i as int).skip(1) =~= data@.skip(i + 1));
        if data[i] == TERMINATOR {
            return i + 1;
        }
        i = i + 1;
    }
    i
}

/// Splits the data into its lines.
pub fn split_lines(data: &[u8]) -> (lines: Vec<Vec<u8>>)
    ensures
        line_views(lines@) == lines_of(data@),
{
    let len = data.len();
    let mut lines: Vec<Vec<u8>> = Vec::new();
    let mut position: usize = 0;
    while position < len
        invariant
            position <= len,
            len == data@.len(),
            lines@.len() <= line_count(data@),
            position == line_offset(data@, lines@.len()),
            line_views(lines@) == lines_of(data@).take(lines@.len() as int),
        decreases len - position,
    {
        let ghost k = lines@.len();
        proof {
            lemma_line_offset_bounds(data@, line_count(data@));
            lemma_line_at(data@, k);
            lemma_line_offset_step(data@, k);
        }
        let end = line_end(data, position);
        let line = vstd::slice::slice_to_vec(vstd::slice::slice_subrange(data, position, end));
        lines.push(line);
        position = end;
        assert(line_views(lines@) =~= lines_of(data@).take(k as int + 1));
    }
    proof {
        let k = lines@.len();
        if k < line_count(data@) {
            lemma_line_at(data@, k);
        }
        assert(lines_of(data@).take(k as int) =~= lines_of(data@));
    }
    lines
}

} // verus!
