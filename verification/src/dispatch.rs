//! What the dispatcher decides for each source: how it is tailed, what
//! header stands before it, how a failure is recorded, and what a whole batch
//! of sources gives.

use crate::copier::append_bytes;
use crate::failure::{FailureKind, SourceError};
use crate::lines::TERMINATOR;
use crate::options::{Direction, TailOptions};
use crate::tail::{tail_from_top, tail_of, tail_seekable, tail_streaming};
use vstd::prelude::*;
use vstd::string::{StrSliceExecFns, StringExecFns};
use vstd::utf8::encode_utf8;

verus! {

/// The way in which one source is tailed.
#[derive(Clone, Copy, Debug, PartialEq, Eq, Structural)]
pub enum Strategy {
    /// Pass over the first lines, copy the rest as it arrives.
    Skip,
    /// Scan backward from the end for the start of the last lines, then
    /// copy from there.
    Scan,
    /// Read forward through a window of the last lines.
    Window,
}

/// From the top every source is skipped through; from the bottom a
/// seekable source is scanned backward and any other goes through the
/// window.
pub open spec fn strategy_for(direction: Direction, seekable: bool) -> Strategy {
    match direction {
        Direction::FromTop => Strategy::Skip,
        Direction::FromBottom => if seekable {
            Strategy::Scan
        } else {
            Strategy::Window
        },
    }
}

/// Selects the strategy for a source.
pub fn select_strategy(direction: Direction, seekable: bool) -> (strategy: Strategy)
    ensures
        strategy == strategy_for(direction, seekable),
{
    match direction {
        Direction::FromTop => Strategy::Skip,
        Direction::FromBottom => if seekable {
            Strategy::Scan
        } else {
            Strategy::Window
        },
    }
}

/// Tails one source held in memory, by the strategy that its direction and
/// seekability select. Whatever the strategy, the last lines are the same.
pub fn tail_bytes(data: &[u8], seekable: bool, item_count: usize, direction: Direction) -> (out:
    Vec<u8>)
    ensures
        out@ == tail_of(data@, item_count as nat, direction),
{
    match select_strategy(direction, seekable) {
        Strategy::Skip => tail_from_top(data, item_count),
        Strategy::Scan => tail_seekable(data, item_count),
        Strategy::Window => tail_streaming(data, item_count),
    }
}

/// The name that stands for the standard input.
pub open spec fn names_standard_input(name: Seq<char>) -> bool {
    name == "-"@
}

/// Whether the source name stands for the standard input.
pub fn is_standard_input(name: &str) -> (r: bool)
    ensures
        r == names_standard_input(name@),
{
    proof {
        reveal_strlit("-");
    }
    let r = name.unicode_len() == 1 && name.get_char(0) == '-';
    assert(r ==> name@ =~= "-"@);
    r
}

/// The header of a source, without its end of line.
pub open spec fn header_text(name: Seq<char>) -> Seq<char> {
    "==> "@ + (if names_standard_input(name) {
        "standard input"@
    } else {
        name
    }) + " <=="@
}

/// The header that stands before the output of a source.
pub fn header_line(name: &str) -> (line: String)
    ensures
        line@ == header_text(name@),
{
    let mut line = String::from_str("==> ");
    if is_standard_input(name) {
        line.append("standard input");
    } else {
        line.append(name);
    }
    line.append(" <==");
    line
}

/// Where the processing of one source stands.
#[derive(Clone, Copy, Debug, PartialEq, Eq, Structural)]
pub enum Phase {
    Opening,
    Scanning,
    Windowing,
    Skipping,
    Copying,
    Done,
    Failed { kind: FailureKind },
}

/// What happened to the source since the last decision.
#[derive(Clone, Copy, Debug, PartialEq, Eq, Structural)]
pub enum Event {
    /// The source was opened.
    Opened { seekable: bool },
    /// The component at work came to its end.
    Finished,
    /// The component at work failed.
    Failure { kind: FailureKind },
}

/// The phase in which a strategy begins.
pub open spec fn first_phase(strategy: Strategy) -> Phase {
    match strategy {
        Strategy::Skip => Phase::Skipping,
        Strategy::Scan => Phase::Scanning,
        Strategy::Window => Phase::Windowing,
    }
}

/// The phase that follows. `Done` and `Failed` are final. Before them any
/// failure ends the source. An opened source begins with its strategy; the
/// scan is followed by the copy, every other component by `Done`. An event
/// that the phase does not expect leaves it as it is.
pub open spec fn next_phase(direction: Direction, phase: Phase, event: Event) -> Phase {
    match (phase, event) {
        (Phase::Done, _) => phase,
        (Phase::Failed { .. }, _) => phase,
        (_, Event::Failure { kind }) => Phase::Failed { kind },
        (Phase::Opening, Event::Opened { seekable }) => first_phase(
            strategy_for(direction, seekable),
        ),
        (Phase::Scanning, Event::Finished) => Phase::Copying,
        (Phase::Windowing, Event::Finished) => Phase::Done,
        (Phase::Skipping, Event::Finished) => Phase::Done,
        (Phase::Copying, Event::Finished) => Phase::Done,
        _ => phase,
    }
}

/// Takes the source from one phase to the next.
pub fn advance(direction: Direction, phase: Phase, event: Event) -> (next: Phase)
    ensures
        next == next_phase(direction, phase, event),
{
    match phase {
        Phase::Done => phase,
        Phase::Failed { .. } => phase,
        _ => match event {
            Event::Failure { kind } => Phase::Failed { kind },
            Event::Opened { seekable } => match phase {
                Phase::Opening => match select_strategy(direction, seekable) {
                    Strategy::Skip => Phase::Skipping,
                    Strategy::Scan => Phase::Scanning,
                    Strategy::Window => Phase::Windowing,
                },
                _ => phase,
            },
            Event::Finished => match phase {
                Phase::Scanning => Phase::Copying,
                Phase::Windowing => Phase::Done,
                Phase::Skipping => Phase::Done,
                Phase::Copying => Phase::Done,
                _ => phase,
            },
        },
    }
}

/// A source is over in `Done` and in `Failed`.
pub open spec fn is_final(phase: Phase) -> bool {
    phase is Done || phase is Failed
}

/// A source that is over stays as it is; a failure ends any other; the
/// copy follows the scan and nothing else; from the top a source is skipped
/// through whether it is seekable or not.
pub proof fn lemma_phase_laws(direction: Direction, phase: Phase, event: Event)
    ensures
        is_final(phase) ==> next_phase(direction, phase, event) == phase,
        !is_final(phase) ==> (event matches Event::Failure { kind } ==> next_phase(
            direction,
            phase,
            event,
        ) == Phase::Failed { kind }),
        next_phase(direction, phase, event) is Copying ==> phase is Copying || phase is Scanning,
        next_phase(direction, phase, event) is Failed ==> phase is Failed || event is Failure,
        direction is FromTop && phase is Opening && event is Opened ==> next_phase(
            direction,
            phase,
            event,
        ) is Skipping,
{
}

/// The failures of one batch, in the order of the sources.
#[derive(Clone, Debug, PartialEq, Eq)]
pub struct BatchReport {
    pub failures: Vec<SourceError>,
}

impl BatchReport {
    pub fn new() -> (report: BatchReport)
        ensures
            report.failures@.len() == 0,
    {
        BatchReport { failures: Vec::new() }
    }

    /// Records the failure of one source. The batch goes on.
    pub fn record(&mut self, error: SourceError)
        ensures
            final(self).failures@ == old(self).failures@.push(error),
    {
        self.failures.push(error);
    }

    /// Whether any source failed.
    pub fn failed(&self) -> (r: bool)
        ensures
            r == (self.failures@.len() > 0),
    {
        self.failures.len() > 0
    }

    /// The exit status of the run: zero where no source failed, one
    /// otherwise.
    pub fn exit_status(&self) -> (status: i32)
        ensures
            status == if self.failures@.len() == 0 {
                0i32
            } else {
                1i32
            },
    {
        if self.failures.len() == 0 {
            0
        } else {
            1
        }
    }
}

/// The sources of a run: the files that the options name, or the standard
/// input where they name none.
pub open spec fn sources_of(files: Seq<Seq<char>>) -> Seq<Seq<char>> {
    if files.len() == 0 {
        seq!["-"@]
    } else {
        files
    }
}

/// The names of the sources to process, in order.
pub fn source_names(options: &TailOptions) -> (names: Vec<String>)
    ensures
        names.deep_view() == sources_of(options.files.deep_view()),
{
    let mut names: Vec<String> = Vec::new();
    if options.files.len() == 0 {
        names.push(String::from_str("-"));
        assert(names.deep_view() =~= seq!["-"@]);
        return names;
    }
    let mut i: usize = 0;
    while i < options.files.len()
        invariant
            i <= options.files@.len(),
            names@.len() == i,
            names.deep_view() == options.files.deep_view().take(i as int),
        decreases options.files@.len() - i,
    {
        let ghost copied = names;
        let name = options.files[i].clone();
        names.push(name);
        proof {
            assert(names@ == copied@.push(name));
            assert forall|j: int| 0 <= j <= i implies names.deep_view()[j]
                == options.files.deep_view()[j] by {
                if j < i {
                    assert(copied.deep_view()[j] == options.files.deep_view().take(i as int)[j]);
                    assert(names@[j] == copied@[j]);
                } else {
                    assert(names@[j] == options.files@[j]);
                }
            }
        }
        i = i + 1;
        assert(names.deep_view() =~= options.files.deep_view().take(i as int));
    }
    assert(options.files.deep_view().take(i as int) =~= options.files.deep_view());
    names
}

/// One source of a batch held in memory: its name, whether it can be
/// repositioned, and its bytes, or the text of the error that opening it
/// gave.
#[derive(Debug, PartialEq, Eq)]
pub struct MemorySource {
    pub name: String,
    pub seekable: bool,
    pub content: Result<Vec<u8>, String>,
}

/// What a batch wrote and which of its sources failed.
#[derive(Clone, Debug, PartialEq, Eq)]
pub struct BatchOutcome {
    pub output: Vec<u8>,
    pub report: BatchReport,
}

/// The header of a source as it is written: its text and an end of line.
pub open spec fn header_bytes(name: Seq<char>) -> Seq<u8> {
    encode_utf8(header_text(name)) + seq![TERMINATOR]
}

/// What one source adds to the output: its header where headers are shown,
/// whether or not it can be opened, then its tail where it can.
pub open spec fn source_output(options: TailOptions, source: MemorySource) -> Seq<u8> {
    (if options.output_headers {
        header_bytes(source.name@)
    } else {
        Seq::<u8>::empty()
    }) + (match source.content {
        Ok(data) => tail_of(data@, options.item_count as nat, options.direction),
        Err(_) => Seq::<u8>::empty(),
    })
}

/// What the sources write, one after the other.
pub open spec fn batch_output(options: TailOptions, sources: Seq<MemorySource>) -> Seq<u8>
    decreases sources.len(),
{
    if sources.len() == 0 {
        Seq::<u8>::empty()
    } else {
        batch_output(options, sources.drop_last()) + source_output(options, sources.last())
    }
}

/// The failure that a source gives, if it gives one.
pub open spec fn failure_of(source: MemorySource, error: SourceError) -> bool {
    &&& source.content matches Err(detail)
    &&& error.source_name@ == source.name@
    &&& error.kind == FailureKind::OpenFailure
    &&& error.detail@ == detail@
}

/// The sources that cannot be opened, in order.
pub open spec fn failing_sources(sources: Seq<MemorySource>) -> Seq<MemorySource> {
    sources.filter(|source: MemorySource| source.content is Err)
}

/// `failures` holds one failure for each source that cannot be opened, in
/// the order of the sources.
pub open spec fn reports_failures(sources: Seq<MemorySource>, failures: Seq<SourceError>) -> bool {
    &&& failures.len() == failing_sources(sources).len()
    &&& forall|i: int|
        0 <= i < failures.len() ==> failure_of(failing_sources(sources)[i], #[trigger] failures[i])
}

/// Processes the sources one after the other. A source that cannot be
/// opened is recorded and the batch goes on with the next; a header, where
/// headers are shown, is written before the source is opened.
pub fn run_batch(options: &TailOptions, sources: &Vec<MemorySource>) -> (outcome: BatchOutcome)
    ensures
        outcome.output@ == batch_output(*options, sources@),
        reports_failures(sources@, outcome.report.failures@),
{
    let mut output: Vec<u8> = Vec::new();
    let mut report = BatchReport::new();
    let mut i: usize = 0;
    proof {
        assert(sources@.take(0) =~= Seq::<MemorySource>::empty());
        assert(failing_sources(sources@.take(0)).len() == 0) by {
            reveal(Seq::filter);
        }
    }
    while i < sources.len()
        invariant
            i <= sources@.len(),
            output@ == batch_output(*options, sources@.take(i as int)),
            reports_failures(sources@.take(i as int), report.failures@),
        decreases sources@.len() - i,
    {
        let source = &sources[i];
        let ghost done = sources@.take(i as int);
        let ghost before = output@;
        proof {
            assert(sources@.take(i + 1).drop_last() =~= done);
            assert(sources@.take(i + 1) =~= done.push(*source));
            reveal(Seq::filter);
            assert(done.push(*source).drop_last() =~= done);
        }
        if options.output_headers {
            let header = header_line(source.name.as_str());
            append_bytes(&mut output, header.as_str().as_bytes());
            output.push(TERMINATOR);
            assert(output@ =~= before + header_bytes(source.name@));
        } else {
            assert(output@ =~= before + Seq::<u8>::empty());
        }
        let ghost with_header = output@;
        match &source.content {
            Ok(data) => {
                let tail = tail_bytes(
                    data.as_slice(),
                    source.seekable,
                    options.item_count,
                    options.direction,
                );
                append_bytes(&mut output, tail.as_slice());
            },
            Err(detail) => {
                report.record(
                    SourceError::new(
                        source.name.as_str(),
                        FailureKind::OpenFailure,
                        detail.as_str(),
                    ),
                );
                assert(output@ =~= with_header + Seq::<u8>::empty());
            },
        }
        i = i + 1;
        proof {
            assert(output@ =~= before + source_output(*options, *source));
        }
    }
    assert(sources@.take(i as int) =~= sources@);
    BatchOutcome { output, report }
}

} // verus!
