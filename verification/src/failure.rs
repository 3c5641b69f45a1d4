//! Why the processing of one source failed.

use vstd::prelude::*;
use vstd::string::StringExecFns;

verus! {

/// The step at which a source failed.
#[derive(Clone, Copy, Debug, PartialEq, Eq, Structural)]
pub enum FailureKind {
    /// The source cannot be opened.
    OpenFailure,
    /// The source cannot be repositioned, or its length not be had.
    SeekFailure,
    /// Reading the source failed.
    ReadFailure,
    /// Writing to the output failed, or wrote less than it was given.
    WriteFailure,
}

/// The failure of one source: which source, at which step, and the text of
/// the underlying error.
#[derive(Clone, Debug, PartialEq, Eq)]
pub struct SourceError {
    pub source_name: String,
    pub kind: FailureKind,
    pub detail: String,
}

impl SourceError {
    /// The line that reports the failure: the program, the source and the
    /// detail, separated by a colon and a space.
    pub open spec fn report_text(&self, program: Seq<char>) -> Seq<char> {
        program + ": "@ + self.source_name@ + ": "@ + self.detail@
    }

    pub fn new(source_name: &str, kind: FailureKind, detail: &str) -> (error: SourceError)
        ensures
            error.source_name@ == source_name@,
            error.kind == kind,
            error.detail@ == detail@,
    {
        SourceError {
            source_name: String::from_str(source_name),
            kind,
            detail: String::from_str(detail),
        }
    }

    /// The line to print on the diagnostic stream, without its end of line.
    pub fn report(&self, program: &str) -> (line: String)
        ensures
            line@ == self.report_text(program@),
    {
        let mut line = String::from_str(program);
        line.append(": ");
        line.append(self.source_name.as_str());
        line.append(": ");
        line.append(self.detail.as_str());
        line
    }
}

} // verus!
