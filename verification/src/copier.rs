//! Copying the rest of a source to the output, block by block.

use crate::failure::FailureKind;
use crate::scanner::BLOCK_CAPACITY;
use vstd::prelude::*;
use vstd::slice::slice_subrange;

verus! {

/// What follows a read.
#[derive(Clone, Copy, Debug, PartialEq, Eq, Structural)]
pub enum CopyStep {
    /// Write the bytes that were read, then read on.
    Write { length: usize },
    /// The source is at its end: the copy is complete.
    Done,
}

/// Decides what follows a read that returned `bytes_read` bytes without
/// an error: a read of no bytes is the end of the source, no failure.
pub fn after_read(bytes_read: usize) -> (step: CopyStep)
    ensures
        step == if bytes_read == 0 {
            CopyStep::Done
        } else {
            CopyStep::Write { length: bytes_read }
        },
{
    if bytes_read == 0 {
        CopyStep::Done
    } else {
        CopyStep::Write { length: bytes_read }
    }
}

/// Judges a write that was given `requested` bytes and took `written` of
/// them: taking fewer is the failure of the output.
pub fn after_write(requested: usize, written: usize) -> (r: Result<(), FailureKind>)
    ensures
        r == if written == requested {
            Ok::<(), FailureKind>(())
        } else {
            Err::<(), FailureKind>(FailureKind::WriteFailure)
        },
{
    if written == requested {
        Ok(())
    } else {
        Err(FailureKind::WriteFailure)
    }
}

/// Appends the bytes to the sink.
pub fn append_bytes(sink: &mut Vec<u8>, bytes: &[u8])
    ensures
        final(sink)@ == old(sink)@ + bytes@,
{
    let mut i: usize = 0;
    while i < bytes.len()
        invariant
            i <= bytes@.len(),
            sink@ == old(sink)@ + bytes@.take(i as int),
        decreases bytes@.len() - i,
    {
        sink.push(bytes[i]);
        i = i + 1;
        assert(sink@ =~= old(sink)@ + bytes@.take(i as int));
    }
    assert(bytes@.take(i as int) =~= bytes@);
}

/// Copies an in-memory source from `offset` to its end into the sink, in
/// blocks of at most `BLOCK_CAPACITY` bytes, byte for byte.
pub fn copy_to_end(source: &[u8], offset: usize, sink: &mut Vec<u8>)
    requires
        offset <= source@.len(),
    ensures
        final(sink)@ == old(sink)@ + source@.skip(offset as int),
{
    let len = source.len();
    let mut position = offset;
    loop
        invariant
            offset <= position <= len,
            len == source@.len(),
            sink@ == old(sink)@ + source@.subrange(offset as int, position as int),
        ensures
            position == len,
        decreases len - position,
    {
        let available = len - position;
        let bytes_read = if available < BLOCK_CAPACITY {
            available
        } else {
            BLOCK_CAPACITY
        };
        match after_read(bytes_read) {
            CopyStep::Done => {
                break ;
            },
            CopyStep::Write { length } => {
                append_bytes(sink, slice_subrange(source, position, position + length));
                assert(sink@ =~= old(sink)@ + source@.subrange(
                    offset as int,
                    position + length,
                ));
                position = position + length;
            },
        }
    }
    assert(source@.subrange(offset as int, len as int) =~= source@.skip(offset as int));
}

} // verus!
