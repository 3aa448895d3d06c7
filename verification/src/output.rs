//! The output of an execution on its way to the client: numbered, encoded and counted.
use vstd::prelude::*;
use vstd::string::*;

use crate::digest::{base64_decoded, base64_text, encode_base64};
use crate::protocol::{OutputStream, ServerMessage};

verus! {

/// The greatest piece of output that is read at once.
pub const MAX_STREAM_CHUNK_BYTES: usize = 16 * 1024;

/// How much output an execution has had, and the number of the next piece.
#[derive(Debug, Clone, Copy, PartialEq, Eq)]
pub struct OutputProgress {
    pub bytes: u64,
    pub sequence: u64,
}

/// What becomes of a piece of output.
#[derive(Debug)]
pub enum OutputStep {
    /// It is sent on.
    Forward(ServerMessage),
    /// It is dropped, and the execution is stopped: it has had more output than it may.
    LimitExceeded,
}

/// The number of bytes after some more, or the greatest number where that does not fit.
pub open spec fn counted(bytes: int, more: int) -> int {
    if bytes + more <= u64::MAX {
        bytes + more
    } else {
        u64::MAX as int
    }
}

/// Whether an event brings a piece of output.
pub open spec fn is_output_event(
    event: ServerMessage,
    execution_id: String,
    stream: OutputStream,
    sequence: u64,
    chunk: Seq<u8>,
) -> bool {
    &&& event matches ServerMessage::Output {
        execution_id: id,
        stream: from,
        sequence: number,
        base64: text,
    }
    &&& id == execution_id
    &&& from == stream
    &&& number == sequence
    &&& text@ == base64_text(chunk)
    &&& base64_decoded(text@) == Some(chunk)
}

impl OutputProgress {
    /// Nothing has been sent; pieces are numbered from one.
    pub fn start() -> (r: Self)
        ensures
            r.bytes == 0,
            r.sequence == 1,
    {
        OutputProgress { bytes: 0, sequence: 1 }
    }

    /// Counts a piece of output and decides what becomes of it.
    pub fn accept(
        &mut self,
        execution_id: &String,
        limit: u64,
        stream: OutputStream,
        chunk: &Vec<u8>,
    ) -> (r: OutputStep)
        ensures
            final(self).bytes == counted(old(self).bytes as int, chunk@.len() as int),
            final(self).sequence == old(self).sequence,
            match r {
                OutputStep::Forward(event) => final(self).bytes <= limit && is_output_event(
                    event,
                    *execution_id,
                    stream,
                    old(self).sequence,
                    chunk@,
                ),
                OutputStep::LimitExceeded => final(self).bytes > limit,
            },
    {
        self.bytes = self.bytes.saturating_add(chunk.len() as u64);
        if self.bytes > limit {
            return OutputStep::LimitExceeded;
        }
        OutputStep::Forward(
            ServerMessage::Output {
                execution_id: execution_id.clone(),
                stream,
                sequence: self.sequence,
                base64: encode_base64(chunk),
            },
        )
    }

    /// Takes note that a piece was sent. The number after the greatest one is zero.
    pub fn delivered(&mut self)
        ensures
            final(self).bytes == old(self).bytes,
            final(self).sequence == if old(self).sequence == u64::MAX {
                0
            } else {
                old(self).sequence + 1
            },
    {
        self.sequence = self.sequence.wrapping_add(1);
    }

    /// The output that is reported when the execution ends: no more than it may have had.
    pub fn total(&self, limit: u64) -> (r: u64)
        ensures
            r == if self.bytes <= limit {
                self.bytes
            } else {
                limit
            },
    {
        if self.bytes <= limit {
            self.bytes
        } else {
            limit
        }
    }
}

/// The bytes of a number of pieces.
pub open spec fn sum(pieces: Seq<nat>) -> nat
    decreases pieces.len(),
{
    if pieces.len() == 0 {
        0
    } else {
        sum(pieces.drop_last()) + pieces.last()
    }
}

/// The count after a number of pieces.
pub open spec fn count_after(pieces: Seq<nat>) -> int
    decreases pieces.len(),
{
    if pieces.len() == 0 {
        0
    } else {
        counted(count_after(pieces.drop_last()), pieces.last() as int)
    }
}

proof fn lemma_count(pieces: Seq<nat>)
    ensures
        count_after(pieces) == if sum(pieces) <= u64::MAX {
            sum(pieces) as int
        } else {
            u64::MAX as int
        },
    decreases pieces.len(),
{
    if pieces.len() > 0 {
        lemma_count(pieces.drop_last());
    }
}

/// While pieces are sent on, everything sent together is within the limit; and nothing within the
/// limit is held back.
pub proof fn law_output_is_forwarded_up_to_the_limit(pieces: Seq<nat>, limit: u64)
    requires
        limit < u64::MAX,
    ensures
        count_after(pieces) <= limit <==> sum(pieces) <= limit,
{
    lemma_count(pieces);
}

/// The count of bytes never goes down, and is exact as long as it fits.
pub proof fn law_count_is_exact(bytes: u64, more: nat)
    ensures
        bytes + more <= u64::MAX ==> counted(bytes as int, more as int) == bytes + more,
        bytes <= counted(bytes as int, more as int) <= u64::MAX,
        bytes + more > u64::MAX ==> counted(bytes as int, more as int) == u64::MAX,
{
}

} // verus!
