//! Reassembly: data frames become messages again.
//!
//! A message arrives either whole, in one frame with the final flag, or as a first frame without
//! the flag, any number of continuation frames without it, and one continuation frame with it.
//! Control frames never come here.

use vstd::prelude::*;
use crate::errors::Error;
use crate::errors::ProtocolError;
use crate::protocol::DataCode;

verus! {

/// Where reassembly stands.
pub enum FragmentState {
    /// No message is in progress.
    Idle,
    /// A message with this opcode is in progress, and these are its bytes so far.
    Accumulating(DataCode, Seq<u8>),
}

/// What one data frame leads to.
pub enum Reassembly {
    /// The frame was taken in, and the message is not complete yet.
    Pending,
    /// The frame completed a message with this opcode and these bytes.
    Complete(DataCode, Seq<u8>),
    /// The frame was refused.
    Failed(Error),
}

/// The accumulator for a message that arrives in fragments.
#[derive(Debug)]
pub struct FragmentBuffer {
    opcode: Option<DataCode>,
    buffer: Vec<u8>,
}

impl View for FragmentBuffer {
    type V = FragmentState;

    closed spec fn view(&self) -> FragmentState {
        match self.opcode {
            None => FragmentState::Idle,
            Some(op) => FragmentState::Accumulating(op, self.buffer@),
        }
    }
}

/// The state after a data frame: a message in progress grows by a continuation frame, begins
/// with a frame of another opcode, and ends with the final flag or with an error.
pub open spec fn spec_next_state(
    state: FragmentState,
    opcode: DataCode,
    fin: bool,
    payload: Seq<u8>,
    max_message_size: usize,
) -> FragmentState {
    match spec_on_frame(state, opcode, fin, payload, max_message_size) {
        Reassembly::Pending => match state {
            FragmentState::Idle => FragmentState::Accumulating(opcode, payload),
            FragmentState::Accumulating(first, sofar) => FragmentState::Accumulating(
                first,
                sofar + payload,
            ),
        },
        _ => FragmentState::Idle,
    }
}

/// What a data frame leads to in a given state.
///
/// A continuation frame needs a message in progress, and any other frame needs that there is
/// none. The bytes of a message, the frame's included, may not be more than
/// `max_message_size`.
pub open spec fn spec_on_frame(
    state: FragmentState,
    opcode: DataCode,
    fin: bool,
    payload: Seq<u8>,
    max_message_size: usize,
) -> Reassembly {
    match state {
        FragmentState::Idle => if opcode == DataCode::Continuation {
            Reassembly::Failed(Error::Protocol(ProtocolError::UnexpectedContinuation))
        } else if payload.len() > max_message_size {
            Reassembly::Failed(Error::Capacity)
        } else if fin {
            Reassembly::Complete(opcode, payload)
        } else {
            Reassembly::Pending
        },
        FragmentState::Accumulating(first, sofar) => if opcode != DataCode::Continuation {
            Reassembly::Failed(Error::Protocol(ProtocolError::InterleavedData))
        } else if sofar.len() + payload.len() > max_message_size {
            Reassembly::Failed(Error::Capacity)
        } else if fin {
            Reassembly::Complete(first, sofar + payload)
        } else {
            Reassembly::Pending
        },
    }
}

impl FragmentBuffer {
    /// A buffer with no message in progress.
    pub fn new() -> (r: FragmentBuffer)
        ensures
            r@ == FragmentState::Idle,
    {
        FragmentBuffer { opcode: None, buffer: Vec::new() }
    }

    /// Whether no message is in progress.
    pub fn is_idle(&self) -> (r: bool)
        ensures
            r == (self@ == FragmentState::Idle),
    {
        self.opcode.is_none()
    }

    /// The number of bytes of the message in progress, 0 if there is none.
    pub fn len(&self) -> (r: usize)
        ensures
            r == match self@ {
                FragmentState::Idle => 0,
                FragmentState::Accumulating(_, sofar) => sofar.len(),
            },
    {
        match self.opcode {
            None => 0,
            Some(_) => self.buffer.len(),
        }
    }

    /// Drops the message in progress, if there is one.
    pub fn reset(&mut self)
        ensures
            final(self)@ == FragmentState::Idle,
    {
        self.opcode = None;
        self.buffer = Vec::new();
    }

    /// Takes one data frame in. `Ok(Some(..))` holds a completed message: the opcode of its
    /// first frame and all its bytes in order. `Ok(None)` says that the message goes on.
    pub fn on_frame(
        &mut self,
        opcode: DataCode,
        fin: bool,
        payload: Vec<u8>,
        max_message_size: usize,
    ) -> (r: Result<Option<(DataCode, Vec<u8>)>, Error>)
        ensures
            final(self)@ == spec_next_state(old(self)@, opcode, fin, payload@, max_message_size),
            match spec_on_frame(old(self)@, opcode, fin, payload@, max_message_size) {
                Reassembly::Pending => r == Ok::<Option<(DataCode, Vec<u8>)>, Error>(None),
                Reassembly::Complete(first, bytes) => r matches Ok(Some(m)) && m.0 == first && m.1@
                    == bytes,
                Reassembly::Failed(e) => r == Err::<Option<(DataCode, Vec<u8>)>, Error>(e),
            },
    {
        let mut payload = payload;
        match self.opcode {
            None => {
                if matches!(opcode, DataCode::Continuation) {
                    self.reset();
                    return Err(Error::Protocol(ProtocolError::UnexpectedContinuation));
                }
                if payload.len() > max_message_size {
                    self.reset();
                    return Err(Error::Capacity);
                }
                if fin {
                    self.reset();
                    return Ok(Some((opcode, payload)));
                }
                self.opcode = Some(opcode);
                self.buffer = payload;
                Ok(None)
            },
            Some(first) => {
                if !matches!(opcode, DataCode::Continuation) {
                    self.reset();
                    return Err(Error::Protocol(ProtocolError::InterleavedData));
                }
                if payload.len() > max_message_size || self.buffer.len() > max_message_size
                    - payload.len() {
                    self.reset();
                    return Err(Error::Capacity);
                }
                self.buffer.append(&mut payload);
                if fin {
                    let mut whole: Vec<u8> = Vec::new();
                    std::mem::swap(&mut self.buffer, &mut whole);
                    self.opcode = None;
                    return Ok(Some((first, whole)));
                }
                Ok(None)
            },
        }
    }
}

/// The chunks of a payload put together in order.
pub open spec fn spec_join(chunks: Seq<Seq<u8>>) -> Seq<u8>
    decreases chunks.len(),
{
    if chunks.len() == 0 {
        Seq::<u8>::empty()
    } else {
        spec_join(chunks.drop_last()) + chunks.last()
    }
}

/// The opcode of the fragment at `index` of a message with opcode `opcode`.
pub open spec fn spec_fragment_opcode(opcode: DataCode, index: int) -> DataCode {
    if index == 0 {
        opcode
    } else {
        DataCode::Continuation
    }
}

/// The state after the first `count` fragments of a message that is sent in `chunks`, reached
/// from the idle state. The final flag is on the last fragment alone.
pub open spec fn spec_after_fragments(
    opcode: DataCode,
    chunks: Seq<Seq<u8>>,
    count: nat,
    max_message_size: usize,
) -> FragmentState
    decreases count,
{
    if count == 0 {
        FragmentState::Idle
    } else {
        spec_next_state(
            spec_after_fragments(opcode, chunks, (count - 1) as nat, max_message_size),
            spec_fragment_opcode(opcode, count - 1),
            count == chunks.len(),
            chunks[count - 1],
            max_message_size,
        )
    }
}

/// What the fragment at `index` leads to, after the fragments before it.
pub open spec fn spec_fragment_outcome(
    opcode: DataCode,
    chunks: Seq<Seq<u8>>,
    index: nat,
    max_message_size: usize,
) -> Reassembly {
    spec_on_frame(
        spec_after_fragments(opcode, chunks, index, max_message_size),
        spec_fragment_opcode(opcode, index as int),
        index + 1 == chunks.len(),
        chunks[index as int],
        max_message_size,
    )
}

/// The first chunks of a payload are no longer than all of them.
pub proof fn lemma_join_prefix_len(chunks: Seq<Seq<u8>>, count: nat)
    requires
        count <= chunks.len(),
    ensures
        spec_join(chunks.take(count as int)).len() <= spec_join(chunks).len(),
    decreases chunks.len(),
{
    if count == chunks.len() {
        assert(chunks.take(count as int) =~= chunks);
    } else {
        lemma_join_prefix_len(chunks.drop_last(), count);
        assert(chunks.drop_last().take(count as int) =~= chunks.take(count as int));
    }
}

/// Before the last fragment of a message has come, the message is in progress and holds the
/// chunks that came, in order; no fragment but the last completes anything.
pub proof fn lemma_fragments_accumulate(
    opcode: DataCode,
    chunks: Seq<Seq<u8>>,
    count: nat,
    max_message_size: usize,
)
    requires
        opcode != DataCode::Continuation,
        1 <= count < chunks.len(),
        spec_join(chunks).len() <= max_message_size,
    ensures
        spec_after_fragments(opcode, chunks, count, max_message_size)
            == FragmentState::Accumulating(opcode, spec_join(chunks.take(count as int))),
        spec_fragment_outcome(opcode, chunks, (count - 1) as nat, max_message_size)
            == Reassembly::Pending,
    decreases count,
{
    let taken = chunks.take(count as int);
    assert(taken.drop_last() =~= chunks.take(count - 1));
    assert(taken.last() == chunks[count - 1]);
    lemma_join_prefix_len(chunks, count);
    if count == 1 {
        assert(spec_join(chunks.take(0)) =~= Seq::<u8>::empty());
        assert(spec_join(taken) =~= chunks[0]);
        assert(spec_after_fragments(opcode, chunks, 0, max_message_size) == FragmentState::Idle);
    } else {
        lemma_fragments_accumulate(opcode, chunks, (count - 1) as nat, max_message_size);
    }
}

/// A message that is sent in any number of fragments is reassembled to what it is when sent
/// in one frame: the last fragment completes a message with the opcode of the first and with
/// all the chunks in order, and leaves the buffer idle.
pub proof fn lemma_fragments_reassemble(
    opcode: DataCode,
    chunks: Seq<Seq<u8>>,
    max_message_size: usize,
)
    requires
        opcode != DataCode::Continuation,
        chunks.len() >= 1,
        spec_join(chunks).len() <= max_message_size,
    ensures
        spec_fragment_outcome(opcode, chunks, (chunks.len() - 1) as nat, max_message_size)
            == Reassembly::Complete(opcode, spec_join(chunks)),
        spec_fragment_outcome(opcode, chunks, (chunks.len() - 1) as nat, max_message_size)
            == spec_on_frame(FragmentState::Idle, opcode, true, spec_join(chunks), max_message_size),
        spec_after_fragments(opcode, chunks, chunks.len(), max_message_size)
            == FragmentState::Idle,
        forall|i: nat|
            i + 1 < chunks.len() ==> #[trigger] spec_fragment_outcome(
                opcode,
                chunks,
                i,
                max_message_size,
            ) == Reassembly::Pending,
{
    let n = chunks.len();
    assert(chunks.drop_last() =~= chunks.take(n - 1));
    if n == 1 {
        assert(spec_join(chunks.take(0)) =~= Seq::<u8>::empty());
        assert(spec_join(chunks) =~= chunks[0]);
        assert(spec_after_fragments(opcode, chunks, 0, max_message_size) == FragmentState::Idle);
    } else {
        lemma_fragments_accumulate(opcode, chunks, (n - 1) as nat, max_message_size);
    }
    assert forall|i: nat| i + 1 < chunks.len() implies #[trigger] spec_fragment_outcome(
        opcode,
        chunks,
        i,
        max_message_size,
    ) == Reassembly::Pending by {
        lemma_fragments_accumulate(opcode, chunks, i + 1, max_message_size);
    }
}

} // verus!
