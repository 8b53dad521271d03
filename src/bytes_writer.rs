//! A writer that streams one bytes packet into a sink whose payload length is
//! known up front.
//!
//! The writer is the decision half of a poll loop: it says what the sink must be
//! handed next, and it is told how many of those bytes the sink took. Whoever owns
//! the sink performs the I/O between the two, and may suspend there: the writer's
//! state only ever reflects bytes that the sink has already accepted.

use crate::wire::{
    frame_of, lemma_frame_aligned, lemma_round_trip, lemma_size_field_len, padding_len, padding_of,
    parse_frame, size_field_of, zeros, LEN_SIZE,
};
use vstd::bytes::u64_to_le_bytes;
use vstd::prelude::*;

verus! {

/// Where the writer stands in the packet. The number counts the bytes of the
/// current part that the sink has accepted. At the end of a part the writer moves
/// on at once: `Size(8)` is expressed as `Payload(0)` and `Payload(len)` as
/// `Padding(0)`. `Padding(padding_len)` means the whole packet is out.
#[derive(Debug, PartialEq, Eq, Clone, Copy)]
pub enum BytesWriterState {
    Size(usize),
    Payload(u64),
    Padding(usize),
}

/// Why an operation of the writer failed.
#[derive(Debug, PartialEq, Eq, Clone, Copy)]
pub enum WriteError {
    /// More payload was offered than the packet announced.
    ExcessPayload,
    /// The sink accepted no byte of what it was handed.
    SinkZero,
    /// Shutdown came before the packet was complete.
    UncleanShutdown,
}

/// What a write call must do next.
pub enum WriteAction {
    /// Hand these framing bytes to the sink, then report with `framing_accepted`.
    SendFraming(Vec<u8>),
    /// Hand the caller's buffer to the sink, then report with `payload_accepted`.
    SendPayload,
    /// The buffer is empty and the call is over: it accepted no byte.
    Done,
    /// The call fails with this error; the sink is not touched.
    Fail(WriteError),
}

/// What a flush must do next.
pub enum FlushAction {
    /// Hand these framing bytes to the sink, then report with `framing_accepted`.
    SendFraming(Vec<u8>),
    /// Nothing is left to hand over: flush the sink itself.
    FlushSink,
}

/// Turns the count a sink reports into an error where it accepted nothing.
pub fn ensure_nonzero_bytes_written(bytes_written: usize) -> (r: Result<usize, WriteError>)
    ensures
        bytes_written == 0 ==> r == Err::<usize, WriteError>(WriteError::SinkZero),
        bytes_written > 0 ==> r == Ok::<usize, WriteError>(bytes_written),
{
    if bytes_written == 0 {
        Err(WriteError::SinkZero)
    } else {
        Ok(bytes_written)
    }
}

/// Writes a bytes packet to the sink it owns: the size field, the payload that the
/// caller supplies in one or more writes, then the padding.
pub struct BytesWriter<W> {
    inner: W,
    payload_len: u64,
    state: BytesWriterState,
    /// Every byte the sink has accepted, in order.
    sent: Ghost<Seq<u8>>,
    /// The payload bytes the sink has accepted.
    payload: Ghost<Seq<u8>>,
}

impl<W> BytesWriter<W> {
    /// The payload length announced at construction.
    pub closed spec fn expected_len(&self) -> u64 {
        self.payload_len
    }

    pub closed spec fn phase(&self) -> BytesWriterState {
        self.state
    }

    /// The bytes the sink has accepted so far.
    pub closed spec fn sent(&self) -> Seq<u8> {
        self.sent@
    }

    /// The payload bytes the sink has accepted so far.
    pub closed spec fn payload(&self) -> Seq<u8> {
        self.payload@
    }

    pub closed spec fn sink(&self) -> W {
        self.inner
    }

    pub open spec fn padding(&self) -> nat {
        padding_of(self.expected_len() as nat)
    }

    /// The state agrees with what the sink has seen: a prefix of the packet.
    pub open spec fn wf(&self) -> bool {
        let len = self.expected_len();
        let size = size_field_of(len);
        match self.phase() {
            BytesWriterState::Size(p) => p < 8 && self.payload() == Seq::<u8>::empty()
                && self.sent() == size.take(p as int),
            BytesWriterState::Payload(p) => p < len && p == self.payload().len() && self.sent()
                == size + self.payload(),
            BytesWriterState::Padding(p) => p <= self.padding() && self.payload().len() == len
                && self.sent() == size + self.payload() + zeros(p as nat),
        }
    }

    /// The framing bytes that are due and need no more payload: the rest of the
    /// size field, or the rest of the padding.
    pub open spec fn pending_framing(&self) -> Seq<u8> {
        match self.phase() {
            BytesWriterState::Size(p) => size_field_of(self.expected_len()).subrange(p as int, 8),
            BytesWriterState::Payload(_) => Seq::<u8>::empty(),
            BytesWriterState::Padding(p) => zeros((self.padding() - p) as nat),
        }
    }

    /// What the sink has seen once a flush has run to its end.
    pub open spec fn flush_target(&self) -> Seq<u8> {
        self.sent() + self.pending_framing()
    }

    /// How many more payload bytes the writer accepts.
    pub open spec fn room(&self) -> int {
        self.expected_len() - self.payload().len()
    }

    pub open spec fn is_complete(&self) -> bool {
        self.phase() matches BytesWriterState::Padding(p) && p == self.padding()
    }

    /// The rank of the current part: size, payload, padding.
    pub open spec fn phase_index(&self) -> int {
        match self.phase() {
            BytesWriterState::Size(_) => 0,
            BytesWriterState::Payload(_) => 1,
            BytesWriterState::Padding(_) => 2,
        }
    }

    /// Constructs a writer of a packet with `payload_len` bytes of payload into `w`.
    /// Nothing is written yet.
    pub fn new(w: W, payload_len: u64) -> (r: Self)
        ensures
            r.wf(),
            r.sink() == w,
            r.expected_len() == payload_len,
            r.phase() == BytesWriterState::Size(0),
            r.sent() == Seq::<u8>::empty(),
            r.payload() == Seq::<u8>::empty(),
    {
        proof {
            lemma_size_field_len(payload_len);
            assert(size_field_of(payload_len).take(0) =~= Seq::<u8>::empty());
        }
        BytesWriter {
            inner: w,
            payload_len,
            state: BytesWriterState::Size(0),
            sent: Ghost(Seq::empty()),
            payload: Ghost(Seq::empty()),
        }
    }

    /// The payload length announced at construction.
    pub fn payload_len(&self) -> (r: u64)
        ensures
            r == self.expected_len(),
    {
        self.payload_len
    }

    pub fn state(&self) -> (r: BytesWriterState)
        ensures
            r == self.phase(),
    {
        self.state
    }

    /// Whether the whole packet has been accepted by the sink.
    pub fn frame_complete(&self) -> (r: bool)
        requires
            self.wf(),
        ensures
            r == self.is_complete(),
    {
        match self.state {
            BytesWriterState::Padding(p) => p == padding_len(self.payload_len) as usize,
            _ => false,
        }
    }

    pub fn get_ref(&self) -> (r: &W)
        ensures
            *r == self.sink(),
    {
        &self.inner
    }

    pub fn get_mut(&mut self) -> (r: &mut W)
        ensures
            *r == old(self).sink(),
            final(self).sink() == *final(r),
            final(self).expected_len() == old(self).expected_len(),
            final(self).phase() == old(self).phase(),
            final(self).sent() == old(self).sent(),
            final(self).payload() == old(self).payload(),
    {
        &mut self.inner
    }

    pub fn into_inner(self) -> (r: W)
        ensures
            r == self.sink(),
    {
        self.inner
    }

    /// The framing bytes that are due, as `pending_framing` gives them.
    fn framing_bytes(&self) -> (r: Vec<u8>)
        requires
            self.wf(),
        ensures
            r@ == self.pending_framing(),
    {
        match self.state {
            BytesWriterState::Size(p) => {
                let size = u64_to_le_bytes(self.payload_len);
                let mut out: Vec<u8> = Vec::new();
                let mut i: usize = p;
                while i < LEN_SIZE
                    invariant
                        p <= i <= 8,
                        size@ == size_field_of(self.payload_len),
                        size@.len() == 8,
                        out@ == size@.subrange(p as int, i as int),
                    decreases 8 - i,
                {
                    out.push(size[i]);
                    i = i + 1;
                    assert(out@ =~= size@.subrange(p as int, i as int));
                }
                out
            },
            BytesWriterState::Payload(_) => Vec::new(),
            BytesWriterState::Padding(p) => {
                let pad = padding_len(self.payload_len) as usize;
                let mut out: Vec<u8> = Vec::new();
                let mut i: usize = p;
                while i < pad
                    invariant
                        p <= i <= pad,
                        out@ == zeros((i - p) as nat),
                    decreases pad - i,
                {
                    out.push(0u8);
                    i = i + 1;
                    assert(out@ =~= zeros((i - p) as nat));
                }
                out
            },
        }
    }

    /// How many more payload bytes the writer accepts, as `room` gives it.
    fn room_exec(&self) -> (r: u64)
        requires
            self.wf(),
        ensures
            r == self.room(),
    {
        match self.state {
            BytesWriterState::Size(_) => self.payload_len,
            BytesWriterState::Payload(p) => self.payload_len - p,
            BytesWriterState::Padding(_) => 0,
        }
    }

    /// Decides the next step of a write of `buf`. A buffer that does not fit in what
    /// is left of the payload is refused before anything reaches the sink; otherwise
    /// the size field goes out first, then the buffer.
    pub fn write_action(&self, buf: &[u8]) -> (r: WriteAction)
        requires
            self.wf(),
        ensures
            buf@.len() > self.room() ==> r == WriteAction::Fail(WriteError::ExcessPayload),
            buf@.len() <= self.room() && self.phase() is Size ==> (r matches WriteAction::SendFraming(b)
                && b@ == self.pending_framing()),
            buf@.len() <= self.room() && !(self.phase() is Size) && buf@.len() == 0 ==> r is Done,
            buf@.len() <= self.room() && !(self.phase() is Size) && buf@.len() > 0 ==> r is SendPayload
                && self.phase() is Payload,
    {
        let room = self.room_exec();
        if buf.len() as u64 > room {
            return WriteAction::Fail(WriteError::ExcessPayload);
        }
        match self.state {
            BytesWriterState::Size(_) => WriteAction::SendFraming(self.framing_bytes()),
            _ => {
                if buf.len() == 0 {
                    WriteAction::Done
                } else {
                    WriteAction::SendPayload
                }
            },
        }
    }

    /// Decides the next step of a flush: hand over the framing that is due, or, once
    /// none is, flush the sink.
    pub fn flush_action(&self) -> (r: FlushAction)
        requires
            self.wf(),
        ensures
            r is FlushSink <==> self.pending_framing().len() == 0,
            r matches FlushAction::SendFraming(b) ==> b@ == self.pending_framing(),
    {
        let bytes = self.framing_bytes();
        if bytes.len() == 0 {
            FlushAction::FlushSink
        } else {
            FlushAction::SendFraming(bytes)
        }
    }

    /// Records that the sink accepted the first `n` bytes of the framing it was
    /// handed.
    pub fn framing_accepted(&mut self, n: usize) -> (r: Result<(), WriteError>)
        requires
            old(self).wf(),
            old(self).pending_framing().len() > 0,
            n <= old(self).pending_framing().len(),
        ensures
            n == 0 ==> r == Err::<(), WriteError>(WriteError::SinkZero) && *final(self) == *old(self),
            n > 0 ==> {
                &&& r is Ok
                &&& final(self).wf()
                &&& final(self).sent() == old(self).sent() + old(self).pending_framing().take(n as int)
                &&& final(self).pending_framing() == old(self).pending_framing().skip(n as int)
                &&& final(self).payload() == old(self).payload()
                &&& final(self).expected_len() == old(self).expected_len()
                &&& final(self).sink() == old(self).sink()
                &&& old(self).phase_index() <= final(self).phase_index()
            },
    {
        let n = match ensure_nonzero_bytes_written(n) {
            Ok(n) => n,
            Err(e) => return Err(e),
        };
        let ghost pending = self.pending_framing();
        proof {
            lemma_size_field_len(self.payload_len);
        }
        match self.state {
            BytesWriterState::Size(p) => {
                let new_pos = p + n;
                if new_pos == LEN_SIZE {
                    if self.payload_len == 0 {
                        self.state = BytesWriterState::Padding(0);
                    } else {
                        self.state = BytesWriterState::Payload(0);
                    }
                } else {
                    self.state = BytesWriterState::Size(new_pos);
                }
                self.sent = Ghost(self.sent@ + pending.take(n as int));
                let ghost size = size_field_of(self.payload_len);
                assert(self.sent@ =~= size.take(new_pos as int));
                assert(new_pos == 8 ==> size.take(8) =~= size);
                assert(new_pos == 8 ==> self.sent@ =~= size + self.payload@);
                assert(new_pos == 8 ==> self.sent@ =~= size + self.payload@ + zeros(0));
                assert(self.pending_framing() =~= pending.skip(n as int));
            },
            BytesWriterState::Payload(_) => {},
            BytesWriterState::Padding(p) => {
                self.state = BytesWriterState::Padding(p + n);
                self.sent = Ghost(self.sent@ + pending.take(n as int));
                assert(pending.take(n as int) =~= zeros(n as nat));
                assert(self.sent@ =~= size_field_of(self.payload_len) + self.payload@ + zeros(
                    (p + n) as nat,
                ));
                assert(self.pending_framing() =~= pending.skip(n as int));
            },
        }
        Ok(())
    }

    /// Records that the sink accepted the first `n` bytes of the payload buffer
    /// `buf` it was handed, and returns that count.
    pub fn payload_accepted(&mut self, buf: &[u8], n: usize) -> (r: Result<usize, WriteError>)
        requires
            old(self).wf(),
            old(self).phase() is Payload,
            0 < buf@.len() <= old(self).room(),
            n <= buf@.len(),
        ensures
            n == 0 ==> r == Err::<usize, WriteError>(WriteError::SinkZero) && *final(self) == *old(self),
            n > 0 ==> {
                &&& r == Ok::<usize, WriteError>(n)
                &&& final(self).wf()
                &&& final(self).sent() == old(self).sent() + buf@.take(n as int)
                &&& final(self).payload() == old(self).payload() + buf@.take(n as int)
                &&& final(self).expected_len() == old(self).expected_len()
                &&& final(self).sink() == old(self).sink()
                &&& old(self).phase_index() <= final(self).phase_index()
            },
    {
        let n = match ensure_nonzero_bytes_written(n) {
            Ok(n) => n,
            Err(e) => return Err(e),
        };
        if let BytesWriterState::Payload(p) = self.state {
            let new_pos = p + n as u64;
            if new_pos == self.payload_len {
                self.state = BytesWriterState::Padding(0);
            } else {
                self.state = BytesWriterState::Payload(new_pos);
            }
            self.sent = Ghost(self.sent@ + buf@.take(n as int));
            self.payload = Ghost(self.payload@ + buf@.take(n as int));
            assert(self.sent@ =~= size_field_of(self.payload_len) + self.payload@);
            assert(self.sent@ =~= size_field_of(self.payload_len) + self.payload@ + zeros(0));
        }
        Ok(n)
    }

    /// The outcome of a shutdown once the flush before it has ended and the sink has
    /// been shut down without error: success only for a complete packet.
    pub fn shutdown_result(&self) -> (r: Result<(), WriteError>)
        requires
            self.wf(),
        ensures
            r is Ok <==> self.is_complete(),
            r is Err ==> r == Err::<(), WriteError>(WriteError::UncleanShutdown),
    {
        if self.frame_complete() {
            Ok(())
        } else {
            Err(WriteError::UncleanShutdown)
        }
    }
}

/// A complete writer has handed the sink exactly the packet of its payload: the
/// size field, the payload, then the padding.
pub proof fn lemma_complete_is_exact<W>(w: BytesWriter<W>)
    requires
        w.wf(),
        w.is_complete(),
    ensures
        w.payload().len() == w.expected_len(),
        w.sent() == frame_of(w.payload()),
        w.sent().len() % 8 == 0,
        parse_frame(w.sent()) == Some((w.payload(), w.sent().len())),
{
    reveal(frame_of);
    lemma_frame_aligned(w.payload());
    lemma_round_trip(w.payload(), Seq::<u8>::empty());
    assert(frame_of(w.payload()) + Seq::<u8>::empty() =~= frame_of(w.payload()));
}

/// A flush that has run to its end leaves nothing for a second flush to hand
/// over, and the second one leaves the sink's view unchanged.
pub proof fn lemma_flush_idempotent<W>(w: BytesWriter<W>, after: BytesWriter<W>)
    requires
        w.wf(),
        after.wf(),
        after.expected_len() == w.expected_len(),
        after.payload() == w.payload(),
        after.sent() == w.flush_target(),
    ensures
        after.pending_framing().len() == 0,
        after.flush_target() == w.flush_target(),
{
    lemma_size_field_len(w.expected_len());
    assert(after.sent().len() == w.sent().len() + w.pending_framing().len());
    assert(after.pending_framing().len() == 0);
    assert(after.flush_target() =~= after.sent());
}

/// Once a flush has run to its end, the packet is complete exactly when the whole
/// announced payload has been written: so a shutdown, which flushes first,
/// succeeds exactly then.
pub proof fn lemma_clean_shutdown<W>(w: BytesWriter<W>)
    requires
        w.wf(),
        w.pending_framing().len() == 0,
    ensures
        w.is_complete() <==> w.payload().len() == w.expected_len(),
{
    lemma_size_field_len(w.expected_len());
}

} // verus!
