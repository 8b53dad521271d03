//! The wire format of one bytes packet: an 8-byte little-endian length, the
//! payload, then zero bytes up to the next multiple of 8.

use vstd::bytes::{
    lemma_auto_spec_u64_to_from_le_bytes, spec_u64_from_le_bytes, spec_u64_to_le_bytes,
    u64_from_le_bytes,
};
use crate::bytes_writer::{lemma_complete_is_exact, BytesWriter, FlushAction, WriteAction};
use vstd::prelude::*;
use vstd::slice::{slice_subrange, slice_to_vec};

verus! {

/// The length of the size field, in bytes.
pub const LEN_SIZE: usize = 8;

/// Number of zero bytes that round a payload of `len` bytes up to a multiple of 8.
pub open spec fn padding_of(len: nat) -> nat {
    ((8 - len % 8) % 8) as nat
}

/// `n` zero bytes.
pub open spec fn zeros(n: nat) -> Seq<u8> {
    Seq::new(n, |_i: int| 0u8)
}

/// The size field of a packet whose payload has `len` bytes.
pub open spec fn size_field_of(len: u64) -> Seq<u8> {
    spec_u64_to_le_bytes(len)
}

/// The whole packet that carries `payload`.
#[verifier::opaque]
pub open spec fn frame_of(payload: Seq<u8>) -> Seq<u8> {
    size_field_of(payload.len() as u64) + payload + zeros(padding_of(payload.len()))
}

/// What a reader makes of `wire`: the payload of the packet at its start and the
/// packet's length, or `None` where no well-formed packet starts there.
pub open spec fn parse_frame(wire: Seq<u8>) -> Option<(Seq<u8>, nat)> {
    if wire.len() < 8 {
        None
    } else {
        let len = spec_u64_from_le_bytes(wire.take(8)) as int;
        let end: int = 8 + len + padding_of(len as nat);
        if wire.len() < end {
            None
        } else if wire.subrange(8 + len, end) != zeros(padding_of(len as nat)) {
            None
        } else {
            Some((wire.subrange(8, 8 + len), end as nat))
        }
    }
}

/// Where the packet at the start of `wire` ends, by its size field.
pub open spec fn announced_end(wire: Seq<u8>) -> int {
    let len = spec_u64_from_le_bytes(wire.take(8)) as int;
    8 + len + padding_of(len as nat)
}

/// Why a packet could not be read.
#[derive(Debug, PartialEq, Eq, Clone, Copy)]
pub enum ReadError {
    /// The input ends before the packet does.
    Truncated,
    /// A padding byte is not zero.
    NonZeroPadding,
}

/// Returns the number of padding bytes that follow a payload of `len` bytes.
pub fn padding_len(len: u64) -> (r: u8)
    ensures
        r as nat == padding_of(len as nat),
        r < 8,
{
    ((8 - len % 8) % 8) as u8
}

/// A size field is 8 bytes long.
pub proof fn lemma_size_field_len(len: u64)
    ensures
        size_field_of(len).len() == 8,
{
    lemma_auto_spec_u64_to_from_le_bytes();
}

/// Every packet is a whole number of 8-byte words.
pub proof fn lemma_frame_aligned(payload: Seq<u8>)
    requires
        payload.len() <= u64::MAX,
    ensures
        frame_of(payload).len() % 8 == 0,
        frame_of(payload).len() == 8 + payload.len() + padding_of(payload.len()),
{
    reveal(frame_of);
    lemma_size_field_len(payload.len() as u64);
}

/// Reading back a packet gives its payload, and the reader stops at the packet's
/// end whatever follows it.
pub proof fn lemma_round_trip(payload: Seq<u8>, rest: Seq<u8>)
    requires
        payload.len() <= u64::MAX,
    ensures
        parse_frame(frame_of(payload) + rest) == Some((payload, frame_of(payload).len())),
{
    reveal(frame_of);
    lemma_auto_spec_u64_to_from_le_bytes();
    lemma_frame_aligned(payload);
    let len = payload.len();
    let n: int = len as int;
    let wire = frame_of(payload) + rest;
    let size = size_field_of(len as u64);
    assert(wire.take(8) =~= size);
    assert(spec_u64_from_le_bytes(size) == len as u64);
    assert(wire.subrange(8, 8 + n) =~= payload);
    assert(wire.subrange(8 + n, 8 + n + padding_of(len)) =~= zeros(padding_of(len)));
}

/// Appends all of `bytes` to `sink`, as a sink that never pushes back does, and
/// returns how many it took.
fn accept_all(sink: &mut Vec<u8>, bytes: &[u8]) -> (n: usize)
    ensures
        final(sink)@ == old(sink)@ + bytes@,
        n == bytes@.len(),
{
    let mut i: usize = 0;
    while i < bytes.len()
        invariant
            i <= bytes@.len(),
            sink@ == old(sink)@ + bytes@.take(i as int),
        decreases bytes@.len() - i,
    {
        sink.push(bytes[i]);
        i = i + 1;
        assert(bytes@.take(i as int) =~= bytes@.take(i - 1) + seq![bytes@[i - 1]]);
    }
    assert(bytes@.take(i as int) =~= bytes@);
    i
}

/// Appends the packet that carries `payload` to `out`, by running a
/// `BytesWriter` over `out` as a sink that takes everything it is handed.
pub fn write_bytes(out: &mut Vec<u8>, payload: &[u8])
    ensures
        final(out)@ == old(out)@ + frame_of(payload@),
{
    let n: usize = payload.len();
    let mut sink: Vec<u8> = Vec::new();
    std::mem::swap(out, &mut sink);
    let ghost base = sink@;
    let mut w = BytesWriter::new(sink, n as u64);
    proof {
        lemma_size_field_len(n as u64);
        assert(base + w.sent() =~= base);
    }
    // The size field.
    if let WriteAction::SendFraming(b) = w.write_action(payload) {
        let k = accept_all(w.get_mut(), b.as_slice());
        let _ = w.framing_accepted(k);
        proof {
            assert(w.sink()@ =~= base + w.sent());
        }
    }
    // The payload, in one piece.
    if let WriteAction::SendPayload = w.write_action(payload) {
        let k = accept_all(w.get_mut(), payload);
        let _ = w.payload_accepted(payload, k);
        proof {
            assert(w.sink()@ =~= base + w.sent());
            assert(payload@.take(k as int) =~= payload@);
        }
    }
    // The padding.
    if let FlushAction::SendFraming(b) = w.flush_action() {
        let k = accept_all(w.get_mut(), b.as_slice());
        let _ = w.framing_accepted(k);
        proof {
            assert(w.sink()@ =~= base + w.sent());
        }
    }
    proof {
        assert(w.is_complete());
        lemma_complete_is_exact(w);
        assert(w.payload() =~= payload@);
    }
    *out = w.into_inner();
}
/// Reads the packet at the start of `wire`: its payload and the number of bytes it
/// spans.
pub fn read_bytes(wire: &[u8]) -> (r: Result<(Vec<u8>, usize), ReadError>)
    ensures
        r is Err <==> parse_frame(wire@) is None,
        r matches Ok((payload, used)) ==> parse_frame(wire@) == Some((payload@, used as nat)),
        r == Err::<(Vec<u8>, usize), ReadError>(ReadError::Truncated) <==> wire@.len() < 8
            || wire@.len() < announced_end(wire@),
{
    if wire.len() < 8 {
        return Err(ReadError::Truncated);
    }
    let size = slice_subrange(wire, 0, 8);
    assert(size@ =~= wire@.take(8));
    let len = u64_from_le_bytes(size);
    let pad = padding_len(len);
    let avail = wire.len() - 8;
    if (avail as u64) < len || ((avail as u64) - len) < pad as u64 {
        return Err(ReadError::Truncated);
    }
    let start = 8 + len as usize;
    let end = start + pad as usize;
    let mut k: usize = start;
    while k < end
        invariant
            8 <= start <= k <= end <= wire@.len(),
            len == spec_u64_from_le_bytes(wire@.take(8)),
            pad as nat == padding_of(len as nat),
            start == 8 + len,
            end == start + pad,
            forall|i: int| start <= i < k ==> wire@[i] == 0,
        decreases end - k,
    {
        if wire[k] != 0 {
            assert(wire@.subrange(start as int, end as int)[k - start] != zeros(pad as nat)[k
                - start]);
            return Err(ReadError::NonZeroPadding);
        }
        k = k + 1;
    }
    assert(wire@.subrange(start as int, end as int) =~= zeros(pad as nat));
    let payload = slice_to_vec(slice_subrange(wire, 8, start));
    Ok((payload, end))
}

} // verus!
