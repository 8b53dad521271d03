use tvix_wire::bytes_writer::{
    ensure_nonzero_bytes_written, BytesWriter, BytesWriterState, FlushAction, WriteAction,
    WriteError,
};
use tvix_wire::wire::{padding_len, read_bytes, write_bytes};

/// A sink that records what it accepts. It takes at most `max_chunk` bytes per
/// call, and fails every call once it holds `fail_at` bytes.
struct MockSink {
    data: Vec<u8>,
    max_chunk: usize,
    fail_at: Option<usize>,
    flushes: usize,
    shut_down: bool,
}

#[derive(Debug, PartialEq)]
enum Fail {
    Writer(WriteError),
    Sink,
}

impl MockSink {
    fn new() -> MockSink {
        MockSink { data: Vec::new(), max_chunk: usize::MAX, fail_at: None, flushes: 0, shut_down: false }
    }

    fn failing_at(n: usize) -> MockSink {
        MockSink { fail_at: Some(n), ..MockSink::new() }
    }

    fn chunked(max_chunk: usize) -> MockSink {
        MockSink { max_chunk, ..MockSink::new() }
    }

    fn accept(&mut self, buf: &[u8]) -> Result<usize, Fail> {
        let mut n = buf.len().min(self.max_chunk);
        if let Some(limit) = self.fail_at {
            if self.data.len() >= limit {
                return Err(Fail::Sink);
            }
            n = n.min(limit - self.data.len());
        }
        self.data.extend_from_slice(&buf[..n]);
        Ok(n)
    }
}

fn write(w: &mut BytesWriter<MockSink>, buf: &[u8]) -> Result<usize, Fail> {
    loop {
        match w.write_action(buf) {
            WriteAction::SendFraming(bytes) => {
                let n = w.get_mut().accept(&bytes)?;
                w.framing_accepted(n).map_err(Fail::Writer)?;
            }
            WriteAction::SendPayload => {
                let n = w.get_mut().accept(buf)?;
                return w.payload_accepted(buf, n).map_err(Fail::Writer);
            }
            WriteAction::Done => return Ok(0),
            WriteAction::Fail(e) => return Err(Fail::Writer(e)),
        }
    }
}

fn write_all(w: &mut BytesWriter<MockSink>, buf: &[u8]) -> Result<(), Fail> {
    let mut rest = buf;
    while !rest.is_empty() {
        let n = write(w, rest)?;
        rest = &rest[n..];
    }
    Ok(())
}

fn flush(w: &mut BytesWriter<MockSink>) -> Result<(), Fail> {
    loop {
        match w.flush_action() {
            FlushAction::SendFraming(bytes) => {
                let n = w.get_mut().accept(&bytes)?;
                w.framing_accepted(n).map_err(Fail::Writer)?;
            }
            FlushAction::FlushSink => {
                w.get_mut().flushes += 1;
                return Ok(());
            }
        }
    }
}

fn shutdown(w: &mut BytesWriter<MockSink>) -> Result<(), Fail> {
    flush(w)?;
    w.get_mut().shut_down = true;
    w.shutdown_result().map_err(Fail::Writer)
}

fn produce_exp_bytes(payload: &[u8]) -> Vec<u8> {
    let mut exp = vec![];
    write_bytes(&mut exp, payload);
    exp
}

fn large_payload() -> Vec<u8> {
    (0..255).collect::<Vec<u8>>().repeat(4 * 1024)
}

#[test]
fn write_empty() {
    let payload: &[u8] = &[];
    let mut w = BytesWriter::new(MockSink::new(), 0);
    assert_eq!(write_all(&mut w, payload), Ok(()), "write all data");
    assert_eq!(flush(&mut w), Ok(()), "flush");
    assert_eq!(w.get_ref().data, produce_exp_bytes(payload));
    assert_eq!(w.get_ref().data, vec![0u8; 8]);
}

#[test]
fn write_empty_only_flush() {
    let payload: &[u8] = &[];
    let mut w = BytesWriter::new(MockSink::new(), 0);
    assert_eq!(flush(&mut w), Ok(()), "flush");
    assert_eq!(w.get_ref().data, produce_exp_bytes(payload));
}

#[test]
fn write_empty_only_shutdown() {
    let payload: &[u8] = &[];
    let mut w = BytesWriter::new(MockSink::new(), 0);
    assert_eq!(shutdown(&mut w), Ok(()), "shutdown");
    assert_eq!(w.get_ref().data, produce_exp_bytes(payload));
    assert!(w.get_ref().shut_down);
}

#[test]
fn write_1b() {
    let payload: &[u8] = &[0xff];
    let mut w = BytesWriter::new(MockSink::new(), payload.len() as u64);
    assert_eq!(write_all(&mut w, payload), Ok(()));
    assert_eq!(flush(&mut w), Ok(()), "flush");
    assert_eq!(
        w.get_ref().data,
        vec![1, 0, 0, 0, 0, 0, 0, 0, 0xff, 0, 0, 0, 0, 0, 0, 0]
    );
    assert_eq!(w.get_ref().data, produce_exp_bytes(payload));
}

#[test]
fn write_8b() {
    let payload: &[u8] = &[0x00, 0x01, 0x02, 0x03, 0x04, 0x05, 0x06, 0x07];
    let mut w = BytesWriter::new(MockSink::new(), payload.len() as u64);
    assert_eq!(write_all(&mut w, payload), Ok(()));
    assert_eq!(flush(&mut w), Ok(()), "flush");
    let mut exp = vec![8u8, 0, 0, 0, 0, 0, 0, 0];
    exp.extend_from_slice(payload);
    assert_eq!(w.get_ref().data, exp);
    assert_eq!(w.get_ref().data, produce_exp_bytes(payload));
}

#[test]
fn write_9b() {
    let payload: &[u8] = &[0x00, 0x01, 0x02, 0x03, 0x04, 0x05, 0x06, 0x07, 0x08];
    let mut w = BytesWriter::new(MockSink::new(), payload.len() as u64);
    assert_eq!(write_all(&mut w, payload), Ok(()));
    assert_eq!(flush(&mut w), Ok(()), "flush");
    let mut exp = vec![9u8, 0, 0, 0, 0, 0, 0, 0];
    exp.extend_from_slice(payload);
    exp.extend_from_slice(&[0; 7]);
    assert_eq!(w.get_ref().data, exp);
    assert_eq!(w.get_ref().data, produce_exp_bytes(payload));
}

#[test]
fn write_9b_flush() {
    let payload: &[u8] = &[0x00, 0x01, 0x02, 0x03, 0x04, 0x05, 0x06, 0x07, 0x08];
    let exp_bytes = produce_exp_bytes(payload);
    let mut w = BytesWriter::new(MockSink::new(), payload.len() as u64);
    assert_eq!(flush(&mut w), Ok(()));

    assert_eq!(write_all(&mut w, &payload[..4]), Ok(()));
    assert_eq!(flush(&mut w), Ok(()));

    // empty write, cause why not
    assert_eq!(write_all(&mut w, &[]), Ok(()));
    assert_eq!(flush(&mut w), Ok(()));

    assert_eq!(write_all(&mut w, &payload[4..]), Ok(()));
    assert_eq!(flush(&mut w), Ok(()));
    assert_eq!(shutdown(&mut w), Ok(()));
    assert_eq!(w.get_ref().data, exp_bytes);
}

#[test]
fn write_1m() {
    let payload = large_payload();
    let exp_bytes = produce_exp_bytes(&payload);
    let mut w = BytesWriter::new(MockSink::new(), payload.len() as u64);
    assert_eq!(write_all(&mut w, &payload), Ok(()));
    assert_eq!(flush(&mut w), Ok(()), "flush");
    assert_eq!(w.get_ref().data, exp_bytes);
}

#[test]
fn write_shutdown_without_flush_end() {
    let payload: &[u8] = &[0xf0, 0xff];
    let exp_bytes = produce_exp_bytes(payload);
    let mut w = BytesWriter::new(MockSink::new(), payload.len() as u64);
    // call flush to write the size field
    assert_eq!(flush(&mut w), Ok(()));
    // write payload
    assert_eq!(write_all(&mut w, payload), Ok(()));
    // call shutdown
    assert_eq!(shutdown(&mut w), Ok(()));
    assert_eq!(w.get_ref().data, exp_bytes);
}

#[test]
fn write_more_than_signalled_fail() {
    let mut w = BytesWriter::new(MockSink::new(), 2);
    assert_eq!(
        write_all(&mut w, &[0x00, 0x01, 0x02]),
        Err(Fail::Writer(WriteError::ExcessPayload))
    );
    // the excess is refused before anything reaches the sink
    assert!(w.get_ref().data.is_empty());
}

#[test]
fn write_more_than_signalled_split_fail() {
    let mut w = BytesWriter::new(MockSink::new(), 2);
    // write two bytes
    assert_eq!(write_all(&mut w, &[0x00, 0x01]), Ok(()));
    // write the excess byte.
    assert_eq!(write_all(&mut w, &[0x02]), Err(Fail::Writer(WriteError::ExcessPayload)));
    assert_eq!(w.get_ref().data, vec![2, 0, 0, 0, 0, 0, 0, 0, 0x00, 0x01]);
}

#[test]
fn write_more_than_signalled_flush_fail() {
    let mut w = BytesWriter::new(MockSink::new(), 2);
    // write two bytes, then flush
    assert_eq!(write_all(&mut w, &[0x00, 0x01]), Ok(()));
    assert_eq!(flush(&mut w), Ok(()));
    // write the excess byte.
    assert_eq!(write_all(&mut w, &[0x02]), Err(Fail::Writer(WriteError::ExcessPayload)));
    assert_eq!(w.get_ref().data, produce_exp_bytes(&[0x00, 0x01]));
}

#[test]
fn premature_shutdown() {
    let payload: &[u8] = &[0xf0, 0xff];
    let mut w = BytesWriter::new(MockSink::new(), payload.len() as u64);
    // call flush to write the size field
    assert_eq!(flush(&mut w), Ok(()));
    // write half of the payload (!)
    assert_eq!(write_all(&mut w, &payload[0..1]), Ok(()));
    // call shutdown, ensure it fails
    assert_eq!(shutdown(&mut w), Err(Fail::Writer(WriteError::UncleanShutdown)));
    // the sink saw the size field and the one byte, and was still shut down
    assert_eq!(w.get_ref().data, vec![2, 0, 0, 0, 0, 0, 0, 0, 0xf0]);
    assert!(w.get_ref().shut_down);
}

#[test]
fn inner_writer_fail_during_size_firstwrite() {
    let payload: &[u8] = &[0xf0];
    let mut w = BytesWriter::new(MockSink::failing_at(4), payload.len() as u64);
    assert_eq!(write_all(&mut w, payload), Err(Fail::Sink));
    assert_eq!(w.get_ref().data, 1u32.to_le_bytes().to_vec());
}

#[test]
fn inner_writer_fail_during_size_initial_flush() {
    let payload: &[u8] = &[0xf0];
    let mut w = BytesWriter::new(MockSink::failing_at(4), payload.len() as u64);
    assert_eq!(flush(&mut w), Err(Fail::Sink));
    assert_eq!(w.state(), BytesWriterState::Size(4));
}

#[test]
fn inner_writer_fail_during_write() {
    let payload: &[u8] = &[0xf0, 0xff];
    let mut w = BytesWriter::new(MockSink::failing_at(9), payload.len() as u64);
    assert_eq!(write(&mut w, &[0xf0]), Ok(1));
    assert_eq!(write(&mut w, &[0xff]), Err(Fail::Sink));
}

#[test]
fn inner_writer_fail_during_padding_flush() {
    let payload: &[u8] = &[0xf0];
    let mut w = BytesWriter::new(MockSink::failing_at(10), payload.len() as u64);
    assert_eq!(write(&mut w, &[0xf0]), Ok(1));
    assert_eq!(flush(&mut w), Err(Fail::Sink));
    assert_eq!(w.state(), BytesWriterState::Padding(1));
}

#[test]
fn byte_at_a_time_sink_gets_the_exact_frame() {
    let payload: Vec<u8> = (0u8..21).collect();
    let mut w = BytesWriter::new(MockSink::chunked(1), payload.len() as u64);
    assert_eq!(write_all(&mut w, &payload), Ok(()));
    assert_eq!(shutdown(&mut w), Ok(()));
    let sink = w.into_inner();
    assert_eq!(sink.data, produce_exp_bytes(&payload));
    assert_eq!(sink.data.len() % 8, 0);
}

#[test]
fn phases_only_move_forward() {
    let mut w = BytesWriter::new(MockSink::chunked(3), 4);
    assert_eq!(w.state(), BytesWriterState::Size(0));
    assert_eq!(flush(&mut w), Ok(()));
    assert_eq!(w.state(), BytesWriterState::Payload(0));
    assert_eq!(write(&mut w, &[1, 2]), Ok(2));
    assert_eq!(w.state(), BytesWriterState::Payload(2));
    assert_eq!(write(&mut w, &[3, 4]), Ok(2));
    assert_eq!(w.state(), BytesWriterState::Padding(0));
    assert_eq!(flush(&mut w), Ok(()));
    assert_eq!(w.state(), BytesWriterState::Padding(4));
    assert!(w.frame_complete());
}

#[test]
fn empty_write_only_advances_size_field() {
    let mut w = BytesWriter::new(MockSink::new(), 3);
    assert_eq!(write(&mut w, &[]), Ok(0));
    assert_eq!(w.state(), BytesWriterState::Payload(0));
    assert_eq!(w.get_ref().data, vec![3, 0, 0, 0, 0, 0, 0, 0]);
}

#[test]
fn second_flush_adds_nothing() {
    let mut w = BytesWriter::new(MockSink::new(), 5);
    assert_eq!(write_all(&mut w, &[9, 9, 9, 9, 9]), Ok(()));
    assert_eq!(flush(&mut w), Ok(()));
    let after_first = w.get_ref().data.clone();
    assert_eq!(flush(&mut w), Ok(()));
    assert_eq!(w.get_ref().data, after_first);
    assert_eq!(w.get_ref().flushes, 2);
}

#[test]
fn write_after_complete_frame_fails() {
    let mut w = BytesWriter::new(MockSink::new(), 8);
    assert_eq!(write_all(&mut w, &[0; 8]), Ok(()));
    assert!(w.frame_complete());
    assert_eq!(write(&mut w, &[1]), Err(Fail::Writer(WriteError::ExcessPayload)));
    assert_eq!(write(&mut w, &[]), Ok(0));
}

#[test]
fn sink_accepting_nothing_is_an_error() {
    let mut w = BytesWriter::new(MockSink::chunked(0), 1);
    assert_eq!(write(&mut w, &[1]), Err(Fail::Writer(WriteError::SinkZero)));
    assert_eq!(w.state(), BytesWriterState::Size(0));
    assert_eq!(ensure_nonzero_bytes_written(0), Err(WriteError::SinkZero));
    assert_eq!(ensure_nonzero_bytes_written(5), Ok(5));
}

#[test]
fn framed_output_reads_back() {
    for len in [0usize, 1, 7, 8, 9, 15, 16, 17] {
        let payload: Vec<u8> = (0..len).map(|i| i as u8 + 1).collect();
        let mut w = BytesWriter::new(MockSink::chunked(5), len as u64);
        assert_eq!(write_all(&mut w, &payload), Ok(()));
        assert_eq!(shutdown(&mut w), Ok(()));
        let wire = w.into_inner().data;
        assert_eq!(wire.len(), 8 + len + padding_len(len as u64) as usize);
        assert_eq!(read_bytes(&wire), Ok((payload, wire.len())));
    }
}

#[test]
fn payload_len_is_kept() {
    let w = BytesWriter::new(MockSink::new(), 42);
    assert_eq!(w.payload_len(), 42);
    assert!(!w.frame_complete());
    assert_eq!(w.shutdown_result(), Err(WriteError::UncleanShutdown));
}
