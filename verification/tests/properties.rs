use buffered_io::BufferedRead;
use buffered_io::BufferedWrite;
use buffered_io::BypassError;
use buffered_io::Duplex;
use buffered_io::MemError;
use buffered_io::Read;
use buffered_io::ScriptedSink;
use buffered_io::VecSink;
use buffered_io::VecSource;

/// Loop until the writer has accepted the whole chunk, as the partial-write
/// contract asks of callers.
fn write_fully(w: &mut BufferedWrite<VecSink>, chunk: &[u8]) {
    let mut rest = chunk;
    while !rest.is_empty() {
        let n = w.write(rest).unwrap();
        rest = &rest[n..];
    }
}

#[test]
fn writer_round_trip_chunks() {
    // however the byte stream is chunked, a flush delivers the exact
    // concatenation to the sink
    let mut w = BufferedWrite::new(VecSink::new(), vec![0; 4]);
    write_fully(&mut w, &[1]);
    write_fully(&mut w, &[2, 3]);
    write_fully(&mut w, &[4, 5, 6, 7]);
    write_fully(&mut w, &[8, 9]);
    w.flush().unwrap();
    assert_eq!(&[1, 2, 3, 4, 5, 6, 7, 8, 9], w.inner_ref().received_bytes().as_slice());
    assert_eq!(0, w.written());
}

#[test]
fn reader_drains_buffer_before_touching_stream() {
    // capacity 8, stream holds 1..=8 then 9, 10: a 2-byte read buffers the
    // first eight bytes; a following 8-byte read drains only the six
    // buffered bytes and leaves the stream untouched
    let inner = VecSource::new(vec![1, 2, 3, 4, 5, 6, 7, 8, 9, 10]);
    let mut r = BufferedRead::new(inner, vec![0; 8]);

    let mut dst = vec![0; 2];
    assert_eq!(2, r.read(&mut dst).unwrap());
    assert_eq!(&[1, 2], dst.as_slice());
    assert_eq!(2, r.offset());
    assert_eq!(6, r.available());

    let mut dst = vec![0; 8];
    assert_eq!(6, r.read(&mut dst).unwrap());
    assert_eq!(&[3, 4, 5, 6, 7, 8], &dst[..6]);
    assert_eq!(2, r.offset());
    assert_eq!(0, r.available());

    // only now is the stream asked again
    let mut dst = vec![0; 8];
    assert_eq!(2, r.read(&mut dst).unwrap());
    assert_eq!(&[9, 10], &dst[..2]);
}

#[test]
fn writer_exact_fill_commits_once() {
    // capacity 8, writes of [1] then [2..=9]: the second write fills the
    // buffer exactly, commits once, and the sink holds 1..=8
    let mut w = BufferedWrite::new(VecSink::new(), vec![0; 8]);
    assert_eq!(1, w.write(&[1]).unwrap());
    assert_eq!(1, w.written());
    assert_eq!(7, w.write(&[2, 3, 4, 5, 6, 7, 8, 9]).unwrap());
    assert_eq!(0, w.written());
    assert_eq!(&[1, 2, 3, 4, 5, 6, 7, 8], w.inner_ref().received_bytes().as_slice());
}

#[test]
fn writer_failed_commit_retries_without_loss() {
    // capacity 8: after [1], a 7-byte write triggers a commit that fails and
    // the count stays at 1; resubmitting the same 7 bytes delivers exactly
    // the 8 bytes 1..=8, once each
    let inner = ScriptedSink::new(vec![0, 8]);
    let mut w = BufferedWrite::new(inner, vec![0; 8]);

    assert_eq!(1, w.write(&[1]).unwrap());
    assert!(w.write(&[2, 3, 4, 5, 6, 7, 8]).is_err());
    assert_eq!(1, w.written());
    assert_eq!(0, w.inner_ref().received_len());

    assert_eq!(7, w.write(&[2, 3, 4, 5, 6, 7, 8]).unwrap());
    assert_eq!(0, w.written());
    assert_eq!(&[1, 2, 3, 4, 5, 6, 7, 8], w.inner_ref().received_bytes().as_slice());
}

#[test]
fn writer_partial_commit_keeps_tail() {
    // a commit that is only partially accepted keeps the unaccepted tail at
    // the front of the buffer; the following flush delivers it
    let inner = ScriptedSink::new(vec![3, 5]);
    let mut w = BufferedWrite::new(inner, vec![0; 4]);

    assert_eq!(1, w.write(&[1]).unwrap());
    assert_eq!(3, w.write(&[2, 3, 4]).unwrap());
    assert_eq!(1, w.written());
    assert_eq!(&[1, 2, 3], w.inner_ref().received_bytes().as_slice());

    w.flush().unwrap();
    assert_eq!(0, w.written());
    assert_eq!(&[1, 2, 3, 4], w.inner_ref().received_bytes().as_slice());
}

#[test]
fn write_all_loops_until_accepted() {
    // a bypassed write accepted only partially is retried through the buffer
    let inner = ScriptedSink::new(vec![2, 9]);
    let mut w = BufferedWrite::new(inner, vec![0; 4]);

    w.write_all(&[1, 2, 3, 4, 5]).unwrap();
    assert_eq!(3, w.written());
    assert_eq!(&[1, 2], w.inner_ref().received_bytes().as_slice());

    w.flush().unwrap();
    assert_eq!(0, w.written());
    assert_eq!(&[1, 2, 3, 4, 5], w.inner_ref().received_bytes().as_slice());
}

#[test]
fn fill_buf_twice_returns_identical_view() {
    let inner = VecSource::new(vec![1, 2, 3, 4, 5]);
    let mut r = BufferedRead::new(inner, vec![0; 8]);

    let first: Vec<u8> = r.fill_buf().unwrap().to_vec();
    let second: Vec<u8> = r.fill_buf().unwrap().to_vec();
    assert_eq!(first, second);
    assert_eq!(&[1, 2, 3, 4, 5], first.as_slice());

    r.consume(2);
    let third: Vec<u8> = r.fill_buf().unwrap().to_vec();
    let fourth: Vec<u8> = r.fill_buf().unwrap().to_vec();
    assert_eq!(third, fourth);
    assert_eq!(&[3, 4, 5], third.as_slice());
}

#[test]
fn fill_buf_empty_at_end_of_stream() {
    let inner = VecSource::new(vec![]);
    let mut r = BufferedRead::new(inner, vec![0; 4]);
    assert!(r.fill_buf().unwrap().is_empty());
    assert!(r.fill_buf().unwrap().is_empty());
}

#[test]
fn reader_bypass_guard() {
    let inner = VecSource::new(vec![1, 2, 3]);
    let mut r = BufferedRead::new(inner, vec![0; 2]);

    // nothing buffered: bypass granted
    assert!(r.bypass().is_ok());

    let mut dst = vec![0];
    assert_eq!(1, r.read(&mut dst).unwrap());
    assert_eq!(1, r.available());

    // one unread buffered byte: bypass refused
    assert_eq!(Err(BypassError), r.bypass().map(|_| ()));

    r.consume(1);
    assert!(r.bypass().is_ok());
}

#[test]
fn writer_bypass_guard() {
    let mut w = BufferedWrite::new(VecSink::new(), vec![0; 4]);

    assert!(w.bypass().is_ok());
    assert!(w.bypass_with_buf().is_ok());
    assert!(w.split().is_ok());

    assert_eq!(2, w.write(&[1, 2]).unwrap());
    assert_eq!(Err(BypassError), w.bypass().map(|_| ()));
    assert_eq!(Err(BypassError), w.bypass_with_buf().map(|_| ()));
    assert_eq!(Err(BypassError), w.split().map(|_| ()));

    w.flush().unwrap();
    assert!(w.bypass().is_ok());
    let (_, _, written) = w.split().unwrap();
    assert_eq!(0, written);
}

#[test]
fn reader_new_with_data_serves_inherited_bytes() {
    let inner = VecSource::new(vec![9]);
    let mut r = BufferedRead::new_with_data(inner, vec![7, 8, 0, 0], 0, 2);
    assert_eq!(2, r.available());

    let mut dst = vec![0; 3];
    assert_eq!(2, r.read(&mut dst).unwrap());
    assert_eq!(&[7, 8], &dst[..2]);

    let mut dst = vec![0; 3];
    assert_eq!(1, r.read(&mut dst).unwrap());
    assert_eq!(&[9], &dst[..1]);
}

#[test]
fn writer_new_with_data_flushes_inherited_bytes() {
    let mut w = BufferedWrite::new_with_data(VecSink::new(), vec![1, 2, 0, 0], 2);
    assert_eq!(2, w.written());

    assert_eq!(1, w.write(&[3]).unwrap());
    assert_eq!(3, w.written());

    w.flush().unwrap();
    assert_eq!(&[1, 2, 3], w.inner_ref().received_bytes().as_slice());
}

#[test]
fn reader_release_discards_buffered_bytes() {
    let inner = VecSource::new(vec![1, 2, 3, 4]);
    let mut r = BufferedRead::new(inner, vec![0; 2]);
    assert_eq!(&[1, 2], r.fill_buf().unwrap());

    // release is a foot-gun: the two buffered bytes are gone for good
    let mut src = r.release();
    let mut dst = vec![0; 4];
    assert_eq!(2, src.read(&mut dst).unwrap());
    assert_eq!(&[3, 4], &dst[..2]);
}

#[test]
fn writer_release_discards_unflushed_bytes() {
    let mut w = BufferedWrite::new(VecSink::new(), vec![0; 4]);
    assert_eq!(2, w.write(&[1, 2]).unwrap());

    // release does not flush: the two accumulated bytes are lost
    let sink = w.release();
    assert_eq!(0, sink.received_len());
}

#[test]
fn clear_discards_accumulated_bytes() {
    let mut w = BufferedWrite::new(VecSink::new(), vec![0; 4]);
    assert_eq!(2, w.write(&[1, 2]).unwrap());
    w.clear();
    assert_eq!(0, w.written());
    assert!(w.is_empty());

    w.flush().unwrap();
    assert_eq!(0, w.inner_ref().received_len());
}

#[test]
fn flush_failure_keeps_count_and_retry_succeeds() {
    let inner = ScriptedSink::new(vec![0, 1]);
    let mut w = BufferedWrite::new(inner, vec![0; 4]);

    assert_eq!(2, w.write(&[1, 2]).unwrap());
    assert!(w.flush().is_err());
    assert_eq!(2, w.written());
    assert_eq!(0, w.inner_ref().received_len());

    w.flush().unwrap();
    assert_eq!(0, w.written());
    assert_eq!(&[1, 2], w.inner_ref().received_bytes().as_slice());
}

#[test]
fn exhausted_script_fails_with_stream_error() {
    let inner = ScriptedSink::new(vec![]);
    let mut w = BufferedWrite::new(inner, vec![0; 2]);

    // a large write bypasses the buffer and surfaces the stream's error
    assert_eq!(Err(MemError), w.write(&[1, 2, 3]));
    assert_eq!(0, w.written());
}

#[test]
fn empty_write_is_a_no_op() {
    let mut w = BufferedWrite::new(VecSink::new(), vec![0; 4]);
    assert_eq!(0, w.write(&[]).unwrap());
    assert_eq!(0, w.written());
    assert_eq!(0, w.inner_ref().received_len());
}

#[test]
fn buffered_readers_compose() {
    // a buffered reader is itself a readable stream, so it can be wrapped
    // again; the bytes come through in order, once each
    let inner = VecSource::new(vec![1, 2, 3, 4, 5, 6]);
    let mid = BufferedRead::new(inner, vec![0; 2]);
    let mut outer = BufferedRead::new(mid, vec![0; 4]);

    let mut dst = vec![0; 3];
    assert_eq!(3, outer.read(&mut dst).unwrap());
    assert_eq!(&[1, 2, 3], dst.as_slice());

    let mut dst = vec![0; 3];
    assert_eq!(1, outer.read(&mut dst).unwrap());
    assert_eq!(&[4], &dst[..1]);

    let mut dst = vec![0; 3];
    assert_eq!(2, outer.read(&mut dst).unwrap());
    assert_eq!(&[5, 6], &dst[..2]);

    let mut dst = vec![0; 3];
    assert_eq!(0, outer.read(&mut dst).unwrap());
}

#[test]
fn reader_passes_writes_through_untouched() {
    // over a duplex stream the reader is a writer too, with no buffering in
    // the write direction
    let inner = Duplex::new(vec![1, 2, 3]);
    let mut r = BufferedRead::new(inner, vec![0; 8]);

    let mut dst = vec![0; 2];
    assert_eq!(2, r.read(&mut dst).unwrap());
    assert_eq!(1, r.available());

    assert_eq!(2, r.write(&[7, 8]).unwrap());
    r.write_all(&[9]).unwrap();
    r.flush().unwrap();
    // every written byte went straight to the stream, reads unaffected
    assert_eq!(1, r.available());
    let stream = r.release();
    assert_eq!(&[7, 8, 9], stream.received_bytes().as_slice());
}

#[test]
fn writer_passes_reads_through_untouched() {
    let inner = Duplex::new(vec![4, 5]);
    let mut w = BufferedWrite::new(inner, vec![0; 8]);

    assert_eq!(2, w.write(&[1, 2]).unwrap());

    let mut dst = vec![0; 4];
    assert_eq!(2, w.read(&mut dst).unwrap());
    assert_eq!(&[4, 5], &dst[..2]);
    // the accumulated bytes are untouched by the read
    assert_eq!(2, w.written());
    assert_eq!(0, w.inner_ref().received_len());
}

#[test]
fn read_zero_means_end_of_stream() {
    let inner = VecSource::new(vec![5]);
    let mut r = BufferedRead::new(inner, vec![0; 2]);
    let mut dst = vec![0; 2];
    assert_eq!(1, r.read(&mut dst).unwrap());
    assert_eq!(0, r.read(&mut dst).unwrap());
    assert_eq!(0, r.read(&mut dst).unwrap());
}
