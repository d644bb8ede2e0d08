use buffered_io::BufferedRead;
use buffered_io::BufferedWrite;
use buffered_io::ScriptedSink;
use buffered_io::VecSink;
use buffered_io::VecSource;

#[test]
fn can_read_to_buffer() {
    let inner = VecSource::new(vec![1, 2, 3, 4, 5, 6, 7, 8]);
    let mut buffered = BufferedRead::new(inner, vec![0; 8]);

    let mut read_buf = vec![0; 2];
    assert_eq!(2, buffered.read(&mut read_buf).unwrap());
    assert_eq!(2, buffered.offset());
    assert_eq!(6, buffered.available());
    assert_eq!(&[1, 2], read_buf.as_slice());

    let mut read_buf = vec![0; 2];
    assert_eq!(2, buffered.read(&mut read_buf).unwrap());
    assert_eq!(4, buffered.offset());
    assert_eq!(4, buffered.available());
    assert_eq!(&[3, 4], read_buf.as_slice());

    let mut read_buf = vec![0; 8];
    assert_eq!(4, buffered.read(&mut read_buf).unwrap());
    assert_eq!(4, buffered.offset());
    assert_eq!(0, buffered.available());
    assert_eq!(&[5, 6, 7, 8], &read_buf[..4]);
}

#[test]
fn bypass_on_large_buf() {
    let inner = VecSource::new(vec![1, 2, 3, 4, 5, 6, 7, 8, 9, 10]);
    let mut buffered = BufferedRead::new(inner, vec![0; 8]);

    let mut read_buf = vec![0; 10];
    assert_eq!(10, buffered.read(&mut read_buf).unwrap());
    assert_eq!(0, buffered.offset());
    assert_eq!(0, buffered.available());
    assert_eq!(&[1, 2, 3, 4, 5, 6, 7, 8, 9, 10], read_buf.as_slice());
}

#[test]
fn can_buf_read() {
    let inner = VecSource::new(vec![1, 2, 3, 4, 5, 6, 7, 8, 9, 10]);
    let mut buffered = BufferedRead::new(inner, vec![0; 8]);
    assert_eq!(0, buffered.offset());
    assert_eq!(0, buffered.available());

    assert_eq!(&[1, 2, 3, 4, 5, 6, 7, 8], buffered.fill_buf().unwrap());
    assert_eq!(0, buffered.offset());
    assert_eq!(8, buffered.available());

    buffered.consume(2);
    assert_eq!(2, buffered.offset());
    assert_eq!(6, buffered.available());
    assert_eq!(&[3, 4, 5, 6, 7, 8], buffered.fill_buf().unwrap());

    buffered.consume(6);
    assert_eq!(8, buffered.offset());
    assert_eq!(0, buffered.available());

    assert_eq!(&[9, 10], buffered.fill_buf().unwrap());
    assert_eq!(0, buffered.offset());
    assert_eq!(2, buffered.available());

    buffered.consume(2);
    assert_eq!(2, buffered.offset());
    assert_eq!(0, buffered.available());
}

#[test]
fn can_append_to_buffer() {
    let mut buffered = BufferedWrite::new(VecSink::new(), vec![0; 8]);

    assert_eq!(2, buffered.write(&[1, 2]).unwrap());
    assert_eq!(2, buffered.written());
    assert_eq!(0, buffered.inner_ref().received_len());

    assert_eq!(2, buffered.write(&[3, 4]).unwrap());
    assert_eq!(4, buffered.written());
    assert_eq!(0, buffered.inner_ref().received_len());

    assert_eq!(4, buffered.write(&[5, 6, 7, 8]).unwrap());
    assert_eq!(0, buffered.written());
    assert_eq!(8, buffered.inner_ref().received_len());
    assert_eq!(&[1, 2, 3, 4, 5, 6, 7, 8], buffered.inner_ref().received_bytes().as_slice());
}

#[test]
fn bypass_large_write_when_empty() {
    let mut buffered = BufferedWrite::new(VecSink::new(), vec![0; 8]);

    assert_eq!(8, buffered.write(&[1, 2, 3, 4, 5, 6, 7, 8]).unwrap());
    assert_eq!(0, buffered.written());
    assert_eq!(8, buffered.inner_ref().received_len());
}

#[test]
fn large_write_when_not_empty() {
    let mut buffered = BufferedWrite::new(VecSink::new(), vec![0; 8]);

    assert_eq!(1, buffered.write(&[1]).unwrap());
    assert_eq!(1, buffered.written());
    assert_eq!(0, buffered.inner_ref().received_len());

    assert_eq!(7, buffered.write(&[2, 3, 4, 5, 6, 7, 8, 9]).unwrap());
    assert_eq!(0, buffered.written());
    assert_eq!(8, buffered.inner_ref().received_len());
}

#[test]
fn large_write_when_not_empty_can_handle_write_errors() {
    // the first commit attempt fails, the second accepts all 8 bytes
    let inner = ScriptedSink::new(vec![0, 8]);
    let mut buffered = BufferedWrite::new(inner, vec![0; 8]);

    assert_eq!(1, buffered.write(&[1]).unwrap());
    assert_eq!(1, buffered.written());
    assert_eq!(0, buffered.inner_ref().received_len());

    assert!(buffered.write(&[2, 3, 4, 5, 6, 7, 8]).is_err());

    assert_eq!(7, buffered.write(&[2, 3, 4, 5, 6, 7, 8]).unwrap());
    assert_eq!(0, buffered.written());
    assert_eq!(8, buffered.inner_ref().received_len());
}

#[test]
fn flush_clears_buffer() {
    let mut buffered = BufferedWrite::new(VecSink::new(), vec![0; 8]);

    assert_eq!(2, buffered.write(&[1, 2]).unwrap());
    assert_eq!(2, buffered.written());
    assert_eq!(0, buffered.inner_ref().received_len());

    buffered.flush().unwrap();
    assert_eq!(0, buffered.written());
    assert_eq!(2, buffered.inner_ref().received_len());
}
