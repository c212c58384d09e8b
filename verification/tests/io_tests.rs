use halo2_proofs::io::{read_exact_step, write_all_step, Error, ErrorKind, Read, Result, Write};

/// A reader that hands out one byte per call.
struct Trickle {
    data: Vec<u8>,
    pos: usize,
}

impl Read for Trickle {
    fn read(&mut self, buf: &mut [u8]) -> Result<usize> {
        if buf.is_empty() || self.pos == self.data.len() {
            return Ok(0);
        }
        buf[0] = self.data[self.pos];
        self.pos += 1;
        Ok(1)
    }
}

/// A reader that always fails.
struct Broken;

impl Read for Broken {
    fn read(&mut self, _buf: &mut [u8]) -> Result<usize> {
        Err(Error::new(ErrorKind::InvalidInput, "broken source"))
    }
}

/// A writer that accepts at most `room` bytes in all, one per call.
struct Narrow {
    out: Vec<u8>,
    room: usize,
}

impl Write for Narrow {
    fn write(&mut self, buf: &[u8]) -> Result<usize> {
        if buf.is_empty() || self.room == 0 {
            return Ok(0);
        }
        self.out.push(buf[0]);
        self.room -= 1;
        Ok(1)
    }

    fn flush(&mut self) -> Result<()> {
        Ok(())
    }
}

/// A writer that always fails.
struct Refusing;

impl Write for Refusing {
    fn write(&mut self, _buf: &[u8]) -> Result<usize> {
        Err(Error::new(ErrorKind::InvalidInput, "refused"))
    }

    fn flush(&mut self) -> Result<()> {
        Err(Error::new(ErrorKind::Other, "cannot flush"))
    }
}

#[test]
fn error_keeps_kind_and_description() {
    let e = Error::new(ErrorKind::InvalidInput, "bad input");
    assert_eq!(e.kind(), ErrorKind::InvalidInput);
    assert_eq!(e.desc(), "bad input");
    assert_eq!(e.to_string(), "bad input");
    let e = Error::new(ErrorKind::Other, "");
    assert_eq!(e.kind(), ErrorKind::Other);
    assert_eq!(e.to_string(), "");
}

#[test]
fn slice_read_copies_what_fits_and_advances() {
    let data = [1u8, 2, 3, 4, 5];
    let mut src: &[u8] = &data;
    let mut buf = [0u8; 3];
    assert_eq!(src.read(&mut buf).unwrap(), 3);
    assert_eq!(buf, [1, 2, 3]);
    assert_eq!(src, &[4u8, 5][..]);
    let mut big = [9u8; 4];
    assert_eq!(src.read(&mut big).unwrap(), 2);
    assert_eq!(big, [4, 5, 9, 9]);
    assert!(src.is_empty());
    assert_eq!(src.read(&mut big).unwrap(), 0);
    assert_eq!(big, [4, 5, 9, 9]);
}

#[test]
fn slice_read_into_empty_buffer_reads_nothing() {
    let data = [7u8, 8];
    let mut src: &[u8] = &data;
    let mut empty: [u8; 0] = [];
    assert_eq!(src.read(&mut empty).unwrap(), 0);
    assert_eq!(src, &[7u8, 8][..]);
}

#[test]
fn read_exact_fills_buffer_from_slice() {
    let data = [10u8, 20, 30, 40];
    let mut src: &[u8] = &data;
    let mut buf = [0u8; 3];
    src.read_exact(&mut buf).unwrap();
    assert_eq!(buf, [10, 20, 30]);
    assert_eq!(src, &[40u8][..]);
    let mut none: [u8; 0] = [];
    src.read_exact(&mut none).unwrap();
    assert_eq!(src, &[40u8][..]);
}

#[test]
fn read_exact_short_source_is_unexpected_eof() {
    let data = [1u8, 2];
    let mut src: &[u8] = &data;
    let mut buf = [0u8; 3];
    let err = src.read_exact(&mut buf).unwrap_err();
    assert_eq!(err.kind(), ErrorKind::UnexpectedEof);
    assert_eq!(err.to_string(), "failed to fill whole buffer");
    assert!(src.is_empty());
}

#[test]
fn read_exact_gathers_across_short_reads() {
    let mut src = Trickle { data: vec![5, 6, 7, 8], pos: 0 };
    let mut buf = [0u8; 3];
    src.read_exact(&mut buf).unwrap();
    assert_eq!(buf, [5, 6, 7]);
    assert_eq!(src.pos, 3);
    let mut more = [0u8; 2];
    let err = src.read_exact(&mut more).unwrap_err();
    assert_eq!(err.kind(), ErrorKind::UnexpectedEof);
    assert_eq!(more[0], 8);
}

#[test]
fn read_exact_passes_on_the_source_error() {
    let mut src = Broken;
    let mut buf = [0u8; 2];
    let err = src.read_exact(&mut buf).unwrap_err();
    assert_eq!(err.kind(), ErrorKind::InvalidInput);
    assert_eq!(err.to_string(), "broken source");
}

#[test]
fn read_through_mutable_reference() {
    let data = [3u8, 1, 4, 1, 5];
    let mut src: &[u8] = &data;
    {
        let mut by_ref = &mut src;
        let mut buf = [0u8; 2];
        by_ref.read_exact(&mut buf).unwrap();
        assert_eq!(buf, [3, 1]);
        let mut one = [0u8; 1];
        assert_eq!(Read::read(&mut by_ref, &mut one).unwrap(), 1);
        assert_eq!(one, [4]);
    }
    assert_eq!(src, &[1u8, 5][..]);
}

#[test]
fn vec_write_appends_everything() {
    let mut v: Vec<u8> = vec![1];
    assert_eq!(v.write(&[2, 3]).unwrap(), 2);
    assert_eq!(v, vec![1, 2, 3]);
    assert_eq!(v.write(&[]).unwrap(), 0);
    v.flush().unwrap();
    assert_eq!(v, vec![1, 2, 3]);
}

#[test]
fn write_all_to_vec() {
    let mut v: Vec<u8> = Vec::new();
    v.write_all(&[9, 8, 7]).unwrap();
    v.write_all(&[]).unwrap();
    v.write_all(&[6]).unwrap();
    assert_eq!(v, vec![9, 8, 7, 6]);
}

#[test]
fn write_all_gathers_across_short_writes() {
    let mut w = Narrow { out: Vec::new(), room: 10 };
    w.write_all(&[1, 2, 3]).unwrap();
    assert_eq!(w.out, vec![1, 2, 3]);
    assert_eq!(w.room, 7);
}

#[test]
fn write_all_that_stalls_is_other_error() {
    let mut w = Narrow { out: Vec::new(), room: 2 };
    let err = w.write_all(&[1, 2, 3]).unwrap_err();
    assert_eq!(err.kind(), ErrorKind::Other);
    assert_eq!(err.to_string(), "failed to write whole buffer");
    assert_eq!(w.out, vec![1, 2]);
}

#[test]
fn write_all_passes_on_the_sink_error() {
    let mut w = Refusing;
    let err = w.write_all(&[1]).unwrap_err();
    assert_eq!(err.kind(), ErrorKind::InvalidInput);
    assert!(w.write_all(&[]).is_ok());
    assert_eq!(w.flush().unwrap_err().kind(), ErrorKind::Other);
}

#[test]
fn written_bytes_read_back() {
    let mut sink: Vec<u8> = vec![0xaa];
    let payload = [1u8, 2, 3, 4];
    sink.write_all(&payload).unwrap();
    let mut source: &[u8] = &sink;
    let mut head = [0u8; 1];
    source.read_exact(&mut head).unwrap();
    assert_eq!(head, [0xaa]);
    let mut body = [0u8; 4];
    source.read_exact(&mut body).unwrap();
    assert_eq!(body, payload);
    assert!(source.is_empty());
}

#[test]
fn read_exact_short_slice_fills_front_and_keeps_tail() {
    let data = [1u8, 2];
    let mut src: &[u8] = &data;
    let mut buf = [9u8, 9, 9, 9];
    let err = src.read_exact(&mut buf).unwrap_err();
    assert_eq!(err.kind(), ErrorKind::UnexpectedEof);
    assert_eq!(buf, [1, 2, 9, 9]);
    assert!(src.is_empty());
}

#[test]
fn read_exact_on_empty_buffer_never_reads() {
    let mut src = Broken;
    let mut empty: [u8; 0] = [];
    assert!(src.read_exact(&mut empty).is_ok());
}

#[test]
fn read_exact_step_maps_each_result() {
    assert_eq!(read_exact_step(Ok(4)).unwrap(), 4);
    let eof = read_exact_step(Ok(0)).unwrap_err();
    assert_eq!(eof.kind(), ErrorKind::UnexpectedEof);
    assert_eq!(eof.to_string(), "failed to fill whole buffer");
    let passed = read_exact_step(Err(Error::new(ErrorKind::InvalidInput, "mine"))).unwrap_err();
    assert_eq!(passed.kind(), ErrorKind::InvalidInput);
    assert_eq!(passed.to_string(), "mine");
}

#[test]
fn write_all_step_maps_each_result() {
    assert_eq!(write_all_step(Ok(2)).unwrap(), 2);
    let stalled = write_all_step(Ok(0)).unwrap_err();
    assert_eq!(stalled.kind(), ErrorKind::Other);
    assert_eq!(stalled.to_string(), "failed to write whole buffer");
    let passed = write_all_step(Err(Error::new(ErrorKind::UnexpectedEof, "sink"))).unwrap_err();
    assert_eq!(passed.kind(), ErrorKind::UnexpectedEof);
    assert_eq!(passed.to_string(), "sink");
}
