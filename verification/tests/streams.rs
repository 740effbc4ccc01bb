use nbt_raw::{
    close_nbt, emit_next_header, read_bare_byte_array, read_bare_int, read_bare_long,
    read_bare_long_array, read_bare_string, read_exact, write_bare_int, write_bare_int_array,
    write_bare_long, write_bare_string, ByteSink, ByteSource, Error, SliceSource,
};
use std::io;

/// Delivers its bytes at most `step` at a time.
struct Trickle {
    data: Vec<u8>,
    pos: usize,
    step: usize,
    calls: usize,
}

impl Trickle {
    fn over(data: &[u8], step: usize) -> Trickle {
        Trickle { data: data.to_vec(), pos: 0, step, calls: 0 }
    }
}

impl ByteSource for Trickle {
    fn read(&mut self, buf: &mut [u8]) -> Result<usize, io::Error> {
        self.calls += 1;
        let n = self.step.min(buf.len()).min(self.data.len() - self.pos);
        buf[..n].copy_from_slice(&self.data[self.pos..self.pos + n]);
        self.pos += n;
        Ok(n)
    }
}

/// Delivers `good` bytes, then fails.
struct Failing {
    good: Vec<u8>,
    pos: usize,
}

impl ByteSource for Failing {
    fn read(&mut self, buf: &mut [u8]) -> Result<usize, io::Error> {
        if self.pos == self.good.len() {
            return Err(io::Error::new(io::ErrorKind::ConnectionReset, "reset"));
        }
        let n = buf.len().min(self.good.len() - self.pos);
        buf[..n].copy_from_slice(&self.good[self.pos..self.pos + n]);
        self.pos += n;
        Ok(n)
    }
}

/// Takes `room` bytes, then fails.
struct Full {
    taken: Vec<u8>,
    room: usize,
}

impl ByteSink for Full {
    fn write_all(&mut self, bytes: &[u8]) -> Result<(), io::Error> {
        if self.taken.len() + bytes.len() > self.room {
            return Err(io::Error::new(io::ErrorKind::WriteZero, "full"));
        }
        self.taken.extend_from_slice(bytes);
        Ok(())
    }
}

#[test]
fn slice_source_counts_down() {
    let bytes = [1u8, 2, 3, 4, 5];
    let mut src = SliceSource::new(&bytes);
    assert_eq!(src.remaining(), 5);
    let mut buf = [0u8; 3];
    assert_eq!(src.read(&mut buf).unwrap(), 3);
    assert_eq!(buf, [1, 2, 3]);
    assert_eq!(src.remaining(), 2);
    assert_eq!(src.read(&mut buf).unwrap(), 2);
    assert_eq!(buf, [4, 5, 3]);
    assert_eq!(src.read(&mut buf).unwrap(), 0);
    assert_eq!(src.remaining(), 0);
}

#[test]
fn slice_source_gives_nothing_to_an_empty_buffer() {
    let bytes = [1u8, 2];
    let mut src = SliceSource::new(&bytes);
    let mut none: [u8; 0] = [];
    assert_eq!(src.read(&mut none).unwrap(), 0);
    assert_eq!(src.remaining(), 2);
}

#[test]
fn vec_sink_appends() {
    let mut out: Vec<u8> = vec![9];
    out.write_all(&[1, 2]).unwrap();
    out.write_all(&[]).unwrap();
    out.write_all(&[3]).unwrap();
    assert_eq!(out, vec![9, 1, 2, 3]);
}

#[test]
fn read_exact_fills_the_buffer() {
    let bytes = [1u8, 2, 3, 4, 5];
    let mut src = SliceSource::new(&bytes);
    let mut buf = [0u8; 4];
    read_exact(&mut src, &mut buf).unwrap();
    assert_eq!(buf, [1, 2, 3, 4]);
    assert_eq!(src.remaining(), 1);
    let mut none: [u8; 0] = [];
    read_exact(&mut src, &mut none).unwrap();
    assert_eq!(src.remaining(), 1);
}

#[test]
fn read_exact_asks_again_after_a_short_read() {
    let mut src = Trickle::over(&[1, 2, 3, 4, 5, 6, 7], 3);
    let mut buf = [0u8; 7];
    read_exact(&mut src, &mut buf).unwrap();
    assert_eq!(buf, [1, 2, 3, 4, 5, 6, 7]);
    assert_eq!(src.calls, 3);
}

#[test]
fn read_exact_on_a_dry_source_is_incomplete() {
    let mut src = Trickle::over(&[1, 2, 3], 2);
    let mut buf = [0u8; 4];
    assert!(matches!(read_exact(&mut src, &mut buf), Err(Error::IncompleteNbtValue)));
}

#[test]
fn scalars_survive_short_reads() {
    let mut out: Vec<u8> = Vec::new();
    write_bare_int(&mut out, -123_456_789).unwrap();
    write_bare_long(&mut out, 0x1122_3344_5566_7788).unwrap();
    let mut src = Trickle::over(&out, 1);
    assert_eq!(read_bare_int(&mut src).unwrap(), -123_456_789);
    assert_eq!(read_bare_long(&mut src).unwrap(), 0x1122_3344_5566_7788);
    assert_eq!(src.calls, 12);
}

#[test]
fn string_survives_short_reads() {
    let text = "short reads, h\u{e9}las";
    let mut out: Vec<u8> = Vec::new();
    write_bare_string(&mut out, text).unwrap();
    for step in [1, 2, 3, 5, 1000] {
        let mut src = Trickle::over(&out, step);
        assert_eq!(read_bare_string(&mut src).unwrap(), text);
    }
}

#[test]
fn string_cut_short_behind_short_reads_is_incomplete() {
    let mut out: Vec<u8> = Vec::new();
    write_bare_string(&mut out, "truncated").unwrap();
    let mut src = Trickle::over(&out[..out.len() - 1], 4);
    assert!(matches!(read_bare_string(&mut src), Err(Error::IncompleteNbtValue)));
}

#[test]
fn arrays_and_headers_survive_short_reads() {
    let mut out: Vec<u8> = Vec::new();
    write_bare_int_array(&mut out, &[]).unwrap();
    close_nbt(&mut out).unwrap();
    out.extend_from_slice(&[0x02, 0x00, 0x00, 0x00, 0x01, 0xFF]);
    let mut src = Trickle::over(&out, 1);
    assert_eq!(read_bare_long_array(&mut src).unwrap(), Vec::<i64>::new());
    assert_eq!(emit_next_header(&mut src).unwrap(), (0, String::new()));
    assert_eq!(read_bare_byte_array(&mut src).unwrap(), vec![1i8, -1]);
}

#[test]
fn failure_of_the_source_is_handed_on() {
    let mut src = Failing { good: vec![0x05, 0x00, 0x41], pos: 0 };
    match read_bare_string(&mut src) {
        Err(Error::IoError(e)) => assert_eq!(e.kind(), io::ErrorKind::ConnectionReset),
        other => panic!("not a failure of the transport: {:?}", other),
    }
    let mut at_once = Failing { good: vec![], pos: 0 };
    assert!(matches!(read_bare_int(&mut at_once), Err(Error::IoError(_))));
    let mut in_header = Failing { good: vec![0x03], pos: 0 };
    assert!(matches!(emit_next_header(&mut in_header), Err(Error::IoError(_))));
    let mut in_array = Failing { good: vec![0x02, 0x00, 0x00, 0x00, 0x01], pos: 0 };
    assert!(matches!(read_bare_byte_array(&mut in_array), Err(Error::IoError(_))));
}

#[test]
fn failure_of_the_sink_is_handed_on() {
    let mut sink = Full { taken: Vec::new(), room: 3 };
    match write_bare_int(&mut sink, 1) {
        Err(Error::IoError(e)) => assert_eq!(e.kind(), io::ErrorKind::WriteZero),
        other => panic!("not a failure of the transport: {:?}", other),
    }
    let mut sink = Full { taken: Vec::new(), room: 3 };
    assert!(matches!(write_bare_string(&mut sink, "ab"), Err(Error::IoError(_))));
    assert_eq!(sink.taken, vec![0x02, 0x00]);
    let mut sink = Full { taken: Vec::new(), room: 8 };
    assert!(matches!(write_bare_int_array(&mut sink, &[1, 2]), Err(Error::IoError(_))));
    assert_eq!(sink.taken, vec![0x02, 0x00, 0x00, 0x00, 0x01, 0x00, 0x00, 0x00]);
    let mut sink = Full { taken: Vec::new(), room: 0 };
    assert!(matches!(close_nbt(&mut sink), Err(Error::IoError(_))));
}

#[test]
fn a_sink_with_room_takes_what_a_vector_takes() {
    let mut sink = Full { taken: Vec::new(), room: 64 };
    let mut out: Vec<u8> = Vec::new();
    write_bare_string(&mut sink, "same").unwrap();
    write_bare_string(&mut out, "same").unwrap();
    write_bare_int_array(&mut sink, &[5, 6]).unwrap();
    write_bare_int_array(&mut out, &[5, 6]).unwrap();
    assert_eq!(sink.taken, out);
}
