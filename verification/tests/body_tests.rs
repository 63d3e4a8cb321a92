//! Tests of the framed body readers and writers.

use hyper::read::ByteSource;
use hyper::read::HttpReader;
use hyper::read::ReadError;
use hyper::read::read_chunk_size;
use hyper::transport::AsyncWriter;
use hyper::transport::Lease;
use hyper::transport::Transport;
use hyper::write::HttpWriter;

fn source(s: &[u8]) -> ByteSource {
    ByteSource::new(s.to_vec())
}

fn fresh_writer() -> AsyncWriter {
    AsyncWriter::new(Lease::new(Transport::new()))
}

fn written(w: AsyncWriter) -> Vec<u8> {
    let mut t = w.into_lease().release();
    t.take_out()
}

#[test]
fn test_read_chunk_size() {
    fn read(s: &str, result: u64) {
        let mut src = source(s.as_bytes());
        assert_eq!(read_chunk_size(&mut src).unwrap(), result);
    }

    fn read_err(s: &str) {
        let mut src = source(s.as_bytes());
        assert_eq!(read_chunk_size(&mut src).unwrap_err(), ReadError::InvalidInput);
    }

    read("1\r\n", 1);
    read("01\r\n", 1);
    read("0\r\n", 0);
    read("00\r\n", 0);
    read("A\r\n", 10);
    read("a\r\n", 10);
    read("Ff\r\n", 255);
    read("Ff   \r\n", 255);
    // Missing LF or CRLF
    read_err("F\rF");
    read_err("F");
    // Invalid hex digit
    read_err("X\r\n");
    read_err("1X\r\n");
    read_err("-\r\n");
    read_err("-1\r\n");
    // Acceptable (if not fully valid) extensions do not influence the size
    read("1;extension\r\n", 1);
    read("a;ext name=value\r\n", 10);
    read("1;extension;extension2\r\n", 1);
    read("1;;;  ;\r\n", 1);
    read("2; extension...\r\n", 2);
    read("3   ; extension=123\r\n", 3);
    read("3   ;\r\n", 3);
    read("3   ;   \r\n", 3);
    // Invalid extensions cause an error
    read_err("1 invalid extension\r\n");
    read_err("1 A\r\n");
    read_err("1;no CRLF");
}

#[test]
fn test_read_sized_early_eof() {
    let mut r = HttpReader::SizedReader(source(b"foo bar"), 10);
    let got = r.read(10).unwrap();
    assert_eq!(got.len(), 7);
    let e = r.read(10).unwrap_err();
    assert_eq!(e, ReadError::EarlyEof);
}

#[test]
fn test_read_chunked_early_eof() {
    let mut r = HttpReader::ChunkedReader(source(b"9\r\nfoo bar"), None);
    let got = r.read(10).unwrap();
    assert_eq!(got.len(), 7);
    let e = r.read(10).unwrap_err();
    assert_eq!(e, ReadError::EarlyEof);
}

#[test]
fn test_read_sized_exact() {
    let mut r = HttpReader::SizedReader(source(b"hello world"), 5);
    assert_eq!(r.read(100).unwrap(), b"hello".to_vec());
    assert_eq!(r.read(100).unwrap(), Vec::<u8>::new());
    assert!(!r.has_body());
}

#[test]
fn test_read_chunked_round_trip() {
    // decode what the chunked writer emitted
    let mut w = HttpWriter::ChunkedWriter(fresh_writer());
    assert_eq!(w.write(b"foo bar"), 7);
    assert_eq!(w.write(b""), 0);
    assert_eq!(w.write(b"baz quux herp"), 13);
    let wire = written(w.end());
    let mut r = HttpReader::ChunkedReader(ByteSource::new(wire), None);
    let mut decoded: Vec<u8> = Vec::new();
    loop {
        let piece = r.read(4).unwrap();
        if piece.is_empty() {
            break;
        }
        decoded.extend_from_slice(&piece);
    }
    assert_eq!(decoded, b"foo barbaz quux herp".to_vec());
    assert!(!r.has_body());
}

#[test]
fn test_read_eof_reader() {
    let mut r = HttpReader::EofReader(source(b"tail"));
    assert!(r.has_body());
    assert_eq!(r.read(100).unwrap(), b"tail".to_vec());
    assert_eq!(r.read(100).unwrap(), Vec::<u8>::new());
}

#[test]
fn test_read_empty_reader() {
    let mut r = HttpReader::EmptyReader(source(b"ignored"));
    assert!(!r.has_body());
    assert_eq!(r.read(100).unwrap(), Vec::<u8>::new());
    let src = r.into_inner();
    assert_eq!(src.pos, 0);
}

#[test]
fn test_write_chunked() {
    let mut w = HttpWriter::ChunkedWriter(fresh_writer());
    w.write(b"foo bar");
    w.write(b"baz quux herp");
    let buf = written(w.end());
    let s = std::str::from_utf8(&buf).unwrap();
    assert_eq!(s, "7\r\nfoo bar\r\nD\r\nbaz quux herp\r\n0\r\n\r\n");
}

#[test]
fn test_write_sized() {
    let mut w = HttpWriter::SizedWriter(fresh_writer(), 8);
    assert_eq!(w.write(b"foo bar"), 7);
    assert_eq!(w.write(b"baz"), 1);

    let buf = written(w.end());
    let s = std::str::from_utf8(&buf).unwrap();
    assert_eq!(s, "foo barb");
}

#[test]
fn test_write_sized_truncates_across_writes() {
    // capacity 4, fed 9 bytes over three writes: exactly the first 4 emit
    let mut w = HttpWriter::SizedWriter(fresh_writer(), 4);
    assert_eq!(w.write(b"ab"), 2);
    assert_eq!(w.write(b"cde"), 2);
    assert_eq!(w.write(b"fghi"), 0);
    let buf = written(w.end());
    assert_eq!(buf, b"abcd".to_vec());
}

#[test]
fn test_write_through_and_empty() {
    let mut w = HttpWriter::ThroughWriter(fresh_writer());
    assert_eq!(w.write(b"verbatim"), 8);
    assert_eq!(written(w.end()), b"verbatim".to_vec());

    let mut w = HttpWriter::EmptyWriter(fresh_writer());
    assert_eq!(w.write(b"dropped"), 0);
    assert_eq!(written(w.end()), Vec::<u8>::new());
}

#[test]
fn test_chunk_size_overflow_is_invalid() {
    let mut src = source(b"FFFFFFFFFFFFFFFFF\r\n");
    assert_eq!(read_chunk_size(&mut src).unwrap_err(), ReadError::InvalidInput);
}

#[test]
fn test_eat() {
    let mut src = source(b"\r\nrest");
    assert!(hyper::read::eat(&mut src, b"\r\n").is_ok());
    assert_eq!(src.pos, 2);
    // a mismatch consumes the matching prefix and the offending byte
    let mut src = source(b"xy");
    assert_eq!(hyper::read::eat(&mut src, b"\r\n").unwrap_err(), ReadError::InvalidInput);
    assert_eq!(src.pos, 1);
    let mut src = source(b"\rx rest");
    assert_eq!(hyper::read::eat(&mut src, b"\r\n").unwrap_err(), ReadError::InvalidInput);
    assert_eq!(src.pos, 2);
    // a short source is consumed to its end
    let mut src = source(b"\r");
    assert_eq!(hyper::read::eat(&mut src, b"\r\n").unwrap_err(), ReadError::InvalidInput);
    assert_eq!(src.pos, 1);
}

#[test]
fn test_lease_exclusion() {
    // while a lease is outstanding a claim yields nothing; after the
    // release the next claim restores the same transport
    let mut t = Transport::new();
    t.write(b"queued");
    let mut lend = hyper::transport::Lend::Owned(t);
    let lease = lend.lease();
    assert!(!lend.is_owned());
    assert!(!lend.claim(None));
    assert!(!lend.is_owned());
    let back = lease.release();
    assert!(lend.claim(Some(back)));
    assert!(lend.is_owned());
    let mut got = lend.take();
    assert_eq!(got.take_out(), b"queued".to_vec());
}

#[test]
fn test_transport_close_discards_writes() {
    let mut t = Transport::new();
    t.write(b"kept");
    t.close();
    t.write(b"dropped");
    assert!(t.is_closed());
    assert_eq!(t.take_out(), b"kept".to_vec());
}
