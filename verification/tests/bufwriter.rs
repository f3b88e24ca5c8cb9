use evil_json::bufwrite::BufWrite;
use evil_json::bufwriter::{BufWriter, VecSink, MIN_BUFFER_SIZE};
use evil_json::raw::RawStr;
use evil_json::value::Value;

#[test]
fn write() {
    let inner = VecSink::new();
    let mut writer = BufWriter::with_capacity(2, inner);
    assert_eq!(writer.buffer(), b"");
    assert_eq!(writer.capacity(), MIN_BUFFER_SIZE);

    writer.write_all(&[]).unwrap();
    assert_eq!(writer.buffer(), b"");
    assert_eq!(writer.capacity(), MIN_BUFFER_SIZE);

    writer.write_all(b"0000").unwrap();
    assert_eq!(writer.buffer(), b"0000");
    assert_eq!(writer.capacity(), MIN_BUFFER_SIZE);

    let remain = writer.capacity() - writer.buffer().len();
    writer.write_all(b"1".repeat(remain).as_slice()).unwrap();
    assert_eq!(writer.buffer().len(), MIN_BUFFER_SIZE);

    writer.write_all(b"2").unwrap();
    assert_eq!(writer.buffer(), b"2");
    assert_eq!(writer.capacity(), MIN_BUFFER_SIZE);

    writer.flush().unwrap();
    assert_eq!(writer.buffer(), b"");
    assert_eq!(writer.capacity(), MIN_BUFFER_SIZE);
}

#[test]
fn reserve() {
    let inner = VecSink::new();
    let mut writer = BufWriter::with_capacity(MIN_BUFFER_SIZE + 1, inner);

    assert_eq!(writer.reserve(MIN_BUFFER_SIZE + 1).ok(), Some(()));
    assert_eq!(writer.reserve(MIN_BUFFER_SIZE + 2).ok(), None);

    writer.write_all(b"@").unwrap();
    assert_eq!(writer.reserve(MIN_BUFFER_SIZE + 1).ok(), Some(()));
    assert_eq!(writer.buffer(), b"");
}

#[test]
fn relay_forwards_in_order() {
    let inner = VecSink::new();
    let mut writer = BufWriter::with_capacity(2, inner);
    // fill past the capacity several times, then bypass with one
    // write larger than the whole buffer
    writer.write_all(b"aaaaaaaaaaaaaaaaaaaaaaaaaaaaaaaaaaaaaaaaaaaaaaa").unwrap();
    writer.write_all(b"bb").unwrap();
    let big = b"c".repeat(100);
    writer.write_all(big.as_slice()).unwrap();
    writer.write_all(b"d").unwrap();
    let sink = match writer.into_sink() {
        (s, Ok(())) => s,
        _ => panic!("flush failed"),
    };
    let mut expected: Vec<u8> = Vec::new();
    expected.extend(b"aaaaaaaaaaaaaaaaaaaaaaaaaaaaaaaaaaaaaaaaaaaaaaa");
    expected.extend(b"bb");
    expected.extend(big);
    expected.extend(b"d");
    assert_eq!(sink.data, expected);
}

#[test]
fn shrink_rolls_back() {
    let mut buf: Vec<u8> = Vec::new();
    buf.write_all(b"abc,").unwrap();
    BufWrite::shrink(&mut buf, 1);
    assert_eq!(buf, b"abc");
}

#[test]
fn to_writer_small_capacity() {
    // encoding through the relay buffer gives the same bytes as the
    // growable buffer, across flush boundaries
    let long_text = "x".repeat(9000);
    let v = Value::Array(vec![
        Value::Str(long_text),
        Value::U64(12345678901234567890),
        Value::Str("short\n".to_string()),
    ]);
    let bytes = evil_json::to_vec(&v).unwrap();
    let (sink, r) = evil_json::to_writer(VecSink::new(), &v);
    r.unwrap();
    assert_eq!(sink.data, bytes);
}

#[test]
fn batched_writes() {
    let mut out: Vec<u8> = Vec::new();
    evil_json::bufwrite::write2(&mut out, &true, &RawStr(",")).unwrap();
    assert_eq!(out, b"true,");
    let mut out1: Vec<u8> = Vec::new();
    evil_json::bufwrite::write1(&mut out1, &(-12i64)).unwrap();
    assert_eq!(out1, b"-12");
    let mut out3: Vec<u8> = Vec::new();
    evil_json::bufwrite::write3(&mut out3, &RawStr("\""), &RawStr("name"), &RawStr("\":"))
        .unwrap();
    assert_eq!(out3, b"\"name\":");
    let mut out4: Vec<u8> = Vec::new();
    evil_json::bufwrite::write4(&mut out4, &RawStr("\""), &RawStr("k"), &RawStr("\":"), &7u8)
        .unwrap();
    assert_eq!(out4, b"\"k\":7");
}

#[test]
fn oversized_batch_is_io_error() {
    // a batched small write beyond the whole relay capacity must fail
    // with a capacity error rather than corrupt state
    let mut writer = BufWriter::with_capacity(MIN_BUFFER_SIZE, VecSink::new());
    let err = writer.reserve(MIN_BUFFER_SIZE + 1).unwrap_err();
    assert!(matches!(err, evil_json::Error::Io(_)));
}

#[test]
fn flush_forwards_exact_buffer() {
    // after a flush the sink holds exactly the previously buffered
    // bytes, in order; a fitting reserve leaves the sink untouched
    let mut writer = BufWriter::with_capacity(MIN_BUFFER_SIZE, VecSink::new());
    writer.write_all(b"abc").unwrap();
    writer.reserve(MIN_BUFFER_SIZE - 3).unwrap();
    assert_eq!(writer.buffer(), b"abc");
    writer.flush().unwrap();
    assert_eq!(writer.buffer(), b"");
    let (sink, r) = writer.into_sink();
    r.unwrap();
    assert_eq!(sink.data, b"abc");
}
