use logup::{split_chunk, AsyncLogWriter, LinesWriter, MemoryWriter, ScriptedWriter};

#[test]
fn split_lines1() {
    let time: u64 = 3;
    let mut writer = LinesWriter::new(MemoryWriter::new(), 15);
    writer.write_logs(time, b"line1\nline2\nline3").unwrap();
    writer
        .write_logs(time, b"extra\nveryveryveryveryverylonglonglongline\nbuffered")
        .unwrap();

    let expected: Vec<Vec<u8>> = vec![
        b"line1\n".to_vec(),
        b"line2\n".to_vec(),
        b"line3extra\n".to_vec(),
        b"veryveryveryver".to_vec(),
        b"yverylonglonglo".to_vec(),
        b"ngline\n".to_vec(),
    ];
    assert_eq!(writer.inner.log.len(), expected.len());
    for (i, e) in expected.iter().enumerate() {
        assert_eq!(&writer.inner.log[i].message, e);
        assert_eq!(writer.inner.log[i].timestamp, time);
    }
    assert_eq!(writer.buf, b"buffered".to_vec());
}

#[test]
fn split_lines2() {
    let time: u64 = 3;
    let mut writer = LinesWriter::new(MemoryWriter::new(), 4);
    writer.write_logs(time, b"foofoo\nbarbar\n").unwrap();

    let expected: Vec<Vec<u8>> = vec![
        b"foof".to_vec(),
        b"oo\n".to_vec(),
        b"barb".to_vec(),
        b"ar\n".to_vec(),
    ];
    assert_eq!(writer.inner.log.len(), expected.len());
    for (i, e) in expected.iter().enumerate() {
        assert_eq!(&writer.inner.log[i].message, e);
    }
    assert_eq!(writer.buf.len(), 0);
}

#[test]
fn long_chunk_without_newline_is_force_flushed() {
    let mut pending: Vec<u8> = Vec::new();
    let records = split_chunk(&mut pending, b"abcdef", 4);
    assert_eq!(records, vec![b"abcd".to_vec()]);
    assert_eq!(pending, b"ef".to_vec());
}

#[test]
fn emitted_records_concatenate_to_the_input() {
    let chunks: Vec<Vec<u8>> = vec![
        b"one ".to_vec(),
        b"chunk\ntwo".to_vec(),
        b"".to_vec(),
        b" chunks cut at odd\nplaces".to_vec(),
    ];
    let max: usize = 7;
    let mut pending: Vec<u8> = Vec::new();
    let mut emitted: Vec<u8> = Vec::new();
    for chunk in &chunks {
        for record in split_chunk(&mut pending, chunk, max) {
            assert!(1 <= record.len() && record.len() <= max);
            if record[record.len() - 1] != b'\n' {
                assert_eq!(record.len(), max);
            }
            emitted.extend_from_slice(&record);
        }
    }
    emitted.extend_from_slice(&pending);
    let mut input: Vec<u8> = Vec::new();
    for chunk in &chunks {
        input.extend_from_slice(chunk);
    }
    assert_eq!(emitted, input);
}

#[test]
fn incomplete_line_is_buffered_and_nothing_is_emitted() {
    let mut writer = LinesWriter::new(MemoryWriter::new(), 10);
    writer.write_logs(1, b"abc").unwrap();
    assert_eq!(writer.inner.log.len(), 0);
    assert_eq!(writer.buf, b"abc".to_vec());
    writer.write_logs(2, b"def\n").unwrap();
    assert_eq!(writer.inner.log.len(), 1);
    assert_eq!(writer.inner.log[0].message, b"abcdef\n".to_vec());
    assert_eq!(writer.buf.len(), 0);
}

#[test]
fn inner_failure_propagates_and_discards_later_records() {
    let time: u64 = 1;
    let failing = ScriptedWriter::new(vec![], false);
    let mut writer = LinesWriter::new(failing, 10);
    let r = writer.write_logs(time, b"one\ntwo\nrest");
    assert_eq!(r, Err(logup::LogError::WriteFailed));
    // only the first record got an attempt; the pending tail is kept
    assert_eq!(writer.inner.calls.len(), 1);
    assert_eq!(writer.inner.calls[0].message, b"one\n".to_vec());
    assert_eq!(writer.buf, b"rest".to_vec());
}
