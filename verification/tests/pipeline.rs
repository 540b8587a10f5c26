use logup::{
    read_and_write_loop, AWSArgs, AWSLogsWriter, AsyncLogWriter, BrokenReader, LinesWriter,
    LogError, MemReader, MemoryWriter, MultiWriter, NewRelicArgs, NewRelicRegion, NewRelicWriter,
    QueueWriter, ScriptedWriter,
};

#[test]
fn composed_pipeline_reassembles_fans_out_and_drains() {
    // Reassembler over a fan-out over two bounded queues, wired the way the
    // program wires its sink tree
    let queues = vec![QueueWriter::new(8), QueueWriter::new(8)];
    let mut top = LinesWriter::new(MultiWriter::new(queues), 15);
    top.write_logs(1, b"hello\nwor").unwrap();
    top.write_logs(2, b"ld\n").unwrap();

    // two-phase shutdown: close every mailbox, then drain each one so that
    // already-queued records get their full retry budget
    let mut steady = MemoryWriter::new();
    let mut flaky = ScriptedWriter::new(vec![false, true, true], true);
    top.inner.writers[0].close();
    top.inner.writers[0].drain(&mut steady, 2);
    top.inner.writers[1].close();
    top.inner.writers[1].drain(&mut flaky, 2);

    assert_eq!(steady.log.len(), 2);
    assert_eq!(steady.log[0].message, b"hello\n".to_vec());
    assert_eq!(steady.log[0].timestamp, 1);
    assert_eq!(steady.log[1].message, b"world\n".to_vec());
    assert_eq!(steady.log[1].timestamp, 2);
    // the flaky sink rejected the first attempt: one retry, then both land
    assert_eq!(flaky.calls.len(), 3);
    assert_eq!(flaky.calls[0].message, b"hello\n".to_vec());
    assert_eq!(flaky.calls[1].message, b"hello\n".to_vec());
    assert_eq!(flaky.calls[2].message, b"world\n".to_vec());
}

#[test]
fn read_loop_drives_the_composed_pipeline() {
    let data = b"first\nsecond record\nthird".to_vec();
    let mut reader = MemReader::new(data, 7, 5);
    let mut top = LinesWriter::new(MultiWriter::new(vec![QueueWriter::new(16)]), 64);
    let r = read_and_write_loop(&mut reader, &mut top);
    assert!(r.is_ok());

    let mut sink = MemoryWriter::new();
    top.inner.writers[0].close();
    top.inner.writers[0].drain(&mut sink, 0);

    assert_eq!(sink.log.len(), 2);
    assert_eq!(sink.log[0].message, b"first\n".to_vec());
    assert_eq!(sink.log[1].message, b"second record\n".to_vec());
    assert_eq!(top.buf, b"third".to_vec());
}

#[test]
fn end_of_stream_on_first_read_reaches_no_sink() {
    let mut reader = MemReader::new(Vec::new(), 1024, 42);
    let mut writer = MemoryWriter::new();
    let r = read_and_write_loop(&mut reader, &mut writer);
    assert!(r.is_ok());
    assert_eq!(writer.log.len(), 0);
}

#[test]
fn loop_replicates_the_stream_and_stamps_the_capture_time() {
    let data = b"alpha\nbeta\ngamma".to_vec();
    let mut reader = MemReader::new(data.clone(), 4, 77);
    let mut writer = MemoryWriter::new();
    let r = read_and_write_loop(&mut reader, &mut writer);
    assert!(r.is_ok());
    let mut replicated: Vec<u8> = Vec::new();
    for event in &writer.log {
        assert!(!event.message.is_empty());
        assert!(event.message.len() <= 4);
        assert_eq!(event.timestamp, 77);
        replicated.extend_from_slice(&event.message);
    }
    assert_eq!(replicated, data);
}

#[test]
fn a_read_failure_is_fatal_and_reaches_no_sink() {
    let mut reader = BrokenReader {};
    let mut writer = MemoryWriter::new();
    let r = read_and_write_loop(&mut reader, &mut writer);
    assert_eq!(r, Err(LogError::ReadFailed));
    assert_eq!(writer.log.len(), 0);
}

#[test]
fn a_failing_sink_terminates_the_loop_with_its_error() {
    let mut reader = MemReader::new(b"chunk of data".to_vec(), 5, 1);
    let mut writer = ScriptedWriter::new(vec![false], false);
    let r = read_and_write_loop(&mut reader, &mut writer);
    assert!(r.is_err());
    assert_eq!(writer.calls.len(), 1);
}

#[test]
fn aws_writer_resolution_follows_the_flags() {
    let off = AWSArgs { aws: false, aws_log_group_name: None, aws_log_stream_name: None };
    assert!(AWSLogsWriter::new(off, 3, "host".to_string()).is_none());

    let with_stream = AWSArgs {
        aws: true,
        aws_log_group_name: Some("group".to_string()),
        aws_log_stream_name: Some("stream".to_string()),
    };
    let w = AWSLogsWriter::new(with_stream, 3, "host".to_string()).unwrap();
    assert_eq!(w.log_group_name, "group");
    assert_eq!(w.log_stream_name, "stream");
    assert_eq!(w.max_retries, 3);

    let without_stream = AWSArgs {
        aws: true,
        aws_log_group_name: Some("group".to_string()),
        aws_log_stream_name: None,
    };
    let w = AWSLogsWriter::new(without_stream, 0, "host".to_string()).unwrap();
    assert_eq!(w.log_stream_name, "host");
}

#[test]
fn newrelic_writer_resolution_follows_the_flags() {
    let off = NewRelicArgs { newrelic: false, newrelic_region: None, newrelic_api_key: None };
    assert!(NewRelicWriter::new(off).is_none());

    let missing_key = NewRelicArgs {
        newrelic: true,
        newrelic_region: Some(NewRelicRegion::US),
        newrelic_api_key: None,
    };
    assert!(NewRelicWriter::new(missing_key).is_none());

    let us = NewRelicArgs {
        newrelic: true,
        newrelic_region: Some(NewRelicRegion::US),
        newrelic_api_key: Some("key".to_string()),
    };
    let w = NewRelicWriter::new(us).unwrap();
    assert_eq!(w.endpoint, "https://log-api.newrelic.com/log/v1");
    assert_eq!(w.api_key, "key");

    let eu = NewRelicArgs {
        newrelic: true,
        newrelic_region: Some(NewRelicRegion::EU),
        newrelic_api_key: Some("key".to_string()),
    };
    let w = NewRelicWriter::new(eu).unwrap();
    assert_eq!(w.endpoint, "https://log-api.eu.newrelic.com/log/v1");
}
