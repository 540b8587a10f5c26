use logup::{
    deliver_with_retry, AsyncLogWriter, LogError, LogEvent, MemoryWriter, QueueWriter,
    ScriptedWriter,
};

#[test]
fn process_messages() {
    let time: u64 = 11;
    let mut queue = QueueWriter::new(2);
    queue.write_logs(time, b"log1").unwrap();
    queue.write_logs(time, b"log2").unwrap();
    queue.close();

    let mut sink = MemoryWriter::new();
    queue.drain(&mut sink, 0);

    assert_eq!(queue.mailbox.len(), 0);
    assert_eq!(sink.log.len(), 2);
    assert_eq!(sink.log[0].timestamp, time);
    assert_eq!(sink.log[0].message, b"log1".to_vec());
    assert_eq!(sink.log[1].message, b"log2".to_vec());
}

#[test]
fn drop_message_after_reaching_limit() {
    let time: u64 = 4;
    let mut queue = QueueWriter::new(1);
    assert!(queue.write_logs(time, b"kept").is_ok());
    // the mailbox is full: the next record is dropped, yet the call succeeds
    assert!(queue.write_logs(time, b"dropped").is_ok());
    assert_eq!(queue.mailbox.len(), 1);

    let mut sink = MemoryWriter::new();
    queue.drain(&mut sink, 0);
    assert_eq!(sink.log.len(), 1);
    assert_eq!(sink.log[0].message, b"kept".to_vec());
}

#[test]
fn retry_message_after_error() {
    let time: u64 = 9;
    let mut queue = QueueWriter::new(1);
    queue.write_logs(time, b"log1").unwrap();
    queue.close();

    // the sink rejects the first attempt and accepts the second
    let mut sink = ScriptedWriter::new(vec![false, true], true);
    queue.drain(&mut sink, 100);

    assert_eq!(sink.calls.len(), 2);
    assert_eq!(sink.calls[0].message, b"log1".to_vec());
    assert_eq!(sink.calls[1].message, b"log1".to_vec());
}

#[test]
fn drop_message_after_max_retries() {
    let time: u64 = 9;
    let mut queue = QueueWriter::new(1);
    queue.write_logs(time, b"log1").unwrap();
    queue.close();

    // the sink never accepts: exactly max_retries + 1 attempts are made
    let mut sink = ScriptedWriter::new(vec![], false);
    queue.drain(&mut sink, 2);

    assert_eq!(sink.calls.len(), 3);
    for call in &sink.calls {
        assert_eq!(call.message, b"log1".to_vec());
    }
}

#[test]
fn retry_then_success_counts_three_attempts() {
    let mut sink = ScriptedWriter::new(vec![false, false, true], true);
    let event = LogEvent { timestamp: 5, message: b"log1".to_vec() };
    let (attempts, delivered) = deliver_with_retry(&mut sink, &event, 100);
    assert_eq!(attempts, 3);
    assert!(delivered);
    assert_eq!(sink.calls.len(), 3);
}

#[test]
fn retry_exhaustion_counts_budget_and_drops() {
    let mut sink = ScriptedWriter::new(vec![], false);
    let event = LogEvent { timestamp: 5, message: b"log1".to_vec() };
    let (attempts, delivered) = deliver_with_retry(&mut sink, &event, 2);
    assert_eq!(attempts, 3);
    assert!(!delivered);
    assert_eq!(sink.calls.len(), 3);
}

#[test]
fn write_after_close_fails() {
    let mut queue = QueueWriter::new(1);
    queue.close();
    let r = queue.write_logs(1, b"late");
    assert_eq!(r, Err(LogError::QueueClosed));
    assert_eq!(queue.mailbox.len(), 0);
}

#[test]
fn full_mailbox_never_grows_past_capacity() {
    let mut queue = QueueWriter::new(2);
    for i in 0..5u64 {
        assert!(queue.write_logs(i, b"x").is_ok());
        assert!(queue.mailbox.len() <= 2);
    }
    assert_eq!(queue.mailbox.len(), 2);
    assert_eq!(queue.mailbox[0].timestamp, 0);
    assert_eq!(queue.mailbox[1].timestamp, 1);
}
