use logup::{AsyncLogWriter, MemoryWriter, MultiWriter, ScriptedWriter};

#[test]
fn test_write_to_multiple_writers() {
    let time1: u64 = 1000;
    let buf1: &[u8] = b"test1";
    let time2: u64 = time1 + 100;
    let buf2: &[u8] = b"test2";

    let mut multi_writer = MultiWriter::new(vec![MemoryWriter::new(), MemoryWriter::new()]);

    let result = multi_writer.write_logs(time1, buf1);
    assert!(result.is_ok());
    let result = multi_writer.write_logs(time2, buf2);
    assert!(result.is_ok());

    for w in &multi_writer.writers {
        assert_eq!(w.log.len(), 2);
        assert_eq!(w.log[0].timestamp, time1);
        assert_eq!(w.log[0].message, buf1.to_vec());
        assert_eq!(w.log[1].timestamp, time2);
        assert_eq!(w.log[1].message, buf2.to_vec());
    }
}

#[test]
fn fan_out_stops_at_first_failing_sink() {
    let before = ScriptedWriter::new(vec![], true);
    let failing = ScriptedWriter::new(vec![], false);
    let after = ScriptedWriter::new(vec![], true);
    let mut multi = MultiWriter::new(vec![before, failing, after]);

    let r = multi.write_logs(7, b"record");
    assert!(r.is_err());
    assert_eq!(multi.writers[0].calls.len(), 1);
    assert_eq!(multi.writers[0].calls[0].message, b"record".to_vec());
    assert_eq!(multi.writers[1].calls.len(), 1);
    assert_eq!(multi.writers[2].calls.len(), 0);
}

#[test]
fn fan_out_delivers_in_registration_order_to_all_on_success() {
    let mut multi = MultiWriter::new(vec![MemoryWriter::new(), MemoryWriter::new(), MemoryWriter::new()]);
    assert!(multi.write_logs(1, b"a").is_ok());
    assert!(multi.write_logs(2, b"b").is_ok());
    for w in &multi.writers {
        assert_eq!(w.log.len(), 2);
        assert_eq!(w.log[0].message, b"a".to_vec());
        assert_eq!(w.log[1].message, b"b".to_vec());
    }
}
