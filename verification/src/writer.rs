//! The sink capability consumed by every stage of the pipeline, together
//! with two in-memory implementations used to exercise the stages.

use vstd::prelude::*;

verus! {

use crate::LogError;
use vstd::slice::slice_to_vec;

/// One unit of log data together with its capture time, in milliseconds
/// since the Unix epoch.
#[derive(Debug, PartialEq, Eq)]
pub struct LogEvent {
    pub timestamp: u64,
    pub message: Vec<u8>,
}

/// Spec-level record of one call into a sink: the pair that was handed
/// over and whether the sink reported success.
pub struct WriteAttempt {
    pub time: u64,
    pub payload: Seq<u8>,
    pub ok: bool,
}

/// The byte payloads of a run of attempts, in order.
pub open spec fn payloads(h: Seq<WriteAttempt>) -> Seq<Seq<u8>> {
    h.map_values(|a: WriteAttempt| a.payload)
}

/// The attempts a stage records when it forwards `records` at `time` and
/// every one of them is accepted.
pub open spec fn ok_attempts(records: Seq<Seq<u8>>, time: u64) -> Seq<WriteAttempt> {
    records.map_values(|p: Seq<u8>| (WriteAttempt { time, payload: p, ok: true }))
}

/// The sink capability: accepts a timestamped byte record and reports
/// success or failure.
///
/// The spec-level `history` lists every attempt ever made against the sink,
/// in order. A `write_logs` call appends exactly one attempt carrying the
/// pair it was given, marked with the reported outcome; this is what lets
/// the stages layered above a sink state precisely which calls they made.
pub trait AsyncLogWriter: Sized {
    spec fn history(&self) -> Seq<WriteAttempt>;

    fn write_logs(&mut self, time: u64, buf: &[u8]) -> (r: Result<(), LogError>)
        ensures
            final(self).history() == old(self).history().push(
                (WriteAttempt { time, payload: buf@, ok: r is Ok }),
            ),
    ;
}

/// A sink that keeps every record in memory and always succeeds.
pub struct MemoryWriter {
    pub log: Vec<LogEvent>,
}

impl MemoryWriter {
    pub fn new() -> (r: MemoryWriter)
        ensures
            r.log@.len() == 0,
            r.history().len() == 0,
    {
        let r = MemoryWriter { log: Vec::new() };
        proof {
            assert(r.history() =~= Seq::<WriteAttempt>::empty());
        }
        r
    }
}

impl AsyncLogWriter for MemoryWriter {
    open spec fn history(&self) -> Seq<WriteAttempt> {
        self.log@.map_values(
            |e: LogEvent| WriteAttempt { time: e.timestamp, payload: e.message@, ok: true },
        )
    }

    fn write_logs(&mut self, time: u64, buf: &[u8]) -> (r: Result<(), LogError>) {
        let event = LogEvent { timestamp: time, message: slice_to_vec(buf) };
        self.log.push(event);
        proof {
            assert(self.history() =~= old(self).history().push(
                (WriteAttempt { time, payload: buf@, ok: true }),
            ));
        }
        Ok(())
    }
}

/// A sink whose outcomes follow a programmed script (`true` = accept),
/// falling back to a fixed outcome once the script runs out. Every
/// attempted record is kept, so a caller can observe exactly which write
/// attempts a stage made and in what order.
pub struct ScriptedWriter {
    pub script: Vec<bool>,
    pub fallback: bool,
    pub calls: Vec<LogEvent>,
}

impl ScriptedWriter {
    pub fn new(script: Vec<bool>, fallback: bool) -> (r: ScriptedWriter)
        ensures
            r.script == script,
            r.fallback == fallback,
            r.calls@.len() == 0,
            r.history().len() == 0,
    {
        let r = ScriptedWriter { script, fallback, calls: Vec::new() };
        proof {
            assert(r.history() =~= Seq::<WriteAttempt>::empty());
        }
        r
    }

    /// The outcome the script assigns to the i-th attempt.
    pub open spec fn outcome(&self, i: int) -> bool {
        if i < self.script@.len() {
            self.script@[i]
        } else {
            self.fallback
        }
    }
}

impl AsyncLogWriter for ScriptedWriter {
    open spec fn history(&self) -> Seq<WriteAttempt> {
        self.calls@.map(
            |i: int, e: LogEvent| WriteAttempt {
                time: e.timestamp,
                payload: e.message@,
                ok: self.outcome(i),
            },
        )
    }

    fn write_logs(&mut self, time: u64, buf: &[u8]) -> (r: Result<(), LogError>) {
        let i = self.calls.len();
        let ok = if i < self.script.len() {
            self.script[i]
        } else {
            self.fallback
        };
        let event = LogEvent { timestamp: time, message: slice_to_vec(buf) };
        self.calls.push(event);
        proof {
            assert(self.history() =~= old(self).history().push(
                (WriteAttempt { time, payload: buf@, ok }),
            ));
        }
        if ok {
            Ok(())
        } else {
            Err(LogError::WriteFailed)
        }
    }
}

} // verus!
