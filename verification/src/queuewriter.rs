//! The bounded per-sink queue: a fixed-capacity FIFO mailbox decouples the
//! producer from a slow or failing sink. Enqueue never blocks: a record
//! arriving at a full mailbox is dropped by design, and the producer only
//! sees an error once the mailbox has closed. The consumer drains the
//! mailbox in FIFO order, retrying each failed write up to a budget before
//! dropping the record and moving on.

use vstd::prelude::*;

verus! {

use crate::writer::{AsyncLogWriter, LogEvent, WriteAttempt};
use crate::LogError;
use vstd::slice::slice_to_vec;

/// The delivery attempts a retrying consumer makes against its sink for
/// one record `(time, payload)`: between one and `max_retries + 1`
/// attempts, all carrying the record's pair, every attempt but the last
/// rejected, and the record given up (last attempt rejected too) only once
/// the whole budget is spent.
pub open spec fn is_record_block(
    b: Seq<WriteAttempt>,
    time: u64,
    payload: Seq<u8>,
    max_retries: u32,
) -> bool {
    &&& 1 <= b.len() <= max_retries + 1
    &&& forall|i: int|
        0 <= i < b.len() ==> (#[trigger] b[i]).time == time && b[i].payload == payload
    &&& forall|i: int| 0 <= i < b.len() - 1 ==> !(#[trigger] b[i]).ok
    &&& !b[b.len() - 1].ok ==> b.len() == max_retries + 1
}

/// Retry budget: for a sink that never accepts, a record's block is
/// exactly `max_retries + 1` attempts — no fewer, no more — after which
/// the record is dropped.
pub proof fn lemma_retry_budget(
    b: Seq<WriteAttempt>,
    time: u64,
    payload: Seq<u8>,
    max_retries: u32,
)
    requires
        is_record_block(b, time, payload, max_retries),
        forall|i: int| 0 <= i < b.len() ==> !(#[trigger] b[i]).ok,
    ensures
        b.len() == max_retries + 1,
{
}

/// Attempt delivery of one record through `inner`: on failure retry
/// immediately, up to `max_retries` further attempts; once the budget of
/// `max_retries + 1` attempts is spent the record is dropped. Returns the
/// number of attempts made and whether the record was delivered.
pub fn deliver_with_retry<T: AsyncLogWriter>(
    inner: &mut T,
    event: &LogEvent,
    max_retries: u32,
) -> (r: (u64, bool))
    ensures
        ({
            let h0 = old(inner).history();
            let h1 = final(inner).history();
            let block = h1.skip(h0.len() as int);
            &&& h1.take(h0.len() as int) == h0
            &&& h1 == h0 + block
            &&& is_record_block(block, event.timestamp, event.message@, max_retries)
            &&& r.0 == block.len()
            &&& r.1 == block[block.len() - 1].ok
        }),
{
    let ghost h0 = old(inner).history();
    let ghost mut fails: Seq<WriteAttempt> = Seq::empty();
    let mut attempts: u64 = 0;
    proof {
        assert(h0 + fails =~= h0);
    }
    loop
        invariant
            attempts <= max_retries as u64,
            fails.len() == attempts,
            h0 == old(inner).history(),
            inner.history() == h0 + fails,
            forall|i: int|
                0 <= i < fails.len() ==> (#[trigger] fails[i]).time == event.timestamp
                    && fails[i].payload == event.message@ && !fails[i].ok,
        decreases max_retries as u64 - attempts,
    {
        let ghost h_before = inner.history();
        let res = inner.write_logs(event.timestamp, event.message.as_slice());
        attempts = attempts + 1;
        match res {
            Ok(_) => {
                proof {
                    let att = WriteAttempt {
                        time: event.timestamp,
                        payload: event.message@,
                        ok: true,
                    };
                    assert(inner.history() == (h0 + fails).push(att));
                    assert((h0 + fails).push(att) =~= h0 + fails.push(att));
                    assert((h0 + fails.push(att)).skip(h0.len() as int) =~= fails.push(att));
                    assert((h0 + fails.push(att)).take(h0.len() as int) =~= h0);
                }
                return (attempts, true);
            },
            Err(_) => {
                proof {
                    let att = WriteAttempt {
                        time: event.timestamp,
                        payload: event.message@,
                        ok: false,
                    };
                    assert(inner.history() == (h0 + fails).push(att));
                    assert((h0 + fails).push(att) =~= h0 + fails.push(att));
                    fails = fails.push(att);
                }
                if attempts > max_retries as u64 {
                    proof {
                        assert((h0 + fails).skip(h0.len() as int) =~= fails);
                        assert((h0 + fails).take(h0.len() as int) =~= h0);
                    }
                    return (attempts, false);
                }
            },
        }
    }
}

/// The front end of a bounded queue: a fixed-capacity FIFO mailbox.
/// Records enter through `write_logs` and leave, oldest first, when the
/// consumer drains the mailbox; closing the mailbox turns every further
/// enqueue into an error.
pub struct QueueWriter {
    pub mailbox: Vec<LogEvent>,
    pub capacity: usize,
    pub closed: bool,
    pub hist: Ghost<Seq<WriteAttempt>>,
}

impl QueueWriter {
    /// At most `capacity` records are ever retained.
    pub open spec fn wf(&self) -> bool {
        self.mailbox@.len() <= self.capacity
    }

    /// The queued records, oldest first.
    pub open spec fn queued(&self) -> Seq<(u64, Seq<u8>)> {
        self.mailbox@.map_values(|e: LogEvent| (e.timestamp, e.message@))
    }

    pub fn new(capacity: usize) -> (r: QueueWriter)
        ensures
            r.wf(),
            r.capacity == capacity,
            !r.closed,
            r.queued().len() == 0,
            r.history().len() == 0,
    {
        QueueWriter { mailbox: Vec::new(), capacity, closed: false, hist: Ghost(Seq::empty()) }
    }

    /// Close the mailbox: no further record will be accepted.
    pub fn close(&mut self)
        ensures
            final(self).closed,
            final(self).mailbox == old(self).mailbox,
            final(self).capacity == old(self).capacity,
            final(self).history() == old(self).history(),
    {
        self.closed = true;
    }

    /// Drain the mailbox through `inner`, oldest record first, giving each
    /// record its full retry budget before moving to the next: the sink
    /// sees one contiguous block of attempts per queued record, in exactly
    /// the order the records were accepted.
    pub fn drain<T: AsyncLogWriter>(&mut self, inner: &mut T, max_retries: u32)
        ensures
            final(self).queued().len() == 0,
            final(self).capacity == old(self).capacity,
            final(self).closed == old(self).closed,
            final(self).history() == old(self).history(),
            final(inner).history().take(old(inner).history().len() as int)
                == old(inner).history(),
            exists|blocks: Seq<Seq<WriteAttempt>>|
                {
                    &&& blocks.len() == old(self).queued().len()
                    &&& final(inner).history() == old(inner).history() + blocks.flatten()
                    &&& forall|i: int|
                        0 <= i < blocks.len() ==> is_record_block(
                            #[trigger] blocks[i],
                            old(self).queued()[i].0,
                            old(self).queued()[i].1,
                            max_retries,
                        )
                },
    {
        let ghost h0 = old(inner).history();
        let ghost q0 = old(self).queued();
        let ghost mut blocks: Seq<Seq<WriteAttempt>> = Seq::empty();
        proof {
            assert(blocks.flatten() =~= Seq::<WriteAttempt>::empty());
            assert(h0 + blocks.flatten() =~= h0);
        }
        while self.mailbox.len() > 0
            invariant
                old(self).wf() ==> self.wf(),
                self.capacity == old(self).capacity,
                self.closed == old(self).closed,
                self.hist == old(self).hist,
                h0 == old(inner).history(),
                q0 == old(self).queued(),
                blocks.len() + self.queued().len() == q0.len(),
                self.queued() == q0.skip(blocks.len() as int),
                inner.history() == h0 + blocks.flatten(),
                forall|i: int|
                    0 <= i < blocks.len() ==> is_record_block(
                        #[trigger] blocks[i],
                        q0[i].0,
                        q0[i].1,
                        max_retries,
                    ),
            decreases self.mailbox@.len(),
        {
            let ghost done = blocks.len() as int;
            let ghost qb = self.queued();
            let ghost mb_before = self.mailbox@;
            let event = self.mailbox.remove(0);
            proof {
                assert(self.mailbox@ =~= mb_before.skip(1));
                assert(qb[0] == (mb_before[0].timestamp, mb_before[0].message@));
                assert((event.timestamp, event.message@) == q0[done]);
                assert forall|k: int| 0 <= k < self.queued().len() implies self.queued()[k]
                    == q0.skip(done + 1)[k] by {
                    assert(self.queued()[k] == (self.mailbox@[k].timestamp,
                    self.mailbox@[k].message@));
                    assert(self.mailbox@[k] == mb_before[k + 1]);
                    assert(qb[k + 1] == (mb_before[k + 1].timestamp, mb_before[k + 1].message@));
                    assert(qb[k + 1] == q0[done + 1 + k]);
                }
                assert(self.queued() =~= q0.skip(done + 1));
            }
            let ghost h_before = inner.history();
            let _ = deliver_with_retry(inner, &event, max_retries);
            proof {
                let block = inner.history().skip(h_before.len() as int);
                assert(inner.history().take(h_before.len() as int) == h_before);
                assert(inner.history() =~= h_before + block);
                blocks.lemma_flatten_push(block);
                assert(h0 + blocks.push(block).flatten() =~= (h0 + blocks.flatten()) + block);
                blocks = blocks.push(block);
            }
        }
        proof {
            assert(self.queued() =~= q0.skip(q0.len() as int));
        }
    }
}

impl AsyncLogWriter for QueueWriter {
    open spec fn history(&self) -> Seq<WriteAttempt> {
        self.hist@
    }

    /// Non-blocking enqueue. While the mailbox is open the call always
    /// succeeds: the record is queued if there is room and silently dropped
    /// if the mailbox is full — the producer is never throttled by a slow
    /// consumer. Once the mailbox is closed every call fails.
    fn write_logs(&mut self, time: u64, buf: &[u8]) -> (r: Result<(), LogError>)
        ensures
            final(self).wf() == old(self).wf(),
            final(self).capacity == old(self).capacity,
            final(self).closed == old(self).closed,
            old(self).closed ==> r == Result::<(), LogError>::Err(LogError::QueueClosed)
                && final(self).queued() == old(self).queued(),
            !old(self).closed ==> r is Ok,
            !old(self).closed && old(self).queued().len() < old(self).capacity
                ==> final(self).queued() == old(self).queued().push((time, buf@)),
            !old(self).closed && old(self).queued().len() >= old(self).capacity
                ==> final(self).queued() == old(self).queued(),
    {
        if self.closed {
            self.hist = Ghost(old(self).hist@.push(WriteAttempt { time, payload: buf@, ok: false }));
            return Err(LogError::QueueClosed);
        }
        if self.mailbox.len() < self.capacity {
            let event = LogEvent { timestamp: time, message: slice_to_vec(buf) };
            self.mailbox.push(event);
            proof {
                assert(self.queued() =~= old(self).queued().push((time, buf@)));
            }
        }
        self.hist = Ghost(old(self).hist@.push(WriteAttempt { time, payload: buf@, ok: true }));
        Ok(())
    }
}

} // verus!
