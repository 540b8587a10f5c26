//! The fan-out stage: one (time, bytes) pair is broadcast to an ordered
//! list of inner sinks, stopping at the first sink that reports failure.

use vstd::prelude::*;

verus! {

use crate::writer::{AsyncLogWriter, WriteAttempt};
use crate::LogError;

/// Sink `w_new` is `w_old` with exactly one more recorded attempt, carrying
/// the broadcast pair and the given outcome.
pub open spec fn attempted<T: AsyncLogWriter>(
    w_new: T,
    w_old: T,
    time: u64,
    payload: Seq<u8>,
    ok: bool,
) -> bool {
    w_new.history() == w_old.history().push((WriteAttempt { time, payload, ok }))
}

/// A sink-shaped stage owning an ordered registry of inner sinks; a write
/// is delivered to each of them in registration order.
pub struct MultiWriter<T: AsyncLogWriter> {
    pub writers: Vec<T>,
    pub hist: Ghost<Seq<WriteAttempt>>,
}

impl<T: AsyncLogWriter> MultiWriter<T> {
    pub fn new(writers: Vec<T>) -> (r: MultiWriter<T>)
        ensures
            r.writers == writers,
            r.history().len() == 0,
    {
        MultiWriter { writers, hist: Ghost(Seq::empty()) }
    }
}

impl<T: AsyncLogWriter> AsyncLogWriter for MultiWriter<T> {
    open spec fn history(&self) -> Seq<WriteAttempt> {
        self.hist@
    }

    /// Deliver the identical pair to every registered sink in registration
    /// order. On success every sink has recorded one accepted attempt; on
    /// failure the sinks before the failing one have recorded one accepted
    /// attempt each, the failing sink one rejected attempt, and the sinks
    /// after it have not been invoked at all; the first error is returned.
    fn write_logs(&mut self, time: u64, buf: &[u8]) -> (r: Result<(), LogError>)
        ensures
            final(self).writers@.len() == old(self).writers@.len(),
            match r {
                Ok(_) => forall|i: int|
                    0 <= i < old(self).writers@.len() ==> attempted(
                        #[trigger] final(self).writers@[i],
                        old(self).writers@[i],
                        time,
                        buf@,
                        true,
                    ),
                Err(_) => exists|f: int|
                    {
                        &&& 0 <= f < old(self).writers@.len()
                        &&& forall|i: int|
                            0 <= i < f ==> attempted(
                                #[trigger] final(self).writers@[i],
                                old(self).writers@[i],
                                time,
                                buf@,
                                true,
                            )
                        &&& attempted(
                            final(self).writers@[f],
                            old(self).writers@[f],
                            time,
                            buf@,
                            false,
                        )
                        &&& forall|i: int|
                            f < i < old(self).writers@.len() ==> (#[trigger] final(self).writers@[i])
                                == old(self).writers@[i]
                    },
            },
    {
        let ghost n = old(self).writers@.len();
        let mut rest: Vec<T> = Vec::new();
        rest.append(&mut self.writers);
        let mut done: Vec<T> = Vec::new();
        while rest.len() > 0
            invariant
                done@.len() + rest@.len() == n,
                n == old(self).writers@.len(),
                forall|k: int|
                    0 <= k < done@.len() ==> attempted(
                        #[trigger] done@[k],
                        old(self).writers@[k],
                        time,
                        buf@,
                        true,
                    ),
                forall|k: int|
                    0 <= k < rest@.len() ==> (#[trigger] rest@[k]) == old(self).writers@[done@.len()
                        + k],
            decreases rest@.len(),
        {
            let ghost f = done@.len() as int;
            let mut w = rest.remove(0);
            let res = w.write_logs(time, buf);
            match res {
                Ok(_) => {
                    done.push(w);
                }
                Err(e) => {
                    done.push(w);
                    done.append(&mut rest);
                    self.writers = done;
                    self.hist = Ghost(old(self).hist@.push(
                        WriteAttempt { time, payload: buf@, ok: false },
                    ));
                    proof {
                        assert(0 <= f < n);
                        assert(forall|i: int|
                            0 <= i < f ==> attempted(
                                #[trigger] self.writers@[i],
                                old(self).writers@[i],
                                time,
                                buf@,
                                true,
                            ));
                        assert(attempted(
                            self.writers@[f],
                            old(self).writers@[f],
                            time,
                            buf@,
                            false,
                        ));
                        assert(forall|i: int|
                            f < i < n ==> (#[trigger] self.writers@[i]) == old(self).writers@[i]);
                    }
                    return Err(e);
                }
            }
        }
        self.writers = done;
        self.hist = Ghost(old(self).hist@.push(WriteAttempt { time, payload: buf@, ok: true }));
        Ok(())
    }
}

} // verus!
