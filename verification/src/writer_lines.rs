//! The line-reassembly stage: arbitrary byte chunks are carved into
//! newline-delimited records bounded by a maximum size, and each complete
//! record is forwarded to an inner sink. Bytes after the last complete
//! record stay pending until a later chunk completes them.

use vstd::prelude::*;

verus! {

use crate::writer::{ok_attempts, AsyncLogWriter, WriteAttempt};
use crate::LogError;
use vstd::slice::{slice_subrange, slice_to_vec};

/// Index of the first newline in `s`, or `s.len()` if there is none.
pub open spec fn first_nl(s: Seq<u8>) -> int
    decreases s.len(),
{
    if s.len() == 0 {
        0
    } else if s[0] == 10u8 {
        0
    } else {
        1 + first_nl(s.skip(1))
    }
}

pub proof fn lemma_first_nl(s: Seq<u8>)
    ensures
        0 <= first_nl(s) <= s.len(),
        forall|k: int| 0 <= k < first_nl(s) ==> s[k] != 10u8,
        first_nl(s) < s.len() ==> s[first_nl(s)] == 10u8,
    decreases s.len(),
{
    if s.len() == 0 {
    } else if s[0] == 10u8 {
    } else {
        lemma_first_nl(s.skip(1));
        assert(forall|k: int| 1 <= k < first_nl(s) ==> s[k] == s.skip(1)[k - 1]);
    }
}

/// `first_nl` is pinned down by the two facts an index scan establishes.
pub proof fn lemma_first_nl_unique(s: Seq<u8>, j: int)
    requires
        0 <= j <= s.len(),
        forall|k: int| 0 <= k < j ==> s[k] != 10u8,
        j < s.len() ==> s[j] == 10u8,
    ensures
        first_nl(s) == j,
    decreases s.len(),
{
    if s.len() == 0 {
    } else if s[0] == 10u8 {
        assert(j == 0);
    } else {
        assert(j >= 1);
        assert(forall|k: int| 0 <= k < j - 1 ==> s.skip(1)[k] == s[k + 1]);
        if j - 1 < s.skip(1).len() {
            assert(s.skip(1)[j - 1] == s[j]);
        }
        lemma_first_nl_unique(s.skip(1), j - 1);
    }
}

/// The records carved out of the byte stream `s` with forced-flush
/// threshold `max`, and the bytes left pending. A record ends just after
/// the first newline, or at `max` bytes, whichever comes first; what
/// follows the last complete record stays pending once it both fits within
/// `max` and holds no newline.
pub open spec fn split_all(s: Seq<u8>, max: nat) -> (Seq<Seq<u8>>, Seq<u8>)
    decreases s.len(),
    via split_all_decreases
{
    if max == 0 {
        (Seq::empty(), s)
    } else {
        let nl = first_nl(s);
        if nl < s.len() {
            let n = if nl + 1 <= max { nl + 1 } else { max as int };
            let rest = split_all(s.skip(n), max);
            (seq![s.take(n)].add(rest.0), rest.1)
        } else if s.len() <= max {
            (Seq::empty(), s)
        } else {
            let rest = split_all(s.skip(max as int), max);
            (seq![s.take(max as int)].add(rest.0), rest.1)
        }
    }
}

#[via_fn]
proof fn split_all_decreases(s: Seq<u8>, max: nat) {
    lemma_first_nl(s);
}

/// Reassembly loses nothing: the records carved out of `s`, concatenated
/// in emission order and followed by the pending bytes, are `s` itself.
pub proof fn lemma_split_all_concat(s: Seq<u8>, max: nat)
    requires
        max >= 1,
    ensures
        split_all(s, max).0.flatten().add(split_all(s, max).1) == s,
    decreases s.len(),
{
    lemma_first_nl(s);
    let nl = first_nl(s);
    if nl < s.len() || s.len() > max {
        let n = if nl < s.len() {
            if nl + 1 <= max {
                nl + 1
            } else {
                max as int
            }
        } else {
            max as int
        };
        assert(1 <= n <= s.len());
        lemma_split_all_concat(s.skip(n), max);
        let rest = split_all(s.skip(n), max);
        let c = seq![s.take(n)].add(rest.0);
        assert(c.drop_first() =~= rest.0);
        assert(c.flatten() == s.take(n).add(rest.0.flatten()));
        assert(split_all(s, max).0 == c);
        assert(c.flatten().add(rest.1) =~= s.take(n).add(rest.0.flatten().add(rest.1)));
        assert(s.take(n).add(s.skip(n)) =~= s);
    } else {
        assert(split_all(s, max).0.flatten() == Seq::<u8>::empty());
        assert(Seq::<u8>::empty().add(s) =~= s);
    }
}

/// Every record is between one and `max` bytes; a record that does not end
/// in a newline is a forced flush of exactly `max` bytes; and the pending
/// bytes fit within `max` and hold no newline.
pub proof fn lemma_split_all_records(s: Seq<u8>, max: nat)
    requires
        max >= 1,
    ensures
        forall|i: int|
            0 <= i < split_all(s, max).0.len() ==> {
                let r = #[trigger] split_all(s, max).0[i];
                1 <= r.len() <= max && (r[r.len() - 1] != 10u8 ==> r.len() == max)
            },
        split_all(s, max).1.len() <= max,
        forall|k: int| 0 <= k < split_all(s, max).1.len() ==> split_all(s, max).1[k] != 10u8,
    decreases s.len(),
{
    lemma_first_nl(s);
    let nl = first_nl(s);
    if nl < s.len() || s.len() > max {
        let n = if nl < s.len() {
            if nl + 1 <= max {
                nl + 1
            } else {
                max as int
            }
        } else {
            max as int
        };
        assert(1 <= n <= s.len());
        lemma_split_all_records(s.skip(n), max);
        let head = s.take(n);
        assert(head.len() == n);
        if head[head.len() - 1] != 10u8 {
            // a record that is not newline-terminated was cut at the cap:
            // the newline, if any, lies at or beyond the cut point
            assert(head[n - 1] == s[n - 1]);
            if nl < s.len() && nl + 1 <= max {
                assert(s[n - 1] == s[nl]);
                assert(false);
            }
        }
        let rest = split_all(s.skip(n), max);
        let c = seq![head].add(rest.0);
        assert(split_all(s, max).0 == c);
        assert(forall|i: int| 1 <= i < c.len() ==> c[i] == rest.0[i - 1]);
    } else {
        assert(split_all(s, max).1 == s);
        assert(forall|k: int| 0 <= k < s.len() ==> s[k] != 10u8);
    }
}

/// The records emitted and the bytes pending after feeding `chunks` one at
/// a time through a reassembler that starts with an empty pending buffer.
pub open spec fn feed(chunks: Seq<Seq<u8>>, max: nat) -> (Seq<Seq<u8>>, Seq<u8>)
    decreases chunks.len(),
{
    if chunks.len() == 0 {
        (Seq::empty(), Seq::empty())
    } else {
        let prev = feed(chunks.drop_last(), max);
        let step = split_all(prev.1.add(chunks.last()), max);
        (prev.0.add(step.0), step.1)
    }
}

/// One more chunk extends the model exactly the way one more `write_logs`
/// call extends a `LinesWriter`: the pending bytes so far are carved
/// together with the new chunk, and the new records are appended.
pub proof fn lemma_feed_step(chunks: Seq<Seq<u8>>, chunk: Seq<u8>, max: nat)
    ensures
        feed(chunks.push(chunk), max).0 == feed(chunks, max).0 + split_all(
            feed(chunks, max).1 + chunk,
            max,
        ).0,
        feed(chunks.push(chunk), max).1 == split_all(feed(chunks, max).1 + chunk, max).1,
{
    assert(chunks.push(chunk).drop_last() =~= chunks);
    assert(chunks.push(chunk).last() == chunk);
}

/// Reassembly correctness: however the input stream is cut into chunks,
/// the emitted records concatenated in emission order, followed by the
/// still-pending bytes, reproduce the input stream exactly.
pub proof fn lemma_reassembly_correct(chunks: Seq<Seq<u8>>, max: nat)
    requires
        max >= 1,
    ensures
        feed(chunks, max).0.flatten().add(feed(chunks, max).1) == chunks.flatten(),
        feed(chunks, max).1.len() == 0 ==> feed(chunks, max).0.flatten() == chunks.flatten(),
    decreases chunks.len(),
{
    if feed(chunks, max).1.len() == 0 {
        assert(feed(chunks, max).0.flatten().add(feed(chunks, max).1) =~= feed(
            chunks,
            max,
        ).0.flatten());
    }
    if chunks.len() == 0 {
        assert(feed(chunks, max).0.flatten().add(feed(chunks, max).1) =~= Seq::<u8>::empty());
        assert(chunks.flatten() == Seq::<u8>::empty());
    } else {
        let prev = feed(chunks.drop_last(), max);
        let step = split_all(prev.1.add(chunks.last()), max);
        lemma_reassembly_correct(chunks.drop_last(), max);
        lemma_split_all_concat(prev.1.add(chunks.last()), max);
        vstd::seq_lib::lemma_flatten_concat(prev.0, step.0);
        assert(prev.0.add(step.0).flatten().add(step.1) =~= prev.0.flatten().add(
            step.0.flatten().add(step.1),
        ));
        assert(prev.0.flatten().add(prev.1.add(chunks.last())) =~= prev.0.flatten().add(
            prev.1,
        ).add(chunks.last()));
        chunks.lemma_flatten_and_flatten_alt_are_equivalent();
        chunks.drop_last().lemma_flatten_and_flatten_alt_are_equivalent();
        assert(chunks.flatten_alt() == chunks.drop_last().flatten_alt().add(chunks.last()));
    }
}

/// Forced-flush boundary: every record ever emitted is at most `max` bytes,
/// and one that does not end in a newline has exactly `max` bytes.
pub proof fn lemma_forced_flush_boundary(chunks: Seq<Seq<u8>>, max: nat)
    requires
        max >= 1,
    ensures
        forall|i: int|
            0 <= i < feed(chunks, max).0.len() ==> {
                let r = #[trigger] feed(chunks, max).0[i];
                1 <= r.len() <= max && (r[r.len() - 1] != 10u8 ==> r.len() == max)
            },
        feed(chunks, max).1.len() <= max,
    decreases chunks.len(),
{
    if chunks.len() == 0 {
    } else {
        let prev = feed(chunks.drop_last(), max);
        let step = split_all(prev.1.add(chunks.last()), max);
        lemma_forced_flush_boundary(chunks.drop_last(), max);
        lemma_split_all_records(prev.1.add(chunks.last()), max);
        assert(forall|i: int|
            0 <= i < prev.0.len() ==> prev.0.add(step.0)[i] == prev.0[i]);
        assert(forall|i: int|
            prev.0.len() <= i < prev.0.len() + step.0.len() ==> prev.0.add(step.0)[i]
                == step.0[i - prev.0.len()]);
    }
}

/// Scan `s` for the first newline at or after `from`.
fn find_nl(s: &Vec<u8>, from: usize) -> (r: usize)
    requires
        from <= s@.len(),
    ensures
        from <= r <= s@.len(),
        r - from == first_nl(s@.skip(from as int)),
        r < s@.len() ==> s@[r as int] == 10u8,
        forall|k: int| from <= k < r ==> s@[k] != 10u8,
{
    let mut j = from;
    while j < s.len() && s[j] != 10u8
        invariant
            from <= j <= s@.len(),
            forall|k: int| from <= k < j ==> s@[k] != 10u8,
        decreases s@.len() - j,
    {
        j = j + 1;
    }
    proof {
        let rem = s@.skip(from as int);
        assert(forall|k: int| 0 <= k < j - from ==> rem[k] == s@[k + from]);
        if j < s@.len() {
            assert(rem[j - from] == s@[j as int]);
        }
        lemma_first_nl_unique(rem, j - from);
    }
    j
}

/// Copy `s[from..to]` into a fresh vector.
fn subvec(s: &Vec<u8>, from: usize, to: usize) -> (r: Vec<u8>)
    requires
        from <= to <= s@.len(),
    ensures
        r@ == s@.subrange(from as int, to as int),
{
    slice_to_vec(slice_subrange(s.as_slice(), from, to))
}

/// Carve the bytes pending in `buf` followed by `chunk` into complete
/// records, returned in emission order; the bytes after the last record are
/// left pending in `buf`.
pub fn split_chunk(buf: &mut Vec<u8>, chunk: &[u8], max_line_size: usize) -> (out: Vec<Vec<u8>>)
    requires
        max_line_size >= 1,
    ensures
        out@.map_values(|v: Vec<u8>| v@) == split_all(
            old(buf)@ + chunk@,
            max_line_size as nat,
        ).0,
        final(buf)@ == split_all(old(buf)@ + chunk@, max_line_size as nat).1,
{
    let ghost orig: Seq<u8> = old(buf)@ + chunk@;
    let ghost m: nat = max_line_size as nat;
    let mut s: Vec<u8> = Vec::new();
    s.append(buf);
    s.extend_from_slice(chunk);
    assert(s@ == orig);
    let mut out: Vec<Vec<u8>> = Vec::new();
    let mut i: usize = 0;
    proof {
        assert(orig.skip(0) =~= orig);
        assert(out@.map_values(|v: Vec<u8>| v@) =~= Seq::<Seq<u8>>::empty());
    }
    loop
        invariant
            i <= s@.len(),
            s@ == orig,
            orig == old(buf)@ + chunk@,
            1 <= max_line_size,
            m == max_line_size as nat,
            split_all(orig, m).0 == out@.map_values(|v: Vec<u8>| v@).add(
                split_all(orig.skip(i as int), m).0,
            ),
            split_all(orig, m).1 == split_all(orig.skip(i as int), m).1,
        decreases s@.len() - i,
    {
        let ghost rem = orig.skip(i as int);
        let j = find_nl(&s, i);
        proof {
            lemma_first_nl(rem);
            assert(first_nl(rem) == j - i);
            assert(rem.len() == orig.len() - i);
        }
        if j == s.len() && s.len() - i <= max_line_size {
            let pending = subvec(&s, i, s.len());
            *buf = pending;
            proof {
                assert(first_nl(rem) == rem.len());
                assert(split_all(rem, m).0 =~= Seq::<Seq<u8>>::empty());
                assert(split_all(rem, m).1 == rem);
                assert(out@.map_values(|v: Vec<u8>| v@).add(Seq::<Seq<u8>>::empty())
                    =~= out@.map_values(|v: Vec<u8>| v@));
                assert(orig.subrange(i as int, orig.len() as int) =~= rem);
            }
            return out;
        }
        let n: usize = if j < s.len() && j - i < max_line_size {
            j + 1 - i
        } else {
            max_line_size
        };
        proof {
            assert(i + n <= s@.len());
        }
        let rec = subvec(&s, i, i + n);
        let ghost out_before = out@.map_values(|v: Vec<u8>| v@);
        out.push(rec);
        proof {
            let nl = first_nl(rem);
            let tail = split_all(rem.skip(n as int), m);
            assert(split_all(rem, m).0 == seq![rem.take(n as int)].add(tail.0));
            assert(split_all(rem, m).1 == tail.1);
            assert(rem.take(n as int) =~= orig.subrange(i as int, i + n));
            assert(rem.skip(n as int) =~= orig.skip(i + n));
            assert(rec@ == rem.take(n as int));
            assert(out@.map_values(|v: Vec<u8>| v@) =~= out_before.push(rec@));
            assert(out_before.add(seq![rec@].add(tail.0)) =~= out_before.push(rec@).add(
                tail.0,
            ));
        }
        i = i + n;
    }
}

/// A sink-shaped stage that turns arbitrary byte chunks into
/// newline-delimited records bounded by `max_line_size`, forwarding each
/// complete record to the inner sink.
pub struct LinesWriter<T: AsyncLogWriter> {
    pub inner: T,
    pub buf: Vec<u8>,
    pub max_line_size: usize,
    pub hist: Ghost<Seq<WriteAttempt>>,
}

impl<T: AsyncLogWriter> LinesWriter<T> {
    /// The pending bytes always hold no newline and fit under the cap.
    pub open spec fn wf(&self) -> bool {
        &&& self.max_line_size >= 1
        &&& self.buf@.len() <= self.max_line_size
        &&& forall|k: int| 0 <= k < self.buf@.len() ==> self.buf@[k] != 10u8
    }

    pub fn new(inner: T, max_line_size: usize) -> (r: Self)
        requires
            max_line_size >= 1,
        ensures
            r.wf(),
            r.inner == inner,
            r.buf@.len() == 0,
            r.max_line_size == max_line_size,
            r.history().len() == 0,
    {
        LinesWriter { inner, buf: Vec::new(), max_line_size, hist: Ghost(Seq::empty()) }
    }
}

impl<T: AsyncLogWriter> AsyncLogWriter for LinesWriter<T> {
    open spec fn history(&self) -> Seq<WriteAttempt> {
        self.hist@
    }

    /// Forward the records carved out of the pending bytes followed by
    /// `buf` to the inner sink, in emission order, stopping at the first
    /// failure, which is propagated; records carved but not yet forwarded
    /// when a failure hits are discarded. Nothing is emitted on a call that
    /// fills but does not complete a record.
    fn write_logs(&mut self, time: u64, buf: &[u8]) -> (r: Result<(), LogError>)
        ensures
            old(self).wf() ==> final(self).wf(),
            final(self).max_line_size == old(self).max_line_size,
            final(self).buf@ == split_all(
                old(self).buf@ + buf@,
                old(self).max_line_size as nat,
            ).1,
            ({
                let records = split_all(old(self).buf@ + buf@, old(self).max_line_size as nat).0;
                let h0 = old(self).inner.history();
                match r {
                    Ok(_) => final(self).inner.history() == h0 + ok_attempts(records, time),
                    Err(_) => exists|k: int|
                        0 <= k < records.len() && final(self).inner.history() == h0
                            + ok_attempts(records.take(k), time).push(
                            (WriteAttempt { time, payload: records[k], ok: false }),
                        ),
                }
            }),
    {
        let ghost s0 = old(self).buf@ + buf@;
        let ghost m = self.max_line_size as nat;
        if self.max_line_size == 0 {
            // a zero cap can complete no record: the chunk is only absorbed
            self.buf.extend_from_slice(buf);
            self.hist = Ghost(old(self).hist@.push(WriteAttempt { time, payload: buf@, ok: true }));
            proof {
                assert(split_all(s0, 0).1 == s0);
                assert(split_all(s0, 0).0 =~= Seq::<Seq<u8>>::empty());
                assert(ok_attempts(split_all(s0, 0).0, time) =~= Seq::<WriteAttempt>::empty());
                assert(old(self).inner.history() + ok_attempts(split_all(s0, 0).0, time)
                    =~= old(self).inner.history());
                assert(self.buf@ =~= s0);
            }
            return Ok(());
        }
        let records = split_chunk(&mut self.buf, buf, self.max_line_size);
        proof {
            lemma_split_all_records(s0, m);
        }
        let ghost recs = split_all(s0, m).0;
        let ghost h0 = self.inner.history();
        let mut idx: usize = 0;
        proof {
            assert(ok_attempts(recs.take(0), time) =~= Seq::<WriteAttempt>::empty());
            assert(h0 + ok_attempts(recs.take(0), time) =~= h0);
        }
        while idx < records.len()
            invariant
                idx <= records@.len(),
                records@.map_values(|v: Vec<u8>| v@) == recs,
                recs == split_all(s0, m).0,
                s0 == old(self).buf@ + buf@,
                m == old(self).max_line_size as nat,
                self.max_line_size == old(self).max_line_size,
                self.buf@ == split_all(s0, m).1,
                old(self).wf() ==> self.wf(),
                h0 == old(self).inner.history(),
                self.inner.history() == h0 + ok_attempts(recs.take(idx as int), time),
            decreases records@.len() - idx,
        {
            let rec: &Vec<u8> = &records[idx];
            let ghost h_before = self.inner.history();
            let res = self.inner.write_logs(time, rec.as_slice());
            match res {
                Ok(_) => {
                    proof {
                        assert(recs.take(idx + 1) =~= recs.take(idx as int).push(
                            recs[idx as int],
                        ));
                        assert(ok_attempts(recs.take(idx + 1), time) =~= ok_attempts(
                            recs.take(idx as int),
                            time,
                        ).push((WriteAttempt { time, payload: recs[idx as int], ok: true })));
                        assert(h_before.push(
                            (WriteAttempt { time, payload: recs[idx as int], ok: true }),
                        ) =~= h0 + ok_attempts(recs.take(idx + 1), time));
                    }
                    idx = idx + 1;
                }
                Err(e) => {
                    proof {
                        let att = WriteAttempt { time, payload: recs[idx as int], ok: false };
                        assert(h_before.push(att) =~= h0 + ok_attempts(
                            recs.take(idx as int),
                            time,
                        ).push(att));
                        assert(0 <= idx < recs.len() && self.inner.history() == h0
                            + ok_attempts(recs.take(idx as int), time).push(
                            (WriteAttempt { time, payload: recs[idx as int], ok: false }),
                        ));
                    }
                    self.hist = Ghost(old(self).hist@.push(
                        WriteAttempt { time, payload: buf@, ok: false },
                    ));
                    return Err(e);
                }
            }
        }
        proof {
            assert(recs.take(recs.len() as int) =~= recs);
        }
        self.hist = Ghost(old(self).hist@.push(WriteAttempt { time, payload: buf@, ok: true }));
        Ok(())
    }
}

} // verus!
